//! The errors of the library.

use vstd::prelude::*;

verus! {

/// Why an operation failed.
#[derive(Debug, Clone, PartialEq, Eq)]
pub enum DRError {
    /// The entity exists but lacks the named component.
    ComponentMissing(String),
    /// The entity does not exist, or a required one (such as the player) was
    /// not found.
    MissingEntity(String),
    /// The player is gone: the game is over.
    GameOver,
}

/// An error, with its message read as characters.
pub enum ErrorView {
    ComponentMissing(Seq<char>),
    MissingEntity(Seq<char>),
    GameOver,
}

impl View for DRError {
    type V = ErrorView;

    open spec fn view(&self) -> ErrorView {
        match self {
            DRError::ComponentMissing(s) => ErrorView::ComponentMissing(s@),
            DRError::MissingEntity(s) => ErrorView::MissingEntity(s@),
            DRError::GameOver => ErrorView::GameOver,
        }
    }
}

/// A result of this library.
pub type DRResult<T> = Result<T, DRError>;

/// The error for a missing `component`.
pub fn component_missing(component: &str) -> (r: DRError)
    ensures
        r@ == ErrorView::ComponentMissing(component@),
{
    DRError::ComponentMissing(component.to_owned())
}

/// The error for a missing entity, described by `what`.
pub fn missing_entity(what: &str) -> (r: DRError)
    ensures
        r@ == ErrorView::MissingEntity(what@),
{
    DRError::MissingEntity(what.to_owned())
}

impl DRError {
    /// Whether this error ends the game.
    pub fn is_game_over(&self) -> (r: bool)
        ensures
            r == (self@ is GameOver),
    {
        match self {
            DRError::GameOver => true,
            _ => false,
        }
    }
}

} // verus!
