//! The event bus: handlers subscribed per kind of event in priority order,
//! immediate publication, and a queue that is flushed once per tick.

use vstd::prelude::*;
use hecs::{Entity, World};
use crate::error::{DRError, ErrorView, component_missing, missing_entity};
use crate::stats::Health;
use crate::world::{WorldModel, model, health_of, set_health, despawn_entity};

verus! {

/// `damage` points of damage dealt by `from` to `to`.
#[derive(Debug, Clone, Copy)]
pub struct Damage {
    pub from: Entity,
    pub to: Entity,
    pub damage: i32,
}

/// An entity whose health ran out.
#[derive(Debug, Clone, Copy)]
pub struct DeadEntity {
    pub entity: Entity,
}

/// Every event that travels on the bus.
#[derive(Debug, Clone, Copy)]
pub enum Event {
    Damage(Damage),
    DeadEntity(DeadEntity),
}

/// The kinds of event, one bus each.
#[derive(Debug, Clone, Copy, PartialEq, Eq, Structural)]
pub enum EventKind {
    Damage,
    DeadEntity,
}

/// The kind of an event.
pub open spec fn kind_of(e: Event) -> EventKind {
    match e {
        Event::Damage(_) => EventKind::Damage,
        Event::DeadEntity(_) => EventKind::DeadEntity,
    }
}

/// What a subscriber does with the events it receives.
#[derive(Debug, Clone, Copy, PartialEq, Eq, Structural)]
pub enum Handler {
    /// Takes a `Damage` event's amount off its target's health.
    ApplyDamage,
    /// Despawns the entity of a `DeadEntity` event.
    CollectDead,
}

/// A handler with its priority: lower priorities run first.
#[derive(Debug, Clone, Copy, PartialEq, Eq, Structural)]
pub struct Subscription {
    pub handler: Handler,
    pub priority: u32,
}

/// `v` clamped to the range of `i32`.
pub open spec fn clamp_i32(v: int) -> int {
    if v < i32::MIN { i32::MIN as int } else if v > i32::MAX { i32::MAX as int } else { v }
}

/// `h` after `amount` points of damage, saturating at the bounds of `i32`.
pub open spec fn damaged(h: Health, amount: i32) -> Health {
    Health { current_health: clamp_i32(h.current_health - amount) as i32, ..h }
}

/// What running handler `h` on event `ev` does to the world model, and the
/// error it reports, if any. A handler ignores events of other kinds.
pub open spec fn handle(h: Handler, ev: Event, m: WorldModel) -> (WorldModel, Option<ErrorView>) {
    match (h, ev) {
        (Handler::ApplyDamage, Event::Damage(d)) => if m.healths.contains_key(d.to) {
            (m.with_health(d.to, damaged(m.healths[d.to], d.damage)), None)
        } else {
            (m, Some(ErrorView::ComponentMissing("Health"@)))
        },
        (Handler::CollectDead, Event::DeadEntity(de)) => if m.live.contains(de.entity) {
            (m.without(de.entity), None)
        } else {
            (m, Some(ErrorView::MissingEntity("dead entity"@)))
        },
        _ => (m, None),
    }
}

/// The sequence holding the error, if there is one.
pub open spec fn opt_seq(o: Option<ErrorView>) -> Seq<ErrorView> {
    match o {
        Some(e) => seq![e],
        None => seq![],
    }
}

/// Runs every subscriber of `subs` on `ev`, in order: the final model and the
/// errors reported, in the order they came.
pub open spec fn run_all(subs: Seq<Subscription>, ev: Event, m: WorldModel) -> (WorldModel, Seq<ErrorView>)
    decreases subs.len(),
{
    if subs.len() == 0 {
        (m, seq![])
    } else {
        let (m1, errs) = run_all(subs.drop_last(), ev, m);
        let (m2, err) = handle(subs.last().handler, ev, m1);
        (m2, errs + opt_seq(err))
    }
}

/// The views of a sequence of errors.
pub open spec fn error_views(s: Seq<DRError>) -> Seq<ErrorView> {
    s.map_values(|e: DRError| e@)
}

/// Where a subscription of priority `p` goes in `s`: after the last one whose
/// priority is at most `p`.
pub open spec fn insertion_index(s: Seq<Subscription>, p: u32) -> int
    decreases s.len(),
{
    if s.len() == 0 {
        0
    } else if s.last().priority <= p {
        s.len() as int
    } else {
        insertion_index(s.drop_last(), p)
    }
}

/// Whether the subscriptions run in nondecreasing priority.
pub open spec fn priority_sorted(s: Seq<Subscription>) -> bool {
    forall|i: int, j: int| 0 <= i <= j < s.len() ==> s[i].priority <= s[j].priority
}

/// Subscribing keeps the handlers in priority order, and places the new one
/// after every handler of lower or equal priority and before every handler of
/// higher priority: equal priorities run in order of subscription.
pub proof fn lemma_subscribe_order(s: Seq<Subscription>, sub: Subscription)
    requires
        priority_sorted(s),
    ensures
        ({
            let k = insertion_index(s, sub.priority);
            &&& 0 <= k <= s.len()
            &&& forall|i: int| 0 <= i < k ==> #[trigger] s[i].priority <= sub.priority
            &&& forall|i: int| k <= i < s.len() ==> #[trigger] s[i].priority > sub.priority
            &&& priority_sorted(s.insert(k, sub))
        }),
    decreases s.len(),
{
    let k = insertion_index(s, sub.priority);
    if s.len() == 0 {
    } else if s.last().priority <= sub.priority {
        assert forall|i: int| 0 <= i < k implies #[trigger] s[i].priority <= sub.priority by {
            assert(s[i].priority <= s[s.len() - 1].priority);
        }
    } else {
        let t = s.drop_last();
        assert(priority_sorted(t));
        lemma_subscribe_order(t, sub);
        assert forall|i: int| 0 <= i < k implies #[trigger] s[i].priority <= sub.priority by {
            assert(t[i] == s[i]);
        }
        assert forall|i: int| k <= i < s.len() implies #[trigger] s[i].priority > sub.priority by {
            if i < s.len() - 1 {
                assert(t[i] == s[i]);
            }
        }
    }
    let r = s.insert(k, sub);
    assert forall|i: int, j: int| 0 <= i <= j < r.len() implies r[i].priority <= r[j].priority by {
        if i < k {
            assert(r[i] == s[i]);
        }
        if i > k {
            assert(r[i] == s[i - 1]);
        }
        if j < k {
            assert(r[j] == s[j]);
        }
        if j > k {
            assert(r[j] == s[j - 1]);
        }
        if i < k && j > k {
            assert(s[i].priority <= s[j - 1].priority);
        }
        if i > k {
            assert(s[i - 1].priority <= s[j - 1].priority);
        }
    }
}

/// Publishing to a bus without handlers changes nothing and reports nothing.
pub proof fn lemma_publish_without_subscribers(ev: Event, m: WorldModel)
    ensures
        run_all(Seq::<Subscription>::empty(), ev, m) == (m, Seq::<ErrorView>::empty()),
{
}

/// Runs one handler on one event.
fn run_handler(h: Handler, ev: &Event, world: &mut World) -> (r: Option<DRError>)
    ensures
        (model(*final(world)), match r {
            Some(e) => Some(e@),
            None => None,
        }) == handle(h, *ev, model(*old(world))),
{
    match (h, ev) {
        (Handler::ApplyDamage, Event::Damage(d)) => match health_of(world, d.to) {
            Some(health) => {
                let v: i64 = health.current_health as i64 - d.damage as i64;
                let current: i32 = if v < i32::MIN as i64 {
                    i32::MIN
                } else if v > i32::MAX as i64 {
                    i32::MAX
                } else {
                    v as i32
                };
                let after = Health { total_health: health.total_health, current_health: current };
                set_health(world, d.to, after);
                None
            },
            None => Some(component_missing("Health")),
        },
        (Handler::CollectDead, Event::DeadEntity(de)) => {
            if despawn_entity(world, de.entity) {
                None
            } else {
                Some(missing_entity("dead entity"))
            }
        },
        _ => None,
    }
}

/// The handlers of one kind of event, in the order they run.
pub struct EventBus {
    subscribers: Vec<Subscription>,
}

impl View for EventBus {
    type V = Seq<Subscription>;

    closed spec fn view(&self) -> Seq<Subscription> {
        self.subscribers@
    }
}

impl EventBus {
    /// Well-formed: the handlers are held in the order they run.
    pub open spec fn wf(&self) -> bool {
        priority_sorted(self@)
    }

    pub fn new() -> (r: EventBus)
        ensures
            r@ == Seq::<Subscription>::empty(),
            r.wf(),
    {
        EventBus { subscribers: Vec::new() }
    }

    /// Adds a handler. Handlers run in priority order, lowest first, and in
    /// order of subscription among equal priorities.
    pub fn subscribe(&mut self, sub: Subscription)
        requires
            old(self).wf(),
        ensures
            final(self)@ == old(self)@.insert(insertion_index(old(self)@, sub.priority), sub),
            final(self).wf(),
    {
        proof {
            lemma_subscribe_order(old(self)@, sub);
        }
        let mut i = self.subscribers.len();
        assert(old(self)@.take(i as int) =~= old(self)@);
        while i > 0 && self.subscribers[i - 1].priority > sub.priority
            invariant
                i <= self.subscribers.len(),
                self.subscribers@ == old(self)@,
                insertion_index(old(self)@, sub.priority) == insertion_index(
                    old(self)@.take(i as int),
                    sub.priority,
                ),
            decreases i,
        {
            assert(old(self)@.take(i as int).drop_last() =~= old(self)@.take(i - 1));
            i = i - 1;
        }
        proof {
            if i > 0 {
                assert(old(self)@.take(i as int).last() == old(self)@[i - 1]);
            }
        }
        self.subscribers.insert(i, sub);
    }

    /// The handlers, in the order they run.
    pub fn subscriptions(&self) -> (r: &Vec<Subscription>)
        ensures
            r@ == self@,
    {
        &self.subscribers
    }

    /// Runs every handler on `event` at once, in order, and returns the errors
    /// they reported. A failing handler does not stop the others.
    pub fn publish(&self, event: &Event, world: &mut World) -> (r: Vec<DRError>)
        ensures
            (model(*final(world)), error_views(r@)) == run_all(self@, *event, model(*old(world))),
    {
        let mut errors: Vec<DRError> = Vec::new();
        let mut i: usize = 0;
        while i < self.subscribers.len()
            invariant
                i <= self.subscribers.len(),
                (model(*world), error_views(errors@)) == run_all(
                    self@.take(i as int),
                    *event,
                    model(*old(world)),
                ),
            decreases self.subscribers.len() - i,
        {
            let ghost before = errors@;
            assert(self@.take(i + 1).drop_last() =~= self@.take(i as int));
            let err = run_handler(self.subscribers[i].handler, event, world);
            match err {
                Some(e) => {
                    errors.push(e);
                    assert(error_views(errors@) =~= error_views(before) + seq![e@]);
                },
                None => {
                    assert(error_views(errors@) =~= error_views(before) + Seq::<ErrorView>::empty());
                },
            }
            i = i + 1;
        }
        assert(self@.take(i as int) =~= self@);
        errors
    }
}

/// Delivers the queued events `q` in order, each to the handlers of its kind:
/// `dmg` for damage, `dead` for deaths. The final model and every error
/// reported, in the order they came.
pub open spec fn deliver_all(
    q: Seq<Event>,
    dmg: Seq<Subscription>,
    dead: Seq<Subscription>,
    m: WorldModel,
) -> (WorldModel, Seq<ErrorView>)
    decreases q.len(),
{
    if q.len() == 0 {
        (m, seq![])
    } else {
        let (m1, e1) = deliver_all(q.drop_last(), dmg, dead, m);
        let ev = q.last();
        let subs = match kind_of(ev) {
            EventKind::Damage => dmg,
            EventKind::DeadEntity => dead,
        };
        let (m2, e2) = run_all(subs, ev, m1);
        (m2, e1 + e2)
    }
}

/// The buses of all kinds of event and the queue of deferred events.
pub struct EventBusManager {
    damage_bus: EventBus,
    dead_bus: EventBus,
    queued_events: Vec<Event>,
}

impl EventBusManager {
    /// The handlers of events of kind `k`, in the order they run.
    pub closed spec fn subscribers(&self, k: EventKind) -> Seq<Subscription> {
        match k {
            EventKind::Damage => self.damage_bus@,
            EventKind::DeadEntity => self.dead_bus@,
        }
    }

    /// The events waiting for the next dispatch, oldest first.
    pub closed spec fn queue(&self) -> Seq<Event> {
        self.queued_events@
    }

    /// Well-formed: every bus holds its handlers in the order they run.
    pub closed spec fn wf(&self) -> bool {
        self.damage_bus.wf() && self.dead_bus.wf()
    }

    pub fn new() -> (r: EventBusManager)
        ensures
            r.wf(),
            r.subscribers(EventKind::Damage) == Seq::<Subscription>::empty(),
            r.subscribers(EventKind::DeadEntity) == Seq::<Subscription>::empty(),
            r.queue() == Seq::<Event>::empty(),
    {
        EventBusManager {
            damage_bus: EventBus::new(),
            dead_bus: EventBus::new(),
            queued_events: Vec::new(),
        }
    }

    /// Adds a handler for events of kind `kind`.
    pub fn subscribe(&mut self, kind: EventKind, sub: Subscription)
        requires
            old(self).wf(),
        ensures
            final(self).wf(),
            final(self).subscribers(kind) == old(self).subscribers(kind).insert(
                insertion_index(old(self).subscribers(kind), sub.priority),
                sub,
            ),
            forall|k: EventKind| k != kind ==> final(self).subscribers(k) == old(self).subscribers(k),
            final(self).queue() == old(self).queue(),
    {
        match kind {
            EventKind::Damage => self.damage_bus.subscribe(sub),
            EventKind::DeadEntity => self.dead_bus.subscribe(sub),
        }
    }

    /// Defers `event` to the next dispatch.
    pub fn enqueue(&mut self, event: Event)
        ensures
            final(self).wf() == old(self).wf(),
            final(self).queue() == old(self).queue().push(event),
            forall|k: EventKind| final(self).subscribers(k) == old(self).subscribers(k),
    {
        self.queued_events.push(event);
    }

    /// Delivers `event` at once to every handler of its kind, in order, and
    /// returns the errors they reported.
    pub fn publish(&self, event: &Event, world: &mut World) -> (r: Vec<DRError>)
        ensures
            (model(*final(world)), error_views(r@)) == run_all(
                self.subscribers(kind_of(*event)),
                *event,
                model(*old(world)),
            ),
    {
        match event {
            Event::Damage(_) => self.damage_bus.publish(event, world),
            Event::DeadEntity(_) => self.dead_bus.publish(event, world),
        }
    }

    /// Delivers every queued event, oldest first, each to the handlers of its
    /// kind, and empties the queue. Returns the errors the handlers reported.
    pub fn dispatch_all(&mut self, world: &mut World) -> (r: Vec<DRError>)
        ensures
            final(self).wf() == old(self).wf(),
            final(self).queue() == Seq::<Event>::empty(),
            forall|k: EventKind| final(self).subscribers(k) == old(self).subscribers(k),
            (model(*final(world)), error_views(r@)) == deliver_all(
                old(self).queue(),
                old(self).subscribers(EventKind::Damage),
                old(self).subscribers(EventKind::DeadEntity),
                model(*old(world)),
            ),
    {
        let mut errors: Vec<DRError> = Vec::new();
        let mut i: usize = 0;
        while i < self.queued_events.len()
            invariant
                i <= self.queued_events.len(),
                *self == *old(self),
                (model(*world), error_views(errors@)) == deliver_all(
                    old(self).queue().take(i as int),
                    old(self).subscribers(EventKind::Damage),
                    old(self).subscribers(EventKind::DeadEntity),
                    model(*old(world)),
                ),
            decreases self.queued_events.len() - i,
        {
            let ghost before = errors@;
            assert(old(self).queue().take(i + 1).drop_last() =~= old(self).queue().take(i as int));
            let event = self.queued_events[i];
            let mut more = self.publish(&event, world);
            let ghost added = more@;
            errors.append(&mut more);
            assert(error_views(errors@) =~= error_views(before) + error_views(added));
            i = i + 1;
        }
        assert(old(self).queue().take(i as int) =~= old(self).queue());
        self.queued_events.clear();
        errors
    }
}

/// A dispatch of a single queued event runs each handler of its kind exactly
/// once, in the bus's order (with no handler of that kind, see
/// `lemma_publish_without_subscribers`).
pub proof fn lemma_dispatch_single(
    ev: Event,
    dmg: Seq<Subscription>,
    dead: Seq<Subscription>,
    m: WorldModel,
)
    ensures
        deliver_all(seq![ev], dmg, dead, m) == run_all(
            match kind_of(ev) {
                EventKind::Damage => dmg,
                EventKind::DeadEntity => dead,
            },
            ev,
            m,
        ),
{
    let q = seq![ev];
    assert(q.drop_last() =~= Seq::<Event>::empty());
    assert(deliver_all(q.drop_last(), dmg, dead, m) == (m, Seq::<ErrorView>::empty()));
    assert(q.last() == ev);
    let subs = match kind_of(ev) {
        EventKind::Damage => dmg,
        EventKind::DeadEntity => dead,
    };
    let (m2, e2) = run_all(subs, ev, m);
    assert(Seq::<ErrorView>::empty() + e2 =~= e2);
}

/// The total damage that the events of `q` deal to `e`.
pub open spec fn damage_to(q: Seq<Event>, e: Entity) -> int
    decreases q.len(),
{
    if q.len() == 0 {
        0
    } else {
        damage_to(q.drop_last(), e) + match q.last() {
            Event::Damage(d) => if d.to == e {
                d.damage as int
            } else {
                0
            },
            _ => 0,
        }
    }
}

/// With one damage handler, flushing a queue of damage whose targets all have
/// health lowers each target's health by exactly the total queued against it,
/// as long as no running total leaves the range of `i32`; nothing else
/// changes and no error is reported.
pub proof fn lemma_damage_adds_up(
    q: Seq<Event>,
    sub: Subscription,
    dead: Seq<Subscription>,
    m: WorldModel,
)
    requires
        sub.handler == Handler::ApplyDamage,
        forall|k: int| 0 <= k < q.len() ==> #[trigger] q[k] is Damage && m.healths.contains_key(
            q[k]->Damage_0.to,
        ),
        forall|k: int, e: Entity| 0 <= k <= q.len() && m.healths.contains_key(e) ==> i32::MIN
            <= m.healths[e].current_health - #[trigger] damage_to(q.take(k), e) <= i32::MAX,
    ensures
        ({
            let (m2, errs) = deliver_all(q, seq![sub], dead, m);
            &&& errs == Seq::<ErrorView>::empty()
            &&& m2 == (WorldModel { healths: m2.healths, ..m })
            &&& m2.healths.dom() == m.healths.dom()
            &&& forall|e: Entity| #[trigger] m.healths.contains_key(e) ==> {
                &&& m2.healths[e].total_health == m.healths[e].total_health
                &&& m2.healths[e].current_health == m.healths[e].current_health - damage_to(q, e)
            }
        }),
    decreases q.len(),
{
    if q.len() > 0 {
        let rest = q.drop_last();
        assert forall|k: int, e: Entity| 0 <= k <= rest.len() && m.healths.contains_key(e) implies i32::MIN
            <= m.healths[e].current_health - #[trigger] damage_to(rest.take(k), e) <= i32::MAX by {
            assert(rest.take(k) =~= q.take(k));
        }
        assert forall|k: int| 0 <= k < rest.len() implies #[trigger] rest[k] is Damage && m.healths.contains_key(
            rest[k]->Damage_0.to,
        ) by {
            assert(rest[k] == q[k]);
        }
        lemma_damage_adds_up(rest, sub, dead, m);
        let (m1, e1) = deliver_all(rest, seq![sub], dead, m);
        let ev = q.last();
        assert(q[q.len() - 1] is Damage);
        let d = ev->Damage_0;
        let one = seq![sub];
        assert(one.drop_last() =~= Seq::<Subscription>::empty());
        assert(run_all(one.drop_last(), ev, m1) == (m1, Seq::<ErrorView>::empty()));
        assert(q.take(q.len() as int) =~= q);
        assert(m.healths.contains_key(d.to));
        assert(i32::MIN <= m.healths[d.to].current_health - damage_to(q, d.to) <= i32::MAX);
        let (m2, errs) = deliver_all(q, one, dead, m);
        assert(errs =~= Seq::<ErrorView>::empty());
        assert(m2.healths.dom() =~= m.healths.dom());
    }
}

} // verus!
