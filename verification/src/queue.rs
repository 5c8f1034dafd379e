//! The action queue of the housekeeper.
//!
//! The queue holds tagged actions ordered by the tick at which they are due.
//! Time is a count of ticks of a monotonic clock (`TICKS_PER_SECOND` of them in
//! a second); the caller reads the clock and passes the current tick in.
//!
//! The queue is kept as a vector sorted by due time, earliest first. Actions
//! that are due at the same tick leave in the order in which they were
//! scheduled.
use vstd::prelude::*;

verus! {

/// Ticks of the monotonic clock in one second.
pub const TICKS_PER_SECOND: u64 = 1000;

/// How long the housekeeper sleeps when nothing is scheduled: one day.
pub const LONG_SLUMBER: u64 = 86_400_000;

/// The kind of work that a scheduled action stands for.
#[derive(Debug, PartialEq, Eq)]
pub enum ActionClass {
    Session,
    Account,
    Store(usize),
    Acme(String),
    OtelMetrics,
    InternalMetrics,
    CalculateMetrics,
    AlertMetrics,
    ValidateLicense,
}

/// The mathematical value of an `ActionClass`.
pub ghost enum ClassView {
    Session,
    Account,
    Store(usize),
    Acme(Seq<char>),
    OtelMetrics,
    InternalMetrics,
    CalculateMetrics,
    AlertMetrics,
    ValidateLicense,
}

impl View for ActionClass {
    type V = ClassView;

    open spec fn view(&self) -> ClassView {
        match self {
            ActionClass::Session => ClassView::Session,
            ActionClass::Account => ClassView::Account,
            ActionClass::Store(idx) => ClassView::Store(*idx),
            ActionClass::Acme(id) => ClassView::Acme(id@),
            ActionClass::OtelMetrics => ClassView::OtelMetrics,
            ActionClass::InternalMetrics => ClassView::InternalMetrics,
            ActionClass::CalculateMetrics => ClassView::CalculateMetrics,
            ActionClass::AlertMetrics => ClassView::AlertMetrics,
            ActionClass::ValidateLicense => ClassView::ValidateLicense,
        }
    }
}

impl Clone for ActionClass {
    fn clone(&self) -> (copy: Self)
        ensures
            copy@ == self@,
    {
        match self {
            ActionClass::Session => ActionClass::Session,
            ActionClass::Account => ActionClass::Account,
            ActionClass::Store(idx) => ActionClass::Store(*idx),
            ActionClass::Acme(id) => ActionClass::Acme(id.clone()),
            ActionClass::OtelMetrics => ActionClass::OtelMetrics,
            ActionClass::InternalMetrics => ActionClass::InternalMetrics,
            ActionClass::CalculateMetrics => ActionClass::CalculateMetrics,
            ActionClass::AlertMetrics => ActionClass::AlertMetrics,
            ActionClass::ValidateLicense => ActionClass::ValidateLicense,
        }
    }
}

impl ActionClass {
    /// Whether two classes are the same tag with the same payload.
    pub fn same_as(&self, other: &ActionClass) -> (same: bool)
        ensures
            same == (self@ == other@),
    {
        match (self, other) {
            (ActionClass::Session, ActionClass::Session) => true,
            (ActionClass::Account, ActionClass::Account) => true,
            (ActionClass::Store(a), ActionClass::Store(b)) => *a == *b,
            (ActionClass::Acme(a), ActionClass::Acme(b)) => *a == *b,
            (ActionClass::OtelMetrics, ActionClass::OtelMetrics) => true,
            (ActionClass::InternalMetrics, ActionClass::InternalMetrics) => true,
            (ActionClass::CalculateMetrics, ActionClass::CalculateMetrics) => true,
            (ActionClass::AlertMetrics, ActionClass::AlertMetrics) => true,
            (ActionClass::ValidateLicense, ActionClass::ValidateLicense) => true,
            _ => false,
        }
    }
}

/// A scheduled action: a class of work and the tick at which it is due.
#[derive(Debug)]
pub struct Action {
    pub due: u64,
    pub event: ActionClass,
}

/// The mathematical value of an `Action`.
pub ghost struct ActionView {
    pub due: u64,
    pub class: ClassView,
}

impl View for Action {
    type V = ActionView;

    open spec fn view(&self) -> ActionView {
        ActionView { due: self.due, class: self.event@ }
    }
}

/// Two actions are equal where their classes are, whenever they are due.
impl PartialEq for Action {
    fn eq(&self, other: &Action) -> (same: bool) {
        self.event.same_as(&other.event)
    }
}

impl vstd::std_specs::cmp::PartialEqSpecImpl for Action {
    open spec fn obeys_eq_spec() -> bool {
        true
    }

    open spec fn eq_spec(&self, other: &Action) -> bool {
        self.event@ == other.event@
    }
}

/// Whether the actions are in order of their due ticks, earliest first.
pub open spec fn sorted_by_due(actions: Seq<ActionView>) -> bool {
    forall|i: int, j: int| 0 <= i <= j < actions.len() ==> actions[i].due <= actions[j].due
}

/// Whether some action of the given class is among the actions.
pub open spec fn has_class(actions: Seq<ActionView>, class: ClassView) -> bool {
    exists|i: int| 0 <= i < actions.len() && (#[trigger] actions[i]).class == class
}

/// Whether no two of the actions have the same class.
pub open spec fn one_per_class(actions: Seq<ActionView>) -> bool {
    forall|i: int, j: int|
        0 <= i < j < actions.len() ==> (#[trigger] actions[i]).class != (#[trigger] actions[j]).class
}

/// The place at which a new action due at `due` enters: behind every action
/// that is due no later, before every action that is due later. It is the
/// number of leading actions with a due tick of at most `due`.
pub open spec fn slot_for(actions: Seq<ActionView>, due: u64) -> int
    decreases actions.len(),
{
    if actions.len() == 0 || actions[0].due > due {
        0
    } else {
        1 + slot_for(actions.drop_first(), due)
    }
}

/// The due tick of the first action of the given class, if there is one.
pub open spec fn first_due_of(actions: Seq<ActionView>, class: ClassView) -> Option<u64>
    decreases actions.len(),
{
    if actions.len() == 0 {
        None
    } else if actions[0].class == class {
        Some(actions[0].due)
    } else {
        first_due_of(actions.drop_first(), class)
    }
}

/// The queue with one more action, entered behind those that are due no later.
pub open spec fn armed(actions: Seq<ActionView>, due: u64, class: ClassView) -> Seq<ActionView> {
    actions.insert(slot_for(actions, due), ActionView { due, class })
}

/// The queue with one more action, unless one of its class is pending.
pub open spec fn armed_if_absent(actions: Seq<ActionView>, due: u64, class: ClassView) -> Seq<
    ActionView,
> {
    if has_class(actions, class) {
        actions
    } else {
        armed(actions, due, class)
    }
}

/// The actions that remain when every action of the given class is taken out.
pub open spec fn without_class(actions: Seq<ActionView>, class: ClassView) -> Seq<ActionView> {
    actions.filter(|a: ActionView| a.class != class)
}

/// The delay from `now` to the earliest due tick, zero when that tick has
/// passed, and `LONG_SLUMBER` when nothing is scheduled.
pub open spec fn delay_until_first(actions: Seq<ActionView>, now: u64) -> int {
    if actions.len() == 0 {
        LONG_SLUMBER as int
    } else if actions[0].due > now {
        actions[0].due - now
    } else {
        0
    }
}

/// Whether every action from place `from` on is due at `floor` or later.
pub open spec fn none_due_before(actions: Seq<ActionView>, from: int, floor: u64) -> bool {
    forall|i: int| from <= i < actions.len() && 0 <= i ==> (#[trigger] actions[i]).due >= floor
}

/// Whether the earliest action is due at `now` or before.
pub open spec fn first_is_due(actions: Seq<ActionView>, now: u64) -> bool {
    actions.len() > 0 && actions[0].due <= now
}

/// `slot_for` is the one index that splits the actions at `due`.
pub proof fn lemma_slot_for(actions: Seq<ActionView>, due: u64, at: int)
    requires
        0 <= at <= actions.len(),
        forall|i: int| 0 <= i < at ==> actions[i].due <= due,
        at < actions.len() ==> actions[at].due > due,
    ensures
        slot_for(actions, due) == at,
    decreases at,
{
    if at > 0 {
        let rest = actions.drop_first();
        assert forall|i: int| 0 <= i < at - 1 implies rest[i].due <= due by {
            assert(rest[i] == actions[i + 1]);
        }
        lemma_slot_for(rest, due, at - 1);
    }
}

/// Where `slot_for` points: everything before it is due no later than `due`,
/// and in a sorted queue everything from it on is due later.
pub proof fn lemma_slot_for_splits(actions: Seq<ActionView>, due: u64)
    requires
        sorted_by_due(actions),
    ensures
        0 <= slot_for(actions, due) <= actions.len(),
        forall|i: int| 0 <= i < slot_for(actions, due) ==> actions[i].due <= due,
        forall|i: int| slot_for(actions, due) <= i < actions.len() ==> actions[i].due > due,
    decreases actions.len(),
{
    if actions.len() == 0 || actions[0].due > due {
    } else {
        let rest = actions.drop_first();
        assert(sorted_by_due(rest)) by {
            assert forall|i: int, j: int| 0 <= i <= j < rest.len() implies rest[i].due
                <= rest[j].due by {
                assert(rest[i] == actions[i + 1]);
                assert(rest[j] == actions[j + 1]);
            }
        }
        lemma_slot_for_splits(rest, due);
        assert forall|i: int| 0 <= i < slot_for(actions, due) implies actions[i].due <= due by {
            if i > 0 {
                assert(actions[i] == rest[i - 1]);
            }
        }
        assert forall|i: int| slot_for(actions, due) <= i < actions.len() implies actions[i].due
            > due by {
            assert(actions[i] == rest[i - 1]);
        }
    }
}

/// The pending actions of the housekeeper, earliest first.
pub struct Queue {
    heap: Vec<Action>,
}

impl View for Queue {
    type V = Seq<ActionView>;

    closed spec fn view(&self) -> Seq<ActionView> {
        Seq::new(self.heap@.len(), |i: int| self.heap@[i]@)
    }
}

impl Queue {
    /// The queue's invariant: its actions are in order of their due ticks.
    pub open spec fn wf(&self) -> bool {
        sorted_by_due(self@)
    }

    /// The empty queue.
    pub fn new() -> (queue: Queue)
        ensures
            queue@ == Seq::<ActionView>::empty(),
            queue.wf(),
    {
        let queue = Queue { heap: Vec::new() };
        assert(queue@ =~= Seq::<ActionView>::empty());
        queue
    }

    /// The number of pending actions.
    pub fn len(&self) -> (n: usize)
        ensures
            n == self@.len(),
    {
        self.heap.len()
    }

    /// The due tick of the earliest action, if there is one.
    pub fn next_due(&self) -> (due: Option<u64>)
        ensures
            due == (if self@.len() == 0 {
                None
            } else {
                Some(self@[0].due)
            }),
    {
        if self.heap.len() == 0 {
            None
        } else {
            assert(self@[0] == self.heap@[0]@);
            Some(self.heap[0].due)
        }
    }

    /// The due tick of the pending action of the given class, the earliest
    /// one if there are several.
    pub fn due_of(&self, event: &ActionClass) -> (due: Option<u64>)
        ensures
            due == first_due_of(self@, event@),
    {
        let mut at: usize = 0;
        assert(self@.skip(0) =~= self@);
        while at < self.heap.len()
            invariant
                at <= self.heap.len(),
                first_due_of(self@, event@) == first_due_of(self@.skip(at as int), event@),
            decreases self.heap.len() - at,
        {
            assert(self@[at as int] == self.heap@[at as int]@);
            assert(self@.skip(at as int)[0] == self@[at as int]);
            assert(self@.skip(at as int).drop_first() =~= self@.skip(at + 1));
            if self.heap[at].event.same_as(event) {
                return Some(self.heap[at].due);
            }
            at += 1;
        }
        assert(self@.skip(at as int).len() == 0);
        None
    }

    /// The number of actions that are due at `now` or before. In terms of
    /// `slot_for` it is the place behind them.
    pub fn due_count(&self, now: u64) -> (n: usize)
        ensures
            n == slot_for(self@, now),
            n <= self@.len(),
    {
        let mut at: usize = 0;
        while at < self.heap.len() && self.heap[at].due <= now
            invariant
                at <= self.heap.len(),
                forall|i: int| 0 <= i < at ==> self@[i].due <= now,
            decreases self.heap.len() - at,
        {
            at += 1;
        }
        proof {
            lemma_slot_for(self@, now, at as int);
        }
        at
    }

    /// Adds an action of class `event` due at `due`. Nothing is tested: a
    /// caller that wants one action per class asks `has_action` first.
    pub fn schedule(&mut self, due: u64, event: ActionClass)
        requires
            old(self).wf(),
        ensures
            final(self).wf(),
            final(self)@ == armed(old(self)@, due, event@),
            one_per_class(old(self)@) && !has_class(old(self)@, event@) ==> one_per_class(
                final(self)@,
            ),
    {
        let ghost before = self@;
        let at = self.due_count(due);
        proof {
            lemma_slot_for_splits(before, due);
            lemma_armed(before, due, event@);
        }
        self.heap.insert(at, Action { due, event });
        assert(self@ =~= armed(before, due, event@));
    }

    /// Takes out every action of the given class.
    pub fn remove_action(&mut self, event: &ActionClass)
        requires
            old(self).wf(),
        ensures
            final(self).wf(),
            final(self)@ == without_class(old(self)@, event@),
            !has_class(final(self)@, event@),
            one_per_class(old(self)@) ==> one_per_class(final(self)@),
    {
        let ghost before = self@;
        let ghost keep = |a: ActionView| a.class != event@;
        let ghost mut seen: int = 0;
        let mut at: usize = 0;
        proof {
            assert(before.take(0) =~= Seq::<ActionView>::empty());
            assert(self@.take(0) =~= Seq::<ActionView>::empty());
            assert(self@.skip(0) =~= before.skip(0));
        }
        while at < self.heap.len()
            invariant
                at <= self.heap.len(),
                0 <= seen <= before.len(),
                keep == |a: ActionView| a.class != event@,
                self@.take(at as int) == before.take(seen).filter(keep),
                self@.skip(at as int) == before.skip(seen),
            decreases self.heap.len() - at,
        {
            let ghost current = self@;
            assert(current.skip(at as int).len() == current.len() - at);
            assert(before.skip(seen).len() == before.len() - seen);
            assert(current[at as int] == current.skip(at as int)[0]);
            assert(before.skip(seen)[0] == before[seen]);
            assert(before.take(seen + 1) =~= before.take(seen).push(before[seen]));
            proof {
                before.take(seen).lemma_filter_push(before[seen], keep);
            }
            assert forall|k: int| 0 <= k < before.len() - seen - 1 implies #[trigger] current.skip(
                at + 1,
            )[k] == before.skip(seen + 1)[k] by {
                assert(current.skip(at as int)[k + 1] == before.skip(seen)[k + 1]);
            }
            if self.heap[at].event.same_as(event) {
                self.heap.remove(at);
                assert(self@ =~= current.remove(at as int));
                assert(self@.take(at as int) =~= current.take(at as int));
                assert(self@.skip(at as int) =~= before.skip(seen + 1));
            } else {
                assert(current.take(at + 1) =~= current.take(at as int).push(current[at as int]));
                assert(current.skip(at + 1) =~= before.skip(seen + 1));
                at += 1;
            }
            proof {
                seen = seen + 1;
            }
        }
        assert(self@ =~= self@.take(at as int));
        assert(self@.skip(at as int).len() == 0);
        assert(before =~= before.take(seen));
        proof {
            lemma_without_class(before, event@);
        }
    }

    /// The delay from `now` to the earliest due tick: zero when that tick has
    /// passed, `LONG_SLUMBER` when the queue is empty.
    pub fn wake_up_time(&self, now: u64) -> (delay: u64)
        ensures
            delay == delay_until_first(self@, now),
    {
        if self.heap.len() == 0 {
            LONG_SLUMBER
        } else {
            assert(self@[0] == self.heap@[0]@);
            let due = self.heap[0].due;
            if due > now {
                due - now
            } else {
                0
            }
        }
    }

    /// Takes out the earliest action if it is due at `now` or before.
    pub fn pop(&mut self, now: u64) -> (action: Option<Action>)
        requires
            old(self).wf(),
        ensures
            final(self).wf(),
            first_is_due(old(self)@, now) ==> action is Some && action->0@ == old(self)@[0]
                && final(self)@ == old(self)@.drop_first(),
            !first_is_due(old(self)@, now) ==> action is None && final(self)@ == old(self)@,
            one_per_class(old(self)@) ==> one_per_class(final(self)@),
            action is Some ==> one_per_class(old(self)@) ==> !has_class(
                final(self)@,
                action->0@.class,
            ),
    {
        let ghost before = self@;
        if self.heap.len() == 0 {
            return None;
        }
        assert(before[0] == self.heap@[0]@);
        if self.heap[0].due <= now {
            let first = self.heap.remove(0);
            assert(self@ =~= before.drop_first());
            assert forall|i: int| 0 <= i < self@.len() implies self@[i] == before[i + 1] by {}
            Some(first)
        } else {
            None
        }
    }

    /// Whether an action of the given class is pending.
    pub fn has_action(&self, event: &ActionClass) -> (found: bool)
        ensures
            found == has_class(self@, event@),
    {
        let mut at: usize = 0;
        while at < self.heap.len()
            invariant
                at <= self.heap.len(),
                forall|i: int| 0 <= i < at ==> self@[i].class != event@,
            decreases self.heap.len() - at,
        {
            assert(self@[at as int] == self.heap@[at as int]@);
            if self.heap[at].event.same_as(event) {
                return true;
            }
            at += 1;
        }
        false
    }
}

/// What taking a class out leaves: the other actions, in their order.
pub proof fn lemma_without_class(actions: Seq<ActionView>, class: ClassView)
    ensures
        !has_class(without_class(actions, class), class),
        sorted_by_due(actions) ==> sorted_by_due(without_class(actions, class)),
        one_per_class(actions) ==> one_per_class(without_class(actions, class)),
        forall|other: ClassView|
            other != class ==> (has_class(without_class(actions, class), other) <==> has_class(
                actions,
                other,
            )),
    decreases actions.len(),
{
    let keep = |a: ActionView| a.class != class;
    let rest = without_class(actions, class);
    reveal(Seq::filter);
    if actions.len() > 0 {
        let shorter = actions.drop_last();
        let last = actions.last();
        lemma_without_class(shorter, class);
        let kept = without_class(shorter, class);
        assert(rest == if keep(last) {
            kept.push(last)
        } else {
            kept
        });
        assert(forall|i: int| 0 <= i < shorter.len() ==> shorter[i] == actions[i]);
        // every kept action comes from the shorter queue
        assert forall|i: int| 0 <= i < kept.len() implies exists|k: int|
            0 <= k < shorter.len() && shorter[k] == #[trigger] kept[i] by {
            shorter.lemma_filter_contains_rev(keep, kept[i]);
            assert(kept.contains(kept[i]));
            assert(shorter.contains(kept[i]));
        }
        if sorted_by_due(actions) {
            assert(sorted_by_due(shorter));
            assert forall|i: int, j: int| 0 <= i <= j < rest.len() implies rest[i].due
                <= rest[j].due by {
                if j == kept.len() && i < kept.len() {
                    let k = choose|k: int| 0 <= k < shorter.len() && shorter[k] == kept[i];
                    assert(actions[k].due <= actions[actions.len() - 1].due);
                }
            }
        }
        if one_per_class(actions) {
            assert(one_per_class(shorter));
            assert forall|i: int, j: int| 0 <= i < j < rest.len() implies rest[i].class
                != rest[j].class by {
                if j == kept.len() {
                    let k = choose|k: int| 0 <= k < shorter.len() && shorter[k] == kept[i];
                    assert(actions[k].class != actions[actions.len() - 1].class);
                }
            }
        }
        assert forall|other: ClassView| other != class implies (has_class(rest, other)
            <==> has_class(actions, other)) by {
            if has_class(rest, other) {
                let i = choose|i: int| 0 <= i < rest.len() && rest[i].class == other;
                if i < kept.len() {
                    assert(kept[i].class == other);
                    assert(has_class(kept, other));
                    let k = choose|k: int| 0 <= k < shorter.len() && shorter[k].class == other;
                    assert(actions[k].class == other);
                } else {
                    assert(actions[actions.len() - 1].class == other);
                }
            }
            if has_class(actions, other) {
                let k = choose|k: int| 0 <= k < actions.len() && actions[k].class == other;
                if k < shorter.len() {
                    assert(shorter[k].class == other);
                    assert(has_class(shorter, other));
                    assert(has_class(kept, other));
                    let i = choose|i: int| 0 <= i < kept.len() && kept[i].class == other;
                    assert(rest[i].class == other);
                } else {
                    assert(rest[rest.len() - 1].class == other);
                }
            }
        }
    }
}

/// An action of a class is pending exactly where `first_due_of` finds one.
pub proof fn lemma_first_due_of(actions: Seq<ActionView>, class: ClassView)
    ensures
        first_due_of(actions, class) is Some <==> has_class(actions, class),
        first_due_of(actions, class) matches Some(due) ==> exists|i: int|
            0 <= i < actions.len() && (#[trigger] actions[i]).class == class && actions[i].due
                == due,
    decreases actions.len(),
{
    if actions.len() > 0 {
        let rest = actions.drop_first();
        lemma_first_due_of(rest, class);
        if actions[0].class != class {
            if has_class(actions, class) {
                let i = choose|i: int| 0 <= i < actions.len() && actions[i].class == class;
                assert(rest[i - 1].class == class);
            }
            if has_class(rest, class) {
                let i = choose|i: int| 0 <= i < rest.len() && rest[i].class == class;
                assert(actions[i + 1].class == class);
            }
            if first_due_of(actions, class) is Some {
                let due = first_due_of(actions, class)->0;
                let i = choose|i: int|
                    0 <= i < rest.len() && (#[trigger] rest[i]).class == class && rest[i].due
                        == due;
                assert(actions[i + 1].class == class && actions[i + 1].due == due);
            }
        } else {
            assert(actions[0].class == class);
        }
    }
}

/// Entering an action at any place leaves the first action of every other
/// class where it was, and makes the entered action the first of its class
/// where none was pending.
pub proof fn lemma_first_due_of_insert(
    actions: Seq<ActionView>,
    at: int,
    entry: ActionView,
    class: ClassView,
)
    requires
        0 <= at <= actions.len(),
    ensures
        entry.class != class ==> first_due_of(actions.insert(at, entry), class) == first_due_of(
            actions,
            class,
        ),
        entry.class == class && !has_class(actions, class) ==> first_due_of(
            actions.insert(at, entry),
            class,
        ) == Some(entry.due),
    decreases at,
{
    let after = actions.insert(at, entry);
    if at == 0 {
        assert(after.drop_first() =~= actions);
        assert(after[0] == entry);
        if entry.class == class {
            assert(first_due_of(after, class) == Some(entry.due));
        }
    } else {
        assert(after[0] == actions[0]);
        assert(after.drop_first() =~= actions.drop_first().insert(at - 1, entry));
        lemma_first_due_of_insert(actions.drop_first(), at - 1, entry, class);
        if entry.class == class && !has_class(actions, class) {
            assert(actions[0].class != class);
            if has_class(actions.drop_first(), class) {
                let i = choose|i: int|
                    0 <= i < actions.drop_first().len() && actions.drop_first()[i].class == class;
                assert(actions[i + 1].class == class);
            }
        }
    }
}

/// What entering an action does to a queue in order.
pub proof fn lemma_armed(actions: Seq<ActionView>, due: u64, class: ClassView)
    requires
        sorted_by_due(actions),
    ensures
        sorted_by_due(armed(actions, due, class)),
        armed(actions, due, class).len() == actions.len() + 1,
        forall|other: ClassView| #[trigger]
            has_class(armed(actions, due, class), other) <==> other == class || has_class(
                actions,
                other,
            ),
        one_per_class(actions) && !has_class(actions, class) ==> one_per_class(
            armed(actions, due, class),
        ),
        forall|other: ClassView|
            other != class ==> #[trigger] first_due_of(armed(actions, due, class), other)
                == first_due_of(actions, other),
        !has_class(actions, class) ==> first_due_of(armed(actions, due, class), class) == Some(
            due,
        ),
{
    lemma_slot_for_splits(actions, due);
    let at = slot_for(actions, due);
    let entry = ActionView { due, class };
    let after = armed(actions, due, class);
    assert forall|i: int| 0 <= i < after.len() implies #[trigger] after[i] == (if i < at {
        actions[i]
    } else if i == at {
        entry
    } else {
        actions[i - 1]
    }) by {}
    assert forall|i: int, j: int| 0 <= i <= j < after.len() implies after[i].due
        <= after[j].due by {
        if i < at && j > at {
            assert(actions[i].due <= actions[j - 1].due);
        } else if i > at {
            assert(actions[i - 1].due <= actions[j - 1].due);
        } else if j < at {
            assert(actions[i].due <= actions[j].due);
        }
    }
    assert forall|other: ClassView| #[trigger]
        has_class(after, other) <==> other == class || has_class(actions, other) by {
        if has_class(after, other) && other != class {
            let i = choose|i: int| 0 <= i < after.len() && after[i].class == other;
            if i < at {
                assert(actions[i].class == other);
            } else {
                assert(actions[i - 1].class == other);
            }
        }
        if other == class {
            assert(after[at].class == class);
        }
        if has_class(actions, other) {
            let i = choose|i: int| 0 <= i < actions.len() && actions[i].class == other;
            if i < at {
                assert(after[i].class == other);
            } else {
                assert(after[i + 1].class == other);
            }
        }
    }
    if one_per_class(actions) && !has_class(actions, class) {
        assert forall|i: int, j: int| 0 <= i < j < after.len() implies after[i].class
            != after[j].class by {
            let bi = if i < at { i } else { i - 1 };
            let bj = if j < at { j } else { j - 1 };
            if i != at && j != at {
                assert(actions[bi].class != actions[bj].class);
            } else if i == at {
                assert(actions[bj].class != class);
            } else {
                assert(actions[bi].class != class);
            }
        }
    }
    assert forall|other: ClassView| other != class implies #[trigger] first_due_of(after, other)
        == first_due_of(actions, other) by {
        lemma_first_due_of_insert(actions, at, entry, other);
    }
    lemma_first_due_of_insert(actions, at, entry, class);
}

/// What taking an action's class out leaves of the first actions of the
/// other classes: each is where it was.
pub proof fn lemma_without_class_keeps_due(
    actions: Seq<ActionView>,
    class: ClassView,
    other: ClassView,
)
    requires
        other != class,
    ensures
        first_due_of(without_class(actions, class), other) == first_due_of(actions, other),
    decreases actions.len(),
{
    let keep = |a: ActionView| a.class != class;
    if actions.len() > 0 {
        let rest = actions.drop_first();
        lemma_without_class_keeps_due(rest, class, other);
        assert(actions =~= seq![actions[0]] + rest);
        Seq::filter_distributes_over_add(seq![actions[0]], rest, keep);
        reveal_with_fuel(Seq::filter, 2);
        assert(seq![actions[0]].drop_last() =~= Seq::<ActionView>::empty());
        if keep(actions[0]) {
            assert(seq![actions[0]].filter(keep) =~= seq![actions[0]]);
            assert(without_class(actions, class).drop_first() =~= without_class(rest, class));
        } else {
            assert(seq![actions[0]].filter(keep) =~= Seq::<ActionView>::empty());
            assert(without_class(actions, class) =~= without_class(rest, class));
        }
    } else {
        reveal(Seq::filter);
    }
}

/// What taking the first action out leaves.
pub proof fn lemma_drop_first(actions: Seq<ActionView>)
    requires
        actions.len() > 0,
    ensures
        sorted_by_due(actions) ==> sorted_by_due(actions.drop_first()),
        one_per_class(actions) ==> one_per_class(actions.drop_first()) && !has_class(
            actions.drop_first(),
            actions[0].class,
        ),
        forall|other: ClassView|
            other != actions[0].class ==> (#[trigger] has_class(actions.drop_first(), other)
                <==> has_class(actions, other)),
{
    let rest = actions.drop_first();
    assert forall|i: int| 0 <= i < rest.len() implies #[trigger] rest[i] == actions[i + 1] by {}
    if sorted_by_due(actions) {
        assert forall|i: int, j: int| 0 <= i <= j < rest.len() implies rest[i].due
            <= rest[j].due by {
            assert(actions[i + 1].due <= actions[j + 1].due);
        }
    }
    if one_per_class(actions) {
        assert forall|i: int, j: int| 0 <= i < j < rest.len() implies rest[i].class
            != rest[j].class by {
            assert(actions[i + 1].class != actions[j + 1].class);
        }
        if has_class(rest, actions[0].class) {
            let i = choose|i: int| 0 <= i < rest.len() && rest[i].class == actions[0].class;
            assert(actions[0].class != actions[i + 1].class);
        }
    }
    assert forall|other: ClassView| other != actions[0].class implies (#[trigger] has_class(
        rest,
        other,
    ) <==> has_class(actions, other)) by {
        if has_class(rest, other) {
            let i = choose|i: int| 0 <= i < rest.len() && rest[i].class == other;
            assert(actions[i + 1].class == other);
        }
        if has_class(actions, other) {
            let i = choose|i: int| 0 <= i < actions.len() && actions[i].class == other;
            assert(rest[i - 1].class == other);
        }
    }
}

} // verus!
