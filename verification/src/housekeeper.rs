//! The housekeeper: the scheduler of the server's periodic maintenance.
//!
//! The housekeeper owns the action queue and decides. It is a state machine:
//! `Housekeeper::step` takes what happened (a control event, a timeout of the
//! wait for the next due tick, the end of the control channel) together with
//! the current tick and what the shared core says at that moment, changes the
//! queue and answers with the work to hand out. The caller waits, reads the
//! clock, runs the work and sends the events.
//!
//! A recurring action is put back into the queue before its work is handed
//! out, so the next occurrence never waits for a worker.
use vstd::prelude::*;
use crate::queue::{
    armed, armed_if_absent, delay_until_first, first_due_of, first_is_due, has_class,
    lemma_armed, lemma_drop_first, lemma_slot_for_splits, lemma_without_class,
    lemma_without_class_keeps_due, none_due_before, one_per_class, slot_for, sorted_by_due,
    without_class, Action, ActionClass, ActionView, ClassView, Queue,
};

verus! {

/// The interval of the metrics calculation: five minutes.
pub const METRICS_INTERVAL: u64 = 300_000;

/// The interval of the metric alerts: five minutes.
pub const METRIC_ALERTS_INTERVAL: u64 = 300_000;

/// How often account and domain totals are refreshed: once a day.
pub const TOTALS_INTERVAL: u64 = 86_400_000;

/// The delay before a failed certificate renewal is tried again: one hour.
pub const ACME_RETRY_DELAY: u64 = 3_600_000;

/// What the purge of a configured store works on.
#[derive(Clone, Copy, Debug, PartialEq, Eq, Structural)]
pub enum PurgeStore {
    Data,
    Blobs,
    Lookup,
}

/// The purge schedule of one configured store, as read at one moment.
#[derive(Clone, Copy, Debug, PartialEq, Eq, Structural)]
pub struct PurgeSchedule {
    /// Ticks until the schedule fires next.
    pub next_in: u64,
    pub store: PurgeStore,
}

/// The enterprise block of the shared core, as read at one moment.
#[derive(Clone, Copy, Debug, PartialEq, Eq, Structural)]
pub struct Enterprise {
    /// Ticks until the license expires.
    pub license_expires_in: u64,
    /// Ticks until the metrics store is written next, where one is configured.
    pub metrics_store_in: Option<u64>,
    /// Whether any metric alert is configured.
    pub has_metric_alerts: bool,
}

/// What the housekeeper reads from the shared core at one moment. Each
/// schedule is given as the ticks until it fires next.
#[derive(Debug)]
pub struct Timetable {
    pub session_purge_in: u64,
    pub account_purge_in: u64,
    pub purge_schedules: Vec<PurgeSchedule>,
    /// The interval of the metrics push, where one is configured.
    pub otel_interval: Option<u64>,
    pub enterprise: Option<Enterprise>,
}

/// A certificate provider that was initialised, with the ticks until its
/// certificate is to be renewed.
#[derive(Debug)]
pub struct AcmeRenewal {
    pub provider_id: String,
    pub renew_in: u64,
}

/// What an out-of-band purge works on. A store is named by its handle, the
/// number under which the server keeps it.
#[derive(Clone, Copy, Debug, PartialEq, Eq, Structural)]
pub enum PurgeType {
    /// The data store with the handle.
    Data(u32),
    /// The blobs of a data store, in a blob store.
    Blobs { store: u32, blob_store: u32 },
    /// The lookup store with the handle.
    Lookup(u32),
    /// One account, or all of them.
    Account(Option<u32>),
}

/// A message on the control channel.
#[derive(Debug, PartialEq, Eq)]
pub enum HousekeeperEvent {
    ReloadSettings,
    AcmeReschedule { provider_id: String, renew_at: u64 },
    Purge(PurgeType),
    Exit,
}

/// What the housekeeper is woken by.
#[derive(Debug, PartialEq, Eq)]
pub enum Signal {
    /// A message arrived on the control channel.
    Event(HousekeeperEvent),
    /// The wait for the next due tick ran out.
    Timeout,
    /// The control channel was closed.
    Closed,
    /// The reload that a license validation asked for is done. It carries the
    /// ticks until the new license expires, where the reload gave a new core
    /// with an enterprise block.
    LicenseValidated(Option<u64>),
}

/// Work that the housekeeper hands out. Each is run by a worker of its own;
/// the housekeeper does not wait for it.
#[derive(Debug, PartialEq, Eq)]
pub enum Work {
    PurgeSessions,
    PurgeAccounts,
    PurgeStore { idx: usize, store: PurgeStore },
    RenewAcme { provider_id: String },
    PushOtelMetrics,
    CalculateMetrics { update_other_metrics: bool },
    WriteInternalMetrics,
    ProcessAlerts,
    ValidateLicense,
    /// Initialise every certificate provider again and send an
    /// `AcmeReschedule` for each.
    ReloadAcme,
    Purge(PurgeType),
}

/// The mathematical value of a `Work`.
pub ghost enum WorkView {
    PurgeSessions,
    PurgeAccounts,
    PurgeStore { idx: usize, store: PurgeStore },
    RenewAcme { provider_id: Seq<char> },
    PushOtelMetrics,
    CalculateMetrics { update_other_metrics: bool },
    WriteInternalMetrics,
    ProcessAlerts,
    ValidateLicense,
    ReloadAcme,
    Purge(PurgeType),
}

impl View for Work {
    type V = WorkView;

    open spec fn view(&self) -> WorkView {
        match self {
            Work::PurgeSessions => WorkView::PurgeSessions,
            Work::PurgeAccounts => WorkView::PurgeAccounts,
            Work::PurgeStore { idx, store } => WorkView::PurgeStore { idx: *idx, store: *store },
            Work::RenewAcme { provider_id } => WorkView::RenewAcme { provider_id: provider_id@ },
            Work::PushOtelMetrics => WorkView::PushOtelMetrics,
            Work::CalculateMetrics { update_other_metrics } => WorkView::CalculateMetrics {
                update_other_metrics: *update_other_metrics,
            },
            Work::WriteInternalMetrics => WorkView::WriteInternalMetrics,
            Work::ProcessAlerts => WorkView::ProcessAlerts,
            Work::ValidateLicense => WorkView::ValidateLicense,
            Work::ReloadAcme => WorkView::ReloadAcme,
            Work::Purge(purge) => WorkView::Purge(*purge),
        }
    }
}

/// The answer of one step: the work to hand out, or the end of the loop.
#[derive(Debug, PartialEq, Eq)]
pub enum Step {
    Continue(Vec<Work>),
    Stop,
}

/// The value of a piece of work, where there is one.
pub open spec fn work_view(work: Option<Work>) -> Option<WorkView> {
    match work {
        Some(w) => Some(w@),
        None => None,
    }
}

/// The work of a list, each by its value.
pub open spec fn works_view(works: Seq<Work>) -> Seq<WorkView> {
    Seq::new(works.len(), |i: int| works[i]@)
}

impl View for Step {
    /// The work to hand out, or `None` at the end of the loop.
    type V = Option<Seq<WorkView>>;

    open spec fn view(&self) -> Option<Seq<WorkView>> {
        match self {
            Step::Continue(works) => Some(works_view(works@)),
            Step::Stop => None,
        }
    }
}

/// The mathematical value of a housekeeper.
pub ghost struct HousekeeperView {
    /// The pending actions, earliest first.
    pub queue: Seq<ActionView>,
    /// The tick from which account and domain totals are refreshed again.
    pub next_metric_update: u64,
}

/// The tick that lies `delay` after `now`, held at the last tick there is.
pub open spec fn later(now: u64, delay: u64) -> u64 {
    if now + delay > u64::MAX {
        u64::MAX
    } else {
        (now + delay) as u64
    }
}

/// The queue with the purge of each of the first `upto` configured stores.
pub open spec fn armed_stores(
    queue: Seq<ActionView>,
    now: u64,
    schedules: Seq<PurgeSchedule>,
    upto: int,
) -> Seq<ActionView>
    decreases upto,
{
    if upto <= 0 {
        queue
    } else {
        armed(
            armed_stores(queue, now, schedules, upto - 1),
            later(now, schedules[upto - 1].next_in),
            ClassView::Store((upto - 1) as usize),
        )
    }
}

/// The queue with the renewal of each of the first `upto` providers.
pub open spec fn armed_renewals(
    queue: Seq<ActionView>,
    now: u64,
    renewals: Seq<AcmeRenewal>,
    upto: int,
) -> Seq<ActionView>
    decreases upto,
{
    if upto <= 0 {
        queue
    } else {
        armed(
            armed_renewals(queue, now, renewals, upto - 1),
            later(now, renewals[upto - 1].renew_in),
            ClassView::Acme(renewals[upto - 1].provider_id@),
        )
    }
}

/// The queue with the actions of the enterprise block at start: the license
/// validation, the metrics store where one is configured, and the metric
/// alerts where there are any.
pub open spec fn armed_enterprise(queue: Seq<ActionView>, now: u64, enterprise: Option<Enterprise>) -> Seq<
    ActionView,
> {
    match enterprise {
        None => queue,
        Some(e) => {
            let licensed = armed(queue, later(now, e.license_expires_in), ClassView::ValidateLicense);
            let stored = match e.metrics_store_in {
                Some(next_in) => armed(licensed, later(now, next_in), ClassView::InternalMetrics),
                None => licensed,
            };
            if e.has_metric_alerts {
                armed(stored, later(now, METRIC_ALERTS_INTERVAL), ClassView::AlertMetrics)
            } else {
                stored
            }
        },
    }
}

/// The queue of a housekeeper that starts at `now`.
pub open spec fn seeded(now: u64, core: Timetable, renewals: Seq<AcmeRenewal>) -> Seq<ActionView> {
    let session = armed(Seq::empty(), later(now, core.session_purge_in), ClassView::Session);
    let account = armed(session, later(now, core.account_purge_in), ClassView::Account);
    let stores = armed_stores(account, now, core.purge_schedules@, core.purge_schedules@.len() as int);
    let otel = match core.otel_interval {
        Some(interval) => armed(stores, later(now, interval), ClassView::OtelMetrics),
        None => stores,
    };
    let metrics = armed(otel, now, ClassView::CalculateMetrics);
    let acme = armed_renewals(metrics, now, renewals, renewals.len() as int);
    armed_enterprise(acme, now, core.enterprise)
}

/// What a settings reload does to the queue: each of the metrics push, the
/// license validation, the metrics store and the metric alerts is armed where
/// the core configures it and no action of its class is pending.
pub open spec fn rearmed(queue: Seq<ActionView>, now: u64, core: Timetable) -> Seq<ActionView> {
    let otel = match core.otel_interval {
        Some(interval) => armed_if_absent(queue, later(now, interval), ClassView::OtelMetrics),
        None => queue,
    };
    match core.enterprise {
        None => otel,
        Some(e) => {
            let licensed = armed_if_absent(
                otel,
                later(now, e.license_expires_in),
                ClassView::ValidateLicense,
            );
            let stored = match e.metrics_store_in {
                Some(next_in) => armed_if_absent(
                    licensed,
                    later(now, next_in),
                    ClassView::InternalMetrics,
                ),
                None => licensed,
            };
            if e.has_metric_alerts {
                armed_if_absent(stored, now, ClassView::AlertMetrics)
            } else {
                stored
            }
        },
    }
}

/// The ticks after which an action of this class is due again once it has
/// run, where the class recurs: the purges by their schedules, the metrics
/// push by its interval where it is configured, the metrics calculation every
/// `METRICS_INTERVAL`, the metrics store by its schedule where it is
/// configured. The other classes are armed by events, not by running.
pub open spec fn interval_of(class: ClassView, core: Timetable) -> Option<u64> {
    match class {
        ClassView::Session => Some(core.session_purge_in),
        ClassView::Account => Some(core.account_purge_in),
        ClassView::Store(idx) => if idx < core.purge_schedules@.len() {
            Some(core.purge_schedules@[idx as int].next_in)
        } else {
            None
        },
        ClassView::OtelMetrics => core.otel_interval,
        ClassView::CalculateMetrics => Some(METRICS_INTERVAL),
        ClassView::InternalMetrics => match core.enterprise {
            Some(e) => e.metrics_store_in,
            None => None,
        },
        _ => None,
    }
}

/// Whether an action of this class is armed again when it runs.
pub open spec fn recurring(class: ClassView, core: Timetable) -> bool {
    interval_of(class, core) is Some
}

/// The work that an action of this class hands out when it runs: none where
/// the core no longer configures what the action is for.
pub open spec fn work_of(class: ClassView, refresh_totals: bool, core: Timetable) -> Option<
    WorkView,
> {
    match class {
        ClassView::Session => Some(WorkView::PurgeSessions),
        ClassView::Account => Some(WorkView::PurgeAccounts),
        ClassView::Store(idx) => if idx < core.purge_schedules@.len() {
            Some(WorkView::PurgeStore { idx, store: core.purge_schedules@[idx as int].store })
        } else {
            None
        },
        ClassView::Acme(provider_id) => Some(WorkView::RenewAcme { provider_id }),
        ClassView::OtelMetrics => if core.otel_interval is Some {
            Some(WorkView::PushOtelMetrics)
        } else {
            None
        },
        ClassView::CalculateMetrics => Some(
            WorkView::CalculateMetrics { update_other_metrics: refresh_totals },
        ),
        ClassView::InternalMetrics => if interval_of(class, core) is Some {
            Some(WorkView::WriteInternalMetrics)
        } else {
            None
        },
        ClassView::AlertMetrics => Some(WorkView::ProcessAlerts),
        ClassView::ValidateLicense => Some(WorkView::ValidateLicense),
    }
}

/// What running one due action of class `class` does: the state after it,
/// with a recurring action armed again `interval_of` ticks after `now`, and
/// the work to hand out. The metrics calculation refreshes the account and
/// domain totals when `now` has reached `next_metric_update`, and then moves
/// that tick on by `TOTALS_INTERVAL`.
pub open spec fn dispatched(state: HousekeeperView, class: ClassView, now: u64, core: Timetable) -> (
    HousekeeperView,
    Option<WorkView>,
) {
    let refresh_totals = now >= state.next_metric_update;
    (
        HousekeeperView {
            queue: match interval_of(class, core) {
                Some(delay) => armed(state.queue, later(now, delay), class),
                None => state.queue,
            },
            next_metric_update: if class == ClassView::CalculateMetrics && refresh_totals {
                later(now, TOTALS_INTERVAL)
            } else {
                state.next_metric_update
            },
        },
        work_of(class, refresh_totals, core),
    )
}

/// What running the due actions does, at most `budget` of them, earliest
/// first: the state after them and the work to hand out, in that order.
pub open spec fn drained(state: HousekeeperView, now: u64, core: Timetable, budget: nat) -> (
    HousekeeperView,
    Seq<WorkView>,
)
    decreases budget,
{
    if budget == 0 || !first_is_due(state.queue, now) {
        (state, Seq::empty())
    } else {
        let popped = HousekeeperView {
            queue: state.queue.drop_first(),
            next_metric_update: state.next_metric_update,
        };
        let (next, work) = dispatched(popped, state.queue[0].class, now, core);
        let (last, works) = drained(next, now, core, (budget - 1) as nat);
        (
            last,
            match work {
                Some(w) => seq![w] + works,
                None => works,
            },
        )
    }
}

/// What a timeout does: every action that is due at `now` runs once.
pub open spec fn expired(state: HousekeeperView, now: u64, core: Timetable) -> (
    HousekeeperView,
    Seq<WorkView>,
) {
    drained(state, now, core, slot_for(state.queue, now) as nat)
}

/// What a control event does: the state after it and the work to hand out,
/// or `None` for the work where the loop ends.
pub open spec fn handled(state: HousekeeperView, event: HousekeeperEvent, now: u64, core: Timetable) -> (
    HousekeeperView,
    Option<Seq<WorkView>>,
) {
    match event {
        HousekeeperEvent::ReloadSettings => (
            HousekeeperView {
                queue: rearmed(state.queue, now, core),
                next_metric_update: state.next_metric_update,
            },
            Some(seq![WorkView::ReloadAcme]),
        ),
        HousekeeperEvent::AcmeReschedule { provider_id, renew_at } => (
            HousekeeperView {
                queue: armed(
                    without_class(state.queue, ClassView::Acme(provider_id@)),
                    renew_at,
                    ClassView::Acme(provider_id@),
                ),
                next_metric_update: state.next_metric_update,
            },
            Some(Seq::empty()),
        ),
        HousekeeperEvent::Purge(purge) => (state, Some(seq![WorkView::Purge(purge)])),
        HousekeeperEvent::Exit => (state, None),
    }
}

/// What one step does: the state after it and the work to hand out, or
/// `None` for the work where the loop ends.
pub open spec fn stepped(state: HousekeeperView, signal: Signal, now: u64, core: Timetable) -> (
    HousekeeperView,
    Option<Seq<WorkView>>,
) {
    match signal {
        Signal::Event(event) => handled(state, event, now, core),
        Signal::Timeout => {
            let (next, works) = expired(state, now, core);
            (next, Some(works))
        },
        Signal::Closed => (state, None),
        Signal::LicenseValidated(expires_in) => (
            HousekeeperView {
                queue: match expires_in {
                    Some(delay) => armed_if_absent(
                        state.queue,
                        later(now, delay),
                        ClassView::ValidateLicense,
                    ),
                    None => state.queue,
                },
                next_metric_update: state.next_metric_update,
            },
            Some(Seq::empty()),
        ),
    }
}

/// The tick that lies `delay` after `now`, held at the last tick there is.
pub fn later_tick(now: u64, delay: u64) -> (tick: u64)
    ensures
        tick == later(now, delay),
{
    now.saturating_add(delay)
}

/// The delay after which a certificate is looked at again: what the renewal
/// answered, or `ACME_RETRY_DELAY` where it failed.
pub fn renewal_delay(renewed: Option<u64>) -> (delay: u64)
    ensures
        delay == (match renewed {
            Some(renew_in) => renew_in,
            None => ACME_RETRY_DELAY,
        }),
{
    match renewed {
        Some(renew_in) => renew_in,
        None => ACME_RETRY_DELAY,
    }
}

/// The event that a worker sends when the certificate of a provider is to be
/// looked at again `delay` ticks after `now`.
pub fn acme_reschedule(provider_id: String, delay: u64, now: u64) -> (event: HousekeeperEvent)
    ensures
        event matches HousekeeperEvent::AcmeReschedule { provider_id: id, renew_at } && id
            == provider_id && renew_at == later(now, delay),
{
    HousekeeperEvent::AcmeReschedule { provider_id, renew_at: later_tick(now, delay) }
}

/// The scheduler's state: the queue, and the tick from which account and
/// domain totals are refreshed again.
pub struct Housekeeper {
    queue: Queue,
    next_metric_update: u64,
}

impl View for Housekeeper {
    type V = HousekeeperView;

    closed spec fn view(&self) -> HousekeeperView {
        HousekeeperView { queue: self.queue@, next_metric_update: self.next_metric_update }
    }
}

impl Housekeeper {
    /// The housekeeper's invariant: its queue is in order of the due ticks.
    pub open spec fn wf(&self) -> bool {
        sorted_by_due(self@.queue)
    }

    /// A housekeeper that starts at `now`: the queue holds the session and
    /// account purges, the purge of each configured store, the metrics push
    /// where it is configured, the metrics calculation (due at once), the
    /// renewal of each initialised certificate provider and the actions of
    /// the enterprise block.
    pub fn start(now: u64, core: &Timetable, renewals: &Vec<AcmeRenewal>) -> (housekeeper: Housekeeper)
        ensures
            housekeeper.wf(),
            housekeeper@.queue == seeded(now, *core, renewals@),
            housekeeper@.next_metric_update == now,
    {
        let mut queue = Queue::new();
        queue.schedule(later_tick(now, core.session_purge_in), ActionClass::Session);
        queue.schedule(later_tick(now, core.account_purge_in), ActionClass::Account);
        let mut idx: usize = 0;
        while idx < core.purge_schedules.len()
            invariant
                idx <= core.purge_schedules@.len(),
                queue.wf(),
                queue@ == armed_stores(
                    armed(
                        armed(Seq::empty(), later(now, core.session_purge_in), ClassView::Session),
                        later(now, core.account_purge_in),
                        ClassView::Account,
                    ),
                    now,
                    core.purge_schedules@,
                    idx as int,
                ),
            decreases core.purge_schedules@.len() - idx,
        {
            queue.schedule(later_tick(now, core.purge_schedules[idx].next_in), ActionClass::Store(idx));
            idx += 1;
        }
        match core.otel_interval {
            Some(interval) => {
                queue.schedule(later_tick(now, interval), ActionClass::OtelMetrics);
            },
            None => {},
        }
        queue.schedule(now, ActionClass::CalculateMetrics);
        let ghost metrics = queue@;
        let mut at: usize = 0;
        while at < renewals.len()
            invariant
                at <= renewals@.len(),
                queue.wf(),
                queue@ == armed_renewals(metrics, now, renewals@, at as int),
            decreases renewals@.len() - at,
        {
            queue.schedule(
                later_tick(now, renewals[at].renew_in),
                ActionClass::Acme(renewals[at].provider_id.clone()),
            );
            at += 1;
        }
        match core.enterprise {
            Some(e) => {
                queue.schedule(later_tick(now, e.license_expires_in), ActionClass::ValidateLicense);
                match e.metrics_store_in {
                    Some(next_in) => {
                        queue.schedule(later_tick(now, next_in), ActionClass::InternalMetrics);
                    },
                    None => {},
                }
                if e.has_metric_alerts {
                    queue.schedule(
                        later_tick(now, METRIC_ALERTS_INTERVAL),
                        ActionClass::AlertMetrics,
                    );
                }
            },
            None => {},
        }
        Housekeeper { queue, next_metric_update: now }
    }

    /// The delay from `now` to the next due tick: zero when that tick has
    /// passed, `LONG_SLUMBER` when nothing is pending.
    pub fn wake_up_time(&self, now: u64) -> (delay: u64)
        ensures
            delay == delay_until_first(self@.queue, now),
    {
        self.queue.wake_up_time(now)
    }

    /// Whether an action of the given class is pending.
    pub fn has_action(&self, event: &ActionClass) -> (found: bool)
        ensures
            found == has_class(self@.queue, event@),
    {
        self.queue.has_action(event)
    }

    /// The due tick of the pending action of the given class, the earliest
    /// one if there are several.
    pub fn due_of(&self, event: &ActionClass) -> (due: Option<u64>)
        ensures
            due == first_due_of(self@.queue, event@),
    {
        self.queue.due_of(event)
    }

    /// The number of pending actions.
    pub fn pending(&self) -> (n: usize)
        ensures
            n == self@.queue.len(),
    {
        self.queue.len()
    }

    /// Arms an action unless one of its class is pending.
    fn schedule_if_absent(&mut self, due: u64, event: ActionClass)
        requires
            old(self).wf(),
        ensures
            final(self).wf(),
            final(self)@.queue == armed_if_absent(old(self)@.queue, due, event@),
            final(self)@.next_metric_update == old(self)@.next_metric_update,
    {
        if !self.queue.has_action(&event) {
            self.queue.schedule(due, event);
        }
    }

    /// Runs one action that was taken from the queue: a recurring action is
    /// armed again, then its work is answered.
    pub fn dispatch(&mut self, action: Action, now: u64, core: &Timetable) -> (work: Option<Work>)
        requires
            old(self).wf(),
        ensures
            final(self).wf(),
            final(self)@ == dispatched(old(self)@, action@.class, now, *core).0,
            work_view(work) == dispatched(old(self)@, action@.class, now, *core).1,
    {
        match action.event {
            ActionClass::Acme(provider_id) => Some(Work::RenewAcme { provider_id }),
            ActionClass::Account => {
                self.queue.schedule(later_tick(now, core.account_purge_in), ActionClass::Account);
                Some(Work::PurgeAccounts)
            },
            ActionClass::Session => {
                self.queue.schedule(later_tick(now, core.session_purge_in), ActionClass::Session);
                Some(Work::PurgeSessions)
            },
            ActionClass::Store(idx) => {
                if idx < core.purge_schedules.len() {
                    let schedule = core.purge_schedules[idx];
                    self.queue.schedule(later_tick(now, schedule.next_in), ActionClass::Store(idx));
                    Some(Work::PurgeStore { idx, store: schedule.store })
                } else {
                    None
                }
            },
            ActionClass::OtelMetrics => {
                match core.otel_interval {
                    Some(interval) => {
                        self.queue.schedule(later_tick(now, interval), ActionClass::OtelMetrics);
                        Some(Work::PushOtelMetrics)
                    },
                    None => None,
                }
            },
            ActionClass::CalculateMetrics => {
                self.queue.schedule(
                    later_tick(now, METRICS_INTERVAL),
                    ActionClass::CalculateMetrics,
                );
                let update_other_metrics = now >= self.next_metric_update;
                if update_other_metrics {
                    self.next_metric_update = later_tick(now, TOTALS_INTERVAL);
                }
                Some(Work::CalculateMetrics { update_other_metrics })
            },
            ActionClass::InternalMetrics => {
                match core.enterprise {
                    Some(Enterprise { metrics_store_in: Some(next_in), .. }) => {
                        self.queue.schedule(later_tick(now, next_in), ActionClass::InternalMetrics);
                        Some(Work::WriteInternalMetrics)
                    },
                    _ => None,
                }
            },
            ActionClass::AlertMetrics => Some(Work::ProcessAlerts),
            ActionClass::ValidateLicense => Some(Work::ValidateLicense),
        }
    }

    /// Runs every action that is due at `now`, each once and the earliest
    /// first, and answers their work in that order. An action that is armed
    /// again for this very tick waits for the next timeout.
    pub fn run_expired(&mut self, now: u64, core: &Timetable) -> (works: Vec<Work>)
        requires
            old(self).wf(),
        ensures
            final(self).wf(),
            final(self)@ == expired(old(self)@, now, *core).0,
            works_view(works@) == expired(old(self)@, now, *core).1,
    {
        let mut works: Vec<Work> = Vec::new();
        let mut budget = self.queue.due_count(now);
        let ghost goal = expired(self@, now, *core);
        assert(works_view(works@) =~= Seq::<WorkView>::empty());
        while budget > 0
            invariant
                self.wf(),
                goal.0 == drained(self@, now, *core, budget as nat).0,
                goal.1 == works_view(works@) + drained(self@, now, *core, budget as nat).1,
            decreases budget,
        {
            let ghost before = self@;
            let ghost done = works_view(works@);
            match self.queue.pop(now) {
                Some(action) => {
                    let work = self.dispatch(action, now, core);
                    let ghost rest = drained(self@, now, *core, (budget - 1) as nat).1;
                    match work {
                        Some(w) => {
                            works.push(w);
                            assert(works_view(works@) =~= done.push(w@));
                            assert(done + (seq![w@] + rest) =~= done.push(w@) + rest);
                        },
                        None => {},
                    }
                    budget -= 1;
                },
                None => {
                    budget = 0;
                },
            }
        }
        assert(goal.1 =~= works_view(works@));
        works
    }

    /// Takes in one control event.
    pub fn handle_event(&mut self, event: HousekeeperEvent, now: u64, core: &Timetable) -> (step: Step)
        requires
            old(self).wf(),
        ensures
            final(self).wf(),
            final(self)@ == handled(old(self)@, event, now, *core).0,
            step@ == handled(old(self)@, event, now, *core).1,
    {
        match event {
            HousekeeperEvent::ReloadSettings => {
                match core.otel_interval {
                    Some(interval) => {
                        self.schedule_if_absent(later_tick(now, interval), ActionClass::OtelMetrics);
                    },
                    None => {},
                }
                match core.enterprise {
                    Some(e) => {
                        self.schedule_if_absent(
                            later_tick(now, e.license_expires_in),
                            ActionClass::ValidateLicense,
                        );
                        match e.metrics_store_in {
                            Some(next_in) => {
                                self.schedule_if_absent(
                                    later_tick(now, next_in),
                                    ActionClass::InternalMetrics,
                                );
                            },
                            None => {},
                        }
                        if e.has_metric_alerts {
                            self.schedule_if_absent(now, ActionClass::AlertMetrics);
                        }
                    },
                    None => {},
                }
                let mut works: Vec<Work> = Vec::new();
                works.push(Work::ReloadAcme);
                assert(works_view(works@) =~= seq![WorkView::ReloadAcme]);
                Step::Continue(works)
            },
            HousekeeperEvent::AcmeReschedule { provider_id, renew_at } => {
                let action = ActionClass::Acme(provider_id);
                self.queue.remove_action(&action);
                self.queue.schedule(renew_at, action);
                let works: Vec<Work> = Vec::new();
                assert(works_view(works@) =~= Seq::<WorkView>::empty());
                Step::Continue(works)
            },
            HousekeeperEvent::Purge(purge) => {
                let mut works: Vec<Work> = Vec::new();
                works.push(Work::Purge(purge));
                assert(works_view(works@) =~= seq![WorkView::Purge(purge)]);
                Step::Continue(works)
            },
            HousekeeperEvent::Exit => Step::Stop,
        }
    }

    /// Takes one step of the housekeeper's loop.
    pub fn step(&mut self, signal: Signal, now: u64, core: &Timetable) -> (step: Step)
        requires
            old(self).wf(),
        ensures
            final(self).wf(),
            final(self)@ == stepped(old(self)@, signal, now, *core).0,
            step@ == stepped(old(self)@, signal, now, *core).1,
            one_per_class(old(self)@.queue) ==> one_per_class(final(self)@.queue),
    {
        proof {
            lemma_step_keeps_one_per_class(self@, signal, now, *core);
        }
        match signal {
            Signal::Event(event) => self.handle_event(event, now, core),
            Signal::Timeout => Step::Continue(self.run_expired(now, core)),
            Signal::Closed => Step::Stop,
            Signal::LicenseValidated(expires_in) => {
                match expires_in {
                    Some(delay) => {
                        self.schedule_if_absent(later_tick(now, delay), ActionClass::ValidateLicense);
                    },
                    None => {},
                }
                let works: Vec<Work> = Vec::new();
                assert(works_view(works@) =~= Seq::<WorkView>::empty());
                Step::Continue(works)
            },
        }
    }
}

/// Entering an action that is due at `floor` or later keeps every action
/// from place `from` on at `floor` or later.
proof fn lemma_armed_none_due_before(
    queue: Seq<ActionView>,
    due: u64,
    class: ClassView,
    from: int,
    floor: u64,
)
    requires
        sorted_by_due(queue),
        none_due_before(queue, from, floor),
        due >= floor,
        from >= 0,
    ensures
        none_due_before(armed(queue, due, class), from, floor),
{
    lemma_slot_for_splits(queue, due);
    let at = slot_for(queue, due);
    let after = armed(queue, due, class);
    assert forall|i: int| from <= i < after.len() && 0 <= i implies (#[trigger] after[i]).due
        >= floor by {
        if i < at {
            assert(after[i] == queue[i]);
        } else if i > at {
            assert(after[i] == queue[i - 1]);
            assert(queue[i - 1].due > due || queue[i - 1].due >= floor);
        }
    }
}

/// What running one action does to a queue in order.
proof fn lemma_dispatched(state: HousekeeperView, class: ClassView, now: u64, core: Timetable)
    requires
        sorted_by_due(state.queue),
    ensures
        sorted_by_due(dispatched(state, class, now, core).0.queue),
        one_per_class(state.queue) && !has_class(state.queue, class) ==> one_per_class(
            dispatched(state, class, now, core).0.queue,
        ),
        forall|other: ClassView|
            has_class(state.queue, other) ==> #[trigger] has_class(
                dispatched(state, class, now, core).0.queue,
                other,
            ),
        forall|other: ClassView|
            other != class ==> #[trigger] first_due_of(
                dispatched(state, class, now, core).0.queue,
                other,
            ) == first_due_of(state.queue, other),
        recurring(class, core) ==> has_class(dispatched(state, class, now, core).0.queue, class),
        forall|from: int|
            from >= 0 && #[trigger] none_due_before(state.queue, from, now) ==> none_due_before(
                dispatched(state, class, now, core).0.queue,
                from,
                now,
            ),
{
    match interval_of(class, core) {
        Some(delay) => {
            lemma_armed(state.queue, later(now, delay), class);
            assert forall|from: int|
                from >= 0 && #[trigger] none_due_before(
                    state.queue,
                    from,
                    now,
                ) implies none_due_before(
                dispatched(state, class, now, core).0.queue,
                from,
                now,
            ) by {
                lemma_armed_none_due_before(state.queue, later(now, delay), class, from, now);
            }
        },
        None => {},
    }
}

/// Running a recurring action arms it again before its work is handed out:
/// the state that comes with the work holds the next occurrence, due
/// `interval_of` ticks after `now` where no other action of the class was
/// pending.
pub proof fn lemma_dispatch_arms_again(
    state: HousekeeperView,
    class: ClassView,
    now: u64,
    core: Timetable,
)
    requires
        sorted_by_due(state.queue),
        recurring(class, core),
    ensures
        dispatched(state, class, now, core).1 is Some,
        has_class(dispatched(state, class, now, core).0.queue, class),
        !has_class(state.queue, class) ==> first_due_of(
            dispatched(state, class, now, core).0.queue,
            class,
        ) == Some(later(now, interval_of(class, core)->0)),
{
    lemma_armed(state.queue, later(now, interval_of(class, core)->0), class);
}

/// Running the due actions keeps the queue in order and one action per class.
proof fn lemma_drained_keeps_order(state: HousekeeperView, now: u64, core: Timetable, budget: nat)
    requires
        sorted_by_due(state.queue),
    ensures
        sorted_by_due(drained(state, now, core, budget).0.queue),
        one_per_class(state.queue) ==> one_per_class(drained(state, now, core, budget).0.queue),
    decreases budget,
{
    if budget == 0 || !first_is_due(state.queue, now) {
    } else {
        let popped = HousekeeperView {
            queue: state.queue.drop_first(),
            next_metric_update: state.next_metric_update,
        };
        lemma_drop_first(state.queue);
        lemma_dispatched(popped, state.queue[0].class, now, core);
        let next = dispatched(popped, state.queue[0].class, now, core).0;
        lemma_drained_keeps_order(next, now, core, (budget - 1) as nat);
    }
}

/// Running the due actions leaves every recurring class pending.
proof fn lemma_drained_keeps_recurring(
    state: HousekeeperView,
    now: u64,
    core: Timetable,
    budget: nat,
    class: ClassView,
)
    requires
        sorted_by_due(state.queue),
        recurring(class, core),
        has_class(state.queue, class),
    ensures
        has_class(drained(state, now, core, budget).0.queue, class),
    decreases budget,
{
    if budget == 0 || !first_is_due(state.queue, now) {
    } else {
        let popped = HousekeeperView {
            queue: state.queue.drop_first(),
            next_metric_update: state.next_metric_update,
        };
        lemma_drop_first(state.queue);
        lemma_dispatched(popped, state.queue[0].class, now, core);
        let next = dispatched(popped, state.queue[0].class, now, core).0;
        if state.queue[0].class != class {
            assert(has_class(popped.queue, class));
        }
        assert(has_class(next.queue, class));
        lemma_drained_keeps_recurring(next, now, core, (budget - 1) as nat, class);
    }
}

/// Running the due actions leaves an action that is not due yet where it is.
proof fn lemma_drained_keeps_later(
    state: HousekeeperView,
    now: u64,
    core: Timetable,
    budget: nat,
    class: ClassView,
    due: u64,
)
    requires
        sorted_by_due(state.queue),
        one_per_class(state.queue),
        first_due_of(state.queue, class) == Some(due),
        due > now,
    ensures
        first_due_of(drained(state, now, core, budget).0.queue, class) == Some(due),
    decreases budget,
{
    if budget == 0 || !first_is_due(state.queue, now) {
    } else {
        let popped = HousekeeperView {
            queue: state.queue.drop_first(),
            next_metric_update: state.next_metric_update,
        };
        lemma_drop_first(state.queue);
        lemma_dispatched(popped, state.queue[0].class, now, core);
        let next = dispatched(popped, state.queue[0].class, now, core).0;
        assert(state.queue[0].class != class);
        assert(first_due_of(popped.queue, class) == Some(due));
        assert(first_due_of(next.queue, class) == Some(due));
        lemma_drained_keeps_later(next, now, core, (budget - 1) as nat, class, due);
    }
}

/// Running the due actions leaves nothing that was due before `now`, where
/// only the first `budget` actions were.
proof fn lemma_drained_nothing_overdue(
    state: HousekeeperView,
    now: u64,
    core: Timetable,
    budget: nat,
)
    requires
        sorted_by_due(state.queue),
        none_due_before(state.queue, budget as int, now),
    ensures
        none_due_before(drained(state, now, core, budget).0.queue, 0, now),
    decreases budget,
{
    if budget == 0 {
    } else if !first_is_due(state.queue, now) {
        assert forall|i: int| 0 <= i < state.queue.len() implies (#[trigger] state.queue[i]).due
            >= now by {
            assert(state.queue[0].due <= state.queue[i].due);
        }
    } else {
        let popped = HousekeeperView {
            queue: state.queue.drop_first(),
            next_metric_update: state.next_metric_update,
        };
        lemma_drop_first(state.queue);
        assert(none_due_before(popped.queue, budget - 1, now)) by {
            assert forall|i: int| budget - 1 <= i < popped.queue.len() && 0 <= i implies (
            #[trigger] popped.queue[i]).due >= now by {
                assert(popped.queue[i] == state.queue[i + 1]);
            }
        }
        lemma_dispatched(popped, state.queue[0].class, now, core);
        let next = dispatched(popped, state.queue[0].class, now, core).0;
        lemma_drained_nothing_overdue(next, now, core, (budget - 1) as nat);
    }
}

/// What arming on a settings reload does to a queue in order.
proof fn lemma_armed_if_absent(queue: Seq<ActionView>, due: u64, class: ClassView)
    requires
        sorted_by_due(queue),
    ensures
        sorted_by_due(armed_if_absent(queue, due, class)),
        one_per_class(queue) ==> one_per_class(armed_if_absent(queue, due, class)),
        forall|other: ClassView|
            has_class(queue, other) ==> #[trigger] has_class(
                armed_if_absent(queue, due, class),
                other,
            ),
        forall|other: ClassView|
            has_class(queue, other) ==> #[trigger] first_due_of(
                armed_if_absent(queue, due, class),
                other,
            ) == first_due_of(queue, other),
{
    if !has_class(queue, class) {
        lemma_armed(queue, due, class);
    }
}

/// What a settings reload does to a queue in order.
proof fn lemma_rearmed(queue: Seq<ActionView>, now: u64, core: Timetable)
    requires
        sorted_by_due(queue),
    ensures
        sorted_by_due(rearmed(queue, now, core)),
        one_per_class(queue) ==> one_per_class(rearmed(queue, now, core)),
        forall|other: ClassView|
            has_class(queue, other) ==> #[trigger] has_class(rearmed(queue, now, core), other),
        forall|other: ClassView|
            has_class(queue, other) ==> #[trigger] first_due_of(rearmed(queue, now, core), other)
                == first_due_of(queue, other),
{
    let otel = match core.otel_interval {
        Some(interval) => armed_if_absent(queue, later(now, interval), ClassView::OtelMetrics),
        None => queue,
    };
    if let Some(interval) = core.otel_interval {
        lemma_armed_if_absent(queue, later(now, interval), ClassView::OtelMetrics);
    }
    if let Some(e) = core.enterprise {
        let licensed = armed_if_absent(
            otel,
            later(now, e.license_expires_in),
            ClassView::ValidateLicense,
        );
        lemma_armed_if_absent(otel, later(now, e.license_expires_in), ClassView::ValidateLicense);
        let stored = match e.metrics_store_in {
            Some(next_in) => armed_if_absent(
                licensed,
                later(now, next_in),
                ClassView::InternalMetrics,
            ),
            None => licensed,
        };
        if let Some(next_in) = e.metrics_store_in {
            lemma_armed_if_absent(licensed, later(now, next_in), ClassView::InternalMetrics);
        }
        if e.has_metric_alerts {
            lemma_armed_if_absent(stored, now, ClassView::AlertMetrics);
        }
        assert forall|other: ClassView| has_class(queue, other) implies #[trigger] has_class(
            rearmed(queue, now, core),
            other,
        ) && first_due_of(rearmed(queue, now, core), other) == first_due_of(queue, other) by {
            assert(has_class(otel, other));
            assert(has_class(licensed, other));
            assert(has_class(stored, other));
            assert(first_due_of(otel, other) == first_due_of(queue, other));
            assert(first_due_of(licensed, other) == first_due_of(queue, other));
            assert(first_due_of(stored, other) == first_due_of(queue, other));
        }
    }
}

/// A step keeps the queue in order, and where it held at most one action of
/// each class it still does.
pub proof fn lemma_step_keeps_one_per_class(
    state: HousekeeperView,
    signal: Signal,
    now: u64,
    core: Timetable,
)
    requires
        sorted_by_due(state.queue),
    ensures
        sorted_by_due(stepped(state, signal, now, core).0.queue),
        one_per_class(state.queue) ==> one_per_class(stepped(state, signal, now, core).0.queue),
{
    match signal {
        Signal::Event(HousekeeperEvent::ReloadSettings) => {
            lemma_rearmed(state.queue, now, core);
        },
        Signal::Event(HousekeeperEvent::AcmeReschedule { provider_id, renew_at }) => {
            let class = ClassView::Acme(provider_id@);
            lemma_without_class(state.queue, class);
            lemma_armed(without_class(state.queue, class), renew_at, class);
        },
        Signal::Event(_) => {},
        Signal::Timeout => {
            lemma_drained_keeps_order(state, now, core, slot_for(state.queue, now) as nat);
        },
        Signal::Closed => {},
        Signal::LicenseValidated(expires_in) => {
            if let Some(delay) = expires_in {
                lemma_armed_if_absent(state.queue, later(now, delay), ClassView::ValidateLicense);
            }
        },
    }
}

/// A recurring action that is pending is pending after every step: when it
/// runs it is armed again, and nothing else takes it out.
pub proof fn lemma_step_keeps_recurring(
    state: HousekeeperView,
    signal: Signal,
    now: u64,
    core: Timetable,
    class: ClassView,
)
    requires
        sorted_by_due(state.queue),
        recurring(class, core),
        has_class(state.queue, class),
    ensures
        has_class(stepped(state, signal, now, core).0.queue, class),
{
    match signal {
        Signal::Event(HousekeeperEvent::ReloadSettings) => {
            lemma_rearmed(state.queue, now, core);
        },
        Signal::Event(HousekeeperEvent::AcmeReschedule { provider_id, renew_at }) => {
            let acme = ClassView::Acme(provider_id@);
            lemma_without_class(state.queue, acme);
            lemma_armed(without_class(state.queue, acme), renew_at, acme);
            assert(has_class(without_class(state.queue, acme), class));
        },
        Signal::Event(_) => {},
        Signal::Timeout => {
            lemma_drained_keeps_recurring(
                state,
                now,
                core,
                slot_for(state.queue, now) as nat,
                class,
            );
        },
        Signal::Closed => {},
        Signal::LicenseValidated(expires_in) => {
            if let Some(delay) = expires_in {
                lemma_armed_if_absent(state.queue, later(now, delay), ClassView::ValidateLicense);
            }
        },
    }
}

/// Whether the signal moves the pending action of the given class: a
/// certificate renewal is moved by the reschedule event of its provider.
pub open spec fn reschedules(signal: Signal, class: ClassView) -> bool {
    signal matches Signal::Event(HousekeeperEvent::AcmeReschedule { provider_id, .. })
        && class == ClassView::Acme(provider_id@)
}

/// No signal but a timeout moves a pending action of another class: after a
/// control event, the end of the channel or a license validation, the action
/// is due at the tick at which it was due before.
pub proof fn lemma_event_keeps_due(
    state: HousekeeperView,
    signal: Signal,
    now: u64,
    core: Timetable,
    class: ClassView,
)
    requires
        sorted_by_due(state.queue),
        has_class(state.queue, class),
        !(signal is Timeout),
        !reschedules(signal, class),
    ensures
        first_due_of(stepped(state, signal, now, core).0.queue, class) == first_due_of(
            state.queue,
            class,
        ),
{
    match signal {
        Signal::Event(HousekeeperEvent::ReloadSettings) => {
            lemma_rearmed(state.queue, now, core);
        },
        Signal::Event(HousekeeperEvent::AcmeReschedule { provider_id, renew_at }) => {
            let acme = ClassView::Acme(provider_id@);
            lemma_without_class(state.queue, acme);
            lemma_without_class_keeps_due(state.queue, acme, class);
            lemma_armed(without_class(state.queue, acme), renew_at, acme);
        },
        Signal::Event(_) => {},
        Signal::Timeout => {},
        Signal::Closed => {},
        Signal::LicenseValidated(expires_in) => {
            if let Some(delay) = expires_in {
                lemma_armed_if_absent(state.queue, later(now, delay), ClassView::ValidateLicense);
            }
        },
    }
}

/// A timeout leaves an action that is not due yet where it is, in a queue
/// with one action per class.
pub proof fn lemma_timeout_keeps_later_due(
    state: HousekeeperView,
    now: u64,
    core: Timetable,
    class: ClassView,
    due: u64,
)
    requires
        sorted_by_due(state.queue),
        one_per_class(state.queue),
        first_due_of(state.queue, class) == Some(due),
        due > now,
    ensures
        first_due_of(stepped(state, Signal::Timeout, now, core).0.queue, class) == Some(due),
{
    lemma_drained_keeps_later(state, now, core, slot_for(state.queue, now) as nat, class, due);
}

/// A timeout runs every action that is overdue: after it, no pending action
/// is due before `now`.
pub proof fn lemma_timeout_leaves_nothing_overdue(state: HousekeeperView, now: u64, core: Timetable)
    requires
        sorted_by_due(state.queue),
    ensures
        none_due_before(stepped(state, Signal::Timeout, now, core).0.queue, 0, now),
{
    lemma_slot_for_splits(state.queue, now);
    lemma_drained_nothing_overdue(state, now, core, slot_for(state.queue, now) as nat);
}

/// Whether no two of the providers have the same id.
pub open spec fn distinct_providers(renewals: Seq<AcmeRenewal>) -> bool {
    forall|i: int, j: int|
        0 <= i < j < renewals.len() ==> (#[trigger] renewals[i]).provider_id@
            != (#[trigger] renewals[j]).provider_id@
}

/// What arming the store purges adds to a queue that holds none.
proof fn lemma_armed_stores(
    queue: Seq<ActionView>,
    now: u64,
    schedules: Seq<PurgeSchedule>,
    upto: int,
)
    requires
        sorted_by_due(queue),
        one_per_class(queue),
        forall|idx: usize| !#[trigger] has_class(queue, ClassView::Store(idx)),
        upto <= usize::MAX,
    ensures
        sorted_by_due(armed_stores(queue, now, schedules, upto)),
        one_per_class(armed_stores(queue, now, schedules, upto)),
        forall|class: ClassView| #[trigger]
            has_class(armed_stores(queue, now, schedules, upto), class) <==> has_class(
                queue,
                class,
            ) || (class matches ClassView::Store(idx) && idx < upto),
    decreases upto,
{
    if upto > 0 {
        let before = armed_stores(queue, now, schedules, upto - 1);
        let store = ClassView::Store((upto - 1) as usize);
        lemma_armed_stores(queue, now, schedules, upto - 1);
        assert(!has_class(before, store));
        lemma_armed(before, later(now, schedules[upto - 1].next_in), store);
    }
}

/// What arming the certificate renewals adds to a queue that holds none.
proof fn lemma_armed_renewals(
    queue: Seq<ActionView>,
    now: u64,
    renewals: Seq<AcmeRenewal>,
    upto: int,
)
    requires
        sorted_by_due(queue),
        one_per_class(queue),
        forall|id: Seq<char>| !#[trigger] has_class(queue, ClassView::Acme(id)),
        distinct_providers(renewals),
        upto <= renewals.len(),
    ensures
        sorted_by_due(armed_renewals(queue, now, renewals, upto)),
        one_per_class(armed_renewals(queue, now, renewals, upto)),
        forall|class: ClassView| #[trigger]
            has_class(armed_renewals(queue, now, renewals, upto), class) <==> has_class(
                queue,
                class,
            ) || (exists|i: int|
                0 <= i < upto && class == ClassView::Acme((#[trigger] renewals[i]).provider_id@)),
    decreases upto,
{
    if upto > 0 {
        let before = armed_renewals(queue, now, renewals, upto - 1);
        let acme = ClassView::Acme(renewals[upto - 1].provider_id@);
        lemma_armed_renewals(queue, now, renewals, upto - 1);
        assert(!has_class(before, acme)) by {
            if has_class(before, acme) {
                let i = choose|i: int|
                    0 <= i < upto - 1 && acme == ClassView::Acme(
                        (#[trigger] renewals[i]).provider_id@,
                    );
                assert(renewals[i].provider_id@ != renewals[upto - 1].provider_id@);
            }
        }
        lemma_armed(before, later(now, renewals[upto - 1].renew_in), acme);
        let after = armed_renewals(queue, now, renewals, upto);
        assert forall|class: ClassView| #[trigger]
            has_class(after, class) <==> has_class(queue, class) || (exists|i: int|
                0 <= i < upto && class == ClassView::Acme(
                    (#[trigger] renewals[i]).provider_id@,
                )) by {
            if has_class(after, class) && !has_class(queue, class) {
                if class == acme {
                    assert(class == ClassView::Acme(renewals[upto - 1].provider_id@));
                } else {
                    assert(has_class(before, class));
                    let i = choose|i: int|
                        0 <= i < upto - 1 && class == ClassView::Acme(
                            (#[trigger] renewals[i]).provider_id@,
                        );
                    assert(0 <= i < upto);
                }
            }
            if exists|i: int|
                0 <= i < upto && class == ClassView::Acme((#[trigger] renewals[i]).provider_id@) {
                let i = choose|i: int|
                    0 <= i < upto && class == ClassView::Acme(
                        (#[trigger] renewals[i]).provider_id@,
                    );
                if i < upto - 1 {
                    assert(has_class(before, class));
                }
            }
            if has_class(queue, class) {
                assert(has_class(before, class));
            }
        }
    }
}

/// A housekeeper starts with its queue in order and with one action per
/// class, where no two of the certificate providers have the same id.
pub proof fn lemma_seeded_one_per_class(now: u64, core: Timetable, renewals: Seq<AcmeRenewal>)
    requires
        distinct_providers(renewals),
    ensures
        sorted_by_due(seeded(now, core, renewals)),
        one_per_class(seeded(now, core, renewals)),
{
    let none = Seq::<ActionView>::empty();
    let session = armed(none, later(now, core.session_purge_in), ClassView::Session);
    lemma_armed(none, later(now, core.session_purge_in), ClassView::Session);
    let account = armed(session, later(now, core.account_purge_in), ClassView::Account);
    assert(!has_class(session, ClassView::Account));
    lemma_armed(session, later(now, core.account_purge_in), ClassView::Account);
    let stores = armed_stores(
        account,
        now,
        core.purge_schedules@,
        core.purge_schedules@.len() as int,
    );
    assert forall|idx: usize| !#[trigger] has_class(account, ClassView::Store(idx)) by {
        assert(!has_class(session, ClassView::Store(idx)));
    }
    assert(core.purge_schedules.len() == core.purge_schedules@.len());
    lemma_armed_stores(account, now, core.purge_schedules@, core.purge_schedules@.len() as int);
    let otel = match core.otel_interval {
        Some(interval) => armed(stores, later(now, interval), ClassView::OtelMetrics),
        None => stores,
    };
    assert(!has_class(account, ClassView::OtelMetrics)) by {
        assert(!has_class(session, ClassView::OtelMetrics));
    }
    assert(!has_class(stores, ClassView::OtelMetrics));
    if let Some(interval) = core.otel_interval {
        lemma_armed(stores, later(now, interval), ClassView::OtelMetrics);
    }
    let metrics = armed(otel, now, ClassView::CalculateMetrics);
    assert(!has_class(account, ClassView::CalculateMetrics)) by {
        assert(!has_class(session, ClassView::CalculateMetrics));
    }
    assert(!has_class(stores, ClassView::CalculateMetrics));
    assert(!has_class(otel, ClassView::CalculateMetrics));
    lemma_armed(otel, now, ClassView::CalculateMetrics);
    assert forall|id: Seq<char>| !#[trigger] has_class(metrics, ClassView::Acme(id)) by {
        let acme = ClassView::Acme(id);
        assert(!has_class(session, acme));
        assert(!has_class(account, acme));
        assert(!has_class(stores, acme));
        assert(!has_class(otel, acme));
    }
    let acme = armed_renewals(metrics, now, renewals, renewals.len() as int);
    lemma_armed_renewals(metrics, now, renewals, renewals.len() as int);
    if let Some(e) = core.enterprise {
        let license = ClassView::ValidateLicense;
        assert(!has_class(acme, license)) by {
            assert(!has_class(session, license));
            assert(!has_class(account, license));
            assert(!has_class(stores, license));
            assert(!has_class(otel, license));
            assert(!has_class(metrics, license));
        }
        let licensed = armed(acme, later(now, e.license_expires_in), license);
        lemma_armed(acme, later(now, e.license_expires_in), license);
        let internal = ClassView::InternalMetrics;
        assert(!has_class(licensed, internal)) by {
            assert(!has_class(session, internal));
            assert(!has_class(account, internal));
            assert(!has_class(stores, internal));
            assert(!has_class(otel, internal));
            assert(!has_class(metrics, internal));
            assert(!has_class(acme, internal));
        }
        let stored = match e.metrics_store_in {
            Some(next_in) => armed(licensed, later(now, next_in), internal),
            None => licensed,
        };
        if let Some(next_in) = e.metrics_store_in {
            lemma_armed(licensed, later(now, next_in), internal);
        }
        let alerts = ClassView::AlertMetrics;
        assert(!has_class(stored, alerts)) by {
            assert(!has_class(session, alerts));
            assert(!has_class(account, alerts));
            assert(!has_class(stores, alerts));
            assert(!has_class(otel, alerts));
            assert(!has_class(metrics, alerts));
            assert(!has_class(acme, alerts));
            assert(!has_class(licensed, alerts));
        }
        if e.has_metric_alerts {
            lemma_armed(stored, later(now, METRIC_ALERTS_INTERVAL), alerts);
        }
    }
}

/// Whether the work is what an action of the class hands out.
pub open spec fn is_work_of(work: WorkView, class: ClassView, core: Timetable) -> bool {
    work_of(class, true, core) == Some(work) || work_of(class, false, core) == Some(work)
}

/// Whether the work of the class is among the work.
pub open spec fn hands_out(works: Seq<WorkView>, class: ClassView, core: Timetable) -> bool {
    exists|k: int| 0 <= k < works.len() && is_work_of(#[trigger] works[k], class, core)
}

/// Running the due actions hands out the work of each of the first `budget`
/// actions that is due.
proof fn lemma_drained_runs_due(
    state: HousekeeperView,
    now: u64,
    core: Timetable,
    budget: nat,
    at: int,
)
    requires
        sorted_by_due(state.queue),
        0 <= at < state.queue.len(),
        at < budget,
        state.queue[at].due <= now,
        work_of(state.queue[at].class, true, core) is Some,
    ensures
        hands_out(drained(state, now, core, budget).1, state.queue[at].class, core),
    decreases budget,
{
    let class = state.queue[at].class;
    assert(state.queue[0].due <= state.queue[at].due);
    let popped = HousekeeperView {
        queue: state.queue.drop_first(),
        next_metric_update: state.next_metric_update,
    };
    let first = state.queue[0].class;
    let (next, work) = dispatched(popped, first, now, core);
    let (last, works) = drained(next, now, core, (budget - 1) as nat);
    let all = drained(state, now, core, budget).1;
    lemma_drop_first(state.queue);
    if at == 0 {
        assert(work is Some);
        assert(all == seq![work->0] + works);
        assert(all[0] == work->0);
        assert(is_work_of(all[0], class, core));
    } else {
        lemma_dispatched(popped, first, now, core);
        assert(popped.queue[at - 1] == state.queue[at]);
        match interval_of(first, core) {
            Some(delay) => {
                lemma_slot_for_splits(popped.queue, later(now, delay));
                let slot = slot_for(popped.queue, later(now, delay));
                if slot <= at - 1 {
                    assert(popped.queue[at - 1].due > later(now, delay));
                }
                assert(next.queue == popped.queue.insert(
                    slot,
                    ActionView { due: later(now, delay), class: first },
                ));
            },
            None => {
                assert(next.queue == popped.queue);
            },
        }
        assert(next.queue.len() >= popped.queue.len());
        assert(next.queue[at - 1] == state.queue[at]);
        lemma_drained_runs_due(next, now, core, (budget - 1) as nat, at - 1);
        let k = choose|k: int| 0 <= k < works.len() && is_work_of(#[trigger] works[k], class, core);
        match work {
            Some(w) => {
                assert(all == seq![w] + works);
                assert(all[k + 1] == works[k]);
            },
            None => {
                assert(all == works);
            },
        }
    }
}

/// A timeout hands out the work of every action that is due at `now`: no
/// occurrence of a class is skipped. The work is missing only where the core
/// no longer configures what the action is for.
pub proof fn lemma_timeout_runs_due(state: HousekeeperView, now: u64, core: Timetable, at: int)
    requires
        sorted_by_due(state.queue),
        0 <= at < state.queue.len(),
        state.queue[at].due <= now,
        work_of(state.queue[at].class, true, core) is Some,
    ensures
        stepped(state, Signal::Timeout, now, core).1 matches Some(works) && hands_out(
            works,
            state.queue[at].class,
            core,
        ),
{
    lemma_slot_for_splits(state.queue, now);
    lemma_drained_runs_due(state, now, core, slot_for(state.queue, now) as nat, at);
}

} // verus!
