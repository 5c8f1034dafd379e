use jmap::housekeeper::{
    acme_reschedule, later_tick, renewal_delay, AcmeRenewal, Enterprise, Housekeeper,
    HousekeeperEvent, PurgeSchedule, PurgeStore, PurgeType, Signal, Step, Timetable, Work,
    ACME_RETRY_DELAY, METRICS_INTERVAL, METRIC_ALERTS_INTERVAL, TOTALS_INTERVAL,
};
use jmap::queue::{ActionClass, LONG_SLUMBER};

const T: u64 = 1_000_000;

fn plain(session: u64, account: u64) -> Timetable {
    Timetable {
        session_purge_in: session,
        account_purge_in: account,
        purge_schedules: Vec::new(),
        otel_interval: None,
        enterprise: None,
    }
}

fn works(step: Step) -> Vec<Work> {
    match step {
        Step::Continue(works) => works,
        Step::Stop => panic!("the housekeeper stopped"),
    }
}

#[test]
fn session_runs_before_account() {
    let core = plain(10, 20);
    let mut housekeeper = Housekeeper::start(T, &core, &Vec::new());
    assert_eq!(housekeeper.wake_up_time(T), 0);
    assert_eq!(
        works(housekeeper.step(Signal::Timeout, T, &core)),
        vec![Work::CalculateMetrics { update_other_metrics: true }]
    );
    assert_eq!(housekeeper.wake_up_time(T), 10);
    assert_eq!(works(housekeeper.step(Signal::Timeout, T + 9, &core)), vec![]);
    assert_eq!(works(housekeeper.step(Signal::Timeout, T + 10, &core)), vec![Work::PurgeSessions]);
    assert_eq!(housekeeper.wake_up_time(T + 10), 10);
    assert_eq!(works(housekeeper.step(Signal::Timeout, T + 20, &core)), vec![
        Work::PurgeAccounts,
        Work::PurgeSessions
    ]);
}

#[test]
fn one_timeout_runs_everything_overdue_in_order() {
    let core = plain(10, 20);
    let mut housekeeper = Housekeeper::start(T, &core, &Vec::new());
    let far = plain(5_000, 6_000);
    assert_eq!(works(housekeeper.step(Signal::Timeout, T + 25, &far)), vec![
        Work::CalculateMetrics { update_other_metrics: true },
        Work::PurgeSessions,
        Work::PurgeAccounts,
    ]);
    assert_eq!(housekeeper.due_of(&ActionClass::Session), Some(T + 25 + 5_000));
    assert_eq!(housekeeper.due_of(&ActionClass::Account), Some(T + 25 + 6_000));
    assert_eq!(housekeeper.due_of(&ActionClass::CalculateMetrics), Some(T + 25 + METRICS_INTERVAL));
    assert_eq!(housekeeper.pending(), 3);
}

#[test]
fn acme_reschedule_replaces_the_entry() {
    let core = plain(10_000, 20_000);
    let renewals = vec![AcmeRenewal { provider_id: "mx".to_string(), renew_in: 100 }];
    let mut housekeeper = Housekeeper::start(T, &core, &renewals);
    let acme = ActionClass::Acme("mx".to_string());
    assert_eq!(housekeeper.due_of(&acme), Some(T + 100));
    let before = housekeeper.pending();
    let event = HousekeeperEvent::AcmeReschedule { provider_id: "mx".to_string(), renew_at: T + 500 };
    assert_eq!(works(housekeeper.step(Signal::Event(event), T + 50, &core)), vec![]);
    assert_eq!(housekeeper.pending(), before);
    assert_eq!(housekeeper.due_of(&acme), Some(T + 500));
    assert_eq!(works(housekeeper.step(Signal::Timeout, T + 100, &core)), vec![
        Work::CalculateMetrics { update_other_metrics: true }
    ]);
    assert!(housekeeper.has_action(&acme));
}

#[test]
fn acme_renewal_hands_out_work_and_waits_for_the_event() {
    let core = plain(10_000, 20_000);
    let renewals = vec![AcmeRenewal { provider_id: "mx".to_string(), renew_in: 0 }];
    let mut housekeeper = Housekeeper::start(T, &core, &renewals);
    let handed = works(housekeeper.step(Signal::Timeout, T, &core));
    assert_eq!(handed, vec![
        Work::CalculateMetrics { update_other_metrics: true },
        Work::RenewAcme { provider_id: "mx".to_string() },
    ]);
    assert!(!housekeeper.has_action(&ActionClass::Acme("mx".to_string())));
    let failed = acme_reschedule("mx".to_string(), renewal_delay(None), T + 3);
    assert_eq!(failed, HousekeeperEvent::AcmeReschedule {
        provider_id: "mx".to_string(),
        renew_at: T + 3 + ACME_RETRY_DELAY
    });
    housekeeper.step(Signal::Event(failed), T + 4, &core);
    assert_eq!(
        housekeeper.due_of(&ActionClass::Acme("mx".to_string())),
        Some(T + 3 + 3_600_000)
    );
    assert_eq!(renewal_delay(Some(42)), 42);
}

#[test]
fn start_seeds_every_configured_action() {
    let core = Timetable {
        session_purge_in: 1,
        account_purge_in: 2,
        purge_schedules: vec![
            PurgeSchedule { next_in: 30, store: PurgeStore::Data },
            PurgeSchedule { next_in: 40, store: PurgeStore::Blobs },
        ],
        otel_interval: Some(50),
        enterprise: Some(Enterprise {
            license_expires_in: 60,
            metrics_store_in: Some(70),
            has_metric_alerts: true,
        }),
    };
    let renewals = vec![
        AcmeRenewal { provider_id: "a".to_string(), renew_in: 80 },
        AcmeRenewal { provider_id: "b".to_string(), renew_in: 90 },
    ];
    let housekeeper = Housekeeper::start(T, &core, &renewals);
    assert_eq!(housekeeper.pending(), 11);
    assert_eq!(housekeeper.due_of(&ActionClass::Session), Some(T + 1));
    assert_eq!(housekeeper.due_of(&ActionClass::Account), Some(T + 2));
    assert_eq!(housekeeper.due_of(&ActionClass::Store(0)), Some(T + 30));
    assert_eq!(housekeeper.due_of(&ActionClass::Store(1)), Some(T + 40));
    assert_eq!(housekeeper.due_of(&ActionClass::OtelMetrics), Some(T + 50));
    assert_eq!(housekeeper.due_of(&ActionClass::CalculateMetrics), Some(T));
    assert_eq!(housekeeper.due_of(&ActionClass::Acme("a".to_string())), Some(T + 80));
    assert_eq!(housekeeper.due_of(&ActionClass::Acme("b".to_string())), Some(T + 90));
    assert_eq!(housekeeper.due_of(&ActionClass::ValidateLicense), Some(T + 60));
    assert_eq!(housekeeper.due_of(&ActionClass::InternalMetrics), Some(T + 70));
    assert_eq!(housekeeper.due_of(&ActionClass::AlertMetrics), Some(T + METRIC_ALERTS_INTERVAL));
}

#[test]
fn store_purge_is_armed_again_with_its_work() {
    let core = Timetable {
        session_purge_in: 9_000,
        account_purge_in: 9_000,
        purge_schedules: vec![PurgeSchedule { next_in: 30, store: PurgeStore::Lookup }],
        otel_interval: Some(7),
        enterprise: None,
    };
    let mut housekeeper = Housekeeper::start(T, &core, &Vec::new());
    let handed = works(housekeeper.step(Signal::Timeout, T + 30, &core));
    assert_eq!(handed, vec![
        Work::CalculateMetrics { update_other_metrics: true },
        Work::PushOtelMetrics,
        Work::PurgeStore { idx: 0, store: PurgeStore::Lookup },
    ]);
    assert_eq!(housekeeper.due_of(&ActionClass::Store(0)), Some(T + 60));
    assert_eq!(housekeeper.due_of(&ActionClass::OtelMetrics), Some(T + 37));
}

#[test]
fn a_store_that_is_gone_is_not_armed_again() {
    let core = Timetable {
        session_purge_in: 9_000,
        account_purge_in: 9_000,
        purge_schedules: vec![PurgeSchedule { next_in: 30, store: PurgeStore::Data }],
        otel_interval: Some(40),
        enterprise: None,
    };
    let mut housekeeper = Housekeeper::start(T, &core, &Vec::new());
    let bare = plain(9_000, 9_000);
    let handed = works(housekeeper.step(Signal::Timeout, T + 40, &bare));
    assert_eq!(handed, vec![Work::CalculateMetrics { update_other_metrics: true }]);
    assert!(!housekeeper.has_action(&ActionClass::Store(0)));
    assert!(!housekeeper.has_action(&ActionClass::OtelMetrics));
}

#[test]
fn totals_are_refreshed_once_a_day() {
    let core = plain(LONG_SLUMBER * 10, LONG_SLUMBER * 10);
    let mut housekeeper = Housekeeper::start(T, &core, &Vec::new());
    assert_eq!(works(housekeeper.step(Signal::Timeout, T, &core)), vec![
        Work::CalculateMetrics { update_other_metrics: true }
    ]);
    assert_eq!(housekeeper.due_of(&ActionClass::CalculateMetrics), Some(T + 300_000));
    assert_eq!(works(housekeeper.step(Signal::Timeout, T + METRICS_INTERVAL, &core)), vec![
        Work::CalculateMetrics { update_other_metrics: false }
    ]);
    assert_eq!(works(housekeeper.step(Signal::Timeout, T + TOTALS_INTERVAL, &core)), vec![
        Work::CalculateMetrics { update_other_metrics: true }
    ]);
    assert_eq!(TOTALS_INTERVAL, 86_400_000);
}

#[test]
fn reload_settings_arms_what_is_missing_only() {
    let core = plain(9_000, 9_000);
    let mut housekeeper = Housekeeper::start(T, &core, &Vec::new());
    let enterprise = Timetable {
        session_purge_in: 9_000,
        account_purge_in: 9_000,
        purge_schedules: Vec::new(),
        otel_interval: Some(500),
        enterprise: Some(Enterprise {
            license_expires_in: 600,
            metrics_store_in: Some(700),
            has_metric_alerts: true,
        }),
    };
    let first = works(housekeeper.step(
        Signal::Event(HousekeeperEvent::ReloadSettings),
        T + 1,
        &enterprise,
    ));
    assert_eq!(first, vec![Work::ReloadAcme]);
    assert_eq!(housekeeper.due_of(&ActionClass::OtelMetrics), Some(T + 501));
    assert_eq!(housekeeper.due_of(&ActionClass::ValidateLicense), Some(T + 601));
    assert_eq!(housekeeper.due_of(&ActionClass::InternalMetrics), Some(T + 701));
    assert_eq!(housekeeper.due_of(&ActionClass::AlertMetrics), Some(T + 1));
    let pending = housekeeper.pending();
    housekeeper.step(Signal::Event(HousekeeperEvent::ReloadSettings), T + 2, &enterprise);
    assert_eq!(housekeeper.pending(), pending);
    assert_eq!(housekeeper.due_of(&ActionClass::OtelMetrics), Some(T + 501));
    assert_eq!(housekeeper.due_of(&ActionClass::Session), Some(T + 9_000));
}

#[test]
fn purge_event_leaves_the_queue_alone() {
    let core = plain(10, 20);
    let mut housekeeper = Housekeeper::start(T, &core, &Vec::new());
    let pending = housekeeper.pending();
    for purge in [
        PurgeType::Data(0),
        PurgeType::Blobs { store: 0, blob_store: 2 },
        PurgeType::Lookup(1),
        PurgeType::Account(Some(7)),
        PurgeType::Account(None),
    ] {
        let handed = works(housekeeper.step(Signal::Event(HousekeeperEvent::Purge(purge)), T + 50, &core));
        assert_eq!(handed, vec![Work::Purge(purge)]);
    }
    assert_eq!(housekeeper.pending(), pending);
    assert_eq!(housekeeper.due_of(&ActionClass::Session), Some(T + 10));
}

#[test]
fn exit_and_closed_channel_stop_the_loop() {
    let core = plain(10, 20);
    let mut housekeeper = Housekeeper::start(T, &core, &Vec::new());
    assert_eq!(housekeeper.step(Signal::Event(HousekeeperEvent::Exit), T, &core), Step::Stop);
    assert_eq!(housekeeper.step(Signal::Closed, T, &core), Step::Stop);
    assert_eq!(housekeeper.pending(), 3);
}

#[test]
fn license_validation_is_armed_by_its_outcome() {
    let core = Timetable {
        session_purge_in: 9_000,
        account_purge_in: 9_000,
        purge_schedules: Vec::new(),
        otel_interval: None,
        enterprise: Some(Enterprise {
            license_expires_in: 5,
            metrics_store_in: None,
            has_metric_alerts: false,
        }),
    };
    let mut housekeeper = Housekeeper::start(T, &core, &Vec::new());
    let handed = works(housekeeper.step(Signal::Timeout, T + 5, &core));
    assert_eq!(handed, vec![
        Work::CalculateMetrics { update_other_metrics: true },
        Work::ValidateLicense,
    ]);
    assert!(!housekeeper.has_action(&ActionClass::ValidateLicense));
    housekeeper.step(Signal::LicenseValidated(None), T + 6, &core);
    assert!(!housekeeper.has_action(&ActionClass::ValidateLicense));
    housekeeper.step(Signal::LicenseValidated(Some(1_000)), T + 7, &core);
    assert_eq!(housekeeper.due_of(&ActionClass::ValidateLicense), Some(T + 1_007));
    housekeeper.step(Signal::LicenseValidated(Some(9)), T + 8, &core);
    assert_eq!(housekeeper.due_of(&ActionClass::ValidateLicense), Some(T + 1_007));
}

#[test]
fn alerts_run_without_being_armed_again() {
    let core = Timetable {
        session_purge_in: 9_000_000,
        account_purge_in: 9_000_000,
        purge_schedules: Vec::new(),
        otel_interval: None,
        enterprise: Some(Enterprise {
            license_expires_in: 9_000_000,
            metrics_store_in: Some(100),
            has_metric_alerts: true,
        }),
    };
    let mut housekeeper = Housekeeper::start(T, &core, &Vec::new());
    housekeeper.step(Signal::Timeout, T, &core);
    let handed = works(housekeeper.step(Signal::Timeout, T + METRIC_ALERTS_INTERVAL, &core));
    assert_eq!(handed, vec![
        Work::WriteInternalMetrics,
        Work::ProcessAlerts,
        Work::CalculateMetrics { update_other_metrics: false },
    ]);
    assert!(!housekeeper.has_action(&ActionClass::AlertMetrics));
    assert_eq!(
        housekeeper.due_of(&ActionClass::InternalMetrics),
        Some(T + METRIC_ALERTS_INTERVAL + 100)
    );
}

#[test]
fn a_zero_delay_waits_for_the_next_timeout() {
    let core = plain(0, 9_000);
    let mut housekeeper = Housekeeper::start(T, &core, &Vec::new());
    let handed = works(housekeeper.step(Signal::Timeout, T, &core));
    assert_eq!(handed, vec![
        Work::PurgeSessions,
        Work::CalculateMetrics { update_other_metrics: true },
    ]);
    assert_eq!(housekeeper.wake_up_time(T), 0);
    assert_eq!(works(housekeeper.step(Signal::Timeout, T, &core)), vec![Work::PurgeSessions]);
}

#[test]
fn later_tick_stops_at_the_last_tick() {
    assert_eq!(later_tick(5, 7), 12);
    assert_eq!(later_tick(u64::MAX - 1, 7), u64::MAX);
    assert_eq!(later_tick(u64::MAX, 0), u64::MAX);
}
