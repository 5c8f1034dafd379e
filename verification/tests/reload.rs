use jmap::housekeeper::HousekeeperEvent;
use jmap::reload::{
    notified, AccessToken, ManageError, ManageReload, Method, Permission, Reload, ReloadEffects,
    ReloadResult, Server, UpdateResource,
};

fn path(segments: &[&str]) -> Vec<String> {
    segments.iter().map(|s| s.to_string()).collect()
}

fn admin() -> AccessToken {
    AccessToken {
        permissions: vec![
            Permission::SettingsReload,
            Permission::UpdateSpamFilter,
            Permission::UpdateWebadmin,
        ],
    }
}

fn report(core: Option<&str>, has_tracers: bool) -> ReloadResult<String> {
    ReloadResult { new_core: core.map(|c| c.to_string()), has_tracers }
}

#[test]
fn reload_installs_and_bumps_once() {
    let mut server = Server::new("old".to_string());
    let asked = server.handle_manage_reload(Method::Get, &path(&["reload"]), false, &admin());
    assert_eq!(asked, Ok(Reload::Full { dry_run: false }));
    let effects = server.reloaded(asked.unwrap(), report(Some("new"), true));
    assert_eq!(effects, ReloadEffects { apply_tracers: true, notify_housekeeper: true });
    assert_eq!(server.load(), "new");
    assert_eq!(server.get_config_version(), 1);
    assert_eq!(server.get_blocked_version(), 0);
    assert_eq!(notified(effects, true), Ok(()));
}

#[test]
fn dry_run_changes_nothing() {
    let mut server = Server::new("old".to_string());
    let asked = server.handle_manage_reload(Method::Get, &path(&["reload"]), true, &admin());
    assert_eq!(asked, Ok(Reload::Full { dry_run: true }));
    let effects = server.reloaded(asked.unwrap(), report(Some("new"), true));
    assert_eq!(effects, ReloadEffects { apply_tracers: false, notify_housekeeper: false });
    assert_eq!(server.load(), "old");
    assert_eq!(server.get_config_version(), 0);
    assert_eq!(notified(effects, false), Ok(()));
}

#[test]
fn unusable_configuration_keeps_the_core() {
    let mut server = Server::new("old".to_string());
    let effects = server.reloaded(Reload::Full { dry_run: false }, report(None, false));
    assert_eq!(effects, ReloadEffects { apply_tracers: false, notify_housekeeper: true });
    assert_eq!(server.load(), "old");
    assert_eq!(server.get_config_version(), 0);
}

#[test]
fn failed_notice_is_a_thread_error_and_the_swap_stays() {
    let mut server = Server::new("old".to_string());
    let effects = server.reloaded(Reload::Full { dry_run: false }, report(Some("new"), false));
    assert_eq!(notified(effects, false), Err(ManageError::ThreadError));
    assert_eq!(server.load(), "new");
    assert_eq!(server.get_config_version(), 1);
}

#[test]
fn lookup_reload_swaps_without_a_version() {
    let mut server = Server::new("old".to_string());
    let asked = server.handle_manage_reload(Method::Get, &path(&["reload", "lookup"]), false, &admin());
    assert_eq!(asked, Ok(Reload::Lookup));
    let effects = server.reloaded(Reload::Lookup, report(Some("new"), true));
    assert_eq!(effects, ReloadEffects { apply_tracers: false, notify_housekeeper: false });
    assert_eq!(server.load(), "new");
    assert_eq!(server.get_config_version(), 0);
}

#[test]
fn certificate_reload_touches_nothing() {
    let mut server = Server::new("old".to_string());
    let asked =
        server.handle_manage_reload(Method::Get, &path(&["reload", "certificate"]), false, &admin());
    assert_eq!(asked, Ok(Reload::Certificate));
    server.reloaded(Reload::Certificate, report(Some("new"), true));
    assert_eq!(server.load(), "old");
    assert_eq!(server.get_config_version(), 0);
    assert_eq!(server.get_blocked_version(), 0);
}

#[test]
fn blocked_ip_reload_bumps_its_own_version() {
    let mut server = Server::new("old".to_string());
    let asked = server.handle_manage_reload(
        Method::Get,
        &path(&["reload", "server.blocked-ip"]),
        false,
        &admin(),
    );
    assert_eq!(asked, Ok(Reload::BlockedIp));
    server.reloaded(Reload::BlockedIp, report(None, false));
    server.reloaded(Reload::BlockedIp, report(Some("ignored"), false));
    assert_eq!(server.get_blocked_version(), 2);
    assert_eq!(server.get_config_version(), 0);
    assert_eq!(server.load(), "old");
}

#[test]
fn reload_needs_its_permission_and_get() {
    let server = Server::new(0u32);
    let nobody = AccessToken { permissions: vec![Permission::UpdateWebadmin] };
    assert_eq!(
        server.handle_manage_reload(Method::Get, &path(&["reload"]), false, &nobody),
        Err(ManageError::Forbidden(Permission::SettingsReload))
    );
    assert_eq!(
        server.handle_manage_reload(Method::Post, &path(&["reload"]), false, &nobody),
        Err(ManageError::Forbidden(Permission::SettingsReload))
    );
    assert_eq!(
        server.handle_manage_reload(Method::Post, &path(&["reload", "lookup"]), false, &admin()),
        Err(ManageError::NotFound)
    );
    assert_eq!(
        server.handle_manage_reload(Method::Get, &path(&["reload"]), true, &admin()),
        Ok(Reload::Full { dry_run: true })
    );
    assert_eq!(
        server.handle_manage_reload(Method::Get, &path(&[]), false, &admin()),
        Ok(Reload::Full { dry_run: false })
    );
}

#[test]
fn unknown_resource_under_reload_is_not_found() {
    let server = Server::new(0u32);
    for unknown in ["anything", "", "Lookup", "certificates", "server.blocked-ip.v6"] {
        assert_eq!(
            server.handle_manage_reload(Method::Get, &path(&["reload", unknown]), false, &admin()),
            Err(ManageError::NotFound)
        );
        assert_eq!(
            server.handle_manage_reload(Method::Get, &path(&["reload", unknown]), true, &admin()),
            Err(ManageError::NotFound)
        );
    }
    assert_eq!(
        server.handle_manage_reload(Method::Get, &path(&["reload", "lookup", "more"]), false, &admin()),
        Ok(Reload::Lookup)
    );
}

#[test]
fn certificate_renewal_always_moves_the_version_on() {
    let mut server = Server::new("core".to_string());
    let renewed = server.acme_renewed("mx".to_string(), Some(500), 1_000);
    assert_eq!(renewed, HousekeeperEvent::AcmeReschedule {
        provider_id: "mx".to_string(),
        renew_at: 1_500
    });
    assert_eq!(server.get_config_version(), 1);
    let failed = server.acme_renewed("mx".to_string(), None, 2_000);
    assert_eq!(failed, HousekeeperEvent::AcmeReschedule {
        provider_id: "mx".to_string(),
        renew_at: 2_000 + 3_600_000
    });
    assert_eq!(server.get_config_version(), 2);
    assert_eq!(server.get_blocked_version(), 0);
    assert_eq!(server.load(), "core");
}

#[test]
fn update_routes_before_it_asks_for_permission() {
    let server = Server::new(0u32);
    let reloader = AccessToken { permissions: vec![Permission::SettingsReload] };
    assert_eq!(
        server.handle_manage_update(Method::Get, &path(&["update", "spam-filter"]), &admin()),
        Ok(UpdateResource::SpamFilter)
    );
    assert_eq!(
        server.handle_manage_update(Method::Get, &path(&["update", "webadmin"]), &admin()),
        Ok(UpdateResource::Webadmin)
    );
    assert_eq!(
        server.handle_manage_update(Method::Get, &path(&["update", "spam-filter"]), &reloader),
        Err(ManageError::Forbidden(Permission::UpdateSpamFilter))
    );
    assert_eq!(
        server.handle_manage_update(Method::Get, &path(&["update", "webadmin"]), &reloader),
        Err(ManageError::Forbidden(Permission::UpdateWebadmin))
    );
    assert_eq!(
        server.handle_manage_update(Method::Get, &path(&["update", "other"]), &reloader),
        Err(ManageError::NotFound)
    );
    assert_eq!(
        server.handle_manage_update(Method::Delete, &path(&["update", "webadmin"]), &admin()),
        Err(ManageError::NotFound)
    );
    assert_eq!(
        server.handle_manage_update(Method::Get, &path(&["update"]), &admin()),
        Err(ManageError::NotFound)
    );
}

#[test]
fn versions_grow_by_one() {
    let mut server = Server::new(0u8);
    for expected in 1..=5u64 {
        server.increment_config_version();
        assert_eq!(server.get_config_version(), expected);
    }
    server.increment_blocked_version();
    assert_eq!(server.get_blocked_version(), 1);
    assert_eq!(server.get_config_version(), 5);
    server.store(9);
    assert_eq!(*server.load(), 9);
    assert_eq!(server.get_config_version(), 5);
}

#[test]
fn license_reload_installs_and_bumps() {
    let mut server = Server::new("old".to_string());
    server.license_reloaded(None);
    assert_eq!(server.get_config_version(), 0);
    server.license_reloaded(Some("licensed".to_string()));
    assert_eq!(server.load(), "licensed");
    assert_eq!(server.get_config_version(), 1);
}

#[test]
fn token_grants_what_it_lists() {
    let token = AccessToken { permissions: vec![Permission::UpdateSpamFilter] };
    assert!(token.has_permission(Permission::UpdateSpamFilter));
    assert!(!token.has_permission(Permission::SettingsReload));
    assert!(!AccessToken { permissions: Vec::new() }.has_permission(Permission::UpdateWebadmin));
}
