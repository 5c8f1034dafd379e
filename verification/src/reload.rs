//! The protocol that installs a reloaded configuration.
//!
//! The server holds the shared core, an immutable snapshot that readers load
//! whole, and two version counters that tell pollers when to drop what they
//! have cached. A management request is taken in two steps: first it is
//! decided which reload the request asks for, then, once the reload has run,
//! what of its report is installed and who is told.
use vstd::prelude::*;
use crate::housekeeper::{acme_reschedule, later, renewal_delay, HousekeeperEvent, ACME_RETRY_DELAY};

verus! {

/// The method of a management request.
#[derive(Clone, Copy, Debug, PartialEq, Eq, Structural)]
pub enum Method {
    Get,
    Post,
    Put,
    Delete,
    Other,
}

/// A permission that a management request needs.
#[derive(Clone, Copy, Debug, PartialEq, Eq, Structural)]
pub enum Permission {
    SettingsReload,
    UpdateSpamFilter,
    UpdateWebadmin,
}

/// What the caller of a management request is allowed to do.
#[derive(Debug)]
pub struct AccessToken {
    pub permissions: Vec<Permission>,
}

impl AccessToken {
    /// Whether the token grants the permission.
    pub fn has_permission(&self, permission: Permission) -> (granted: bool)
        ensures
            granted == self.permissions@.contains(permission),
    {
        let mut at: usize = 0;
        while at < self.permissions.len()
            invariant
                at <= self.permissions@.len(),
                forall|i: int| 0 <= i < at ==> self.permissions@[i] != permission,
            decreases self.permissions@.len() - at,
        {
            if self.permissions[at] == permission {
                assert(self.permissions@[at as int] == permission);
                return true;
            }
            at += 1;
        }
        false
    }
}

/// Why a management request was turned down.
#[derive(Clone, Copy, Debug, PartialEq, Eq, Structural)]
pub enum ManageError {
    /// The token lacks the permission.
    Forbidden(Permission),
    /// No such resource.
    NotFound,
    /// The housekeeper could not be told of the new settings.
    ThreadError,
}

/// The reload that a request asks for.
#[derive(Clone, Copy, Debug, PartialEq, Eq, Structural)]
pub enum Reload {
    /// The lookup tables only.
    Lookup,
    /// The certificates only.
    Certificate,
    /// The blocked addresses only.
    BlockedIp,
    /// Everything; `dry_run` asks for the report alone.
    Full { dry_run: bool },
}

/// The update that a request asks for.
#[derive(Clone, Copy, Debug, PartialEq, Eq, Structural)]
pub enum UpdateResource {
    SpamFilter,
    Webadmin,
}

/// What of a reload's report the protocol looks at.
#[derive(Debug)]
pub struct ReloadResult<C> {
    /// The new snapshot, where the new configuration is usable.
    pub new_core: Option<C>,
    /// Whether the reload produced tracers.
    pub has_tracers: bool,
}

/// What is left to do once the report of a reload was taken in.
#[derive(Clone, Copy, Debug, PartialEq, Eq, Structural)]
pub struct ReloadEffects {
    /// Whether the tracers of the report are to be applied.
    pub apply_tracers: bool,
    /// Whether `ReloadSettings` is to be sent to the housekeeper.
    pub notify_housekeeper: bool,
}

/// The second segment of the path, which names the resource.
pub open spec fn resource(path: Seq<String>) -> Option<Seq<char>> {
    if path.len() > 1 {
        Some(path[1]@)
    } else {
        None
    }
}

/// The reload that a request asks for, or the reason why it is turned down:
/// without the permission to reload settings every request is `Forbidden`;
/// only `GET` is served; a path without a resource asks for a full reload,
/// each of the three known resources for its partial reload, and any other
/// resource is `NotFound`.
pub open spec fn reload_asked(
    method: Method,
    path: Seq<String>,
    dry_run: bool,
    permissions: Seq<Permission>,
) -> Result<Reload, ManageError> {
    if !permissions.contains(Permission::SettingsReload) {
        Err(ManageError::Forbidden(Permission::SettingsReload))
    } else if method != Method::Get {
        Err(ManageError::NotFound)
    } else if resource(path) == Some("lookup"@) {
        Ok(Reload::Lookup)
    } else if resource(path) == Some("certificate"@) {
        Ok(Reload::Certificate)
    } else if resource(path) == Some("server.blocked-ip"@) {
        Ok(Reload::BlockedIp)
    } else if resource(path) is None {
        Ok(Reload::Full { dry_run })
    } else {
        Err(ManageError::NotFound)
    }
}

/// The update that a request asks for, or the reason why it is turned down:
/// an unknown resource or method is `NotFound`, and a known one needs its
/// permission.
pub open spec fn update_asked(method: Method, path: Seq<String>, permissions: Seq<Permission>) -> Result<
    UpdateResource,
    ManageError,
> {
    if method == Method::Get && resource(path) == Some("spam-filter"@) {
        if permissions.contains(Permission::UpdateSpamFilter) {
            Ok(UpdateResource::SpamFilter)
        } else {
            Err(ManageError::Forbidden(Permission::UpdateSpamFilter))
        }
    } else if method == Method::Get && resource(path) == Some("webadmin"@) {
        if permissions.contains(Permission::UpdateWebadmin) {
            Ok(UpdateResource::Webadmin)
        } else {
            Err(ManageError::Forbidden(Permission::UpdateWebadmin))
        }
    } else {
        Err(ManageError::NotFound)
    }
}

/// The version that follows a version. The count starts over after the last
/// number there is.
pub open spec fn bumped(version: u64) -> u64 {
    if version == u64::MAX {
        0
    } else {
        (version + 1) as u64
    }
}

/// Whether a reload installs its new snapshot: a lookup reload and a full
/// reload that is no dry run do, where the report holds one.
pub open spec fn installs(reload: Reload, has_new_core: bool) -> bool {
    has_new_core && (reload == Reload::Lookup || reload == (Reload::Full { dry_run: false }))
}

/// Whether a reload moves the configuration version on: a full reload that
/// is no dry run does, where the report holds a new snapshot.
pub open spec fn bumps_config(reload: Reload, has_new_core: bool) -> bool {
    has_new_core && reload == (Reload::Full { dry_run: false })
}

/// Whether a reload moves the version of the blocked addresses on.
pub open spec fn bumps_blocked_ip(reload: Reload) -> bool {
    reload == Reload::BlockedIp
}

/// What is left to do after a reload: a full reload that is no dry run
/// applies the tracers of its report and tells the housekeeper.
pub open spec fn effects_of(reload: Reload, has_tracers: bool) -> ReloadEffects {
    if reload == (Reload::Full { dry_run: false }) {
        ReloadEffects { apply_tracers: has_tracers, notify_housekeeper: true }
    } else {
        ReloadEffects { apply_tracers: false, notify_housekeeper: false }
    }
}

/// The decisions of the management surface.
pub trait ManageReload {
    /// Which reload a request asks for.
    fn handle_manage_reload(
        &self,
        method: Method,
        path: &Vec<String>,
        dry_run: bool,
        access_token: &AccessToken,
    ) -> (asked: Result<Reload, ManageError>)
        ensures
            asked == reload_asked(method, path@, dry_run, access_token.permissions@),
    ;

    /// Which update a request asks for.
    fn handle_manage_update(&self, method: Method, path: &Vec<String>, access_token: &AccessToken) -> (asked: Result<UpdateResource, ManageError>)
        ensures
            asked == update_asked(method, path@, access_token.permissions@),
    ;
}

/// Whether the second segment of the path is the name.
fn is_resource(path: &Vec<String>, name: &str) -> (same: bool)
    ensures
        same == (resource(path@) == Some(name@)),
{
    if path.len() > 1 {
        let wanted = String::from_str(name);
        path[1] == wanted
    } else {
        false
    }
}

/// The server's shared state: the current snapshot of the core and the two
/// version counters.
pub struct Server<C> {
    core: C,
    config_version: u64,
    blocked_ip_version: u64,
}

impl<C> ManageReload for Server<C> {
    fn handle_manage_reload(
        &self,
        method: Method,
        path: &Vec<String>,
        dry_run: bool,
        access_token: &AccessToken,
    ) -> (asked: Result<Reload, ManageError>) {
        // Validate the access token
        if !access_token.has_permission(Permission::SettingsReload) {
            return Err(ManageError::Forbidden(Permission::SettingsReload));
        }
        if method != Method::Get {
            return Err(ManageError::NotFound);
        }
        if is_resource(path, "lookup") {
            Ok(Reload::Lookup)
        } else if is_resource(path, "certificate") {
            Ok(Reload::Certificate)
        } else if is_resource(path, "server.blocked-ip") {
            Ok(Reload::BlockedIp)
        } else if path.len() <= 1 {
            Ok(Reload::Full { dry_run })
        } else {
            Err(ManageError::NotFound)
        }
    }

    fn handle_manage_update(&self, method: Method, path: &Vec<String>, access_token: &AccessToken) -> (asked: Result<UpdateResource, ManageError>) {
        if method == Method::Get && is_resource(path, "spam-filter") {
            // Validate the access token
            if access_token.has_permission(Permission::UpdateSpamFilter) {
                Ok(UpdateResource::SpamFilter)
            } else {
                Err(ManageError::Forbidden(Permission::UpdateSpamFilter))
            }
        } else if method == Method::Get && is_resource(path, "webadmin") {
            // Validate the access token
            if access_token.has_permission(Permission::UpdateWebadmin) {
                Ok(UpdateResource::Webadmin)
            } else {
                Err(ManageError::Forbidden(Permission::UpdateWebadmin))
            }
        } else {
            Err(ManageError::NotFound)
        }
    }
}

impl<C> Server<C> {
    /// The snapshot that readers load.
    pub closed spec fn snapshot(&self) -> C {
        self.core
    }

    /// The configuration version.
    pub closed spec fn config_version(&self) -> u64 {
        self.config_version
    }

    /// The version of the blocked addresses.
    pub closed spec fn blocked_ip_version(&self) -> u64 {
        self.blocked_ip_version
    }

    /// A server that starts with the snapshot, both versions at zero.
    pub fn new(core: C) -> (server: Server<C>)
        ensures
            server.snapshot() == core,
            server.config_version() == 0,
            server.blocked_ip_version() == 0,
    {
        Server { core, config_version: 0, blocked_ip_version: 0 }
    }

    /// The current snapshot.
    pub fn load(&self) -> (core: &C)
        ensures
            *core == self.snapshot(),
    {
        &self.core
    }

    /// The configuration version, for a poller to hold against what it has.
    pub fn get_config_version(&self) -> (version: u64)
        ensures
            version == self.config_version(),
    {
        self.config_version
    }

    /// The version of the blocked addresses.
    pub fn get_blocked_version(&self) -> (version: u64)
        ensures
            version == self.blocked_ip_version(),
    {
        self.blocked_ip_version
    }

    /// Puts a new snapshot in place of the current one.
    pub fn store(&mut self, core: C)
        ensures
            final(self).snapshot() == core,
            final(self).config_version() == old(self).config_version(),
            final(self).blocked_ip_version() == old(self).blocked_ip_version(),
    {
        self.core = core;
    }

    /// Moves the configuration version on.
    pub fn increment_config_version(&mut self)
        ensures
            final(self).config_version() == bumped(old(self).config_version()),
            final(self).snapshot() == old(self).snapshot(),
            final(self).blocked_ip_version() == old(self).blocked_ip_version(),
    {
        self.config_version = self.config_version.wrapping_add(1);
    }

    /// Moves the version of the blocked addresses on.
    pub fn increment_blocked_version(&mut self)
        ensures
            final(self).blocked_ip_version() == bumped(old(self).blocked_ip_version()),
            final(self).snapshot() == old(self).snapshot(),
            final(self).config_version() == old(self).config_version(),
    {
        self.blocked_ip_version = self.blocked_ip_version.wrapping_add(1);
    }

    /// Takes in the report of a reload that ran, and answers what is left to
    /// do. A new snapshot is stored first and the version moved on after it,
    /// so whoever sees the new version loads the new snapshot.
    pub fn reloaded(&mut self, reload: Reload, result: ReloadResult<C>) -> (effects: ReloadEffects)
        ensures
            effects == effects_of(reload, result.has_tracers),
            final(self).snapshot() == (if installs(reload, result.new_core is Some) {
                result.new_core->0
            } else {
                old(self).snapshot()
            }),
            final(self).config_version() == (if bumps_config(reload, result.new_core is Some) {
                bumped(old(self).config_version())
            } else {
                old(self).config_version()
            }),
            final(self).blocked_ip_version() == (if bumps_blocked_ip(reload) {
                bumped(old(self).blocked_ip_version())
            } else {
                old(self).blocked_ip_version()
            }),
    {
        let ReloadResult { new_core, has_tracers } = result;
        match reload {
            Reload::Lookup => {
                // Update core
                match new_core {
                    Some(core) => {
                        self.store(core);
                    },
                    None => {},
                }
                ReloadEffects { apply_tracers: false, notify_housekeeper: false }
            },
            Reload::Certificate => ReloadEffects { apply_tracers: false, notify_housekeeper: false },
            Reload::BlockedIp => {
                // Increment version counter
                self.increment_blocked_version();
                ReloadEffects { apply_tracers: false, notify_housekeeper: false }
            },
            Reload::Full { dry_run } => {
                if !dry_run {
                    match new_core {
                        Some(core) => {
                            // Update core
                            self.store(core);
                            // Increment version counter
                            self.increment_config_version();
                        },
                        None => {},
                    }
                    ReloadEffects { apply_tracers: has_tracers, notify_housekeeper: true }
                } else {
                    ReloadEffects { apply_tracers: false, notify_housekeeper: false }
                }
            },
        }
    }

    /// Takes in the answer of a certificate renewal: the configuration
    /// version is moved on whether the renewal went through or not, and the
    /// event is answered that arms the renewal again, after the delay that
    /// the renewal gave or after `ACME_RETRY_DELAY` where it failed.
    pub fn acme_renewed(&mut self, provider_id: String, renewed: Option<u64>, now: u64) -> (event: HousekeeperEvent)
        ensures
            final(self).config_version() == bumped(old(self).config_version()),
            final(self).snapshot() == old(self).snapshot(),
            final(self).blocked_ip_version() == old(self).blocked_ip_version(),
            event matches HousekeeperEvent::AcmeReschedule { provider_id: id, renew_at } && id
                == provider_id && renew_at == later(
                now,
                match renewed {
                    Some(renew_in) => renew_in,
                    None => ACME_RETRY_DELAY,
                },
            ),
    {
        self.increment_config_version();
        acme_reschedule(provider_id, renewal_delay(renewed), now)
    }

    /// Takes in the reload that a license validation ran: a new snapshot is
    /// stored and the configuration version moved on.
    pub fn license_reloaded(&mut self, new_core: Option<C>)
        ensures
            final(self).snapshot() == (match new_core {
                Some(core) => core,
                None => old(self).snapshot(),
            }),
            final(self).config_version() == (if new_core is Some {
                bumped(old(self).config_version())
            } else {
                old(self).config_version()
            }),
            final(self).blocked_ip_version() == old(self).blocked_ip_version(),
    {
        match new_core {
            Some(core) => {
                self.store(core);
                self.increment_config_version();
            },
            None => {},
        }
    }
}

/// What the request answers once the housekeeper was told, or could not be:
/// a reload whose notice did not get through answers `ThreadError`; what it
/// installed stays installed.
pub fn notified(effects: ReloadEffects, delivered: bool) -> (done: Result<(), ManageError>)
    ensures
        done == (if effects.notify_housekeeper && !delivered {
            Err::<(), ManageError>(ManageError::ThreadError)
        } else {
            Ok::<(), ManageError>(())
        }),
{
    if effects.notify_housekeeper && !delivered {
        Err(ManageError::ThreadError)
    } else {
        Ok(())
    }
}

/// The versions never fall back, short of the last number there is: a
/// version that is moved on is one greater than it was.
pub proof fn lemma_bumped_grows(version: u64)
    requires
        version < u64::MAX,
    ensures
        bumped(version) == version + 1,
        bumped(version) > version,
{
}

/// What a reload does to the versions, short of the last number there is:
/// neither falls back; the configuration version grows by one exactly for a
/// full reload that is no dry run and gives a new snapshot, the version of
/// the blocked addresses by one exactly for a reload of the blocked
/// addresses.
pub proof fn lemma_reload_versions(reload: Reload, has_new_core: bool, config: u64, blocked: u64)
    requires
        config < u64::MAX,
        blocked < u64::MAX,
    ensures
        ({
            let after = if bumps_config(reload, has_new_core) {
                bumped(config)
            } else {
                config
            };
            after >= config && (after == config + 1 <==> reload == (Reload::Full { dry_run: false })
                && has_new_core) && (after == config || after == config + 1)
        }),
        ({
            let after = if bumps_blocked_ip(reload) {
                bumped(blocked)
            } else {
                blocked
            };
            after >= blocked && (after == blocked + 1 <==> reload == Reload::BlockedIp) && (after
                == blocked || after == blocked + 1)
        }),
        reload == (Reload::Full { dry_run: true }) ==> !bumps_config(reload, has_new_core)
            && !installs(reload, has_new_core) && !effects_of(reload, true).notify_housekeeper,
{
}

} // verus!
