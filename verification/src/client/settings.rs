use vstd::prelude::*;

use crate::notice::SettingsNotice;

verus! {

/// The client's settings file: a single `client` section.
#[derive(Clone, Debug)]
pub struct Settings {
    pub client: ClientSettings,
}

/// The `client` section of the settings file.
#[derive(Clone, Debug)]
pub struct ClientSettings {
    pub description: Option<String>,
    pub listen_addr: String,
    pub dst_addr: String,
    /// Write timeout in milliseconds for socket writes; 0 disables it.
    pub write_timeout: Option<u64>,
    /// Interfaces never used for sending, by name.
    pub excluded_interfaces: Vec<String>,
    pub web_manager: Option<WebManager>,
}

/// The web manager section; it is read but not served.
#[derive(Clone, Debug)]
pub struct WebManager {
    pub listen_addr: Option<String>,
    pub username: Option<String>,
    pub password: Option<String>,
}

/// Whether two client sections agree on everything but the write timeout.
pub open spec fn spec_same_but_write_timeout(a: ClientSettings, b: ClientSettings) -> bool {
    &&& a.description == b.description
    &&& a.listen_addr == b.listen_addr
    &&& a.dst_addr == b.dst_addr
    &&& a.excluded_interfaces == b.excluded_interfaces
    &&& a.web_manager == b.web_manager
}

/// The notices that completing a section reports, in the order the changes
/// are made.
pub open spec fn spec_notices(s: ClientSettings) -> Seq<SettingsNotice> {
    (if s.write_timeout is None {
        seq![SettingsNotice::WriteTimeoutDefaulted]
    } else {
        Seq::<SettingsNotice>::empty()
    }) + (if s.write_timeout == Some(0u64) {
        Seq::<SettingsNotice>::empty()
    } else {
        seq![SettingsNotice::WriteTimeoutDisabled]
    })
}

impl ClientSettings {
    /// Completes the section with its defaults: an absent write timeout
    /// becomes 10 milliseconds, and then, since write timeouts are not
    /// implemented, any write timeout other than 0 becomes 0. Returns one
    /// notice per change.
    pub fn complete(&mut self) -> (notices: Vec<SettingsNotice>)
        ensures
            spec_same_but_write_timeout(*old(self), *final(self)),
            final(self).write_timeout == Some(0u64),
            notices@ == spec_notices(*old(self)),
    {
        let mut notices: Vec<SettingsNotice> = Vec::new();
        if self.write_timeout.is_none() {
            notices.push(SettingsNotice::WriteTimeoutDefaulted);
            self.write_timeout = Some(10);
        }
        let disabled = match self.write_timeout {
            Some(w) => w == 0,
            None => false,
        };
        if !disabled {
            notices.push(SettingsNotice::WriteTimeoutDisabled);
            self.write_timeout = Some(0);
        }
        assert(notices@ =~= spec_notices(*old(self)));
        notices
    }
}

/// A completed section reports nothing when completed again, and keeps its
/// write timeout of 0.
pub proof fn lemma_complete_idempotent(s: ClientSettings)
    requires
        s.write_timeout == Some(0u64),
    ensures
        spec_notices(s) == Seq::<SettingsNotice>::empty(),
{
    assert(spec_notices(s) =~= Seq::<SettingsNotice>::empty());
}

/// What completion reports: the write-timeout default exactly when the
/// write timeout was absent, then its disabling exactly when it was not
/// already 0.
pub proof fn lemma_client_notices_law(s: ClientSettings, w: u64)
    ensures
        s.write_timeout is None ==> spec_notices(s) == seq![
            SettingsNotice::WriteTimeoutDefaulted,
            SettingsNotice::WriteTimeoutDisabled,
        ],
        s.write_timeout == Some(w) && w != 0 ==> spec_notices(s) == seq![
            SettingsNotice::WriteTimeoutDisabled,
        ],
        s.write_timeout == Some(0u64) ==> spec_notices(s).len() == 0,
{
    assert(seq![SettingsNotice::WriteTimeoutDefaulted] + seq![SettingsNotice::WriteTimeoutDisabled]
        =~= seq![SettingsNotice::WriteTimeoutDefaulted, SettingsNotice::WriteTimeoutDisabled]);
    if s.write_timeout == Some(w) && w != 0 {
        assert(spec_notices(s) =~= seq![SettingsNotice::WriteTimeoutDisabled]);
    }
}

} // verus!
