use vstd::prelude::*;

use crate::notice::SettingsNotice;

verus! {

/// The server's settings file: a single `server` section.
#[derive(Clone, Debug)]
pub struct Settings {
    pub server: Server,
}

/// The `server` section of the settings file.
#[derive(Clone, Debug)]
pub struct Server {
    pub description: Option<String>,
    pub listen_addr: String,
    pub dst_addr: String,
    /// Client timeout in seconds: a client that has sent nothing for longer
    /// is no longer sent packets.
    pub client_timeout: Option<u64>,
    /// Write timeout in milliseconds for socket writes; 0 disables it.
    pub write_timeout: Option<u64>,
    pub web_manager: Option<WebManager>,
}

/// The web manager section; it is read but not served.
#[derive(Clone, Debug)]
pub struct WebManager {
    pub listen_addr: Option<String>,
    pub username: Option<String>,
    pub password: Option<String>,
}

/// The client timeout, in seconds, that an absent or zero timeout becomes.
pub const DEFAULT_CLIENT_TIMEOUT: u64 = 30;

/// The client timeout once completed: the given one, unless it is absent or 0.
pub open spec fn spec_completed_client_timeout(t: Option<u64>) -> u64 {
    match t {
        Some(c) if c != 0 => c,
        _ => DEFAULT_CLIENT_TIMEOUT,
    }
}

/// Whether two server sections agree on everything but the two timeouts.
pub open spec fn spec_same_but_timeouts(a: Server, b: Server) -> bool {
    &&& a.description == b.description
    &&& a.listen_addr == b.listen_addr
    &&& a.dst_addr == b.dst_addr
    &&& a.web_manager == b.web_manager
}

/// The section completed with its defaults: the client timeout is set as
/// [`spec_completed_client_timeout`] says, and the write timeout, which is
/// not implemented, is always 0.
pub open spec fn spec_completed(old: Server, new: Server) -> bool {
    &&& spec_same_but_timeouts(old, new)
    &&& new.client_timeout == Some(spec_completed_client_timeout(old.client_timeout))
    &&& new.write_timeout == Some(0u64)
}

/// The notices that completing a section reports, in the order the changes
/// are made.
pub open spec fn spec_notices(s: Server) -> Seq<SettingsNotice> {
    (if s.client_timeout matches Some(c) && c != 0 {
        Seq::<SettingsNotice>::empty()
    } else {
        seq![SettingsNotice::ClientTimeoutDefaulted]
    }) + (if s.write_timeout is None {
        seq![SettingsNotice::WriteTimeoutDefaulted]
    } else {
        Seq::<SettingsNotice>::empty()
    }) + (if s.write_timeout == Some(0u64) {
        Seq::<SettingsNotice>::empty()
    } else {
        seq![SettingsNotice::WriteTimeoutDisabled]
    })
}

impl Server {
    /// Completes the section with its defaults. An absent or zero client
    /// timeout becomes 30 seconds; an absent write timeout becomes 10
    /// milliseconds, and then, since write timeouts are not implemented, any
    /// write timeout other than 0 becomes 0. Returns one notice per change.
    pub fn complete(&mut self) -> (notices: Vec<SettingsNotice>)
        ensures
            spec_completed(*old(self), *final(self)),
            notices@ == spec_notices(*old(self)),
    {
        let mut notices: Vec<SettingsNotice> = Vec::new();
        let reset = match self.client_timeout {
            Some(c) => c == 0,
            None => true,
        };
        if reset {
            notices.push(SettingsNotice::ClientTimeoutDefaulted);
            self.client_timeout = Some(DEFAULT_CLIENT_TIMEOUT);
        }
        if self.write_timeout.is_none() {
            notices.push(SettingsNotice::WriteTimeoutDefaulted);
            self.write_timeout = Some(10);
        }
        let disabled = match self.write_timeout {
            Some(w) => w == 0,
            None => false,
        };
        if !disabled {
            notices.push(SettingsNotice::WriteTimeoutDisabled);
            self.write_timeout = Some(0);
        }
        assert(notices@ =~= spec_notices(*old(self)));
        notices
    }

    /// The client timeout in seconds; it is 30 where none is set.
    pub fn client_timeout_secs(&self) -> (r: u64)
        ensures
            r == spec_completed_client_timeout(self.client_timeout),
    {
        match self.client_timeout {
            Some(c) => if c != 0 { c } else { DEFAULT_CLIENT_TIMEOUT },
            None => DEFAULT_CLIENT_TIMEOUT,
        }
    }
}

/// Completing a section twice changes nothing more: a completed section is
/// its own completion and reports no notice.
pub proof fn lemma_complete_idempotent(old: Server, new: Server, again: Server)
    requires
        spec_completed(old, new),
        spec_completed(new, again),
    ensures
        spec_notices(new) == Seq::<SettingsNotice>::empty(),
        again.client_timeout == new.client_timeout,
        again.write_timeout == new.write_timeout,
        spec_same_but_timeouts(again, new),
        new.client_timeout matches Some(c) && c > 0,
{
    assert(spec_notices(new) =~= Seq::<SettingsNotice>::empty());
}

/// A given nonzero client timeout is kept as it is; an absent or zero one
/// becomes 30 seconds. Completion keeps a nonzero timeout unchanged.
pub proof fn lemma_client_timeout_law(c: u64, old: Server, new: Server)
    ensures
        c != 0 ==> spec_completed_client_timeout(Some(c)) == c,
        spec_completed_client_timeout(Some(0u64)) == 30,
        spec_completed_client_timeout(None) == 30,
        spec_completed(old, new) && old.client_timeout == Some(c) && c != 0
            ==> new.client_timeout == Some(c),
        spec_completed(old, new) && (old.client_timeout is None || old.client_timeout == Some(0u64))
            ==> new.client_timeout == Some(30u64),
{
}

/// What completion reports: the client-timeout notice exactly when the
/// timeout was absent or 0; the write-timeout default exactly when the
/// write timeout was absent; the write-timeout disabling exactly when it was
/// not already 0; in that order. The write timeout always ends at 0.
pub proof fn lemma_server_notices_law(old: Server, new: Server, w: u64)
    ensures
        spec_completed(old, new) ==> new.write_timeout == Some(0u64),
        (old.client_timeout is None || old.client_timeout == Some(0u64)) && old.write_timeout is None
            ==> spec_notices(old) == seq![
            SettingsNotice::ClientTimeoutDefaulted,
            SettingsNotice::WriteTimeoutDefaulted,
            SettingsNotice::WriteTimeoutDisabled,
        ],
        (old.client_timeout matches Some(c) && c != 0) && old.write_timeout == Some(w) && w != 0
            ==> spec_notices(old) == seq![SettingsNotice::WriteTimeoutDisabled],
        (old.client_timeout matches Some(c) && c != 0) && old.write_timeout == Some(0u64)
            ==> spec_notices(old).len() == 0,
{
    assert(seq![SettingsNotice::ClientTimeoutDefaulted] + seq![SettingsNotice::WriteTimeoutDefaulted]
        + seq![SettingsNotice::WriteTimeoutDisabled] =~= seq![
        SettingsNotice::ClientTimeoutDefaulted,
        SettingsNotice::WriteTimeoutDefaulted,
        SettingsNotice::WriteTimeoutDisabled,
    ]);
    if (old.client_timeout matches Some(c) && c != 0) {
        assert(spec_notices(old) =~= (if old.write_timeout is None {
            seq![SettingsNotice::WriteTimeoutDefaulted]
        } else {
            Seq::<SettingsNotice>::empty()
        }) + (if old.write_timeout == Some(0u64) {
            Seq::<SettingsNotice>::empty()
        } else {
            seq![SettingsNotice::WriteTimeoutDisabled]
        }));
    }
}

} // verus!
