use vstd::prelude::*;

verus! {

/// What completing a settings file with its defaults changed, one notice
/// per change, for the program to report.
#[derive(Clone, Copy, Debug, PartialEq, Eq, Structural)]
pub enum SettingsNotice {
    /// No client timeout, or 0, was given: it was set to 30 seconds.
    ClientTimeoutDefaulted,
    /// No write timeout was given: it was set to 10 milliseconds.
    WriteTimeoutDefaulted,
    /// The write timeout was not 0; write timeouts are not implemented, so it
    /// was set to 0, which disables it.
    WriteTimeoutDisabled,
}

} // verus!
