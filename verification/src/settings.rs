use vstd::prelude::*;
use vstd::string::StringExecFns;
use crate::crypto::KEY_LEN;
use crate::text::str_equal;

verus! {

/// Application settings.
#[derive(Debug)]
pub struct AppSettings {
    /// Port of the local web API (0: disabled).
    pub api_port: u16,
    /// Port of the Nexus WebSocket server (0: disabled).
    pub nexus_port: u16,
    /// Theme name.
    pub theme: String,
    /// Minutes between automatic refreshes (0: disabled).
    pub auto_refresh_minutes: u32,
    /// Whether dead processes are detected automatically.
    pub watcher_enabled: bool,
    /// Seconds between process checks.
    pub watcher_interval_seconds: u32,
}

impl Default for AppSettings {
    /// The web API on 7963, Nexus on 7964, the dark theme, no automatic
    /// refresh, and the watcher on, checking every 30 seconds.
    fn default() -> (s: AppSettings)
        ensures
            s.api_port == 7963,
            s.nexus_port == 7964,
            s.theme@ == "dark"@,
            s.auto_refresh_minutes == 0,
            s.watcher_enabled,
            s.watcher_interval_seconds == 30,
    {
        AppSettings {
            api_port: 7963,
            nexus_port: 7964,
            theme: String::from_str("dark"),
            auto_refresh_minutes: 0,
            watcher_enabled: true,
            watcher_interval_seconds: 30,
        }
    }
}

/// The themes offered, in order.
pub fn get_themes() -> (r: Vec<String>)
    ensures
        r@.len() == 4,
        r@[0]@ == "dark"@,
        r@[1]@ == "light"@,
        r@[2]@ == "midnight"@,
        r@[3]@ == "cyberpunk"@,
{
    let mut r: Vec<String> = Vec::new();
    r.push(String::from_str("dark"));
    r.push(String::from_str("light"));
    r.push(String::from_str("midnight"));
    r.push(String::from_str("cyberpunk"));
    r
}

/// Makes `std::path::PathBuf` known to the verifier; its content is opaque.
#[verifier::external_type_specification]
#[verifier::external_body]
pub struct ExPathBuf(std::path::PathBuf);

/// Where the settings file is.
pub struct SettingsPath(pub std::path::PathBuf);

/// Where the join data (presets and recent history) file is.
pub struct JoinDataPath(pub std::path::PathBuf);

/// The local servers to start: the web API and the Nexus server, each on
/// its port when the port is not 0.
pub fn servers_to_start(settings: &AppSettings) -> (r: (Option<u16>, Option<u16>))
    ensures
        r.0 == if settings.api_port > 0 {
            Some(settings.api_port)
        } else {
            None::<u16>
        },
        r.1 == if settings.nexus_port > 0 {
            Some(settings.nexus_port)
        } else {
            None::<u16>
        },
{
    let api = if settings.api_port > 0 {
        Some(settings.api_port)
    } else {
        None
    };
    let nexus = if settings.nexus_port > 0 {
        Some(settings.nexus_port)
    } else {
        None
    };
    (api, nexus)
}

/// The encryption key kept in a key file: its first 32 bytes (the file
/// must hold at least that many).
pub fn key_from_bytes(bytes: &[u8]) -> (key: [u8; KEY_LEN])
    requires
        bytes@.len() >= KEY_LEN,
    ensures
        key@ == bytes@.subrange(0, KEY_LEN as int),
{
    let mut key = [0u8; KEY_LEN];
    let mut i: usize = 0;
    while i < KEY_LEN
        invariant
            i <= KEY_LEN,
            bytes@.len() >= KEY_LEN,
            key@.len() == KEY_LEN,
            forall|j: int| 0 <= j < i ==> key@[j] == bytes@[j],
        decreases KEY_LEN - i,
    {
        key[i] = bytes[i];
        i += 1;
    }
    assert(key@ =~= bytes@.subrange(0, KEY_LEN as int));
    key
}

/// What a tray menu item does.
#[derive(Debug, Clone, Copy, PartialEq, Eq, Structural)]
pub enum TrayAction {
    /// Show and focus the main window.
    ShowWindow,
    /// Quit the application.
    Quit,
    /// Nothing.
    Ignore,
}

/// The action of a tray menu item by its id: `show` shows the window,
/// `quit` quits, anything else does nothing.
pub fn tray_action(id: &str) -> (a: TrayAction)
    ensures
        a == if id@ == "show"@ {
            TrayAction::ShowWindow
        } else if id@ == "quit"@ {
            TrayAction::Quit
        } else {
            TrayAction::Ignore
        },
{
    if str_equal(id, "show") {
        TrayAction::ShowWindow
    } else if str_equal(id, "quit") {
        TrayAction::Quit
    } else {
        TrayAction::Ignore
    }
}

/// Makes `std::time::Instant` known to the verifier; its content is opaque.
#[verifier::external_type_specification]
#[verifier::external_body]
pub struct ExInstant(std::time::Instant);

/// The current instant of the monotonic clock (`Instant::now`).
#[verifier::external_body]
fn instant_now() -> std::time::Instant {
    std::time::Instant::now()
}

/// The nanoseconds elapsed since `t` (`Instant::elapsed`); nothing is
/// promised of them.
#[verifier::external_body]
fn nanos_since(t: &std::time::Instant) -> u128 {
    t.elapsed().as_nanos()
}

/// Spacing of game joins, so that quick joins do not trigger a CAPTCHA.
pub struct JoinThrottle {
    /// When the last join started; none before the first join.
    pub last_join: Option<std::time::Instant>,
    /// The least time between joins, in milliseconds.
    pub min_delay_ms: u64,
}

/// How long to wait before joining, in nanoseconds, when `elapsed`
/// nanoseconds passed since the last join and joins must be `min_delay_ms`
/// milliseconds apart.
pub open spec fn join_wait(elapsed: u128, min_delay_ms: u64) -> int {
    let min = min_delay_ms * 1000000;
    if elapsed < min {
        min - elapsed
    } else {
        0
    }
}

/// How long to wait before joining.
pub fn join_wait_nanos(elapsed: u128, min_delay_ms: u64) -> (r: u128)
    ensures
        r == join_wait(elapsed, min_delay_ms),
{
    let min: u128 = min_delay_ms as u128 * 1000000;
    if elapsed < min {
        min - elapsed
    } else {
        0
    }
}

impl JoinThrottle {
    /// A throttle 3 seconds apart with no join yet, so that the first join
    /// does not wait.
    pub fn new() -> (t: JoinThrottle)
        ensures
            t.min_delay_ms == 3000,
            t.last_join is None,
    {
        JoinThrottle { last_join: None, min_delay_ms: 3000 }
    }

    /// How long to wait, in nanoseconds, before the next join: nothing
    /// before the first join, else what is left of the least delay after the
    /// time elapsed since the last join (which the clock tells).
    pub fn wait_nanos(&self) -> (r: u128)
        ensures
            self.last_join is None ==> r == 0,
            exists|elapsed: u128| r == join_wait(elapsed, self.min_delay_ms),
    {
        match &self.last_join {
            None => {
                assert(0 == join_wait(u128::MAX, self.min_delay_ms));
                0
            },
            Some(t) => join_wait_nanos(nanos_since(t), self.min_delay_ms),
        }
    }

    /// Records that a join starts now.
    pub fn record_join(&mut self)
        ensures
            final(self).min_delay_ms == old(self).min_delay_ms,
            final(self).last_join is Some,
    {
        self.last_join = Some(instant_now());
    }
}

} // verus!
