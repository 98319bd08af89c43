//! Runtime settings and the well-known file names under the runtime
//! directory. Reading a configuration file is plumbing done outside; the
//! crate owns the defaults and the path composition.

use vstd::prelude::*;

verus! {

/// Tunable settings. `cache_ttl` drives both the read policy and the
/// background refresh period; `max_retry` is the connection-attempt ceiling.
#[derive(Debug)]
pub struct Config {
    pub font: String,
    /// Menu window anchor, 0–8 as the launcher counts them.
    pub position: u8,
    pub x_offset: i32,
    pub y_offset: i32,
    /// Most menu lines shown at once.
    pub max_lines: usize,
    /// Seconds to wait for one connection attempt.
    pub connect_timeout: u64,
    /// Most attempts for one connect action.
    pub max_retry: u8,
    /// Seconds a snapshot stays fresh.
    pub cache_ttl: u64,
    /// Reachability probe target.
    pub ping_host: String,
    /// Reachability probe count.
    pub ping_count: u8,
    /// Profiles brought up after joining their trigger SSID.
    pub auto_vpn: Vec<(String, String)>,
}

pub struct ConfigView {
    pub font: Seq<char>,
    pub position: u8,
    pub x_offset: i32,
    pub y_offset: i32,
    pub max_lines: usize,
    pub connect_timeout: u64,
    pub max_retry: u8,
    pub cache_ttl: u64,
    pub ping_host: Seq<char>,
    pub ping_count: u8,
    pub auto_vpn: Seq<(Seq<char>, Seq<char>)>,
}

impl View for Config {
    type V = ConfigView;

    open spec fn view(&self) -> ConfigView {
        ConfigView {
            font: self.font@,
            position: self.position,
            x_offset: self.x_offset,
            y_offset: self.y_offset,
            max_lines: self.max_lines,
            connect_timeout: self.connect_timeout,
            max_retry: self.max_retry,
            cache_ttl: self.cache_ttl,
            ping_host: self.ping_host@,
            ping_count: self.ping_count,
            auto_vpn: self.auto_vpn.deep_view(),
        }
    }
}

impl Default for Config {
    /// The settings used when no configuration file overrides them.
    fn default() -> (r: Config)
        ensures
            r@.font == "DejaVu Sans Mono 8"@,
            r@.position == 0,
            r@.x_offset == 0,
            r@.y_offset == 0,
            r@.max_lines == 8,
            r@.connect_timeout == 15,
            r@.max_retry == 3,
            r@.cache_ttl == 30,
            r@.ping_host == "1.1.1.1"@,
            r@.ping_count == 2,
            r@.auto_vpn.len() == 0,
    {
        Config {
            font: String::from_str("DejaVu Sans Mono 8"),
            position: 0,
            x_offset: 0,
            y_offset: 0,
            max_lines: 8,
            connect_timeout: 15,
            max_retry: 3,
            cache_ttl: 30,
            ping_host: String::from_str("1.1.1.1"),
            ping_count: 2,
            auto_vpn: Vec::new(),
        }
    }
}

impl Config {
    /// Where the scan snapshot lives under the runtime directory.
    pub fn cache_path(runtime_dir: &str) -> (r: String)
        ensures
            r@ == runtime_dir@ + "/rofi-wifi-cache.json"@,
    {
        let mut out = runtime_dir.to_owned();
        out.append("/rofi-wifi-cache.json");
        out
    }

    /// Where the background refresher records its process id.
    pub fn pid_path(runtime_dir: &str) -> (r: String)
        ensures
            r@ == runtime_dir@ + "/rofi-wifi-daemon.pid"@,
    {
        let mut out = runtime_dir.to_owned();
        out.append("/rofi-wifi-daemon.pid");
        out
    }

    /// Where the advisory scan lock lives: it keeps the refresher and a
    /// manual refresh from scanning at the same time.
    pub fn lock_path(runtime_dir: &str) -> (r: String)
        ensures
            r@ == runtime_dir@ + "/rofi-wifi-scan.lock"@,
    {
        let mut out = runtime_dir.to_owned();
        out.append("/rofi-wifi-scan.lock");
        out
    }
}

} // verus!
