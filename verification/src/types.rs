//! The core data types: a discovered access point, its security class, the
//! wireless radio state, the classified outcome of a connection attempt, the
//! menu actions, and the navigation signal every action resolves to.

use vstd::prelude::*;
use crate::text::{
    dec_digits, has_sub, lower_seq, pad_left, pad_right, contains_ci, u64_to_string, push_spaces,
};

verus! {

// ───────────────────────── security class ─────────────────────────

/// Security class of a network, parsed from the scanner's descriptor column.
#[derive(Debug)]
pub enum Security {
    Open,
    Wep,
    Wpa,
    Wpa2,
    Wpa3,
    /// An unrecognised descriptor, kept verbatim.
    Unknown(String),
}

pub enum SecurityView {
    Open,
    Wep,
    Wpa,
    Wpa2,
    Wpa3,
    Unknown(Seq<char>),
}

impl View for Security {
    type V = SecurityView;

    open spec fn view(&self) -> SecurityView {
        match self {
            Security::Open => SecurityView::Open,
            Security::Wep => SecurityView::Wep,
            Security::Wpa => SecurityView::Wpa,
            Security::Wpa2 => SecurityView::Wpa2,
            Security::Wpa3 => SecurityView::Wpa3,
            Security::Unknown(s) => SecurityView::Unknown(s@),
        }
    }
}

impl Clone for Security {
    fn clone(&self) -> (r: Self)
        ensures
            r@ == self@,
    {
        match self {
            Security::Open => Security::Open,
            Security::Wep => Security::Wep,
            Security::Wpa => Security::Wpa,
            Security::Wpa2 => Security::Wpa2,
            Security::Wpa3 => Security::Wpa3,
            Security::Unknown(s) => Security::Unknown(s.clone()),
        }
    }
}

/// The class a raw security descriptor falls in: the first of the markers
/// `WPA3`, `WPA2`, `WPA`, `WEP` found in it regardless of ASCII case, `Open`
/// for an empty or `--` descriptor, otherwise the descriptor kept verbatim.
pub open spec fn security_class_of(s: Seq<char>) -> SecurityView {
    let folded = lower_seq(s);
    if has_sub(folded, seq!['w', 'p', 'a', '3']) {
        SecurityView::Wpa3
    } else if has_sub(folded, seq!['w', 'p', 'a', '2']) {
        SecurityView::Wpa2
    } else if has_sub(folded, seq!['w', 'p', 'a']) {
        SecurityView::Wpa
    } else if has_sub(folded, seq!['w', 'e', 'p']) {
        SecurityView::Wep
    } else if s.len() == 0 || s == seq!['-', '-'] {
        SecurityView::Open
    } else {
        SecurityView::Unknown(s)
    }
}

impl Security {
    /// Classifies a raw descriptor string, e.g. `"WPA2 WPA3"` is `Wpa3`.
    pub fn from_descriptor(s: &str) -> (r: Security)
        ensures
            r@ == security_class_of(s@),
    {
        proof {
            reveal_strlit("wpa3");
            reveal_strlit("wpa2");
            reveal_strlit("wpa");
            reveal_strlit("wep");
            reveal_strlit("--");
            assert(lower_seq("wpa3"@) =~= seq!['w', 'p', 'a', '3']);
            assert(lower_seq("wpa2"@) =~= seq!['w', 'p', 'a', '2']);
            assert(lower_seq("wpa"@) =~= seq!['w', 'p', 'a']);
            assert(lower_seq("wep"@) =~= seq!['w', 'e', 'p']);
            assert("--"@ =~= seq!['-', '-']);
        }
        if contains_ci(s, "wpa3") {
            Security::Wpa3
        } else if contains_ci(s, "wpa2") {
            Security::Wpa2
        } else if contains_ci(s, "wpa") {
            Security::Wpa
        } else if contains_ci(s, "wep") {
            Security::Wep
        } else if s.unicode_len() == 0 || crate::text::str_eq(s, "--") {
            Security::Open
        } else {
            Security::Unknown(s.to_owned())
        }
    }

    /// Whether connecting to a network of this class asks for a credential.
    pub fn needs_password(&self) -> (r: bool)
        ensures
            r == (self@ != SecurityView::Open),
    {
        !matches!(self, Security::Open)
    }

    /// Short label for the class, shown on the details panel.
    pub fn label(&self) -> (r: String)
        ensures
            r@ == security_label(self@),
    {
        proof {
            reveal_strlit("Open");
            reveal_strlit("WEP");
            reveal_strlit("WPA");
            reveal_strlit("WPA2");
            reveal_strlit("WPA3");
        }
        match self {
            Security::Open => String::from_str("Open"),
            Security::Wep => String::from_str("WEP"),
            Security::Wpa => String::from_str("WPA"),
            Security::Wpa2 => String::from_str("WPA2"),
            Security::Wpa3 => String::from_str("WPA3"),
            Security::Unknown(s) => s.clone(),
        }
    }
}

pub open spec fn security_label(v: SecurityView) -> Seq<char> {
    match v {
        SecurityView::Open => "Open"@,
        SecurityView::Wep => "WEP"@,
        SecurityView::Wpa => "WPA"@,
        SecurityView::Wpa2 => "WPA2"@,
        SecurityView::Wpa3 => "WPA3"@,
        SecurityView::Unknown(s) => s,
    }
}

// ───────────────────────── access point ─────────────────────────

/// One discovered network. The SSID is its identity key; `in_use` marks the
/// network the host is currently associated with.
#[derive(Debug)]
pub struct AccessPoint {
    pub ssid: String,
    pub security: Security,
    /// Signal quality, 0–100.
    pub signal: u8,
    /// Display-only signal-bar glyphs.
    pub bars: String,
    pub in_use: bool,
}

pub struct AccessPointView {
    pub ssid: Seq<char>,
    pub security: SecurityView,
    pub signal: u8,
    pub bars: Seq<char>,
    pub in_use: bool,
}

impl View for AccessPoint {
    type V = AccessPointView;

    open spec fn view(&self) -> AccessPointView {
        AccessPointView {
            ssid: self.ssid@,
            security: self.security@,
            signal: self.signal,
            bars: self.bars@,
            in_use: self.in_use,
        }
    }
}

impl DeepView for AccessPoint {
    type V = AccessPointView;

    open spec fn deep_view(&self) -> AccessPointView {
        self.view()
    }
}

impl Clone for AccessPoint {
    fn clone(&self) -> (r: Self)
        ensures
            r@ == self@,
    {
        AccessPoint {
            ssid: self.ssid.clone(),
            security: self.security.clone(),
            signal: self.signal,
            bars: self.bars.clone(),
            in_use: self.in_use,
        }
    }
}

/// The one-line menu rendering of an access point: an association marker,
/// a lock marker, the SSID padded to 20 columns, the bar glyphs, and the
/// signal percentage right-aligned to 3 columns.
pub open spec fn display_line_spec(ap: AccessPointView) -> Seq<char> {
    active_marker(ap.in_use) + lock_marker(ap.security) + pad_right(ap.ssid, 20) + seq![' ', ' ']
        + ap.bars + seq![' ', ' '] + pad_left(dec_digits(ap.signal as nat), 3) + seq!['%']
}

pub open spec fn active_marker(in_use: bool) -> Seq<char> {
    if in_use {
        seq!['●', ' ']
    } else {
        seq![' ', ' ']
    }
}

pub open spec fn lock_marker(sec: SecurityView) -> Seq<char> {
    match sec {
        SecurityView::Open => seq![' ', ' ', ' '],
        SecurityView::Wep => seq!['🔓', ' '],
        _ => seq!['🔒', ' '],
    }
}

impl AccessPoint {
    /// The single menu line shown for this network.
    pub fn display_line(&self) -> (r: String)
        ensures
            r@ == display_line_spec(self@),
    {
        proof {
            reveal_strlit("● ");
            reveal_strlit("  ");
            reveal_strlit("   ");
            reveal_strlit("🔓 ");
            reveal_strlit("🔒 ");
            reveal_strlit("%");
            assert("● "@ =~= seq!['●', ' ']);
            assert("  "@ =~= seq![' ', ' ']);
            assert("   "@ =~= seq![' ', ' ', ' ']);
            assert("🔓 "@ =~= seq!['🔓', ' ']);
            assert("🔒 "@ =~= seq!['🔒', ' ']);
            assert("%"@ =~= seq!['%']);
        }
        let mut out = String::new();
        if self.in_use {
            out.append("● ");
        } else {
            out.append("  ");
        }
        match &self.security {
            Security::Open => out.append("   "),
            Security::Wep => out.append("🔓 "),
            _ => out.append("🔒 "),
        }
        out.append(self.ssid.as_str());
        let sl = self.ssid.as_str().unicode_len();
        if sl < 20 {
            push_spaces(&mut out, 20 - sl);
        }
        out.append("  ");
        out.append(self.bars.as_str());
        out.append("  ");
        let digits = u64_to_string(self.signal as u64);
        let dl = digits.as_str().unicode_len();
        if dl < 3 {
            let mut head = String::new();
            push_spaces(&mut head, 3 - dl);
            out.append(head.as_str());
        }
        out.append(digits.as_str());
        out.append("%");
        proof {
            assert(out@ =~= display_line_spec(self@));
        }
        out
    }
}

// ───────────────────────── radio, results, actions ─────────────────────────

/// State of the wireless radio.
#[derive(Debug, Clone, Copy, PartialEq, Eq, Structural)]
pub enum RadioState {
    Enabled,
    Disabled,
}

/// Classified outcome of one external connection attempt.
#[derive(Debug)]
pub enum ConnectResult {
    Success { ip: String },
    WrongPassword,
    Timeout,
    Failed(String),
}

pub enum ConnectResultView {
    Success { ip: Seq<char> },
    WrongPassword,
    Timeout,
    Failed(Seq<char>),
}

impl View for ConnectResult {
    type V = ConnectResultView;

    open spec fn view(&self) -> ConnectResultView {
        match self {
            ConnectResult::Success { ip } => ConnectResultView::Success { ip: ip@ },
            ConnectResult::WrongPassword => ConnectResultView::WrongPassword,
            ConnectResult::Timeout => ConnectResultView::Timeout,
            ConnectResult::Failed(m) => ConnectResultView::Failed(m@),
        }
    }
}

/// What a menu selection asks for.
#[derive(Debug)]
pub enum MenuAction {
    Connect(AccessPoint),
    ToggleRadio,
    Refresh,
    Manual,
    Disconnect,
    Forget,
    Hotspot,
    Details,
    QrCode,
}

pub enum MenuActionView {
    Connect(AccessPointView),
    ToggleRadio,
    Refresh,
    Manual,
    Disconnect,
    Forget,
    Hotspot,
    Details,
    QrCode,
}

impl View for MenuAction {
    type V = MenuActionView;

    open spec fn view(&self) -> MenuActionView {
        match self {
            MenuAction::Connect(ap) => MenuActionView::Connect(ap@),
            MenuAction::ToggleRadio => MenuActionView::ToggleRadio,
            MenuAction::Refresh => MenuActionView::Refresh,
            MenuAction::Manual => MenuActionView::Manual,
            MenuAction::Disconnect => MenuActionView::Disconnect,
            MenuAction::Forget => MenuActionView::Forget,
            MenuAction::Hotspot => MenuActionView::Hotspot,
            MenuAction::Details => MenuActionView::Details,
            MenuAction::QrCode => MenuActionView::QrCode,
        }
    }
}

/// What a finished action tells the top-level loop to do next: redisplay
/// from cache, redisplay after a forced rescan, or leave the loop.
#[derive(Debug, Clone, Copy, PartialEq, Eq, Structural)]
pub enum Nav {
    Back,
    Refresh,
    Quit,
}

} // verus!
