//! The interactive list: what the menu shows for a given scan list and
//! radio state, how a selection maps back to an action, and the small
//! decisions of the dispatch loop. Rendering and prompting happen outside;
//! every action resolves to one navigation signal, and only cancelling the
//! top-level list may quit.

use vstd::prelude::*;
use crate::types::{
    AccessPoint, AccessPointView, MenuAction, MenuActionView, Nav, RadioState, SecurityView,
    display_line_spec,
};
use crate::text::{
    dec_digits, has_prefix, has_sub, trim, trim_spec, starts_with, contains_str, str_eq,
    u64_to_string, find_char, find_char_from,
};

verus! {

// ───────────────────────── the menu model ─────────────────────────

pub open spec fn toggle_label(radio: RadioState) -> Seq<char> {
    if radio == RadioState::Enabled {
        "⚡ toggle off"@
    } else {
        "⚡ toggle on"@
    }
}

/// The refresh row shows how long the cache still answers reads.
pub open spec fn refresh_label(remaining: u64) -> Seq<char> {
    if remaining == 0 {
        "🔄 refresh  (缓存已过期)"@
    } else {
        "🔄 refresh  (缓存剩余 "@ + dec_digits(remaining as nat) + "s)"@
    }
}

/// How many fixed rows stand before the network list: the two panels only
/// exist while a network is connected.
pub open spec fn header_count(has_connection: bool) -> int {
    if has_connection {
        8
    } else {
        6
    }
}

pub open spec fn header_items(radio: RadioState, remaining: u64, has_connection: bool) -> Seq<
    Seq<char>,
> {
    seq![
        toggle_label(radio),
        refresh_label(remaining),
        "✏️  manual"@,
        "❌ disconnect"@,
        "🗑️  forget"@,
        "📡 hotspot"@,
    ] + if has_connection {
        seq!["📊 details"@, "📷 qrcode"@]
    } else {
        Seq::empty()
    }
}

/// Every menu row: the fixed rows, then one line per network.
pub open spec fn menu_items_spec(
    aps: Seq<AccessPointView>,
    radio: RadioState,
    remaining: u64,
    has_connection: bool,
) -> Seq<Seq<char>> {
    header_items(radio, remaining, has_connection) + aps.map_values(
        |a: AccessPointView| display_line_spec(a),
    )
}

/// The first listed network with this SSID, from position `i` on.
pub open spec fn ssid_index_from(aps: Seq<AccessPointView>, ssid: Seq<char>, i: int) -> Option<int>
    decreases aps.len() - i,
    when 0 <= i
{
    if i >= aps.len() {
        None
    } else if aps[i].ssid == ssid {
        Some(i)
    } else {
        ssid_index_from(aps, ssid, i + 1)
    }
}

pub proof fn lemma_ssid_index_props(aps: Seq<AccessPointView>, ssid: Seq<char>, i: int)
    requires
        0 <= i <= aps.len(),
    ensures
        ssid_index_from(aps, ssid, i) matches Some(k) ==> i <= k < aps.len() && aps[k].ssid
            == ssid,
        ssid_index_from(aps, ssid, i) is None ==> forall|j: int|
            i <= j < aps.len() ==> (#[trigger] aps[j]).ssid != ssid,
    decreases aps.len() - i,
{
    if i < aps.len() && aps[i].ssid != ssid {
        lemma_ssid_index_props(aps, ssid, i + 1);
    }
}

/// The row to pre-highlight: the connected network's line, when it is
/// listed.
pub open spec fn highlight_spec(
    aps: Seq<AccessPointView>,
    curr_ssid: Option<Seq<char>>,
    has_connection: bool,
) -> Option<int> {
    match curr_ssid {
        None => None,
        Some(ssid) => match ssid_index_from(aps, ssid, 0) {
            None => None,
            Some(i) => Some(header_count(has_connection) + i),
        },
    }
}

/// Whether the open-network warning banner is shown.
pub open spec fn open_network_listed(aps: Seq<AccessPointView>) -> bool {
    exists|i: int| 0 <= i < aps.len() && (#[trigger] aps[i]).security == SecurityView::Open
}

/// Lines shown at once: one while the radio is off, else every row up to
/// the configured bound.
pub open spec fn menu_lines_spec(
    aps: Seq<AccessPointView>,
    radio: RadioState,
    has_connection: bool,
    most: usize,
) -> int {
    if radio == RadioState::Disabled {
        1
    } else if aps.len() + header_count(has_connection) <= most {
        aps.len() + header_count(has_connection)
    } else {
        most as int
    }
}

/// The menu window is as wide as its widest row plus a margin; 40 columns
/// stand in for an empty menu.
pub open spec fn widest_item(items: Seq<Seq<char>>) -> int
    decreases items.len(),
{
    if items.len() == 0 {
        40
    } else if items.len() == 1 {
        items[0].len() as int
    } else {
        let rest = widest_item(items.drop_last());
        if items.last().len() >= rest {
            items.last().len() as int
        } else {
            rest
        }
    }
}

/// Everything the launcher needs to draw the list.
#[derive(Debug)]
pub struct MenuModel {
    pub items: Vec<String>,
    /// Row to pre-highlight.
    pub highlight: Option<usize>,
    /// Whether to warn that an unencrypted network is listed.
    pub warning: bool,
    /// Lines shown at once.
    pub lines: usize,
    /// Window width in columns.
    pub width: usize,
}

/// Builds the menu for one pass of the loop.
#[verifier::rlimit(50)]
pub fn build_menu(
    aps: &Vec<AccessPoint>,
    radio: RadioState,
    curr_ssid: &Option<String>,
    remaining: u64,
    most_lines: usize,
) -> (r: MenuModel)
    ensures
        ({
            let has_connection = curr_ssid is Some;
            let curr = match curr_ssid {
                None => None,
                Some(s) => Some(s@),
            };
            &&& r.items.deep_view() == menu_items_spec(
                aps.deep_view(),
                radio,
                remaining,
                has_connection,
            )
            &&& (r.highlight is Some <==> highlight_spec(aps.deep_view(), curr, has_connection)
                is Some)
            &&& (r.highlight matches Some(h) ==> highlight_spec(aps.deep_view(), curr, has_connection)
                == Some(h as int))
            &&& r.warning == open_network_listed(aps.deep_view())
            &&& r.lines == menu_lines_spec(aps.deep_view(), radio, has_connection, most_lines)
            &&& r.width == (if widest_item(r.items.deep_view()) + 4 <= usize::MAX {
                widest_item(r.items.deep_view()) + 4
            } else {
                usize::MAX as int
            })
        }),
{
    let has_connection = curr_ssid.is_some();
    let mut items: Vec<String> = Vec::new();
    match radio {
        RadioState::Enabled => items.push(String::from_str("⚡ toggle off")),
        RadioState::Disabled => items.push(String::from_str("⚡ toggle on")),
    }
    if remaining == 0 {
        items.push(String::from_str("🔄 refresh  (缓存已过期)"));
    } else {
        let mut label = String::from_str("🔄 refresh  (缓存剩余 ");
        let digits = u64_to_string(remaining);
        label.append(digits.as_str());
        label.append("s)");
        proof {
            assert(label@ =~= refresh_label(remaining));
        }
        items.push(label);
    }
    items.push(String::from_str("✏️  manual"));
    items.push(String::from_str("❌ disconnect"));
    items.push(String::from_str("🗑️  forget"));
    items.push(String::from_str("📡 hotspot"));
    if has_connection {
        items.push(String::from_str("📊 details"));
        items.push(String::from_str("📷 qrcode"));
    }
    let ghost curr = match curr_ssid {
        None => None,
        Some(s) => Some(s@),
    };
    proof {
        assert(items.deep_view() =~= header_items(radio, remaining, has_connection));
    }
    let ap_start = items.len();
    let mut warning = false;
    let mut highlight: Option<usize> = None;
    let mut i: usize = 0;
    proof {
        if curr is Some {
            lemma_ssid_index_props(aps.deep_view(), curr->0, 0);
        }
    }
    while i < aps.len()
        invariant
            0 <= i <= aps.len(),
            ap_start == header_count(has_connection),
            items.len() == ap_start + i,
            items.deep_view() =~= header_items(radio, remaining, has_connection) + aps.deep_view(
            ).subrange(0, i as int).map_values(|a: AccessPointView| display_line_spec(a)),
            warning == exists|k: int|
                0 <= k < i && (#[trigger] aps.deep_view()[k]).security == SecurityView::Open,
            curr == (match curr_ssid {
                None => None::<Seq<char>>,
                Some(s) => Some(s@),
            }),
            (highlight is Some <==> (curr is Some && ssid_index_from(
                aps.deep_view(),
                curr->0,
                0,
            ) is Some && ssid_index_from(aps.deep_view(), curr->0, 0)->0 < i)),
            highlight matches Some(h) ==> curr is Some && ssid_index_from(
                aps.deep_view(),
                curr->0,
                0,
            ) == Some(h - ap_start) && h >= ap_start,
            (curr is Some && highlight is None) ==> ssid_index_from(
                aps.deep_view(),
                curr->0,
                i as int,
            ) == ssid_index_from(aps.deep_view(), curr->0, 0),
        decreases aps.len() - i,
    {
        let ap = &aps[i];
        proof {
            assert(ap@ == aps.deep_view()[i as int]);
            if curr is Some {
                lemma_ssid_index_props(aps.deep_view(), curr->0, 0);
            }
        }
        let ghost d0 = items.deep_view();
        items.push(ap.display_line());
        proof {
            assert(aps.deep_view().subrange(0, i + 1).map_values(
                |a: AccessPointView| display_line_spec(a),
            ) =~= aps.deep_view().subrange(0, i as int).map_values(
                |a: AccessPointView| display_line_spec(a),
            ).push(display_line_spec(aps.deep_view()[i as int])));
            assert(items.deep_view() =~= d0.push(display_line_spec(aps.deep_view()[i as int])));
        }
        if ap.security.needs_password() == false {
            proof {
                assert(aps.deep_view()[i as int].security == SecurityView::Open);
            }
            warning = true;
        }
        match curr_ssid {
            Some(ssid) => {
                if highlight.is_none() && str_eq(ap.ssid.as_str(), ssid.as_str()) {
                    highlight = Some(ap_start + i);
                    proof {
                        assert(ssid_index_from(aps.deep_view(), ssid@, i as int) == Some(
                            i as int,
                        ));
                    }
                }
            },
            None => {},
        }
        i += 1;
    }
    proof {
        assert(aps.deep_view().subrange(0, aps.len() as int) =~= aps.deep_view());
        if curr is Some && highlight is None {
            assert(ssid_index_from(aps.deep_view(), curr->0, aps.len() as int) is None);
        }
    }
    let lines: usize = match radio {
        RadioState::Disabled => 1,
        RadioState::Enabled => {
            if items.len() <= most_lines {
                items.len()
            } else {
                most_lines
            }
        },
    };
    let w = widest_of(&items);
    let width = if w > usize::MAX - 4 {
        usize::MAX
    } else {
        w + 4
    };
    MenuModel { items, highlight, warning, lines, width }
}

/// The widest row, in characters.
fn widest_of(items: &Vec<String>) -> (r: usize)
    ensures
        r == widest_item(items.deep_view()),
{
    if items.len() == 0 {
        return 40;
    }
    proof {
        assert(items.deep_view().subrange(0, 1) =~= seq![items.deep_view()[0]]);
    }
    let mut m = items[0].as_str().unicode_len();
    let mut i: usize = 1;
    proof {
        assert(widest_item(items.deep_view().subrange(0, 1)) == items.deep_view()[0].len());
    }
    while i < items.len()
        invariant
            1 <= i <= items.len(),
            m == widest_item(items.deep_view().subrange(0, i as int)),
        decreases items.len() - i,
    {
        let l = items[i].as_str().unicode_len();
        proof {
            let pfx = items.deep_view().subrange(0, i + 1);
            assert(pfx.drop_last() =~= items.deep_view().subrange(0, i as int));
            assert(pfx.last() == items.deep_view()[i as int]);
        }
        if l > m {
            m = l;
        }
        i += 1;
    }
    proof {
        assert(items.deep_view().subrange(0, items.len() as int) =~= items.deep_view());
    }
    m
}

// ───────────────────────── selections ─────────────────────────

/// The first listed network whose SSID occurs inside the selected row.
pub open spec fn contained_ssid_from(aps: Seq<AccessPointView>, choice: Seq<char>, i: int) -> Option<
    int,
>
    decreases aps.len() - i,
    when 0 <= i
{
    if i >= aps.len() {
        None
    } else if has_sub(choice, aps[i].ssid) {
        Some(i)
    } else {
        contained_ssid_from(aps, choice, i + 1)
    }
}

/// What a selected row asks for. The fixed rows are matched on the trimmed
/// text; any other row connects to the first network whose SSID occurs in
/// it, falling back to the connected network's entry, and a row that maps
/// to no network asks for a refresh.
pub open spec fn parse_action_spec(
    choice: Seq<char>,
    aps: Seq<AccessPointView>,
    curr_ssid: Option<Seq<char>>,
) -> MenuActionView {
    let t = trim_spec(choice);
    if has_prefix(t, "⚡"@) {
        MenuActionView::ToggleRadio
    } else if has_prefix(t, "🔄"@) {
        MenuActionView::Refresh
    } else if has_prefix(t, "✏️"@) {
        MenuActionView::Manual
    } else if t == "❌ disconnect"@ {
        MenuActionView::Disconnect
    } else if has_prefix(t, "🗑️"@) {
        MenuActionView::Forget
    } else if t == "📡 hotspot"@ {
        MenuActionView::Hotspot
    } else if t == "📊 details"@ {
        MenuActionView::Details
    } else if t == "📷 qrcode"@ {
        MenuActionView::QrCode
    } else {
        match contained_ssid_from(aps, choice, 0) {
            Some(i) => MenuActionView::Connect(aps[i]),
            None => match curr_ssid {
                Some(ssid) => match ssid_index_from(aps, ssid, 0) {
                    Some(j) => MenuActionView::Connect(aps[j]),
                    None => MenuActionView::Refresh,
                },
                None => MenuActionView::Refresh,
            },
        }
    }
}

fn find_contained(choice: &str, aps: &Vec<AccessPoint>) -> (r: Option<usize>)
    ensures
        r is Some <==> contained_ssid_from(aps.deep_view(), choice@, 0) is Some,
        r matches Some(i) ==> i < aps.len() && contained_ssid_from(aps.deep_view(), choice@, 0)
            == Some(i as int),
{
    let mut i: usize = 0;
    while i < aps.len()
        invariant
            0 <= i <= aps.len(),
            contained_ssid_from(aps.deep_view(), choice@, 0) == contained_ssid_from(
                aps.deep_view(),
                choice@,
                i as int,
            ),
        decreases aps.len() - i,
    {
        proof {
            assert(aps.deep_view()[i as int] == aps@[i as int]@);
        }
        if contains_str(choice, aps[i].ssid.as_str()) {
            proof {
                assert(contained_ssid_from(aps.deep_view(), choice@, i as int) == Some(i as int));
            }
            return Some(i);
        }
        i += 1;
    }
    None
}

fn find_ssid_index(aps: &Vec<AccessPoint>, ssid: &str) -> (r: Option<usize>)
    ensures
        r is Some <==> ssid_index_from(aps.deep_view(), ssid@, 0) is Some,
        r matches Some(i) ==> i < aps.len() && ssid_index_from(aps.deep_view(), ssid@, 0) == Some(
            i as int,
        ),
{
    let mut i: usize = 0;
    while i < aps.len()
        invariant
            0 <= i <= aps.len(),
            ssid_index_from(aps.deep_view(), ssid@, 0) == ssid_index_from(
                aps.deep_view(),
                ssid@,
                i as int,
            ),
        decreases aps.len() - i,
    {
        proof {
            assert(aps.deep_view()[i as int] == aps@[i as int]@);
        }
        if str_eq(aps[i].ssid.as_str(), ssid) {
            proof {
                assert(ssid_index_from(aps.deep_view(), ssid@, i as int) == Some(i as int));
            }
            return Some(i);
        }
        i += 1;
    }
    None
}

/// Maps a selected row back to the action it stands for.
pub fn parse_action(choice: &str, aps: &Vec<AccessPoint>, curr_ssid: &Option<String>) -> (r:
    MenuAction)
    ensures
        r@ == parse_action_spec(
            choice@,
            aps.deep_view(),
            match curr_ssid {
                None => None,
                Some(s) => Some(s@),
            },
        ),
{
    let t = trim(choice);
    if starts_with(t, "⚡") {
        return MenuAction::ToggleRadio;
    }
    if starts_with(t, "🔄") {
        return MenuAction::Refresh;
    }
    if starts_with(t, "✏️") {
        return MenuAction::Manual;
    }
    if str_eq(t, "❌ disconnect") {
        return MenuAction::Disconnect;
    }
    if starts_with(t, "🗑️") {
        return MenuAction::Forget;
    }
    if str_eq(t, "📡 hotspot") {
        return MenuAction::Hotspot;
    }
    if str_eq(t, "📊 details") {
        return MenuAction::Details;
    }
    if str_eq(t, "📷 qrcode") {
        return MenuAction::QrCode;
    }
    match find_contained(choice, aps) {
        Some(i) => {
            return MenuAction::Connect(aps[i].clone());
        },
        None => {},
    }
    match curr_ssid {
        Some(ssid) => {
            match find_ssid_index(aps, ssid.as_str()) {
                Some(j) => MenuAction::Connect(aps[j].clone()),
                None => MenuAction::Refresh,
            }
        },
        None => MenuAction::Refresh,
    }
}

// ───────────────────────── dispatch decisions ─────────────────────────

/// What the loop does with a finished action's signal: `Quit` ends the
/// loop; `Back` redisplays from cache; `Refresh` redisplays after a forced
/// rescan.
pub fn next_iteration(nav: Nav) -> (r: Option<bool>)
    ensures
        nav == Nav::Quit <==> r is None,
        nav == Nav::Back ==> r == Some(false),
        nav == Nav::Refresh ==> r == Some(true),
{
    match nav {
        Nav::Quit => None,
        Nav::Back => Some(false),
        Nav::Refresh => Some(true),
    }
}

/// What a manual entry means: an SSID, optionally followed by a comma and
/// a credential, both trimmed; an empty credential counts as none, and an
/// empty SSID refuses the entry.
pub open spec fn manual_entry_spec(input: Seq<char>) -> Option<(Seq<char>, Option<Seq<char>>)> {
    let c = find_char_from(input, ',', 0);
    let ssid = if c < input.len() {
        trim_spec(input.subrange(0, c))
    } else {
        trim_spec(input)
    };
    let pass = if c < input.len() {
        trim_spec(input.subrange(c + 1, input.len() as int))
    } else {
        Seq::empty()
    };
    if ssid.len() == 0 {
        None
    } else if pass.len() > 0 {
        Some((ssid, Some(pass)))
    } else {
        Some((ssid, None))
    }
}

/// Splits a manual `SSID` or `SSID,credential` entry.
pub fn parse_manual_entry(input: &str) -> (r: Option<(String, Option<String>)>)
    ensures
        r is Some <==> manual_entry_spec(input@) is Some,
        r matches Some(p) ==> manual_entry_spec(input@) matches Some(q) && p.0@ == q.0 && (p.1
            is Some <==> q.1 is Some) && (p.1 matches Some(w) ==> q.1 == Some(w@)),
{
    let n = input.unicode_len();
    let c = find_char(input, ',', 0);
    let ssid = if c < n {
        trim(input.substring_char(0, c))
    } else {
        proof {
            assert(input@.subrange(0, n as int) =~= input@);
        }
        trim(input)
    };
    let pass = if c < n {
        trim(input.substring_char(c + 1, n))
    } else {
        ""
    };
    proof {
        reveal_strlit("");
        assert(""@ =~= Seq::<char>::empty());
    }
    if ssid.unicode_len() == 0 {
        None
    } else if pass.unicode_len() > 0 {
        Some((ssid.to_owned(), Some(pass.to_owned())))
    } else {
        Some((ssid.to_owned(), None))
    }
}

/// Whether a hotspot credential is long enough to be accepted.
pub fn hotspot_password_ok(pass: &str) -> (r: bool)
    ensures
        r == (pass@.len() >= 8),
{
    pass.unicode_len() >= 8
}

/// The read-only details panel's text.
pub fn details_text(
    ssid: &str,
    ip: &str,
    gateway: &str,
    dns: &str,
    security: &str,
    signal: &str,
    ping_ms_text: Option<&str>,
) -> (r: String)
    ensures
        r@ == "SSID     : "@ + ssid@ + "\nIP       : "@ + ip@ + "\n网关     : "@ + gateway@
            + "\nDNS      : "@ + dns@ + "\n安全     : "@ + security@ + "\n信号     : "@ + signal@
            + "%\n延迟     : "@ + (match ping_ms_text {
            Some(t) => t@ + " ms"@,
            None => "超时"@,
        }),
{
    let mut out = String::from_str("SSID     : ");
    out.append(ssid);
    out.append("\nIP       : ");
    out.append(ip);
    out.append("\n网关     : ");
    out.append(gateway);
    out.append("\nDNS      : ");
    out.append(dns);
    out.append("\n安全     : ");
    out.append(security);
    out.append("\n信号     : ");
    out.append(signal);
    out.append("%\n延迟     : ");
    match ping_ms_text {
        Some(t) => {
            out.append(t);
            out.append(" ms");
        },
        None => {
            out.append("超时");
        },
    }
    proof {
        assert(out@ =~= "SSID     : "@ + ssid@ + "\nIP       : "@ + ip@ + "\n网关     : "@
            + gateway@ + "\nDNS      : "@ + dns@ + "\n安全     : "@ + security@ + "\n信号     : "@
            + signal@ + "%\n延迟     : "@ + (match ping_ms_text {
            Some(t) => t@ + " ms"@,
            None => "超时"@,
        }));
    }
    out
}

} // verus!
