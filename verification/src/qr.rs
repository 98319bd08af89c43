//! The join-this-network QR code: the crate builds and escapes the payload
//! text, an outside encoder renders it as Unicode half-blocks, and the
//! crate indents the rendering for display.

use vstd::prelude::*;
use crate::types::{Security, SecurityView};
use crate::text::{join_nl, join_lines, split_lines, split_lines_vec};

verus! {

// ───────────────────────── payload ─────────────────────────

/// The payload's security mode: WEP and open networks have modes of their
/// own; every other class joins with WPA.
pub open spec fn sec_mode(sec: SecurityView) -> Seq<char> {
    match sec {
        SecurityView::Open => "nopass"@,
        SecurityView::Wep => "WEP"@,
        _ => "WPA"@,
    }
}

/// The characters the payload format reserves.
pub open spec fn reserved_char(c: char) -> bool {
    c == '\\' || c == ';' || c == ',' || c == '"'
}

/// Each reserved character gains a backslash; everything else is kept.
pub open spec fn escape_spec(s: Seq<char>) -> Seq<char>
    decreases s.len(),
{
    if s.len() == 0 {
        Seq::empty()
    } else {
        (if reserved_char(s[0]) {
            seq!['\\', s[0]]
        } else {
            seq![s[0]]
        }) + escape_spec(s.drop_first())
    }
}

/// Escapes one payload field.
pub fn escape_wifi_field(s: &str) -> (r: String)
    ensures
        r@ == escape_spec(s@),
{
    let n = s.unicode_len();
    let mut out = String::new();
    let mut i: usize = 0;
    proof {
        assert(s@.subrange(0, n as int) =~= s@);
    }
    while i < n
        invariant
            0 <= i <= n,
            n == s@.len(),
            escape_spec(s@) =~= out@ + escape_spec(s@.subrange(i as int, n as int)),
        decreases n - i,
    {
        proof {
            let tail = s@.subrange(i as int, n as int);
            assert(tail[0] == s@[i as int]);
            assert(tail.drop_first() =~= s@.subrange(i + 1, n as int));
            reveal_strlit("\\");
            assert("\\"@ =~= seq!['\\']);
        }
        let c = s.get_char(i);
        let piece = s.substring_char(i, i + 1);
        proof {
            assert(piece@ =~= seq![s@[i as int]]);
        }
        if c == '\\' || c == ';' || c == ',' || c == '"' {
            out.append("\\");
            out.append(piece);
        } else {
            out.append(piece);
        }
        i += 1;
    }
    proof {
        assert(escape_spec(s@.subrange(n as int, n as int)) == Seq::<char>::empty());
        assert(out@ + Seq::<char>::empty() =~= out@);
    }
    out
}

/// The join-this-network payload: mode, SSID and credential, each field
/// escaped and terminated.
pub open spec fn qr_payload(ssid: Seq<char>, pass: Seq<char>, sec: SecurityView) -> Seq<char> {
    "WIFI:T:"@ + sec_mode(sec) + ";S:"@ + escape_spec(ssid) + ";P:"@ + escape_spec(pass) + ";;"@
}

fn sec_mode_str(sec: &Security) -> (r: &'static str)
    ensures
        r@ == sec_mode(sec@),
{
    match sec {
        Security::Open => "nopass",
        Security::Wep => "WEP",
        _ => "WPA",
    }
}

// ───────────────────────── rendering ─────────────────────────

/// What went wrong while rendering, mirroring the encoder's own reasons.
#[derive(Debug, Clone, Copy, PartialEq, Eq, Structural)]
pub enum QrGenError {
    DataTooLong,
    InvalidVersion,
    UnsupportedCharacterSet,
    InvalidEciDesignator,
    InvalidCharacter,
}

/// Declares qrcode's `QrError` so the conversion below may take it.
#[verifier::external_type_specification]
#[verifier::external_body]
pub struct ExQrError(qrcode::types::QrError);

/// Relies on qrcode's `QrError`: its five variants are told apart here, one
/// arm each, into the crate's own error.
#[verifier::external_body]
fn qr_error_of(e: qrcode::types::QrError) -> QrGenError {
    match e {
        qrcode::types::QrError::DataTooLong => QrGenError::DataTooLong,
        qrcode::types::QrError::InvalidVersion => QrGenError::InvalidVersion,
        qrcode::types::QrError::UnsupportedCharacterSet => QrGenError::UnsupportedCharacterSet,
        qrcode::types::QrError::InvalidEciDesignator => QrGenError::InvalidEciDesignator,
        qrcode::types::QrError::InvalidCharacter => QrGenError::InvalidCharacter,
    }
}

/// The Unicode half-block rendering of a payload, with a quiet zone, at the
/// medium error-correction level: a function of the payload alone, too
/// involved to restate, so it only carries this name.
pub uninterp spec fn qr_render_of(data: Seq<char>) -> Seq<char>;

/// Relies on qrcode's `QrCode::with_error_correction_level` (medium level)
/// and its `unicode::Dense1x2` renderer with a quiet zone: the rendering
/// depends on the payload's bytes alone.
#[verifier::external_body]
fn render_qr_image(data: &str) -> (r: Result<String, QrGenError>)
    ensures
        r matches Ok(img) ==> img@ == qr_render_of(data@),
{
    match qrcode::QrCode::with_error_correction_level(data.as_bytes(), qrcode::EcLevel::M) {
        Ok(code) => Ok(
            code.render::<qrcode::render::unicode::Dense1x2>().quiet_zone(true).build(),
        ),
        Err(e) => Err(qr_error_of(e)),
    }
}

// ───────────────────────── display shaping ─────────────────────────

/// The rendering as shown: every line indented by two spaces so the block
/// sits off the window edge.
pub open spec fn padded_spec(img: Seq<char>) -> Seq<char> {
    join_nl(split_lines(img).map_values(|l: Seq<char>| seq![' ', ' '] + l))
}

/// Indents each line of a rendering by two spaces.
pub fn pad_qr_image(image: &str) -> (r: String)
    ensures
        r@ == padded_spec(image@),
{
    proof {
        reveal_strlit("  ");
        assert("  "@ =~= seq![' ', ' ']);
    }
    let lines = split_lines_vec(image);
    let ghost ldv = lines.deep_view();
    let mut padded: Vec<String> = Vec::new();
    let mut i: usize = 0;
    while i < lines.len()
        invariant
            0 <= i <= lines.len(),
            ldv == lines.deep_view(),
            ldv.len() == lines.len(),
            padded.deep_view() =~= ldv.subrange(0, i as int).map_values(
                |l: Seq<char>| seq![' ', ' '] + l,
            ),
            "  "@ =~= seq![' ', ' '],
        decreases lines.len() - i,
    {
        proof {
            assert(lines@[i as int]@ == ldv[i as int]);
        }
        let mut p = String::from_str("  ");
        p.append(lines[i].as_str());
        let ghost d0 = padded.deep_view();
        padded.push(p);
        proof {
            assert(ldv.subrange(0, i + 1).map_values(|l: Seq<char>| seq![' ', ' '] + l)
                =~= ldv.subrange(0, i as int).map_values(|l: Seq<char>| seq![' ', ' '] + l).push(
                seq![' ', ' '] + ldv[i as int],
            ));
            assert(padded.deep_view() =~= d0.push(seq![' ', ' '] + ldv[i as int]));
        }
        i += 1;
    }
    proof {
        assert(ldv.subrange(0, ldv.len() as int) =~= ldv);
    }
    join_lines(&padded)
}

/// Builds, renders and indents the join-this-network code for a display.
pub fn wifi_qr(ssid: &str, password: &str, security: &Security) -> (r: Result<String, QrGenError>)
    ensures
        r matches Ok(img) ==> img@ == padded_spec(
            qr_render_of(qr_payload(ssid@, password@, security@)),
        ),
{
    let mut payload = String::from_str("WIFI:T:");
    payload.append(sec_mode_str(security));
    payload.append(";S:");
    let ssid_esc = escape_wifi_field(ssid);
    payload.append(ssid_esc.as_str());
    payload.append(";P:");
    let pass_esc = escape_wifi_field(password);
    payload.append(pass_esc.as_str());
    payload.append(";;");
    proof {
        assert(payload@ =~= qr_payload(ssid@, password@, security@));
    }
    match render_qr_image(payload.as_str()) {
        Ok(img) => Ok(pad_qr_image(img.as_str())),
        Err(e) => Err(e),
    }
}

/// The window width for showing a rendering: its first line plus a margin,
/// with a stand-in width for an empty rendering.
pub open spec fn qr_width_spec(img: Seq<char>) -> int {
    (if split_lines(img).len() == 0 {
        40
    } else {
        split_lines(img)[0].len() as int
    }) + 4
}

pub fn qr_window_width(qr_text: &str) -> (r: usize)
    ensures
        r == (if qr_width_spec(qr_text@) <= usize::MAX {
            qr_width_spec(qr_text@)
        } else {
            usize::MAX as int
        }),
{
    let lines = split_lines_vec(qr_text);
    if lines.len() == 0 {
        44
    } else {
        let w = lines[0].as_str().unicode_len();
        proof {
            assert(lines@[0]@ == lines.deep_view()[0]);
        }
        if w > usize::MAX - 4 {
            usize::MAX
        } else {
            w + 4
        }
    }
}

} // verus!
