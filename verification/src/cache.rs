//! The scan cache: a snapshot of the last scan with its capture time, its
//! freshness arithmetic, and a self-delimiting text encoding whose decoder
//! accepts exactly the documents the encoder writes. The file itself is
//! written and replaced atomically outside the crate; because the decoder
//! returns the unique snapshot a document encodes, a reader sees either the
//! prior snapshot or the new one, never a mixture.

use vstd::prelude::*;
use crate::text::{
    all_digits, dec_digits, dec_val, digit_of, is_digit_char, find_char, find_char_from,
    lemma_find_char_from, parse_u64, str_eq, u64_to_string,
};
use crate::types::{AccessPoint, AccessPointView, Security, SecurityView};

verus! {

// ───────────────────────── snapshot ─────────────────────────

/// The unit the cache replaces wholesale: capture time (seconds since the
/// epoch) and the ordered scan list of that moment.
pub struct CacheSnapshot {
    pub timestamp: u64,
    pub aps: Vec<AccessPoint>,
}

pub struct SnapshotView {
    pub timestamp: u64,
    pub aps: Seq<AccessPointView>,
}

impl View for CacheSnapshot {
    type V = SnapshotView;

    open spec fn view(&self) -> SnapshotView {
        SnapshotView { timestamp: self.timestamp, aps: self.aps.deep_view() }
    }
}

// ───────────────────────── freshness ─────────────────────────

/// Seconds the snapshot has existed at query time; a clock that moved
/// backwards counts as no age at all.
pub open spec fn age_of(timestamp: u64, now: u64) -> int {
    if now >= timestamp {
        now - timestamp
    } else {
        0
    }
}

/// Whether a snapshot taken at `timestamp` still answers reads at `now`.
pub open spec fn fresh_at(timestamp: u64, now: u64, ttl: u64) -> bool {
    age_of(timestamp, now) < ttl
}

pub fn snapshot_fresh(timestamp: u64, now: u64, ttl: u64) -> (r: bool)
    ensures
        r == fresh_at(timestamp, now, ttl),
{
    let age = if now >= timestamp {
        now - timestamp
    } else {
        0
    };
    age < ttl
}

/// How many seconds of validity are left, zero once expired.
pub open spec fn remaining_spec(timestamp: u64, now: u64, ttl: u64) -> u64 {
    if age_of(timestamp, now) < ttl {
        (ttl - age_of(timestamp, now)) as u64
    } else {
        0
    }
}

/// A snapshot answers reads for exactly the `ttl` seconds after its capture.
pub proof fn lemma_ttl_window(timestamp: u64, now: u64, ttl: u64)
    requires
        timestamp <= now,
    ensures
        fresh_at(timestamp, now, ttl) <==> now < timestamp + ttl,
        remaining_spec(timestamp, now, ttl) == if now < timestamp + ttl {
            timestamp + ttl - now
        } else {
            0
        },
{
}

/// Remaining validity never grows as the clock advances.
pub proof fn lemma_remaining_monotonic(timestamp: u64, now1: u64, now2: u64, ttl: u64)
    requires
        now1 <= now2,
    ensures
        remaining_spec(timestamp, now1, ttl) >= remaining_spec(timestamp, now2, ttl),
{
}

// ───────────────────────── document encoding ─────────────────────────

/// One field of the document: the character count in decimal, a space, the
/// field text, a newline. The count makes the format self-delimiting, so a
/// field may hold any text at all.
pub open spec fn enc_field(f: Seq<char>) -> Seq<char> {
    dec_digits(f.len()) + seq![' '] + f + seq!['\n']
}

pub open spec fn sec_tag(sec: SecurityView) -> Seq<char> {
    match sec {
        SecurityView::Open => seq!['o', 'p', 'e', 'n'],
        SecurityView::Wep => seq!['w', 'e', 'p'],
        SecurityView::Wpa => seq!['w', 'p', 'a'],
        SecurityView::Wpa2 => seq!['w', 'p', 'a', '2'],
        SecurityView::Wpa3 => seq!['w', 'p', 'a', '3'],
        SecurityView::Unknown(_) => seq!['o', 't', 'h', 'e', 'r'],
    }
}

pub open spec fn sec_raw(sec: SecurityView) -> Seq<char> {
    match sec {
        SecurityView::Unknown(s) => s,
        _ => Seq::empty(),
    }
}

pub open spec fn flag_field(b: bool) -> Seq<char> {
    if b {
        seq!['1']
    } else {
        seq!['0']
    }
}

/// The six fields of one access point.
pub open spec fn enc_ap(ap: AccessPointView) -> Seq<char> {
    enc_field(ap.ssid) + enc_field(sec_tag(ap.security)) + enc_field(sec_raw(ap.security))
        + enc_field(dec_digits(ap.signal as nat)) + enc_field(ap.bars) + enc_field(
        flag_field(ap.in_use),
    )
}

pub open spec fn enc_aps(l: Seq<AccessPointView>) -> Seq<char>
    decreases l.len(),
{
    if l.len() == 0 {
        Seq::empty()
    } else {
        enc_ap(l[0]) + enc_aps(l.drop_first())
    }
}

/// The whole document: timestamp, entry count, then the entries.
pub open spec fn enc_snapshot(s: SnapshotView) -> Seq<char> {
    enc_field(dec_digits(s.timestamp as nat)) + enc_field(dec_digits(s.aps.len())) + enc_aps(s.aps)
}

proof fn lemma_enc_aps_push(l: Seq<AccessPointView>, ap: AccessPointView)
    ensures
        enc_aps(l.push(ap)) == enc_aps(l) + enc_ap(ap),
    decreases l.len(),
{
    if l.len() == 0 {
        assert(l.push(ap).drop_first() =~= Seq::<AccessPointView>::empty());
        assert(l.push(ap)[0] == ap);
        assert(enc_aps(Seq::<AccessPointView>::empty()) == Seq::<char>::empty());
        assert(enc_aps(l.push(ap)) =~= enc_ap(ap));
        assert(enc_aps(l) + enc_ap(ap) =~= enc_ap(ap));
    } else {
        assert(l.push(ap).drop_first() =~= l.drop_first().push(ap));
        lemma_enc_aps_push(l.drop_first(), ap);
        assert(l.push(ap)[0] == l[0]);
        assert(enc_aps(l.push(ap)) =~= enc_aps(l) + enc_ap(ap));
    }
}

proof fn lemma_dec_digits_val(n: nat)
    ensures
        all_digits(dec_digits(n)),
        dec_digits(n).len() >= 1,
        dec_val(dec_digits(n)) == n,
    decreases n,
{
    if n < 10 {
        assert(dec_digits(n) == seq![crate::text::digit_char(n as int)]);
        assert(dec_digits(n).drop_last() =~= Seq::<char>::empty());
        assert(dec_val(Seq::<char>::empty()) == 0);
        assert(digit_of(crate::text::digit_char(n as int)) == n);
    } else {
        lemma_dec_digits_val(n / 10);
        let d = dec_digits(n);
        assert(d == dec_digits(n / 10).push(crate::text::digit_char((n % 10) as int)));
        assert(d.drop_last() =~= dec_digits(n / 10));
        assert(forall|i: int| 0 <= i < d.len() - 1 ==> #[trigger] d[i] == dec_digits(n / 10)[i]);
        assert(all_digits(d));
        assert(digit_of(crate::text::digit_char((n % 10) as int)) == n % 10);
        assert(dec_val(d) == dec_val(dec_digits(n / 10)) * 10 + digit_of(d.last()));
        assert(n / 10 * 10 + n % 10 == n) by {
            vstd::arithmetic::div_mod::lemma_fundamental_div_mod(n as int, 10);
        }
    }
}

/// How a field encoding sits inside the document: its digit run, its space,
/// its text and its newline, at fixed offsets from `pos`.
proof fn lemma_enc_field_shape(s: Seq<char>, pos: int, f: Seq<char>, rest: Seq<char>)
    requires
        0 <= pos <= s.len(),
        s.subrange(pos, s.len() as int) == enc_field(f) + rest,
    ensures
        enc_field(f).len() == dec_digits(f.len()).len() + f.len() + 2,
        pos + enc_field(f).len() <= s.len(),
        find_char_from(s, ' ', pos) == pos + dec_digits(f.len()).len(),
        s.subrange(pos, pos + dec_digits(f.len()).len()) =~= dec_digits(f.len()),
        s.subrange(
            pos + dec_digits(f.len()).len() + 1,
            pos + dec_digits(f.len()).len() + 1 + f.len(),
        ) =~= f,
        s[pos + dec_digits(f.len()).len() + 1 + f.len()] == '\n',
        all_digits(dec_digits(f.len())),
        dec_val(dec_digits(f.len())) == f.len(),
{
    lemma_dec_digits_val(f.len());
    let d = dec_digits(f.len());
    let a1 = d + seq![' '];
    let a2 = a1 + f;
    let e = a2 + seq!['\n'];
    assert(e == enc_field(f));
    let tail = s.subrange(pos, s.len() as int);
    assert(tail.len() == e.len() + rest.len());
    assert(e.len() == d.len() + f.len() + 2);
    assert forall|j: int| 0 <= j < e.len() implies s[pos + j] == e[j] by {
        assert(tail[j] == s[pos + j]);
        assert(tail[j] == (e + rest)[j]);
        assert((e + rest)[j] == e[j]);
    }
    assert forall|j: int| 0 <= j < d.len() implies s[pos + j] == d[j] by {
        assert(e[j] == a2[j]);
        assert(a2[j] == a1[j]);
        assert(a1[j] == d[j]);
    }
    assert(e[d.len() as int] == a2[d.len() as int]);
    assert(a2[d.len() as int] == a1[d.len() as int]);
    assert(a1[d.len() as int] == ' ');
    assert(s[pos + d.len()] == ' ');
    lemma_find_char_from(s, ' ', pos);
    let fc = find_char_from(s, ' ', pos);
    assert(fc <= pos + d.len());
    if fc < pos + d.len() {
        assert(s[fc] == ' ');
        assert(s[fc] == d[fc - pos]);
        assert(is_digit_char(d[fc - pos]));
        assert(false);
    }
    assert forall|j: int| 0 <= j < f.len() implies s[pos + d.len() + 1 + j] == f[j] by {
        assert(e[d.len() + 1 + j] == a2[d.len() + 1 + j]);
        assert(a2[d.len() + 1 + j] == f[j]);
    }
    assert(s.subrange(pos, pos + d.len()) =~= d);
    assert(s.subrange(pos + d.len() + 1, pos + d.len() + 1 + f.len()) =~= f);
    assert(e[d.len() + 1 + f.len() as int] == '\n');
    assert(s[pos + d.len() + 1 + f.len()] == '\n');
}

// ───────────────────────── decoder ─────────────────────────

/// Reads one length-prefixed field at `pos`. Succeeds exactly on a field
/// written by the encoder (the count in canonical decimal form), and then
/// returns the field and the position just past it.
#[verifier::rlimit(50)]
fn read_field(s: &str, pos: usize) -> (r: Option<(String, usize)>)
    requires
        pos <= s@.len(),
    ensures
        r matches Some(p) ==> pos < p.1 <= s@.len() && s@.subrange(pos as int, p.1 as int)
            =~= enc_field(p.0@),
        forall|f: Seq<char>, rest: Seq<char>|
            s@.subrange(pos as int, s@.len() as int) == enc_field(f) + rest ==> (r matches Some(p)
                && p.0@ == f && p.1 == pos + enc_field(f).len()),
{
    let n = s.unicode_len();
    let sp = find_char(s, ' ', pos);
    if sp >= n {
        proof {
            assert forall|f: Seq<char>, rest: Seq<char>|
                s@.subrange(pos as int, s@.len() as int) == enc_field(f) + rest implies false by {
                lemma_enc_field_shape(s@, pos as int, f, rest);
            }
        }
        return None;
    }
    let len_part = s.substring_char(pos, sp);
    proof {
        lemma_find_char_from(s@, ' ', pos as int);
    }
    let k = match parse_u64(len_part) {
        None => {
            proof {
                assert forall|f: Seq<char>, rest: Seq<char>|
                    s@.subrange(pos as int, s@.len() as int) == enc_field(f) + rest implies false
                by {
                    lemma_enc_field_shape(s@, pos as int, f, rest);
                    assert(len_part@ =~= dec_digits(f.len()));
                }
            }
            return None;
        },
        Some(k) => k,
    };
    let canon = u64_to_string(k);
    if !str_eq(canon.as_str(), len_part) {
        proof {
            assert forall|f: Seq<char>, rest: Seq<char>|
                s@.subrange(pos as int, s@.len() as int) == enc_field(f) + rest implies false by {
                lemma_enc_field_shape(s@, pos as int, f, rest);
                assert(len_part@ =~= dec_digits(f.len()));
                lemma_dec_digits_val(k as nat);
            }
        }
        return None;
    }
    // the field text runs from just after the space; it must fit, and a
    // newline must close it
    let avail = (n - sp) - 1;
    if k > avail as u64 {
        proof {
            assert forall|f: Seq<char>, rest: Seq<char>|
                s@.subrange(pos as int, s@.len() as int) == enc_field(f) + rest implies false by {
                lemma_enc_field_shape(s@, pos as int, f, rest);
                assert(len_part@ =~= dec_digits(f.len()));
            }
        }
        return None;
    }
    let klen = k as usize;
    let start = sp + 1;
    let end = start + klen;
    if end >= n {
        proof {
            assert forall|f: Seq<char>, rest: Seq<char>|
                s@.subrange(pos as int, s@.len() as int) == enc_field(f) + rest implies false by {
                lemma_enc_field_shape(s@, pos as int, f, rest);
                assert(len_part@ =~= dec_digits(f.len()));
            }
        }
        return None;
    }
    if s.get_char(end) != '\n' {
        proof {
            assert forall|f: Seq<char>, rest: Seq<char>|
                s@.subrange(pos as int, s@.len() as int) == enc_field(f) + rest implies false by {
                lemma_enc_field_shape(s@, pos as int, f, rest);
                assert(len_part@ =~= dec_digits(f.len()));
            }
        }
        return None;
    }
    let field = s.substring_char(start, end);
    proof {
        assert(canon@ == dec_digits(k as nat));
        assert(len_part@ == dec_digits(k as nat));
        assert(field@.len() == k);
        assert(s@.subrange(pos as int, end + 1) =~= enc_field(field@));
        assert forall|f: Seq<char>, rest: Seq<char>|
            s@.subrange(pos as int, s@.len() as int) == enc_field(f) + rest implies field@ == f
            && end + 1 == pos + enc_field(f).len() by {
            lemma_enc_field_shape(s@, pos as int, f, rest);
            assert(len_part@ =~= dec_digits(f.len()));
            lemma_dec_digits_val(f.len());
            assert(k == f.len());
            assert(field@ =~= f);
        }
    }
    Some((field.to_owned(), end + 1))
}

proof fn lemma_split_concat(s: Seq<char>, pos: int, e1: Seq<char>, rest: Seq<char>)
    requires
        0 <= pos <= s.len(),
        s.subrange(pos, s.len() as int) == e1 + rest,
    ensures
        pos + e1.len() <= s.len(),
        s.subrange(pos, pos + e1.len()) =~= e1,
        s.subrange(pos + e1.len(), s.len() as int) =~= rest,
{
    let tail = s.subrange(pos, s.len() as int);
    assert(tail.len() == e1.len() + rest.len());
    assert forall|j: int| 0 <= j < e1.len() implies s[pos + j] == e1[j] by {
        assert(tail[j] == s[pos + j]);
        assert(tail[j] == (e1 + rest)[j]);
    }
    assert forall|j: int| 0 <= j < rest.len() implies s[pos + e1.len() + j] == rest[j] by {
        assert(tail[e1.len() + j] == s[pos + e1.len() + j]);
        assert(tail[e1.len() + j] == (e1 + rest)[e1.len() + j]);
    }
}

/// The six fields of an access point in sequence, each beginning where the
/// previous one ended.
proof fn lemma_enc_ap_chain(s: Seq<char>, pos: int, a: AccessPointView, rest: Seq<char>)
    requires
        0 <= pos <= s.len(),
        s.subrange(pos, s.len() as int) == enc_ap(a) + rest,
    ensures
        ({
            let n = s.len() as int;
            let q1 = pos + enc_field(a.ssid).len();
            let q2 = q1 + enc_field(sec_tag(a.security)).len();
            let q3 = q2 + enc_field(sec_raw(a.security)).len();
            let q4 = q3 + enc_field(dec_digits(a.signal as nat)).len();
            let q5 = q4 + enc_field(a.bars).len();
            let q6 = q5 + enc_field(flag_field(a.in_use)).len();
            &&& q6 == pos + enc_ap(a).len() <= s.len()
            &&& s.subrange(pos, n) == enc_field(a.ssid) + s.subrange(q1, n)
            &&& s.subrange(q1, n) == enc_field(sec_tag(a.security)) + s.subrange(q2, n)
            &&& s.subrange(q2, n) == enc_field(sec_raw(a.security)) + s.subrange(q3, n)
            &&& s.subrange(q3, n) == enc_field(dec_digits(a.signal as nat)) + s.subrange(q4, n)
            &&& s.subrange(q4, n) == enc_field(a.bars) + s.subrange(q5, n)
            &&& s.subrange(q5, n) == enc_field(flag_field(a.in_use)) + s.subrange(q6, n)
            &&& s.subrange(q6, n) =~= rest
        }),
{
    let n = s.len() as int;
    let e1 = enc_field(a.ssid);
    let e2 = enc_field(sec_tag(a.security));
    let e3 = enc_field(sec_raw(a.security));
    let e4 = enc_field(dec_digits(a.signal as nat));
    let e5 = enc_field(a.bars);
    let e6 = enc_field(flag_field(a.in_use));
    assert(enc_ap(a) + rest =~= e1 + (e2 + (e3 + (e4 + (e5 + (e6 + rest))))));
    lemma_split_concat(s, pos, e1, e2 + (e3 + (e4 + (e5 + (e6 + rest)))));
    let q1 = pos + e1.len();
    lemma_split_concat(s, q1, e2, e3 + (e4 + (e5 + (e6 + rest))));
    let q2 = q1 + e2.len();
    lemma_split_concat(s, q2, e3, e4 + (e5 + (e6 + rest)));
    let q3 = q2 + e3.len();
    lemma_split_concat(s, q3, e4, e5 + (e6 + rest));
    let q4 = q3 + e4.len();
    lemma_split_concat(s, q4, e5, e6 + rest);
    let q5 = q4 + e5.len();
    lemma_split_concat(s, q5, e6, rest);
}

/// The tag field pins the security class, and with it the raw field.
proof fn lemma_sec_from_tag(sec: SecurityView)
    ensures
        sec_tag(sec) == seq!['o', 'p', 'e', 'n'] ==> sec == SecurityView::Open,
        sec_tag(sec) == seq!['w', 'e', 'p'] ==> sec == SecurityView::Wep,
        sec_tag(sec) == seq!['w', 'p', 'a'] ==> sec == SecurityView::Wpa,
        sec_tag(sec) == seq!['w', 'p', 'a', '2'] ==> sec == SecurityView::Wpa2,
        sec_tag(sec) == seq!['w', 'p', 'a', '3'] ==> sec == SecurityView::Wpa3,
        sec_tag(sec) == seq!['o', 't', 'h', 'e', 'r'] ==> sec matches SecurityView::Unknown(_),
{
    assert(seq!['o', 'p', 'e', 'n'].len() == 4);
    assert(seq!['w', 'e', 'p'].len() == 3);
    assert(seq!['w', 'p', 'a'].len() == 3);
    assert(seq!['w', 'p', 'a', '2'].len() == 4);
    assert(seq!['w', 'p', 'a', '3'].len() == 4);
    assert(seq!['o', 't', 'h', 'e', 'r'].len() == 5);
    assert(seq!['w', 'e', 'p'] != seq!['w', 'p', 'a']) by {
        assert(seq!['w', 'e', 'p'][1] == 'e');
        assert(seq!['w', 'p', 'a'][1] == 'p');
    }
    assert(seq!['o', 'p', 'e', 'n'] != seq!['w', 'p', 'a', '2']) by {
        assert(seq!['o', 'p', 'e', 'n'][0] == 'o');
        assert(seq!['w', 'p', 'a', '2'][0] == 'w');
    }
    assert(seq!['o', 'p', 'e', 'n'] != seq!['w', 'p', 'a', '3']) by {
        assert(seq!['o', 'p', 'e', 'n'][0] == 'o');
        assert(seq!['w', 'p', 'a', '3'][0] == 'w');
    }
    assert(seq!['w', 'p', 'a', '2'] != seq!['w', 'p', 'a', '3']) by {
        assert(seq!['w', 'p', 'a', '2'][3] == '2');
        assert(seq!['w', 'p', 'a', '3'][3] == '3');
    }
}

/// Equal tag and raw fields mean equal security classes.
proof fn lemma_sec_eq(x: SecurityView, y: SecurityView)
    requires
        sec_tag(x) == sec_tag(y),
        sec_raw(x) == sec_raw(y),
    ensures
        x == y,
{
    lemma_sec_from_tag(x);
    lemma_sec_from_tag(y);
    match x {
        SecurityView::Open => {
            assert(sec_tag(y) == seq!['o', 'p', 'e', 'n']);
        },
        SecurityView::Wep => {
            assert(sec_tag(y) == seq!['w', 'e', 'p']);
        },
        SecurityView::Wpa => {
            assert(sec_tag(y) == seq!['w', 'p', 'a']);
        },
        SecurityView::Wpa2 => {
            assert(sec_tag(y) == seq!['w', 'p', 'a', '2']);
        },
        SecurityView::Wpa3 => {
            assert(sec_tag(y) == seq!['w', 'p', 'a', '3']);
        },
        SecurityView::Unknown(r) => {
            assert(sec_tag(y) == seq!['o', 't', 'h', 'e', 'r']);
            assert(y matches SecurityView::Unknown(_));
            assert(sec_raw(y) == r);
        },
    }
}

/// The six raw fields of one stored entry, before their meaning is checked.
struct ApFields {
    ssid: String,
    tag: String,
    raw: String,
    sig: String,
    bars: String,
    flag: String,
}

/// Reads six consecutive fields at `pos`: the shape of one stored entry.
#[verifier::rlimit(100)]
fn read_ap_fields(s: &str, pos: usize) -> (r: Option<(ApFields, usize)>)
    requires
        pos <= s@.len(),
    ensures
        r matches Some(p) ==> pos < p.1 <= s@.len() && s@.subrange(pos as int, p.1 as int)
            =~= enc_field(p.0.ssid@) + enc_field(p.0.tag@) + enc_field(p.0.raw@) + enc_field(
            p.0.sig@,
        ) + enc_field(p.0.bars@) + enc_field(p.0.flag@),
        forall|a: AccessPointView, rest: Seq<char>|
            s@.subrange(pos as int, s@.len() as int) == enc_ap(a) + rest ==> (r matches Some(p)
                && p.0.ssid@ == a.ssid && p.0.tag@ == sec_tag(a.security) && p.0.raw@ == sec_raw(
                a.security,
            ) && p.0.sig@ == dec_digits(a.signal as nat) && p.0.bars@ == a.bars && p.0.flag@
                == flag_field(a.in_use) && p.1 == pos + enc_ap(a).len()),
{
    let ghost n = s@.len() as int;
    let r1 = read_field(s, pos);
    let r1 = match r1 {
        None => {
            proof {
                assert forall|a: AccessPointView, rest: Seq<char>|
                    s@.subrange(pos as int, n) == enc_ap(a) + rest implies false by {
                    lemma_enc_ap_chain(s@, pos as int, a, rest);
                }
            }
            return None;
        },
        Some(p) => p,
    };
    let (ssid, p1) = r1;
    let r2 = read_field(s, p1);
    let r2 = match r2 {
        None => {
            proof {
                assert forall|a: AccessPointView, rest: Seq<char>|
                    s@.subrange(pos as int, n) == enc_ap(a) + rest implies false by {
                    lemma_enc_ap_chain(s@, pos as int, a, rest);
                }
            }
            return None;
        },
        Some(p) => p,
    };
    let (tag, p2) = r2;
    let r3 = read_field(s, p2);
    let r3 = match r3 {
        None => {
            proof {
                assert forall|a: AccessPointView, rest: Seq<char>|
                    s@.subrange(pos as int, n) == enc_ap(a) + rest implies false by {
                    lemma_enc_ap_chain(s@, pos as int, a, rest);
                }
            }
            return None;
        },
        Some(p) => p,
    };
    let (raw, p3) = r3;
    let r4 = read_field(s, p3);
    let r4 = match r4 {
        None => {
            proof {
                assert forall|a: AccessPointView, rest: Seq<char>|
                    s@.subrange(pos as int, n) == enc_ap(a) + rest implies false by {
                    lemma_enc_ap_chain(s@, pos as int, a, rest);
                }
            }
            return None;
        },
        Some(p) => p,
    };
    let (sig, p4) = r4;
    let r5 = read_field(s, p4);
    let r5 = match r5 {
        None => {
            proof {
                assert forall|a: AccessPointView, rest: Seq<char>|
                    s@.subrange(pos as int, n) == enc_ap(a) + rest implies false by {
                    lemma_enc_ap_chain(s@, pos as int, a, rest);
                }
            }
            return None;
        },
        Some(p) => p,
    };
    let (bars, p5) = r5;
    let r6 = read_field(s, p5);
    let r6 = match r6 {
        None => {
            proof {
                assert forall|a: AccessPointView, rest: Seq<char>|
                    s@.subrange(pos as int, n) == enc_ap(a) + rest implies false by {
                    lemma_enc_ap_chain(s@, pos as int, a, rest);
                }
            }
            return None;
        },
        Some(p) => p,
    };
    let (flag, p6) = r6;
    proof {
        assert(s@.subrange(pos as int, p6 as int) =~= s@.subrange(pos as int, p1 as int)
            + s@.subrange(p1 as int, p2 as int) + s@.subrange(p2 as int, p3 as int) + s@.subrange(
            p3 as int,
            p4 as int,
        ) + s@.subrange(p4 as int, p5 as int) + s@.subrange(p5 as int, p6 as int));
        assert forall|a: AccessPointView, rest: Seq<char>|
            s@.subrange(pos as int, n) == enc_ap(a) + rest implies ssid@ == a.ssid && tag@
            == sec_tag(a.security) && raw@ == sec_raw(a.security) && sig@ == dec_digits(
            a.signal as nat,
        ) && bars@ == a.bars && flag@ == flag_field(a.in_use) && p6 == pos + enc_ap(a).len() by {
            lemma_enc_ap_chain(s@, pos as int, a, rest);
        }
    }
    Some((ApFields { ssid, tag, raw, sig, bars, flag }, p6))
}

/// Reads one stored entry at `pos`: accepts exactly an encoder-written
/// entry and hands back the access point it encodes.
#[verifier::rlimit(100)]
fn read_ap(s: &str, pos: usize) -> (r: Option<(AccessPoint, usize)>)
    requires
        pos <= s@.len(),
    ensures
        r matches Some(p) ==> pos < p.1 <= s@.len() && s@.subrange(pos as int, p.1 as int)
            =~= enc_ap(p.0@),
        forall|a: AccessPointView, rest: Seq<char>|
            s@.subrange(pos as int, s@.len() as int) == enc_ap(a) + rest ==> (r matches Some(p)
                && p.0@ == a && p.1 == pos + enc_ap(a).len()),
{
    proof {
        reveal_strlit("open");
        reveal_strlit("wep");
        reveal_strlit("wpa");
        reveal_strlit("wpa2");
        reveal_strlit("wpa3");
        reveal_strlit("other");
        reveal_strlit("1");
        reveal_strlit("0");
        assert("open"@ =~= seq!['o', 'p', 'e', 'n']);
        assert("wep"@ =~= seq!['w', 'e', 'p']);
        assert("wpa"@ =~= seq!['w', 'p', 'a']);
        assert("wpa2"@ =~= seq!['w', 'p', 'a', '2']);
        assert("wpa3"@ =~= seq!['w', 'p', 'a', '3']);
        assert("other"@ =~= seq!['o', 't', 'h', 'e', 'r']);
        assert("1"@ =~= seq!['1']);
        assert("0"@ =~= seq!['0']);
    }
    let ghost n = s@.len() as int;
    let rf = read_ap_fields(s, pos);
    let (fields, p6) = match rf {
        None => {
            return None;
        },
        Some(p) => p,
    };
    let ApFields { ssid, tag, raw, sig, bars, flag } = fields;
    let ghost ssid_v = ssid@;
    let ghost tag_v = tag@;
    let ghost raw_v = raw@;
    let ghost sig_v = sig@;
    let ghost bars_v = bars@;
    let ghost flag_v = flag@;
    // the tag decides the class; every class but `other` has an empty raw field
    let raw_empty = raw.as_str().unicode_len() == 0;
    let security: Security = if str_eq(tag.as_str(), "other") {
        Security::Unknown(raw)
    } else if raw_empty && str_eq(tag.as_str(), "open") {
        Security::Open
    } else if raw_empty && str_eq(tag.as_str(), "wep") {
        Security::Wep
    } else if raw_empty && str_eq(tag.as_str(), "wpa") {
        Security::Wpa
    } else if raw_empty && str_eq(tag.as_str(), "wpa2") {
        Security::Wpa2
    } else if raw_empty && str_eq(tag.as_str(), "wpa3") {
        Security::Wpa3
    } else {
        proof {
            assert forall|a: AccessPointView, rest: Seq<char>|
                s@.subrange(pos as int, n) == enc_ap(a) + rest implies false by {
                lemma_sec_from_tag(a.security);
            }
        }
        return None;
    };
    // the signal field must be a canonical decimal that fits the type
    let sig_val = match parse_u64(sig.as_str()) {
        Some(k) => k,
        None => {
            proof {
                assert forall|a: AccessPointView, rest: Seq<char>|
                    s@.subrange(pos as int, n) == enc_ap(a) + rest implies false by {
                    lemma_dec_digits_val(a.signal as nat);
                }
            }
            return None;
        },
    };
    let sig_canon = u64_to_string(sig_val);
    if !str_eq(sig_canon.as_str(), sig.as_str()) || sig_val > u8::MAX as u64 {
        proof {
            assert forall|a: AccessPointView, rest: Seq<char>|
                s@.subrange(pos as int, n) == enc_ap(a) + rest implies false by {
                lemma_dec_digits_val(a.signal as nat);
                lemma_dec_digits_val(sig_val as nat);
            }
        }
        return None;
    }
    let in_use: bool = if str_eq(flag.as_str(), "1") {
        true
    } else if str_eq(flag.as_str(), "0") {
        false
    } else {
        proof {
            assert forall|a: AccessPointView, rest: Seq<char>|
                s@.subrange(pos as int, n) == enc_ap(a) + rest implies false by {}
        }
        return None;
    };
    let ap = AccessPoint { ssid, security, signal: sig_val as u8, bars, in_use };
    proof {
        lemma_dec_digits_val(sig_val as nat);
        assert(ap@.ssid == ssid_v);
        assert(ap@.bars == bars_v);
        assert(sig_v == dec_digits(ap@.signal as nat));
        assert(tag_v == sec_tag(ap@.security));
        assert(raw_v == sec_raw(ap@.security));
        assert(flag_v == flag_field(ap@.in_use));
        assert(s@.subrange(pos as int, p6 as int) =~= enc_ap(ap@));
        assert forall|a: AccessPointView, rest: Seq<char>|
            s@.subrange(pos as int, n) == enc_ap(a) + rest implies ap@ == a && p6 == pos + enc_ap(
            a,
        ).len() by {
            lemma_dec_digits_val(a.signal as nat);
            lemma_sec_eq(ap@.security, a.security);
            assert(ap@.security == a.security);
            assert(seq!['1'] != seq!['0']) by {
                assert(seq!['1'][0] == '1');
                assert(seq!['0'][0] == '0');
            }
            assert(ap@.in_use == a.in_use);
            assert(ap@.signal == a.signal);
        }
    }
    Some((ap, p6))
}

proof fn lemma_enc_aps_sub(l: Seq<AccessPointView>, i: int)
    requires
        0 <= i < l.len(),
    ensures
        enc_aps(l.subrange(i, l.len() as int)) == enc_ap(l[i]) + enc_aps(
            l.subrange(i + 1, l.len() as int),
        ),
{
    let t = l.subrange(i, l.len() as int);
    assert(t[0] == l[i]);
    assert(t.drop_first() =~= l.subrange(i + 1, l.len() as int));
}

proof fn lemma_enc_aps_min_len(l: Seq<AccessPointView>)
    ensures
        enc_aps(l).len() >= l.len(),
    decreases l.len(),
{
    if l.len() > 0 {
        lemma_enc_aps_min_len(l.drop_first());
        lemma_dec_digits_val(l[0].ssid.len());
    }
}

/// The document head: the timestamp field, then the count field, then the
/// entries, each beginning where the previous part ended.
proof fn lemma_enc_snapshot_chain(s: Seq<char>, v: SnapshotView)
    requires
        s == enc_snapshot(v),
    ensures
        ({
            let n = s.len() as int;
            let h1 = enc_field(dec_digits(v.timestamp as nat));
            let h2 = enc_field(dec_digits(v.aps.len()));
            &&& h1.len() + h2.len() + enc_aps(v.aps).len() == s.len()
            &&& s.subrange(0, n) == h1 + s.subrange(h1.len() as int, n)
            &&& s.subrange(h1.len() as int, n) == h2 + s.subrange(
                h1.len() + h2.len() as int,
                n,
            )
            &&& s.subrange(h1.len() + h2.len() as int, n) =~= enc_aps(v.aps)
        }),
{
    let n = s.len() as int;
    let h1 = enc_field(dec_digits(v.timestamp as nat));
    let h2 = enc_field(dec_digits(v.aps.len()));
    assert(s.subrange(0, n) =~= s);
    assert(h1 + h2 + enc_aps(v.aps) =~= h1 + (h2 + enc_aps(v.aps)));
    lemma_split_concat(s, 0, h1, h2 + enc_aps(v.aps));
    lemma_split_concat(s, h1.len() as int, h2, enc_aps(v.aps));
}

/// Reads a whole document back. Exactly the documents the encoder writes
/// are accepted, and each yields the one snapshot it encodes: a reader can
/// never observe a half-written or otherwise malformed snapshot as valid.
#[verifier::rlimit(100)]
pub fn decode_snapshot(s: &str) -> (r: Option<CacheSnapshot>)
    ensures
        r matches Some(snap) ==> s@ == enc_snapshot(snap@),
        forall|v: SnapshotView| s@ == enc_snapshot(v) ==> (r matches Some(snap) && snap@ == v),
{
    let n = s.unicode_len();
    proof {
        assert(s@.subrange(0, n as int) =~= s@);
    }
    let r1 = read_field(s, 0);
    let (tsf, p1) = match r1 {
        None => {
            proof {
                assert forall|v: SnapshotView| s@ == enc_snapshot(v) implies false by {
                    lemma_enc_snapshot_chain(s@, v);
                }
            }
            return None;
        },
        Some(p) => p,
    };
    let ts = match parse_u64(tsf.as_str()) {
        Some(t) => t,
        None => {
            proof {
                assert forall|v: SnapshotView| s@ == enc_snapshot(v) implies false by {
                    lemma_enc_snapshot_chain(s@, v);
                    lemma_dec_digits_val(v.timestamp as nat);
                }
            }
            return None;
        },
    };
    let ts_c = u64_to_string(ts);
    if !str_eq(ts_c.as_str(), tsf.as_str()) {
        proof {
            assert forall|v: SnapshotView| s@ == enc_snapshot(v) implies false by {
                lemma_enc_snapshot_chain(s@, v);
                lemma_dec_digits_val(v.timestamp as nat);
            }
        }
        return None;
    }
    let r2 = read_field(s, p1);
    let (cntf, p2) = match r2 {
        None => {
            proof {
                assert forall|v: SnapshotView| s@ == enc_snapshot(v) implies false by {
                    lemma_enc_snapshot_chain(s@, v);
                }
            }
            return None;
        },
        Some(p) => p,
    };
    let cnt = match parse_u64(cntf.as_str()) {
        Some(c) => c,
        None => {
            proof {
                assert forall|v: SnapshotView| s@ == enc_snapshot(v) implies false by {
                    lemma_enc_snapshot_chain(s@, v);
                    lemma_dec_digits_val(v.aps.len());
                    lemma_enc_aps_min_len(v.aps);
                }
            }
            return None;
        },
    };
    let cnt_c = u64_to_string(cnt);
    if !str_eq(cnt_c.as_str(), cntf.as_str()) {
        proof {
            assert forall|v: SnapshotView| s@ == enc_snapshot(v) implies false by {
                lemma_enc_snapshot_chain(s@, v);
                lemma_dec_digits_val(v.aps.len());
                lemma_dec_digits_val(cnt as nat);
            }
        }
        return None;
    }
    let ghost tsd = dec_digits(ts as nat);
    let ghost cntd = dec_digits(cnt as nat);
    let mut aps: Vec<AccessPoint> = Vec::new();
    let mut pos: usize = p2;
    let mut idx: u64 = 0;
    proof {
        assert(aps.deep_view() =~= Seq::<AccessPointView>::empty());
        assert(enc_aps(aps.deep_view()) == Seq::<char>::empty());
        assert(s@.subrange(0, pos as int) =~= s@.subrange(0, p1 as int) + s@.subrange(
            p1 as int,
            p2 as int,
        ));
        assert(s@.subrange(0, pos as int) =~= enc_field(tsd) + enc_field(cntd) + enc_aps(
            aps.deep_view(),
        ));
        assert forall|v: SnapshotView| s@ == enc_snapshot(v) implies ts == v.timestamp && cnt
            == v.aps.len() && aps.deep_view() =~= v.aps.subrange(0, 0) && s@.subrange(
            pos as int,
            n as int,
        ) =~= enc_aps(v.aps.subrange(0, v.aps.len() as int)) by {
            lemma_enc_snapshot_chain(s@, v);
            lemma_dec_digits_val(v.timestamp as nat);
            lemma_dec_digits_val(v.aps.len());
            assert(tsf@ == dec_digits(v.timestamp as nat));
            assert(cntf@ == dec_digits(v.aps.len()));
            assert(v.aps.subrange(0, v.aps.len() as int) =~= v.aps);
            assert(aps.deep_view() =~= v.aps.subrange(0, 0));
        }
    }
    while idx < cnt
        invariant
            n == s@.len(),
            0 <= idx <= cnt,
            aps.deep_view().len() == idx,
            pos <= n,
            s@.subrange(0, pos as int) =~= enc_field(dec_digits(ts as nat)) + enc_field(
                dec_digits(cnt as nat),
            ) + enc_aps(aps.deep_view()),
            forall|v: SnapshotView|
                s@ == enc_snapshot(v) ==> ts == v.timestamp && cnt == v.aps.len() && idx
                    <= v.aps.len() && aps.deep_view() =~= v.aps.subrange(0, idx as int)
                    && s@.subrange(pos as int, n as int) =~= enc_aps(
                    v.aps.subrange(idx as int, v.aps.len() as int),
                ),
        decreases cnt - idx,
    {
        let ra = read_ap(s, pos);
        let (ap, next) = match ra {
            None => {
                proof {
                    assert forall|v: SnapshotView| s@ == enc_snapshot(v) implies false by {
                        lemma_enc_aps_sub(v.aps, idx as int);
                    }
                }
                return None;
            },
            Some(p) => p,
        };
        let ghost d0 = aps.deep_view();
        aps.push(ap);
        proof {
            assert(aps.deep_view() =~= d0.push(ap@));
            lemma_enc_aps_push(d0, ap@);
            assert(s@.subrange(0, next as int) =~= s@.subrange(0, pos as int) + s@.subrange(
                pos as int,
                next as int,
            ));
            assert(s@.subrange(0, next as int) =~= enc_field(dec_digits(ts as nat)) + enc_field(
                dec_digits(cnt as nat),
            ) + enc_aps(aps.deep_view()));
            assert forall|v: SnapshotView| s@ == enc_snapshot(v) implies ap@ == v.aps[idx as int]
                && s@.subrange(next as int, n as int) =~= enc_aps(
                v.aps.subrange(idx + 1, v.aps.len() as int),
            ) && aps.deep_view() =~= v.aps.subrange(0, idx + 1) by {
                lemma_enc_aps_sub(v.aps, idx as int);
                lemma_split_concat(
                    s@,
                    pos as int,
                    enc_ap(v.aps[idx as int]),
                    enc_aps(v.aps.subrange(idx + 1, v.aps.len() as int)),
                );
                assert(d0.push(ap@) =~= v.aps.subrange(0, idx + 1));
            }
        }
        pos = next;
        idx = idx + 1;
    }
    if pos != n {
        proof {
            assert forall|v: SnapshotView| s@ == enc_snapshot(v) implies false by {
                assert(v.aps.subrange(cnt as int, v.aps.len() as int)
                    =~= Seq::<AccessPointView>::empty());
                assert(s@.subrange(pos as int, n as int).len() == 0);
            }
        }
        return None;
    }
    let snap = CacheSnapshot { timestamp: ts, aps };
    proof {
        assert(s@ =~= s@.subrange(0, pos as int));
        assert(snap@.aps.len() == cnt);
        assert(s@ =~= enc_snapshot(snap@));
        assert forall|v: SnapshotView| s@ == enc_snapshot(v) implies snap@ == v by {
            assert(snap@.aps =~= v.aps.subrange(0, cnt as int));
            assert(v.aps.subrange(0, cnt as int) =~= v.aps);
        }
    }
    Some(snap)
}

// ───────────────────────── encoder ─────────────────────────

fn push_field(out: &mut String, f: &str)
    ensures
        final(out)@ == old(out)@ + enc_field(f@),
{
    proof {
        reveal_strlit(" ");
        reveal_strlit("\n");
        assert(" "@ =~= seq![' ']);
        assert("\n"@ =~= seq!['\n']);
    }
    let len_str = u64_to_string(f.unicode_len() as u64);
    out.append(len_str.as_str());
    out.append(" ");
    out.append(f);
    out.append("\n");
    proof {
        assert(out@ =~= old(out)@ + enc_field(f@));
    }
}

fn security_tag_str(sec: &Security) -> (r: &'static str)
    ensures
        r@ == sec_tag(sec@),
{
    proof {
        reveal_strlit("open");
        reveal_strlit("wep");
        reveal_strlit("wpa");
        reveal_strlit("wpa2");
        reveal_strlit("wpa3");
        reveal_strlit("other");
        assert("open"@ =~= seq!['o', 'p', 'e', 'n']);
        assert("wep"@ =~= seq!['w', 'e', 'p']);
        assert("wpa"@ =~= seq!['w', 'p', 'a']);
        assert("wpa2"@ =~= seq!['w', 'p', 'a', '2']);
        assert("wpa3"@ =~= seq!['w', 'p', 'a', '3']);
        assert("other"@ =~= seq!['o', 't', 'h', 'e', 'r']);
    }
    match sec {
        Security::Open => "open",
        Security::Wep => "wep",
        Security::Wpa => "wpa",
        Security::Wpa2 => "wpa2",
        Security::Wpa3 => "wpa3",
        Security::Unknown(_) => "other",
    }
}

fn push_ap(out: &mut String, ap: &AccessPoint)
    ensures
        final(out)@ == old(out)@ + enc_ap(ap@),
{
    push_field(out, ap.ssid.as_str());
    push_field(out, security_tag_str(&ap.security));
    match &ap.security {
        Security::Unknown(s) => push_field(out, s.as_str()),
        _ => {
            proof {
                reveal_strlit("");
                assert(""@ =~= Seq::<char>::empty());
            }
            push_field(out, "");
        },
    }
    let sig_str = u64_to_string(ap.signal as u64);
    push_field(out, sig_str.as_str());
    push_field(out, ap.bars.as_str());
    if ap.in_use {
        proof {
            reveal_strlit("1");
            assert("1"@ =~= seq!['1']);
        }
        push_field(out, "1");
    } else {
        proof {
            reveal_strlit("0");
            assert("0"@ =~= seq!['0']);
        }
        push_field(out, "0");
    }
    proof {
        assert(out@ =~= old(out)@ + enc_ap(ap@));
    }
}

/// Writes the document for a snapshot.
pub fn encode_snapshot(snap: &CacheSnapshot) -> (r: String)
    ensures
        r@ == enc_snapshot(snap@),
{
    let mut out = String::new();
    let ts_str = u64_to_string(snap.timestamp);
    push_field(&mut out, ts_str.as_str());
    let count_str = u64_to_string(snap.aps.len() as u64);
    push_field(&mut out, count_str.as_str());
    let ghost head = out@;
    proof {
        assert(snap.aps.deep_view().subrange(0, 0) =~= Seq::<AccessPointView>::empty());
        assert(out@ =~= head + enc_aps(snap.aps.deep_view().subrange(0, 0)));
    }
    let mut i: usize = 0;
    while i < snap.aps.len()
        invariant
            0 <= i <= snap.aps.len(),
            out@ == head + enc_aps(snap.aps.deep_view().subrange(0, i as int)),
            head == enc_field(dec_digits(snap.timestamp as nat)) + enc_field(
                dec_digits(snap.aps.deep_view().len()),
            ),
            snap.aps.deep_view().len() == snap.aps.len(),
        decreases snap.aps.len() - i,
    {
        let ap = &snap.aps[i];
        proof {
            assert(ap@ == snap.aps.deep_view()[i as int]);
        }
        push_ap(&mut out, ap);
        proof {
            let pfx = snap.aps.deep_view().subrange(0, i as int);
            assert(pfx.push(snap.aps.deep_view()[i as int]) =~= snap.aps.deep_view().subrange(
                0,
                i + 1,
            ));
            lemma_enc_aps_push(pfx, snap.aps.deep_view()[i as int]);
            assert(out@ =~= head + enc_aps(snap.aps.deep_view().subrange(0, i + 1)));
        }
        i += 1;
    }
    proof {
        assert(snap.aps.deep_view().subrange(0, snap.aps.len() as int) =~= snap.aps.deep_view());
        assert(out@ =~= enc_snapshot(snap@));
    }
    out
}

// ───────────────────────── cache entry points ─────────────────────────

/// The document to persist for a snapshot taken at `timestamp`. Callers
/// write it to a temporary file and atomically rename it into place, so a
/// concurrent reader sees the old document or this one, never a mixture.
pub fn write_document(timestamp: u64, aps: Vec<AccessPoint>) -> (r: String)
    ensures
        r@ == enc_snapshot(SnapshotView { timestamp, aps: aps.deep_view() }),
{
    let snap = CacheSnapshot { timestamp, aps };
    encode_snapshot(&snap)
}

/// Reads the cache from the file's contents: the stored list when they hold
/// a still-fresh snapshot. A missing file, a document the encoder cannot
/// have written, and an expired snapshot are all the same ordinary miss.
pub fn read(contents: Option<&str>, now: u64, ttl: u64) -> (r: Option<Vec<AccessPoint>>)
    ensures
        r matches Some(aps) ==> exists|v: SnapshotView|
            #![trigger enc_snapshot(v)]
            contents matches Some(c) && c@ == enc_snapshot(v) && fresh_at(v.timestamp, now, ttl)
                && aps.deep_view() == v.aps,
        forall|v: SnapshotView| #![trigger enc_snapshot(v)]
            (contents matches Some(c) && c@ == enc_snapshot(v) && fresh_at(v.timestamp, now, ttl))
                ==> r is Some,
{
    match contents {
        None => None,
        Some(c) => match decode_snapshot(c) {
            None => None,
            Some(snap) => {
                let fresh = snapshot_fresh(snap.timestamp, now, ttl);
                if fresh {
                    let ghost v = snap@;
                    let aps = snap.aps;
                    proof {
                        assert(aps.deep_view() == v.aps);
                    }
                    Some(aps)
                } else {
                    None
                }
            },
        },
    }
}

/// Seconds of validity the stored snapshot still has: zero for a missing
/// file, an unreadable document, or an expired snapshot. Advisory only.
pub fn remaining_ttl(contents: Option<&str>, now: u64, ttl: u64) -> (r: u64)
    ensures
        contents is None ==> r == 0,
        forall|v: SnapshotView| #![trigger enc_snapshot(v)]
            (contents matches Some(c) && c@ == enc_snapshot(v)) ==> r == remaining_spec(
                v.timestamp,
                now,
                ttl,
            ),
{
    match contents {
        None => 0,
        Some(c) => match decode_snapshot(c) {
            None => 0,
            Some(snap) => {
                let age = if now >= snap.timestamp {
                    now - snap.timestamp
                } else {
                    0
                };
                if age < ttl {
                    ttl - age
                } else {
                    0
                }
            },
        },
    }
}

} // verus!
