//! Parsing and shaping of the network manager's terse command output: the
//! per-line access-point parser, the ordering (associated first, then
//! descending signal) and SSID deduplication of the scan list, and the small
//! line scanners the other queries use. The commands themselves run outside
//! the crate; these functions take their captured output as plain strings.

use vstd::prelude::*;
use crate::text::{
    find_char_from, find_char, trim, trim_spec, u8_or_zero, parse_u8_or_zero, has_prefix,
    has_sub, split_lines, split_lines_vec, starts_with, str_eq,
};
use crate::types::{AccessPoint, AccessPointView, RadioState, Security, security_class_of};

verus! {

// ───────────────────────── one scan line ─────────────────────────

/// The four separators of a terse `IN-USE:SSID:SECURITY:SIGNAL:BARS` line:
/// positions of its first four colons, or the length where one is missing.
pub open spec fn colon_1(line: Seq<char>) -> int {
    find_char_from(line, ':', 0)
}

pub open spec fn colon_2(line: Seq<char>) -> int {
    find_char_from(line, ':', colon_1(line) + 1)
}

pub open spec fn colon_3(line: Seq<char>) -> int {
    find_char_from(line, ':', colon_2(line) + 1)
}

pub open spec fn colon_4(line: Seq<char>) -> int {
    find_char_from(line, ':', colon_3(line) + 1)
}

/// What one terse scan line means: `None` when it has fewer than five
/// colon-separated fields or a hidden (empty or `--`) SSID, otherwise the
/// access point read from its trimmed fields. The fifth field keeps any
/// further colons: an SSID never splits the bar glyphs.
pub open spec fn parse_ap_line_spec(line: Seq<char>) -> Option<AccessPointView> {
    if colon_4(line) >= line.len() {
        None
    } else {
        let ssid = trim_spec(line.subrange(colon_1(line) + 1, colon_2(line)));
        if ssid.len() == 0 || ssid == seq!['-', '-'] {
            None
        } else {
            Some(
                AccessPointView {
                    ssid,
                    security: security_class_of(
                        trim_spec(line.subrange(colon_2(line) + 1, colon_3(line))),
                    ),
                    signal: u8_or_zero(trim_spec(line.subrange(colon_3(line) + 1, colon_4(line)))),
                    bars: trim_spec(line.subrange(colon_4(line) + 1, line.len() as int)),
                    in_use: trim_spec(line.subrange(0, colon_1(line))) == seq!['*'],
                },
            )
        }
    }
}

/// Reads one terse scan line.
pub fn parse_ap_line(line: &str) -> (r: Option<AccessPoint>)
    ensures
        r is Some <==> parse_ap_line_spec(line@) is Some,
        r is Some ==> r->0@ == parse_ap_line_spec(line@)->0,
{
    let n = line.unicode_len();
    let c1 = find_char(line, ':', 0);
    let c2 = if c1 < n {
        find_char(line, ':', c1 + 1)
    } else {
        n
    };
    let c3 = if c2 < n {
        find_char(line, ':', c2 + 1)
    } else {
        n
    };
    let c4 = if c3 < n {
        find_char(line, ':', c3 + 1)
    } else {
        n
    };
    proof {
        if c1 >= n {
            assert(colon_2(line@) == n as int);
        }
        assert(c2 == colon_2(line@));
        if c2 >= n {
            assert(colon_3(line@) == n as int);
        }
        assert(c3 == colon_3(line@));
        if c3 >= n {
            assert(colon_4(line@) == n as int);
        }
        assert(c4 == colon_4(line@));
    }
    if c4 >= n {
        return None;
    }
    let ssid = trim(line.substring_char(c1 + 1, c2));
    proof {
        reveal_strlit("--");
        assert("--"@ =~= seq!['-', '-']);
        reveal_strlit("*");
        assert("*"@ =~= seq!['*']);
    }
    if ssid.unicode_len() == 0 || str_eq(ssid, "--") {
        return None;
    }
    let security = Security::from_descriptor(trim(line.substring_char(c2 + 1, c3)));
    let signal = parse_u8_or_zero(trim(line.substring_char(c3 + 1, c4)));
    let bars = trim(line.substring_char(c4 + 1, n)).to_owned();
    let in_use = str_eq(trim(line.substring_char(0, c1)), "*");
    Some(
        AccessPoint {
            ssid: ssid.to_owned(),
            security,
            signal,
            bars,
            in_use,
        },
    )
}

// ───────────────────────── ordering ─────────────────────────

/// `a` may stand at or before `b` in the shown list: the associated network
/// first, then descending signal quality.
pub open spec fn ap_le(a: AccessPointView, b: AccessPointView) -> bool {
    (a.in_use && !b.in_use) || (a.in_use == b.in_use && a.signal >= b.signal)
}

pub open spec fn sorted_aps(s: Seq<AccessPointView>) -> bool {
    forall|i: int, j: int| 0 <= i < j < s.len() ==> ap_le(s[i], s[j])
}

fn ap_le_exec(a: &AccessPoint, b: &AccessPoint) -> (r: bool)
    ensures
        r == ap_le(a@, b@),
{
    (a.in_use && !b.in_use) || (a.in_use == b.in_use && a.signal >= b.signal)
}

/// Where `x` lands when inserted into `s`: after the leading run of elements
/// that may stand before it, so that equal keys keep their first-come order.
pub open spec fn ins_point(x: AccessPointView, s: Seq<AccessPointView>) -> int
    decreases s.len(),
{
    if s.len() > 0 && ap_le(s[0], x) {
        1 + ins_point(x, s.drop_first())
    } else {
        0
    }
}

pub open spec fn insert_ap(x: AccessPointView, s: Seq<AccessPointView>) -> Seq<AccessPointView>
    decreases s.len(),
{
    if s.len() > 0 && ap_le(s[0], x) {
        seq![s[0]] + insert_ap(x, s.drop_first())
    } else {
        seq![x] + s
    }
}

/// The scan ordering as a function: a stable insertion sort under `ap_le`.
pub open spec fn sort_aps_spec(s: Seq<AccessPointView>) -> Seq<AccessPointView>
    decreases s.len(),
{
    if s.len() == 0 {
        Seq::empty()
    } else {
        insert_ap(s.last(), sort_aps_spec(s.drop_last()))
    }
}

proof fn lemma_insert_ap_split(x: AccessPointView, s: Seq<AccessPointView>)
    ensures
        0 <= ins_point(x, s) <= s.len(),
        forall|i: int| 0 <= i < ins_point(x, s) ==> ap_le(#[trigger] s[i], x),
        ins_point(x, s) < s.len() ==> !ap_le(s[ins_point(x, s)], x),
        insert_ap(x, s) =~= s.subrange(0, ins_point(x, s)) + seq![x] + s.subrange(
            ins_point(x, s),
            s.len() as int,
        ),
    decreases s.len(),
{
    if s.len() > 0 && ap_le(s[0], x) {
        lemma_insert_ap_split(x, s.drop_first());
        let k = ins_point(x, s.drop_first());
        assert(forall|i: int| 0 <= i < k + 1 ==> ap_le(#[trigger] s[i], x)) by {
            assert(forall|i: int| 1 <= i < k + 1 ==> s[i] == s.drop_first()[i - 1]);
        }
        assert(s.subrange(0, k + 1).drop_first() =~= s.drop_first().subrange(0, k));
        assert(s.subrange(k + 1, s.len() as int) =~= s.drop_first().subrange(
            k,
            s.drop_first().len() as int,
        ));
        assert(insert_ap(x, s) =~= s.subrange(0, k + 1) + seq![x] + s.subrange(
            k + 1,
            s.len() as int,
        ));
    } else {
        assert(s.subrange(0, 0) =~= Seq::<AccessPointView>::empty());
        assert(s.subrange(0, s.len() as int) =~= s);
    }
}

/// The insertion point is pinned by its first-refusal characterisation.
proof fn lemma_ins_point_unique(x: AccessPointView, s: Seq<AccessPointView>, j: int)
    requires
        0 <= j <= s.len(),
        forall|k: int| 0 <= k < j ==> ap_le(#[trigger] s[k], x),
        j < s.len() ==> !ap_le(s[j], x),
    ensures
        ins_point(x, s) == j,
    decreases s.len(),
{
    if s.len() > 0 && ap_le(s[0], x) {
        assert(forall|k: int| 0 <= k < j - 1 ==> ap_le(#[trigger] s.drop_first()[k], x)) by {
            assert(forall|k: int| 0 <= k < j - 1 ==> s.drop_first()[k] == s[k + 1]);
        }
        lemma_ins_point_unique(x, s.drop_first(), j - 1);
    }
}

/// Inserting into a sorted list keeps it sorted.
proof fn lemma_insert_ap_sorted(x: AccessPointView, s: Seq<AccessPointView>)
    requires
        sorted_aps(s),
    ensures
        sorted_aps(insert_ap(x, s)),
{
    lemma_insert_ap_split(x, s);
    let k = ins_point(x, s);
    let r = insert_ap(x, s);
    assert forall|i: int, j: int| 0 <= i < j < r.len() implies ap_le(r[i], r[j]) by {
        if i < k {
            assert(r[i] == s[i]);
        } else if i > k {
            assert(r[i] == s[i - 1]);
        }
        if j < k {
            assert(r[j] == s[j]);
        } else if j > k {
            assert(r[j] == s[j - 1]);
        }
        if i == k && j > k {
            // x goes before the element it displaced and everything after
            assert(!ap_le(s[k], x));
            assert(ap_le(x, s[k]));
            if j - 1 > k {
                assert(ap_le(s[k], s[j - 1]));
            }
        }
        if j == k && i < k {
            assert(ap_le(s[i], x));
        }
    }
}

/// The scan list order: the associated network first, then descending signal.
pub proof fn lemma_sort_aps_sorted(s: Seq<AccessPointView>)
    ensures
        sorted_aps(sort_aps_spec(s)),
    decreases s.len(),
{
    if s.len() > 0 {
        lemma_sort_aps_sorted(s.drop_last());
        lemma_insert_ap_sorted(s.last(), sort_aps_spec(s.drop_last()));
    }
}

/// Sorts in place into the shown order. Equal keys keep their scan order.
pub fn sort_access_points(v: &mut Vec<AccessPoint>)
    ensures
        final(v).deep_view() == sort_aps_spec(old(v).deep_view()),
{
    let ghost orig = old(v).deep_view();
    let n = v.len();
    if n == 0 {
        proof {
            assert(v.deep_view() =~= sort_aps_spec(orig));
        }
        return;
    }
    let mut i: usize = 1;
    proof {
        assert(sort_aps_spec(Seq::<AccessPointView>::empty()) == Seq::<AccessPointView>::empty());
        assert(orig.subrange(0, 1).drop_last() =~= Seq::<AccessPointView>::empty());
        assert(sort_aps_spec(orig.subrange(0, 1)) == insert_ap(
            orig.subrange(0, 1).last(),
            Seq::<AccessPointView>::empty(),
        ));
        assert(insert_ap(orig[0], Seq::<AccessPointView>::empty()) =~= seq![orig[0]]);
        assert(v.deep_view() =~= sort_aps_spec(orig.subrange(0, 1)) + orig.subrange(
            1,
            n as int,
        ));
    }
    while i < n
        invariant
            1 <= i <= n,
            n == v.len(),
            n == orig.len(),
            v.deep_view() =~= sort_aps_spec(orig.subrange(0, i as int)) + orig.subrange(
                i as int,
                n as int,
            ),
        decreases n - i,
    {
        let ghost pfx = sort_aps_spec(orig.subrange(0, i as int));
        proof {
            lemma_sort_aps_sorted(orig.subrange(0, i as int));
            assert(pfx.len() == i) by {
                lemma_sort_len(orig.subrange(0, i as int));
            }
        }
        let ghost d0 = v.deep_view();
        let ghost v0 = v@;
        let x = v.remove(i);
        proof {
            assert(x@ == d0[i as int]);
            assert(x@ == orig[i as int]);
            assert(v@ == v0.remove(i as int));
            assert forall|k: int| 0 <= k < v@.len() implies v.deep_view()[k] == #[trigger] v@[k]@
            by {}
            assert forall|k: int| 0 <= k < v@.len() implies #[trigger] v@[k]@ == (pfx
                + orig.subrange(i + 1, n as int))[k] by {
                if k < i {
                    assert(v@[k] == v0[k]);
                    assert(v0[k]@ == d0[k]);
                } else {
                    assert(v@[k] == v0[k + 1]);
                    assert(v0[k + 1]@ == d0[k + 1]);
                }
            }
            assert(v.deep_view() =~= pfx + orig.subrange(i + 1, n as int));
        }
        let mut j: usize = i;
        while j > 0 && !ap_le_exec(&v[j - 1], &x)
            invariant
                0 <= j <= i,
                i < n == orig.len(),
                v.len() == n - 1,
                v.deep_view() =~= pfx + orig.subrange(i + 1, n as int),
                pfx.len() == i,
                x@ == orig[i as int],
                forall|k: int| j <= k < i ==> !ap_le(#[trigger] pfx[k], x@),
            decreases j,
        {
            proof {
                assert(v.deep_view()[j - 1] == pfx[j - 1]);
            }
            j -= 1;
        }
        proof {
            if j > 0 {
                assert(v.deep_view()[j - 1] == pfx[j - 1]);
                assert(ap_le(pfx[j - 1], x@));
            }
            assert(sorted_aps(pfx));
            assert forall|k: int| 0 <= k < j implies ap_le(#[trigger] pfx[k], x@) by {
                if k < j - 1 {
                    assert(ap_le(pfx[k], pfx[j - 1]));
                }
            }
            lemma_ins_point_unique(x@, pfx, j as int);
            lemma_insert_ap_split(x@, pfx);
        }
        let ghost d1 = v.deep_view();
        let ghost v1 = v@;
        v.insert(j, x);
        proof {
            assert(v@ == v1.insert(j as int, x));
            assert forall|k: int| 0 <= k < v@.len() implies v.deep_view()[k] == #[trigger] v@[k]@
            by {}
            assert forall|k: int| 0 <= k < v@.len() implies #[trigger] v@[k]@ == (pfx.subrange(
                0,
                j as int,
            ) + seq![x@] + pfx.subrange(j as int, pfx.len() as int) + orig.subrange(
                i + 1,
                n as int,
            ))[k] by {
                if k < j {
                    assert(v@[k] == v1[k]);
                    assert(v1[k]@ == d1[k]);
                } else if k == j {
                    assert(v@[k] == x);
                } else {
                    assert(v@[k] == v1[k - 1]);
                    assert(v1[k - 1]@ == d1[k - 1]);
                }
            }
            assert(v.deep_view() =~= pfx.subrange(0, j as int) + seq![x@] + pfx.subrange(
                j as int,
                pfx.len() as int,
            ) + orig.subrange(i + 1, n as int));
            assert(v.deep_view() =~= insert_ap(x@, pfx) + orig.subrange(i + 1, n as int));
            assert(orig.subrange(0, i + 1).drop_last() =~= orig.subrange(0, i as int));
            assert(orig.subrange(0, i + 1).last() == orig[i as int]);
            assert(v.deep_view() =~= sort_aps_spec(orig.subrange(0, i + 1)) + orig.subrange(
                i + 1,
                n as int,
            ));
        }
        i += 1;
    }
    proof {
        assert(orig.subrange(0, n as int) =~= orig);
        assert(orig.subrange(n as int, n as int) =~= Seq::<AccessPointView>::empty());
        assert(v.deep_view() =~= sort_aps_spec(orig));
    }
}

/// A single head before a list lands in the multiset like any insertion.
proof fn lemma_head_multiset(h: AccessPointView, t: Seq<AccessPointView>)
    ensures
        (seq![h] + t).to_multiset() == t.to_multiset().insert(h),
    decreases t.len(),
{
    broadcast use vstd::seq_lib::group_to_multiset_ensures;

    if t.len() == 0 {
        assert(seq![h] + t =~= Seq::<AccessPointView>::empty().push(h));
        assert(Seq::<AccessPointView>::empty().push(h).to_multiset()
            =~= Seq::<AccessPointView>::empty().to_multiset().insert(h));
    } else {
        let t0 = t.drop_last();
        lemma_head_multiset(h, t0);
        assert(seq![h] + t =~= (seq![h] + t0).push(t.last()));
        assert(t =~= t0.push(t.last()));
        assert((seq![h] + t0).push(t.last()).to_multiset() =~= (seq![h]
            + t0).to_multiset().insert(t.last()));
        assert(t0.push(t.last()).to_multiset() =~= t0.to_multiset().insert(t.last()));
        assert(t0.to_multiset().insert(h).insert(t.last()) =~= t0.to_multiset().insert(
            t.last(),
        ).insert(h));
    }
}

proof fn lemma_insert_ap_multiset(x: AccessPointView, s: Seq<AccessPointView>)
    ensures
        insert_ap(x, s).to_multiset() == s.to_multiset().insert(x),
    decreases s.len(),
{
    broadcast use vstd::seq_lib::group_to_multiset_ensures;

    if s.len() > 0 && ap_le(s[0], x) {
        lemma_insert_ap_multiset(x, s.drop_first());
        lemma_head_multiset(s[0], insert_ap(x, s.drop_first()));
        lemma_head_multiset(s[0], s.drop_first());
        assert(seq![s[0]] + s.drop_first() =~= s);
        assert(s.drop_first().to_multiset().insert(x).insert(s[0])
            =~= s.drop_first().to_multiset().insert(s[0]).insert(x));
    } else {
        lemma_head_multiset(x, s);
    }
}

/// Ordering the list neither loses nor invents entries: the sorted list
/// holds exactly the scanned ones.
pub proof fn lemma_sort_aps_contents(s: Seq<AccessPointView>)
    ensures
        sort_aps_spec(s).to_multiset() == s.to_multiset(),
    decreases s.len(),
{
    broadcast use vstd::seq_lib::group_to_multiset_ensures;

    if s.len() > 0 {
        lemma_sort_aps_contents(s.drop_last());
        lemma_insert_ap_multiset(s.last(), sort_aps_spec(s.drop_last()));
        assert(s =~= s.drop_last().push(s.last()));
        assert(s.drop_last().push(s.last()).to_multiset() =~= s.drop_last().to_multiset().insert(
            s.last(),
        ));
    }
}

/// Deduplication only removes: every survivor is one of the kept entries.
pub proof fn lemma_dedup_members(s: Seq<AccessPointView>)
    ensures
        forall|a: int|
            0 <= a < dedup_spec(s).len() ==> exists|k: int|
                0 <= k < s.len() && #[trigger] dedup_spec(s)[a] == s[k] && keep_ap(s, k),
{
    lemma_dedup_structure(s, s.len() as int);
}

proof fn lemma_sort_len(s: Seq<AccessPointView>)
    ensures
        sort_aps_spec(s).len() == s.len(),
    decreases s.len(),
{
    if s.len() > 0 {
        lemma_sort_len(s.drop_last());
        lemma_insert_ap_split(s.last(), sort_aps_spec(s.drop_last()));
    }
}

// ───────────────────────── deduplication ─────────────────────────

/// Whether entry `i` survives deduplication: the associated entry always
/// does; any other entry survives only when no earlier entry has its SSID.
pub open spec fn keep_ap(s: Seq<AccessPointView>, i: int) -> bool {
    s[i].in_use || forall|j: int| 0 <= j < i ==> (#[trigger] s[j]).ssid != s[i].ssid
}

pub open spec fn dedup_up_to(s: Seq<AccessPointView>, i: int) -> Seq<AccessPointView>
    decreases i,
{
    if i <= 0 {
        Seq::empty()
    } else {
        dedup_up_to(s, i - 1) + if keep_ap(s, i - 1) {
            seq![s[i - 1]]
        } else {
            Seq::empty()
        }
    }
}

/// The deduplicated list: multi-channel duplicates of one SSID collapse to
/// the first (strongest, once sorted) entry; the associated entry stays.
pub open spec fn dedup_spec(s: Seq<AccessPointView>) -> Seq<AccessPointView> {
    dedup_up_to(s, s.len() as int)
}

/// Every surviving entry is one of the kept input entries.
proof fn lemma_dedup_structure(s: Seq<AccessPointView>, i: int)
    requires
        0 <= i <= s.len(),
    ensures
        forall|a: int|
            0 <= a < dedup_up_to(s, i).len() ==> exists|k: int|
                0 <= k < i && #[trigger] dedup_up_to(s, i)[a] == s[k] && keep_ap(s, k),
    decreases i,
{
    if i > 0 {
        lemma_dedup_structure(s, i - 1);
        let r0 = dedup_up_to(s, i - 1);
        let r = dedup_up_to(s, i);
        assert forall|a: int| 0 <= a < r.len() implies exists|k: int|
            0 <= k < i && #[trigger] r[a] == s[k] && keep_ap(s, k) by {
            if a < r0.len() {
                let k = choose|k: int| 0 <= k < i - 1 && #[trigger] r0[a] == s[k] && keep_ap(s, k);
                assert(r[a] == s[k] && keep_ap(s, k));
            } else {
                assert(keep_ap(s, i - 1) && r[a] == s[i - 1]);
            }
        }
    }
}

/// Dropping later entries only extends the survivor list at its end.
proof fn lemma_dedup_prefix(s: Seq<AccessPointView>, i: int, i2: int)
    requires
        0 <= i <= i2 <= s.len(),
    ensures
        dedup_up_to(s, i).len() <= dedup_up_to(s, i2).len(),
        forall|a: int|
            0 <= a < dedup_up_to(s, i).len() ==> #[trigger] dedup_up_to(s, i2)[a] == dedup_up_to(
                s,
                i,
            )[a],
    decreases i2 - i,
{
    if i < i2 {
        lemma_dedup_prefix(s, i, i2 - 1);
    }
}

/// The associated entry is never collapsed away.
pub proof fn lemma_dedup_keeps_associated(s: Seq<AccessPointView>, k: int)
    requires
        0 <= k < s.len(),
        s[k].in_use,
    ensures
        exists|a: int| 0 <= a < dedup_spec(s).len() && #[trigger] dedup_spec(s)[a] == s[k],
{
    let r1 = dedup_up_to(s, k + 1);
    assert(keep_ap(s, k));
    assert(r1[r1.len() - 1] == s[k]);
    lemma_dedup_prefix(s, k + 1, s.len() as int);
    assert(dedup_spec(s)[r1.len() - 1] == s[k]);
}

/// After deduplication, an entry that is not the associated one never shares
/// its SSID with any other surviving entry before it: duplicates of one SSID
/// have collapsed to one.
pub proof fn lemma_dedup_no_duplicate_ssid(s: Seq<AccessPointView>)
    ensures
        forall|a: int, b: int|
            0 <= a < b < dedup_spec(s).len() && !(#[trigger] dedup_spec(s)[b]).in_use ==> (
            #[trigger] dedup_spec(s)[a]).ssid != dedup_spec(s)[b].ssid,
{
    lemma_dedup_no_duplicate_up_to(s, s.len() as int);
}

proof fn lemma_dedup_no_duplicate_up_to(s: Seq<AccessPointView>, i: int)
    requires
        0 <= i <= s.len(),
    ensures
        forall|a: int, b: int|
            0 <= a < b < dedup_up_to(s, i).len() && !(#[trigger] dedup_up_to(s, i)[b]).in_use ==> (
            #[trigger] dedup_up_to(s, i)[a]).ssid != dedup_up_to(s, i)[b].ssid,
    decreases i,
{
    if i > 0 {
        lemma_dedup_no_duplicate_up_to(s, i - 1);
        lemma_dedup_structure(s, i - 1);
        let r0 = dedup_up_to(s, i - 1);
        let r = dedup_up_to(s, i);
        assert forall|a: int, b: int|
            0 <= a < b < r.len() && !(#[trigger] r[b]).in_use implies (#[trigger] r[a]).ssid
            != r[b].ssid by {
            if b < r0.len() {
                assert(r[a] == r0[a] && r[b] == r0[b]);
            } else {
                // the new entry survived, so no earlier input entry has its SSID
                assert(keep_ap(s, i - 1) && r[b] == s[i - 1]);
                let k = choose|k: int| 0 <= k < i - 1 && #[trigger] r0[a] == s[k] && keep_ap(s, k);
                assert(s[k].ssid != s[i - 1].ssid);
            }
        }
    }
}

/// Deduplication keeps the list order, so a sorted list stays sorted.
pub proof fn lemma_dedup_sorted(s: Seq<AccessPointView>)
    requires
        sorted_aps(s),
    ensures
        sorted_aps(dedup_spec(s)),
{
    lemma_dedup_sorted_up_to(s, s.len() as int);
}

proof fn lemma_dedup_sorted_up_to(s: Seq<AccessPointView>, i: int)
    requires
        0 <= i <= s.len(),
        sorted_aps(s),
    ensures
        sorted_aps(dedup_up_to(s, i)),
    decreases i,
{
    if i > 0 {
        lemma_dedup_sorted_up_to(s, i - 1);
        lemma_dedup_structure(s, i - 1);
        let r0 = dedup_up_to(s, i - 1);
        let r = dedup_up_to(s, i);
        assert forall|a: int, b: int| 0 <= a < b < r.len() implies ap_le(r[a], r[b]) by {
            if b < r0.len() {
                assert(r[a] == r0[a] && r[b] == r0[b]);
            } else {
                assert(r[b] == s[i - 1]);
                let k = choose|k: int| 0 <= k < i - 1 && #[trigger] r0[a] == s[k] && keep_ap(s, k);
                assert(ap_le(s[k], s[i - 1]));
            }
        }
    }
}

fn prefix_has_ssid(v: &Vec<AccessPoint>, i: usize) -> (r: bool)
    requires
        i < v.len(),
    ensures
        r == exists|j: int|
            0 <= j < i && (#[trigger] v.deep_view()[j]).ssid == v.deep_view()[i as int].ssid,
{
    let mut j: usize = 0;
    while j < i
        invariant
            0 <= j <= i < v.len(),
            forall|k: int|
                0 <= k < j ==> (#[trigger] v.deep_view()[k]).ssid != v.deep_view()[i as int].ssid,
        decreases i - j,
    {
        if str_eq(v[j].ssid.as_str(), v[i].ssid.as_str()) {
            proof {
                assert(v.deep_view()[j as int].ssid == v.deep_view()[i as int].ssid);
            }
            return true;
        }
        proof {
            assert(v.deep_view()[j as int].ssid == v@[j as int].ssid@);
        }
        j += 1;
    }
    false
}

/// Removes multi-channel duplicates as `dedup_spec` describes.
pub fn dedup_access_points(v: &Vec<AccessPoint>) -> (r: Vec<AccessPoint>)
    ensures
        r.deep_view() == dedup_spec(v.deep_view()),
{
    let mut out: Vec<AccessPoint> = Vec::new();
    let mut i: usize = 0;
    while i < v.len()
        invariant
            0 <= i <= v.len(),
            out.deep_view() =~= dedup_up_to(v.deep_view(), i as int),
        decreases v.len() - i,
    {
        let keep = if v[i].in_use {
            true
        } else {
            !prefix_has_ssid(v, i)
        };
        proof {
            assert(v.deep_view()[i as int] == v@[i as int]@);
            assert(keep == keep_ap(v.deep_view(), i as int));
        }
        let ghost d0 = out.deep_view();
        if keep {
            out.push(v[i].clone());
            proof {
                assert(out.deep_view() =~= d0 + seq![v.deep_view()[i as int]]);
            }
        } else {
            proof {
                assert(out.deep_view() =~= d0 + Seq::<AccessPointView>::empty());
            }
        }
        i += 1;
    }
    proof {
        assert(out.deep_view() =~= dedup_spec(v.deep_view()));
    }
    out
}

// ───────────────────────── whole scan output ─────────────────────────

/// The access points read from the scanner's lines, in scan order: comment
/// lines and hidden entries yield nothing.
pub open spec fn collect_aps(ls: Seq<Seq<char>>) -> Seq<AccessPointView>
    decreases ls.len(),
{
    if ls.len() == 0 {
        Seq::empty()
    } else {
        (if !has_prefix(ls[0], seq!['-', '-']) && parse_ap_line_spec(ls[0]) is Some {
            seq![parse_ap_line_spec(ls[0])->0]
        } else {
            Seq::empty()
        }) + collect_aps(ls.drop_first())
    }
}

/// What the raw scan output becomes: parsed, ordered (associated first,
/// then descending signal), and deduplicated by SSID.
pub open spec fn scan_list_spec(text: Seq<char>) -> Seq<AccessPointView> {
    dedup_spec(sort_aps_spec(collect_aps(split_lines(text))))
}

/// Turns the scanner's raw terse output into the shown list.
pub fn parse_scan_output(text: &str) -> (r: Vec<AccessPoint>)
    ensures
        r.deep_view() == scan_list_spec(text@),
{
    let lines = split_lines_vec(text);
    let ghost ldv = lines.deep_view();
    let mut aps: Vec<AccessPoint> = Vec::new();
    let mut i: usize = 0;
    proof {
        assert(ldv.subrange(0, ldv.len() as int) =~= ldv);
    }
    while i < lines.len()
        invariant
            0 <= i <= lines.len(),
            ldv == lines.deep_view(),
            ldv.len() == lines.len(),
            collect_aps(ldv) =~= aps.deep_view() + collect_aps(
                ldv.subrange(i as int, ldv.len() as int),
            ),
        decreases lines.len() - i,
    {
        proof {
            reveal_strlit("--");
            assert("--"@ =~= seq!['-', '-']);
            assert(lines@[i as int]@ == ldv[i as int]);
            let tail = ldv.subrange(i as int, ldv.len() as int);
            assert(tail[0] == ldv[i as int]);
            assert(tail.drop_first() =~= ldv.subrange(i + 1, ldv.len() as int));
        }
        let line = &lines[i];
        let ghost d0 = aps.deep_view();
        if !starts_with(line.as_str(), "--") {
            match parse_ap_line(line.as_str()) {
                Some(ap) => {
                    proof {
                        assert(ap@ == parse_ap_line_spec(ldv[i as int])->0);
                    }
                    aps.push(ap);
                    proof {
                        assert(aps.deep_view() =~= d0 + seq![parse_ap_line_spec(
                            ldv[i as int],
                        )->0]);
                    }
                },
                None => {
                    proof {
                        assert(aps.deep_view() =~= d0 + Seq::<AccessPointView>::empty());
                    }
                },
            }
        } else {
            proof {
                assert(aps.deep_view() =~= d0 + Seq::<AccessPointView>::empty());
            }
        }
        i += 1;
    }
    proof {
        assert(ldv.subrange(ldv.len() as int, ldv.len() as int) =~= Seq::<Seq<char>>::empty());
        assert(aps.deep_view() + Seq::<AccessPointView>::empty() =~= aps.deep_view());
        assert(aps.deep_view() =~= collect_aps(ldv));
    }
    sort_access_points(&mut aps);
    dedup_access_points(&aps)
}

// ───────────────────────── line fields ─────────────────────────

/// The text before the first colon of a line, or the whole line without one.
pub open spec fn first_field(l: Seq<char>) -> Seq<char> {
    l.subrange(0, find_char_from(l, ':', 0))
}

/// The text between the first and second colon (or the end) of a line;
/// meaningful only when the line has a colon.
pub open spec fn second_field(l: Seq<char>) -> Seq<char> {
    l.subrange(find_char_from(l, ':', 0) + 1, find_char_from(l, ':', find_char_from(l, ':', 0) + 1))
}

/// The second colon-separated field, `None` for a line without any colon.
pub open spec fn field_after_colon(l: Seq<char>) -> Option<Seq<char>> {
    if find_char_from(l, ':', 0) < l.len() {
        Some(second_field(l))
    } else {
        None
    }
}

fn first_field_exec(l: &str) -> (r: &str)
    ensures
        r@ == first_field(l@),
{
    let c = find_char(l, ':', 0);
    l.substring_char(0, c)
}

fn field_after_colon_exec(l: &str) -> (r: Option<&str>)
    ensures
        r is Some <==> field_after_colon(l@) is Some,
        r is Some ==> r->0@ == second_field(l@),
{
    let n = l.unicode_len();
    let c1 = find_char(l, ':', 0);
    if c1 >= n {
        return None;
    }
    let c2 = find_char(l, ':', c1 + 1);
    Some(l.substring_char(c1 + 1, c2))
}

/// The first line that holds `marker` anywhere in it.
pub open spec fn find_line_with(ls: Seq<Seq<char>>, marker: Seq<char>) -> Option<Seq<char>>
    decreases ls.len(),
{
    if ls.len() == 0 {
        None
    } else if has_sub(ls[0], marker) {
        Some(ls[0])
    } else {
        find_line_with(ls.drop_first(), marker)
    }
}

fn find_line_with_exec(lines: &Vec<String>, marker: &str) -> (r: Option<usize>)
    ensures
        r is Some <==> find_line_with(lines.deep_view(), marker@) is Some,
        r is Some ==> r->0 < lines.len() && find_line_with(lines.deep_view(), marker@) == Some(
            lines.deep_view()[r->0 as int],
        ),
{
    let ghost ldv = lines.deep_view();
    let mut i: usize = 0;
    proof {
        assert(ldv.subrange(0, ldv.len() as int) =~= ldv);
    }
    while i < lines.len()
        invariant
            0 <= i <= lines.len(),
            ldv == lines.deep_view(),
            ldv.len() == lines.len(),
            find_line_with(ldv, marker@) == find_line_with(
                ldv.subrange(i as int, ldv.len() as int),
                marker@,
            ),
        decreases lines.len() - i,
    {
        proof {
            let tail = ldv.subrange(i as int, ldv.len() as int);
            assert(tail[0] == ldv[i as int]);
            assert(tail.drop_first() =~= ldv.subrange(i + 1, ldv.len() as int));
            assert(lines@[i as int]@ == ldv[i as int]);
        }
        if crate::text::contains_str(lines[i].as_str(), marker) {
            return Some(i);
        }
        i += 1;
    }
    proof {
        assert(ldv.subrange(ldv.len() as int, ldv.len() as int) =~= Seq::<Seq<char>>::empty());
    }
    None
}

// ───────────────────────── simple queries ─────────────────────────

/// What the radio status output means: enabled exactly when the word
/// `enabled` occurs in it.
pub open spec fn radio_state_spec(text: Seq<char>) -> RadioState {
    if has_sub(text, seq!['e', 'n', 'a', 'b', 'l', 'e', 'd']) {
        RadioState::Enabled
    } else {
        RadioState::Disabled
    }
}

pub fn parse_radio_state(text: &str) -> (r: RadioState)
    ensures
        r == radio_state_spec(text@),
{
    proof {
        reveal_strlit("enabled");
        assert("enabled"@ =~= seq!['e', 'n', 'a', 'b', 'l', 'e', 'd']);
    }
    if crate::text::contains_str(text, "enabled") {
        RadioState::Enabled
    } else {
        RadioState::Disabled
    }
}

/// The SSID on the first `yes:` line of the active-connection listing.
pub open spec fn current_ssid_from(ls: Seq<Seq<char>>) -> Option<Seq<char>>
    decreases ls.len(),
{
    if ls.len() == 0 {
        None
    } else if has_prefix(ls[0], seq!['y', 'e', 's', ':']) {
        Some(ls[0].subrange(4, ls[0].len() as int))
    } else {
        current_ssid_from(ls.drop_first())
    }
}

pub open spec fn current_ssid_spec(text: Seq<char>) -> Option<Seq<char>> {
    current_ssid_from(split_lines(text))
}

pub fn parse_current_ssid(text: &str) -> (r: Option<String>)
    ensures
        r is Some <==> current_ssid_spec(text@) is Some,
        r is Some ==> r->0@ == current_ssid_spec(text@)->0,
{
    proof {
        reveal_strlit("yes:");
        assert("yes:"@ =~= seq!['y', 'e', 's', ':']);
    }
    let lines = split_lines_vec(text);
    let ghost ldv = lines.deep_view();
    let mut i: usize = 0;
    proof {
        assert(ldv.subrange(0, ldv.len() as int) =~= ldv);
    }
    while i < lines.len()
        invariant
            0 <= i <= lines.len(),
            ldv == lines.deep_view(),
            ldv == split_lines(text@),
            ldv.len() == lines.len(),
            current_ssid_from(ldv) == current_ssid_from(ldv.subrange(i as int, ldv.len() as int)),
            "yes:"@ =~= seq!['y', 'e', 's', ':'],
        decreases lines.len() - i,
    {
        proof {
            let tail = ldv.subrange(i as int, ldv.len() as int);
            assert(tail[0] == ldv[i as int]);
            assert(tail.drop_first() =~= ldv.subrange(i + 1, ldv.len() as int));
            assert(lines@[i as int]@ == ldv[i as int]);
        }
        let line = lines[i].as_str();
        if starts_with(line, "yes:") {
            let n = line.unicode_len();
            return Some(line.substring_char(4, n).to_owned());
        }
        i += 1;
    }
    proof {
        assert(ldv.subrange(ldv.len() as int, ldv.len() as int) =~= Seq::<Seq<char>>::empty());
    }
    None
}

/// The names of the saved wireless profiles: the first field of every line
/// that mentions `wireless`.
pub open spec fn saved_connections_from(ls: Seq<Seq<char>>) -> Seq<Seq<char>>
    decreases ls.len(),
{
    if ls.len() == 0 {
        Seq::empty()
    } else {
        (if has_sub(ls[0], seq!['w', 'i', 'r', 'e', 'l', 'e', 's', 's']) {
            seq![first_field(ls[0])]
        } else {
            Seq::empty()
        }) + saved_connections_from(ls.drop_first())
    }
}

pub open spec fn saved_connections_spec(text: Seq<char>) -> Seq<Seq<char>> {
    saved_connections_from(split_lines(text))
}

pub fn parse_saved_connections(text: &str) -> (r: Vec<String>)
    ensures
        r.deep_view() == saved_connections_spec(text@),
{
    proof {
        reveal_strlit("wireless");
        assert("wireless"@ =~= seq!['w', 'i', 'r', 'e', 'l', 'e', 's', 's']);
    }
    let lines = split_lines_vec(text);
    let ghost ldv = lines.deep_view();
    let mut out: Vec<String> = Vec::new();
    let mut i: usize = 0;
    proof {
        assert(ldv.subrange(0, ldv.len() as int) =~= ldv);
    }
    while i < lines.len()
        invariant
            0 <= i <= lines.len(),
            ldv == lines.deep_view(),
            ldv.len() == lines.len(),
            saved_connections_from(ldv) =~= out.deep_view() + saved_connections_from(
                ldv.subrange(i as int, ldv.len() as int),
            ),
            "wireless"@ =~= seq!['w', 'i', 'r', 'e', 'l', 'e', 's', 's'],
        decreases lines.len() - i,
    {
        proof {
            let tail = ldv.subrange(i as int, ldv.len() as int);
            assert(tail[0] == ldv[i as int]);
            assert(tail.drop_first() =~= ldv.subrange(i + 1, ldv.len() as int));
            assert(lines@[i as int]@ == ldv[i as int]);
        }
        let ghost d0 = out.deep_view();
        let line = lines[i].as_str();
        if crate::text::contains_str(line, "wireless") {
            out.push(first_field_exec(line).to_owned());
            proof {
                assert(out.deep_view() =~= d0 + seq![first_field(ldv[i as int])]);
            }
        } else {
            proof {
                assert(out.deep_view() =~= d0 + Seq::<Seq<char>>::empty());
            }
        }
        i += 1;
    }
    proof {
        assert(ldv.subrange(ldv.len() as int, ldv.len() as int) =~= Seq::<Seq<char>>::empty());
        assert(out.deep_view() + Seq::<Seq<char>>::empty() =~= out.deep_view());
        assert(out.deep_view() =~= saved_connections_from(ldv));
    }
    out
}

/// The stored credential: the second field of the first line that mentions
/// the wireless-security key property; `None` without such a line or field.
pub open spec fn saved_password_spec(text: Seq<char>) -> Option<Seq<char>> {
    match find_line_with(split_lines(text), psk_marker()) {
        None => None,
        Some(l) => field_after_colon(l),
    }
}

pub open spec fn psk_marker() -> Seq<char> {
    "802-11-wireless-security.psk"@
}

pub fn parse_saved_password(text: &str) -> (r: Option<String>)
    ensures
        r is Some <==> saved_password_spec(text@) is Some,
        r is Some ==> r->0@ == saved_password_spec(text@)->0,
{
    let lines = split_lines_vec(text);
    match find_line_with_exec(&lines, "802-11-wireless-security.psk") {
        None => None,
        Some(i) => {
            proof {
                assert(lines@[i as int]@ == lines.deep_view()[i as int]);
            }
            match field_after_colon_exec(lines[i].as_str()) {
                None => None,
                Some(f) => Some(f.to_owned()),
            }
        },
    }
}

/// The address on the first `IP4.ADDRESS[1]` line of the device listing.
pub open spec fn ip_marker() -> Seq<char> {
    "IP4.ADDRESS[1]"@
}

pub open spec fn ip_output_spec(text: Seq<char>) -> Option<Seq<char>> {
    match find_line_with(split_lines(text), ip_marker()) {
        None => None,
        Some(l) => field_after_colon(l),
    }
}

pub fn parse_ip_output(text: &str) -> (r: Option<String>)
    ensures
        r is Some <==> ip_output_spec(text@) is Some,
        r is Some ==> r->0@ == ip_output_spec(text@)->0,
{
    let lines = split_lines_vec(text);
    match find_line_with_exec(&lines, "IP4.ADDRESS[1]") {
        None => None,
        Some(i) => {
            proof {
                assert(lines@[i as int]@ == lines.deep_view()[i as int]);
            }
            match field_after_colon_exec(lines[i].as_str()) {
                None => None,
                Some(f) => Some(f.to_owned()),
            }
        },
    }
}

// ───────────────────────── hotspot lookup ─────────────────────────

/// Whether a profile name marks a hotspot, regardless of ASCII case.
pub open spec fn is_hotspot_name(f: Seq<char>) -> bool {
    has_sub(crate::text::lower_seq(f), seq!['h', 'o', 't', 's', 'p', 'o', 't']) || has_sub(
        crate::text::lower_seq(f),
        seq!['热', '点'],
    )
}

fn is_hotspot_name_exec(f: &str) -> (r: bool)
    ensures
        r == is_hotspot_name(f@),
{
    proof {
        reveal_strlit("hotspot");
        reveal_strlit("热点");
        assert(crate::text::lower_seq("hotspot"@) =~= seq!['h', 'o', 't', 's', 'p', 'o', 't']);
        assert(crate::text::lower_seq("热点"@) =~= seq!['热', '点']);
    }
    crate::text::contains_ci(f, "hotspot") || crate::text::contains_ci(f, "热点")
}

/// The first listed profile whose name column marks a hotspot; with
/// `wireless_only`, lines of other connection types are passed over.
pub open spec fn hotspot_from(ls: Seq<Seq<char>>, wireless_only: bool) -> Option<Seq<char>>
    decreases ls.len(),
{
    if ls.len() == 0 {
        None
    } else if (!wireless_only || has_sub(ls[0], seq!['w', 'i', 'r', 'e', 'l', 'e', 's', 's']))
        && is_hotspot_name(first_field(ls[0])) {
        Some(first_field(ls[0]))
    } else {
        hotspot_from(ls.drop_first(), wireless_only)
    }
}

/// The name of the active hotspot connection, if one is listed.
pub fn parse_hotspot_active(text: &str) -> (r: Option<String>)
    ensures
        r is Some <==> hotspot_from(split_lines(text@), false) is Some,
        r is Some ==> r->0@ == hotspot_from(split_lines(text@), false)->0,
{
    parse_hotspot(text, false)
}

/// The name of a saved wireless hotspot profile, if one is listed.
pub fn parse_hotspot_profile(text: &str) -> (r: Option<String>)
    ensures
        r is Some <==> hotspot_from(split_lines(text@), true) is Some,
        r is Some ==> r->0@ == hotspot_from(split_lines(text@), true)->0,
{
    parse_hotspot(text, true)
}

fn parse_hotspot(text: &str, wireless_only: bool) -> (r: Option<String>)
    ensures
        r is Some <==> hotspot_from(split_lines(text@), wireless_only) is Some,
        r is Some ==> r->0@ == hotspot_from(split_lines(text@), wireless_only)->0,
{
    proof {
        reveal_strlit("wireless");
        assert("wireless"@ =~= seq!['w', 'i', 'r', 'e', 'l', 'e', 's', 's']);
    }
    let lines = split_lines_vec(text);
    let ghost ldv = lines.deep_view();
    let mut i: usize = 0;
    proof {
        assert(ldv.subrange(0, ldv.len() as int) =~= ldv);
    }
    while i < lines.len()
        invariant
            0 <= i <= lines.len(),
            ldv == lines.deep_view(),
            ldv == split_lines(text@),
            ldv.len() == lines.len(),
            hotspot_from(ldv, wireless_only) == hotspot_from(
                ldv.subrange(i as int, ldv.len() as int),
                wireless_only,
            ),
            "wireless"@ =~= seq!['w', 'i', 'r', 'e', 'l', 'e', 's', 's'],
        decreases lines.len() - i,
    {
        proof {
            let tail = ldv.subrange(i as int, ldv.len() as int);
            assert(tail[0] == ldv[i as int]);
            assert(tail.drop_first() =~= ldv.subrange(i + 1, ldv.len() as int));
            assert(lines@[i as int]@ == ldv[i as int]);
        }
        let line = lines[i].as_str();
        let type_ok = !wireless_only || crate::text::contains_str(line, "wireless");
        if type_ok {
            let name = first_field_exec(line);
            if is_hotspot_name_exec(name) {
                return Some(name.to_owned());
            }
        }
        i += 1;
    }
    proof {
        assert(ldv.subrange(ldv.len() as int, ldv.len() as int) =~= Seq::<Seq<char>>::empty());
    }
    None
}

// ───────────────────────── device details ─────────────────────────

/// The second field of the first line holding `marker`, or `N/A` when no
/// such line or field exists.
pub open spec fn extract_field_spec(text: Seq<char>, marker: Seq<char>) -> Seq<char> {
    match find_line_with(split_lines(text), marker) {
        None => "N/A"@,
        Some(l) => match field_after_colon(l) {
            None => "N/A"@,
            Some(f) => f,
        },
    }
}

fn extract_field(lines: &Vec<String>, marker: &str, text: Ghost<Seq<char>>) -> (r: String)
    requires
        lines.deep_view() == split_lines(text@),
    ensures
        r@ == extract_field_spec(text@, marker@),
{
    match find_line_with_exec(lines, marker) {
        None => {
            let r = String::from_str("N/A");
            r
        },
        Some(i) => {
            proof {
                assert(lines@[i as int]@ == lines.deep_view()[i as int]);
            }
            match field_after_colon_exec(lines[i].as_str()) {
                None => String::from_str("N/A"),
                Some(f) => f.to_owned(),
            }
        },
    }
}

/// The name-server column values of every `IP4.DNS` line, in listing order.
pub open spec fn dns_pieces(ls: Seq<Seq<char>>) -> Seq<Seq<char>>
    decreases ls.len(),
{
    if ls.len() == 0 {
        Seq::empty()
    } else {
        (if has_sub(ls[0], "IP4.DNS"@) && field_after_colon(ls[0]) is Some {
            seq![second_field(ls[0])]
        } else {
            Seq::empty()
        }) + dns_pieces(ls.drop_first())
    }
}

/// The joined name-server list, `N/A` when it would be empty.
pub open spec fn dns_summary_spec(text: Seq<char>) -> Seq<char> {
    let joined = crate::text::join_sep(dns_pieces(split_lines(text)), ", "@);
    if joined.len() == 0 {
        "N/A"@
    } else {
        joined
    }
}

/// Reads address, gateway and name servers out of the device listing.
pub fn parse_dev_info(text: &str) -> (r: (String, String, String))
    ensures
        r.0@ == extract_field_spec(text@, ip_marker()),
        r.1@ == extract_field_spec(text@, "IP4.GATEWAY"@),
        r.2@ == dns_summary_spec(text@),
{
    let lines = split_lines_vec(text);
    let ghost ldv = lines.deep_view();
    let ip = extract_field(&lines, "IP4.ADDRESS[1]", Ghost(text@));
    let gateway = extract_field(&lines, "IP4.GATEWAY", Ghost(text@));
    let mut pieces: Vec<String> = Vec::new();
    let mut i: usize = 0;
    proof {
        assert(ldv.subrange(0, ldv.len() as int) =~= ldv);
    }
    while i < lines.len()
        invariant
            0 <= i <= lines.len(),
            ldv == lines.deep_view(),
            ldv.len() == lines.len(),
            dns_pieces(ldv) =~= pieces.deep_view() + dns_pieces(
                ldv.subrange(i as int, ldv.len() as int),
            ),
        decreases lines.len() - i,
    {
        proof {
            let tail = ldv.subrange(i as int, ldv.len() as int);
            assert(tail[0] == ldv[i as int]);
            assert(tail.drop_first() =~= ldv.subrange(i + 1, ldv.len() as int));
            assert(lines@[i as int]@ == ldv[i as int]);
        }
        let ghost d0 = pieces.deep_view();
        let line = lines[i].as_str();
        if crate::text::contains_str(line, "IP4.DNS") {
            match field_after_colon_exec(line) {
                Some(f) => {
                    pieces.push(f.to_owned());
                    proof {
                        assert(pieces.deep_view() =~= d0 + seq![second_field(ldv[i as int])]);
                    }
                },
                None => {
                    proof {
                        assert(pieces.deep_view() =~= d0 + Seq::<Seq<char>>::empty());
                    }
                },
            }
        } else {
            proof {
                assert(pieces.deep_view() =~= d0 + Seq::<Seq<char>>::empty());
            }
        }
        i += 1;
    }
    proof {
        assert(ldv.subrange(ldv.len() as int, ldv.len() as int) =~= Seq::<Seq<char>>::empty());
        assert(pieces.deep_view() + Seq::<Seq<char>>::empty() =~= pieces.deep_view());
        assert(pieces.deep_view() =~= dns_pieces(ldv));
    }
    let joined = crate::text::join_with(&pieces, ", ");
    let dns = if joined.as_str().unicode_len() == 0 {
        String::from_str("N/A")
    } else {
        joined
    };
    (ip, gateway, dns)
}

/// The column for the in-use row of a two-column terse listing: the second
/// field of the first `*:` line, or `--` when absent.
pub open spec fn in_use_field_spec(text: Seq<char>) -> Seq<char> {
    match find_line_prefixed(split_lines(text), seq!['*', ':']) {
        None => "--"@,
        Some(l) => match field_after_colon(l) {
            None => "--"@,
            Some(f) => f,
        },
    }
}

/// The first line starting with the given prefix.
pub open spec fn find_line_prefixed(ls: Seq<Seq<char>>, p: Seq<char>) -> Option<Seq<char>>
    decreases ls.len(),
{
    if ls.len() == 0 {
        None
    } else if has_prefix(ls[0], p) {
        Some(ls[0])
    } else {
        find_line_prefixed(ls.drop_first(), p)
    }
}

/// Reads the value column of the current network's row, as the details
/// panel shows signal and security.
pub fn parse_in_use_field(text: &str) -> (r: String)
    ensures
        r@ == in_use_field_spec(text@),
{
    proof {
        reveal_strlit("*:");
        assert("*:"@ =~= seq!['*', ':']);
    }
    let lines = split_lines_vec(text);
    let ghost ldv = lines.deep_view();
    let mut i: usize = 0;
    proof {
        assert(ldv.subrange(0, ldv.len() as int) =~= ldv);
    }
    while i < lines.len()
        invariant
            0 <= i <= lines.len(),
            ldv == lines.deep_view(),
            ldv == split_lines(text@),
            ldv.len() == lines.len(),
            find_line_prefixed(ldv, seq!['*', ':']) == find_line_prefixed(
                ldv.subrange(i as int, ldv.len() as int),
                seq!['*', ':'],
            ),
            "*:"@ =~= seq!['*', ':'],
        decreases lines.len() - i,
    {
        proof {
            let tail = ldv.subrange(i as int, ldv.len() as int);
            assert(tail[0] == ldv[i as int]);
            assert(tail.drop_first() =~= ldv.subrange(i + 1, ldv.len() as int));
            assert(lines@[i as int]@ == ldv[i as int]);
        }
        let line = lines[i].as_str();
        if starts_with(line, "*:") {
            match field_after_colon_exec(line) {
                None => {
                    return String::from_str("--");
                },
                Some(f) => {
                    return f.to_owned();
                },
            }
        }
        i += 1;
    }
    proof {
        assert(ldv.subrange(ldv.len() as int, ldv.len() as int) =~= Seq::<Seq<char>>::empty());
    }
    String::from_str("--")
}

} // verus!
