//! Character and string helpers shared by the parsers and the message
//! builders: decimal formatting and parsing, trimming, prefix and substring
//! tests, and line splitting, each pinned to a spec-level definition.

use vstd::prelude::*;

verus! {

// ───────────────────────── character classes ─────────────────────────

/// The whitespace recognised when menu selections are trimmed.
pub open spec fn is_space_char(c: char) -> bool {
    c == ' ' || c == '\t' || c == '\n' || c == '\r'
}

pub fn is_space(c: char) -> (r: bool)
    ensures
        r == is_space_char(c),
{
    c == ' ' || c == '\t' || c == '\n' || c == '\r'
}

/// Value of a decimal digit, -1 for every other character.
pub open spec fn digit_of(c: char) -> int {
    if c == '0' {
        0
    } else if c == '1' {
        1
    } else if c == '2' {
        2
    } else if c == '3' {
        3
    } else if c == '4' {
        4
    } else if c == '5' {
        5
    } else if c == '6' {
        6
    } else if c == '7' {
        7
    } else if c == '8' {
        8
    } else if c == '9' {
        9
    } else {
        -1
    }
}

pub open spec fn is_digit_char(c: char) -> bool {
    digit_of(c) >= 0
}

pub fn digit_value(c: char) -> (r: Option<u64>)
    ensures
        r is Some <==> is_digit_char(c),
        r is Some ==> r->0 == digit_of(c),
{
    if c == '0' {
        Some(0)
    } else if c == '1' {
        Some(1)
    } else if c == '2' {
        Some(2)
    } else if c == '3' {
        Some(3)
    } else if c == '4' {
        Some(4)
    } else if c == '5' {
        Some(5)
    } else if c == '6' {
        Some(6)
    } else if c == '7' {
        Some(7)
    } else if c == '8' {
        Some(8)
    } else if c == '9' {
        Some(9)
    } else {
        None
    }
}

pub open spec fn digit_char(d: int) -> char {
    if d == 0 {
        '0'
    } else if d == 1 {
        '1'
    } else if d == 2 {
        '2'
    } else if d == 3 {
        '3'
    } else if d == 4 {
        '4'
    } else if d == 5 {
        '5'
    } else if d == 6 {
        '6'
    } else if d == 7 {
        '7'
    } else if d == 8 {
        '8'
    } else {
        '9'
    }
}

// ───────────────────────── decimal rendering ─────────────────────────

/// The decimal digits of `n`, most significant first, no sign, no padding.
pub open spec fn dec_digits(n: nat) -> Seq<char>
    decreases n,
{
    if n < 10 {
        seq![digit_char(n as int)]
    } else {
        dec_digits(n / 10).push(digit_char((n % 10) as int))
    }
}

fn digit_str(d: u64) -> (r: &'static str)
    requires
        d < 10,
    ensures
        r@ =~= seq![digit_char(d as int)],
{
    proof {
        reveal_strlit("0");
        reveal_strlit("1");
        reveal_strlit("2");
        reveal_strlit("3");
        reveal_strlit("4");
        reveal_strlit("5");
        reveal_strlit("6");
        reveal_strlit("7");
        reveal_strlit("8");
        reveal_strlit("9");
    }
    if d == 0 {
        "0"
    } else if d == 1 {
        "1"
    } else if d == 2 {
        "2"
    } else if d == 3 {
        "3"
    } else if d == 4 {
        "4"
    } else if d == 5 {
        "5"
    } else if d == 6 {
        "6"
    } else if d == 7 {
        "7"
    } else if d == 8 {
        "8"
    } else {
        "9"
    }
}

/// Decimal rendering of `n`, e.g. `0` becomes `"0"` and `105` becomes `"105"`.
pub fn u64_to_string(n: u64) -> (r: String)
    ensures
        r@ == dec_digits(n as nat),
    decreases n,
{
    if n < 10 {
        digit_str(n).to_owned()
    } else {
        let mut prefix = u64_to_string(n / 10);
        prefix.append(digit_str(n % 10));
        proof {
            assert(prefix@ =~= dec_digits(n as nat));
        }
        prefix
    }
}

// ───────────────────────── decimal parsing ─────────────────────────

pub open spec fn all_digits(s: Seq<char>) -> bool {
    forall|i: int| 0 <= i < s.len() ==> is_digit_char(#[trigger] s[i])
}

/// Numeric value of a digit string read left to right.
pub open spec fn dec_val(s: Seq<char>) -> int
    decreases s.len(),
{
    if s.len() == 0 {
        0
    } else {
        dec_val(s.drop_last()) * 10 + digit_of(s.last())
    }
}

proof fn lemma_dec_val_nonneg(s: Seq<char>)
    requires
        all_digits(s),
    ensures
        dec_val(s) >= 0,
    decreases s.len(),
{
    if s.len() > 0 {
        assert(all_digits(s.drop_last()));
        lemma_dec_val_nonneg(s.drop_last());
    }
}

/// A longer digit prefix never has a smaller value.
proof fn lemma_dec_val_prefix_le(s: Seq<char>, k: int)
    requires
        all_digits(s),
        0 <= k <= s.len(),
    ensures
        dec_val(s.subrange(0, k)) <= dec_val(s),
    decreases s.len() - k,
{
    if k < s.len() {
        let t = s.subrange(0, k + 1);
        assert(t.drop_last() =~= s.subrange(0, k));
        assert(all_digits(t.drop_last()));
        lemma_dec_val_nonneg(t.drop_last());
        assert(dec_val(t) == dec_val(s.subrange(0, k)) * 10 + digit_of(s[k]));
        lemma_dec_val_prefix_le(s, k + 1);
    } else {
        assert(s.subrange(0, k) =~= s);
    }
}

/// Parses a whole string as an unsigned decimal number: succeeds exactly on
/// non-empty all-digit input whose value fits in a `u64`.
pub fn parse_u64(s: &str) -> (r: Option<u64>)
    ensures
        r is Some <==> s@.len() > 0 && all_digits(s@) && dec_val(s@) <= u64::MAX,
        r is Some ==> r->0 == dec_val(s@),
{
    let n = s.unicode_len();
    if n == 0 {
        return None;
    }
    let mut acc: u64 = 0;
    let mut i: usize = 0;
    while i < n
        invariant
            0 <= i <= n,
            n == s@.len(),
            all_digits(s@.subrange(0, i as int)),
            acc == dec_val(s@.subrange(0, i as int)),
        decreases n - i,
    {
        let c = s.get_char(i);
        match digit_value(c) {
            None => {
                assert(!is_digit_char(s@[i as int]));
                return None;
            },
            Some(d) => {
                let wide: u128 = (acc as u128) * 10 + (d as u128);
                proof {
                    let t = s@.subrange(0, i + 1);
                    assert(t.drop_last() =~= s@.subrange(0, i as int));
                    assert(t.last() == s@[i as int]);
                    assert(dec_val(t) == acc * 10 + digit_of(s@[i as int]));
                }
                if wide > u64::MAX as u128 {
                    proof {
                        if all_digits(s@) {
                            lemma_dec_val_prefix_le(s@, i + 1);
                        }
                    }
                    return None;
                }
                acc = wide as u64;
                assert(acc == dec_val(s@.subrange(0, i + 1)));
            },
        }
        i += 1;
    }
    proof {
        assert(s@.subrange(0, n as int) =~= s@);
    }
    Some(acc)
}

/// Parses as `u32`, the shape the process-id file holds.
pub fn parse_u32(s: &str) -> (r: Option<u32>)
    ensures
        r is Some <==> s@.len() > 0 && all_digits(s@) && dec_val(s@) <= u32::MAX,
        r is Some ==> r->0 == dec_val(s@),
{
    match parse_u64(s) {
        None => {
            proof {
                if s@.len() > 0 && all_digits(s@) {
                    lemma_dec_val_nonneg(s@);
                }
            }
            None
        },
        Some(v) => {
            if v <= u32::MAX as u64 {
                Some(v as u32)
            } else {
                None
            }
        },
    }
}

/// The value a signal column yields: its decimal value when it is a plain
/// number that fits in a `u8`, otherwise 0.
pub open spec fn u8_or_zero(s: Seq<char>) -> u8 {
    if s.len() > 0 && all_digits(s) && dec_val(s) <= u8::MAX {
        dec_val(s) as u8
    } else {
        0
    }
}

/// Parses as `u8`, defaulting to 0 as the signal column of a scan line does.
pub fn parse_u8_or_zero(s: &str) -> (r: u8)
    ensures
        r == u8_or_zero(s@),
{
    match parse_u64(s) {
        None => {
            proof {
                if s@.len() > 0 && all_digits(s@) {
                    lemma_dec_val_nonneg(s@);
                }
            }
            0
        },
        Some(v) => {
            if v <= u8::MAX as u64 {
                v as u8
            } else {
                0
            }
        },
    }
}

// ───────────────────────── comparison and search ─────────────────────────

pub fn str_eq(a: &str, b: &str) -> (r: bool)
    ensures
        r == (a@ == b@),
{
    let n = a.unicode_len();
    if n != b.unicode_len() {
        return false;
    }
    let mut i: usize = 0;
    while i < n
        invariant
            0 <= i <= n,
            n == a@.len() == b@.len(),
            forall|k: int| 0 <= k < i ==> a@[k] == b@[k],
        decreases n - i,
    {
        if a.get_char(i) != b.get_char(i) {
            return false;
        }
        i += 1;
    }
    proof {
        assert(a@ =~= b@);
    }
    true
}

pub open spec fn has_prefix(s: Seq<char>, p: Seq<char>) -> bool {
    p.len() <= s.len() && s.subrange(0, p.len() as int) == p
}

pub fn starts_with(s: &str, p: &str) -> (r: bool)
    ensures
        r == has_prefix(s@, p@),
{
    let n = s.unicode_len();
    let m = p.unicode_len();
    if m > n {
        return false;
    }
    let mut i: usize = 0;
    while i < m
        invariant
            0 <= i <= m <= n,
            n == s@.len(),
            m == p@.len(),
            forall|k: int| 0 <= k < i ==> s@[k] == p@[k],
        decreases m - i,
    {
        if s.get_char(i) != p.get_char(i) {
            proof {
                assert(s@.subrange(0, m as int)[i as int] != p@[i as int]);
            }
            return false;
        }
        i += 1;
    }
    proof {
        assert(s@.subrange(0, m as int) =~= p@);
    }
    true
}

/// `sub` occurs in `s` starting at position `i`.
pub open spec fn matches_at(s: Seq<char>, sub: Seq<char>, i: int) -> bool {
    0 <= i && i + sub.len() <= s.len() && s.subrange(i, i + sub.len() as int) == sub
}

pub open spec fn has_sub(s: Seq<char>, sub: Seq<char>) -> bool {
    exists|i: int| matches_at(s, sub, i)
}

fn match_here(s: &str, sub: &str, i: usize) -> (r: bool)
    requires
        i + sub@.len() <= s@.len(),
        s@.len() <= usize::MAX,
    ensures
        r == matches_at(s@, sub@, i as int),
{
    let m = sub.unicode_len();
    let mut j: usize = 0;
    while j < m
        invariant
            0 <= j <= m,
            m == sub@.len(),
            i + m <= s@.len() <= usize::MAX,
            forall|k: int| 0 <= k < j ==> s@[i + k] == sub@[k],
        decreases m - j,
    {
        if s.get_char(i + j) != sub.get_char(j) {
            proof {
                assert(s@.subrange(i as int, i + m as int)[j as int] == s@[i + j]);
            }
            return false;
        }
        j += 1;
    }
    proof {
        assert(s@.subrange(i as int, i + m as int) =~= sub@);
    }
    true
}

/// Substring search, `true` exactly when `sub` occurs somewhere in `s`.
pub fn contains_str(s: &str, sub: &str) -> (r: bool)
    ensures
        r == has_sub(s@, sub@),
{
    let n = s.unicode_len();
    let m = sub.unicode_len();
    if m > n {
        proof {
            assert(forall|i: int| !matches_at(s@, sub@, i));
        }
        return false;
    }
    if m == 0 {
        proof {
            assert(s@.subrange(0, 0) =~= sub@);
            assert(matches_at(s@, sub@, 0));
        }
        return true;
    }
    let mut i: usize = 0;
    while i <= n - m
        invariant
            0 <= i <= n - m + 1,
            0 < m <= n,
            n == s@.len(),
            m == sub@.len(),
            forall|k: int| 0 <= k < i ==> !matches_at(s@, sub@, k),
        decreases n - i,
    {
        if match_here(s, sub, i) {
            return true;
        }
        i += 1;
    }
    proof {
        assert(forall|k: int| k > n - m ==> !matches_at(s@, sub@, k));
    }
    false
}

// ───────────────────────── case folding ─────────────────────────

/// ASCII lower-casing; every other character is left alone. The heuristic
/// matchers fold both sides with this before comparing.
pub open spec fn lower_char(c: char) -> char {
    if c == 'A' {
        'a'
    } else if c == 'B' {
        'b'
    } else if c == 'C' {
        'c'
    } else if c == 'D' {
        'd'
    } else if c == 'E' {
        'e'
    } else if c == 'F' {
        'f'
    } else if c == 'G' {
        'g'
    } else if c == 'H' {
        'h'
    } else if c == 'I' {
        'i'
    } else if c == 'J' {
        'j'
    } else if c == 'K' {
        'k'
    } else if c == 'L' {
        'l'
    } else if c == 'M' {
        'm'
    } else if c == 'N' {
        'n'
    } else if c == 'O' {
        'o'
    } else if c == 'P' {
        'p'
    } else if c == 'Q' {
        'q'
    } else if c == 'R' {
        'r'
    } else if c == 'S' {
        's'
    } else if c == 'T' {
        't'
    } else if c == 'U' {
        'u'
    } else if c == 'V' {
        'v'
    } else if c == 'W' {
        'w'
    } else if c == 'X' {
        'x'
    } else if c == 'Y' {
        'y'
    } else if c == 'Z' {
        'z'
    } else {
        c
    }
}

pub open spec fn lower_seq(s: Seq<char>) -> Seq<char> {
    s.map_values(|c: char| lower_char(c))
}

fn lower_char_exec(c: char) -> (r: char)
    ensures
        r == lower_char(c),
{
    if c == 'A' {
        'a'
    } else if c == 'B' {
        'b'
    } else if c == 'C' {
        'c'
    } else if c == 'D' {
        'd'
    } else if c == 'E' {
        'e'
    } else if c == 'F' {
        'f'
    } else if c == 'G' {
        'g'
    } else if c == 'H' {
        'h'
    } else if c == 'I' {
        'i'
    } else if c == 'J' {
        'j'
    } else if c == 'K' {
        'k'
    } else if c == 'L' {
        'l'
    } else if c == 'M' {
        'm'
    } else if c == 'N' {
        'n'
    } else if c == 'O' {
        'o'
    } else if c == 'P' {
        'p'
    } else if c == 'Q' {
        'q'
    } else if c == 'R' {
        'r'
    } else if c == 'S' {
        's'
    } else if c == 'T' {
        't'
    } else if c == 'U' {
        'u'
    } else if c == 'V' {
        'v'
    } else if c == 'W' {
        'w'
    } else if c == 'X' {
        'x'
    } else if c == 'Y' {
        'y'
    } else if c == 'Z' {
        'z'
    } else {
        c
    }
}

fn match_here_ci(s: &str, sub: &str, i: usize) -> (r: bool)
    requires
        i + sub@.len() <= s@.len(),
        s@.len() <= usize::MAX,
    ensures
        r == matches_at(lower_seq(s@), lower_seq(sub@), i as int),
{
    let m = sub.unicode_len();
    let mut j: usize = 0;
    while j < m
        invariant
            0 <= j <= m,
            m == sub@.len(),
            i + m <= s@.len() <= usize::MAX,
            forall|k: int| 0 <= k < j ==> lower_char(s@[i + k]) == lower_char(sub@[k]),
        decreases m - j,
    {
        if lower_char_exec(s.get_char(i + j)) != lower_char_exec(sub.get_char(j)) {
            proof {
                assert(lower_seq(s@).subrange(i as int, i + m as int)[j as int]
                    == lower_char(s@[i + j]));
                assert(lower_seq(sub@)[j as int] == lower_char(sub@[j as int]));
            }
            return false;
        }
        j += 1;
    }
    proof {
        assert(lower_seq(s@).subrange(i as int, i + m as int) =~= lower_seq(sub@));
    }
    true
}

/// Case-insensitive (ASCII) substring search: the backbone of the output
/// classifiers, which match fixed markers in free-text process output.
pub fn contains_ci(s: &str, sub: &str) -> (r: bool)
    ensures
        r == has_sub(lower_seq(s@), lower_seq(sub@)),
{
    let n = s.unicode_len();
    let m = sub.unicode_len();
    if m > n {
        proof {
            assert(forall|i: int| !matches_at(lower_seq(s@), lower_seq(sub@), i));
        }
        return false;
    }
    if m == 0 {
        proof {
            assert(lower_seq(s@).subrange(0, 0) =~= lower_seq(sub@));
            assert(matches_at(lower_seq(s@), lower_seq(sub@), 0));
        }
        return true;
    }
    let mut i: usize = 0;
    while i <= n - m
        invariant
            0 <= i <= n - m + 1,
            0 < m <= n,
            n == s@.len(),
            m == sub@.len(),
            forall|k: int| 0 <= k < i ==> !matches_at(lower_seq(s@), lower_seq(sub@), k),
        decreases n - i,
    {
        if match_here_ci(s, sub, i) {
            return true;
        }
        i += 1;
    }
    proof {
        assert(forall|k: int| k > n - m ==> !matches_at(lower_seq(s@), lower_seq(sub@), k));
    }
    false
}

// ───────────────────────── trimming ─────────────────────────

pub open spec fn ltrim(s: Seq<char>) -> Seq<char>
    decreases s.len(),
{
    if s.len() > 0 && is_space_char(s[0]) {
        ltrim(s.drop_first())
    } else {
        s
    }
}

pub open spec fn rtrim(s: Seq<char>) -> Seq<char>
    decreases s.len(),
{
    if s.len() > 0 && is_space_char(s.last()) {
        rtrim(s.drop_last())
    } else {
        s
    }
}

/// What `trim` returns: the input without leading and trailing whitespace.
pub open spec fn trim_spec(s: Seq<char>) -> Seq<char> {
    rtrim(ltrim(s))
}

/// Removes leading and trailing whitespace.
pub fn trim<'a>(s: &'a str) -> (r: &'a str)
    ensures
        r@ == trim_spec(s@),
{
    let n = s.unicode_len();
    proof {
        assert(s@.subrange(0, n as int) =~= s@);
    }
    let mut i: usize = 0;
    while i < n && is_space(s.get_char(i))
        invariant
            0 <= i <= n,
            n == s@.len(),
            ltrim(s@) == ltrim(s@.subrange(i as int, n as int)),
        decreases n - i,
    {
        proof {
            let t = s@.subrange(i as int, n as int);
            assert(t[0] == s@[i as int]);
            assert(t.drop_first() =~= s@.subrange(i + 1, n as int));
        }
        i += 1;
    }
    proof {
        let t = s@.subrange(i as int, n as int);
        if i < n {
            assert(t[0] == s@[i as int]);
        }
        assert(ltrim(s@) == t);
    }
    let mut j: usize = n;
    while j > i && is_space(s.get_char(j - 1))
        invariant
            i <= j <= n,
            n == s@.len(),
            ltrim(s@) == s@.subrange(i as int, n as int),
            rtrim(s@.subrange(i as int, n as int)) == rtrim(s@.subrange(i as int, j as int)),
        decreases j,
    {
        proof {
            let t = s@.subrange(i as int, j as int);
            assert(t.last() == s@[j - 1]);
            assert(t.drop_last() =~= s@.subrange(i as int, j - 1));
        }
        j -= 1;
    }
    proof {
        let t = s@.subrange(i as int, j as int);
        if j > i {
            assert(t.last() == s@[j - 1]);
        }
        assert(rtrim(s@.subrange(i as int, n as int)) == t);
    }
    s.substring_char(i, j)
}

// ───────────────────────── line splitting ─────────────────────────

/// Position of the first occurrence of `c` at or after `pos`, or the length.
pub open spec fn find_char_from(s: Seq<char>, c: char, pos: int) -> int
    decreases s.len() - pos,
    when 0 <= pos
{
    if pos >= s.len() {
        s.len() as int
    } else if s[pos] == c {
        pos
    } else {
        find_char_from(s, c, pos + 1)
    }
}

pub proof fn lemma_find_char_from(s: Seq<char>, c: char, pos: int)
    requires
        0 <= pos <= s.len(),
    ensures
        pos <= find_char_from(s, c, pos) <= s.len(),
        find_char_from(s, c, pos) < s.len() ==> s[find_char_from(s, c, pos)] == c,
        forall|j: int| pos <= j < find_char_from(s, c, pos) ==> s[j] != c,
    decreases s.len() - pos,
{
    if pos < s.len() && s[pos] != c {
        lemma_find_char_from(s, c, pos + 1);
    }
}

/// Scans for the first occurrence of `c` at or after `from`.
pub fn find_char(s: &str, c: char, from: usize) -> (r: usize)
    requires
        from <= s@.len(),
    ensures
        r == find_char_from(s@, c, from as int),
        from <= r <= s@.len(),
{
    let n = s.unicode_len();
    let mut i: usize = from;
    while i < n && s.get_char(i) != c
        invariant
            from <= i <= n,
            n == s@.len(),
            find_char_from(s@, c, from as int) == find_char_from(s@, c, i as int),
        decreases n - i,
    {
        i += 1;
    }
    proof {
        lemma_find_char_from(s@, c, from as int);
    }
    i
}

pub open spec fn line_end(s: Seq<char>, pos: int) -> int {
    find_char_from(s, '\n', pos)
}

pub proof fn lemma_line_end(s: Seq<char>, pos: int)
    requires
        0 <= pos <= s.len(),
    ensures
        pos <= line_end(s, pos) <= s.len(),
        line_end(s, pos) < s.len() ==> s[line_end(s, pos)] == '\n',
        forall|j: int| pos <= j < line_end(s, pos) ==> s[j] != '\n',
{
    lemma_find_char_from(s, '\n', pos);
}

pub open spec fn strip_cr(l: Seq<char>) -> Seq<char> {
    if l.len() > 0 && l.last() == '\r' {
        l.drop_last()
    } else {
        l
    }
}

/// The pieces of `s` from `pos` on, split as `str::lines` splits: each piece
/// ends before a `'\n'`, loses a trailing `'\r'`, and a final newline does
/// not add an empty piece.
pub open spec fn split_lines_from(s: Seq<char>, pos: int) -> Seq<Seq<char>>
    decreases s.len() - pos + 1,
    when 0 <= pos
    via split_lines_from_dec
{
    if pos >= s.len() {
        Seq::empty()
    } else {
        seq![strip_cr(s.subrange(pos, line_end(s, pos)))] + split_lines_from(
            s,
            line_end(s, pos) + 1,
        )
    }
}

#[via_fn]
proof fn split_lines_from_dec(s: Seq<char>, pos: int) {
    if 0 <= pos && pos < s.len() {
        lemma_line_end(s, pos);
    }
}

pub open spec fn split_lines(s: Seq<char>) -> Seq<Seq<char>> {
    split_lines_from(s, 0)
}

/// Splits into lines, exactly as the lines of process output are walked.
pub fn split_lines_vec(s: &str) -> (r: Vec<String>)
    ensures
        r.deep_view() == split_lines(s@),
{
    let n = s.unicode_len();
    let mut out: Vec<String> = Vec::new();
    let mut pos: usize = 0;
    while pos < n
        invariant
            0 <= pos <= n,
            n == s@.len(),
            split_lines(s@) =~= out.deep_view() + split_lines_from(s@, pos as int),
        decreases n - pos,
    {
        let e = find_char(s, '\n', pos);
        let piece = s.substring_char(pos, e);
        let plen = e - pos;
        let line = if plen > 0 && piece.get_char(plen - 1) == '\r' {
            piece.substring_char(0, plen - 1)
        } else {
            piece
        };
        proof {
            if plen > 0 && piece@.last() == '\r' {
                assert(piece@.subrange(0, plen - 1) =~= piece@.drop_last());
            }
            assert(line@ == strip_cr(s@.subrange(pos as int, e as int)));
        }
        let ghost old_out = out.deep_view();
        out.push(line.to_owned());
        proof {
            assert(out.deep_view() =~= old_out.push(line@));
            assert(split_lines_from(s@, pos as int) == seq![line@] + split_lines_from(
                s@,
                line_end(s@, pos as int) + 1,
            ));
            assert(old_out.push(line@) =~= old_out + seq![line@]);
        }
        if e >= n {
            proof {
                assert(split_lines_from(s@, e + 1) =~= Seq::<Seq<char>>::empty());
                assert(split_lines_from(s@, n as int) =~= Seq::<Seq<char>>::empty());
            }
            pos = n;
        } else {
            pos = e + 1;
        }
    }
    proof {
        assert(split_lines_from(s@, pos as int) =~= Seq::<Seq<char>>::empty());
        assert(out.deep_view() + Seq::<Seq<char>>::empty() =~= out.deep_view());
        assert(out.deep_view() =~= split_lines(s@));
    }
    out
}

// ───────────────────────── joining and padding ─────────────────────────

/// The pieces joined with single copies of `sep` between them.
pub open spec fn join_sep(ls: Seq<Seq<char>>, sep: Seq<char>) -> Seq<char>
    decreases ls.len(),
{
    if ls.len() == 0 {
        Seq::empty()
    } else if ls.len() == 1 {
        ls[0]
    } else {
        ls[0] + sep + join_sep(ls.drop_first(), sep)
    }
}

/// The pieces joined with single `'\n'` separators, no trailing newline.
pub open spec fn join_nl(ls: Seq<Seq<char>>) -> Seq<char> {
    join_sep(ls, seq!['\n'])
}

fn join_tail(v: &Vec<String>, sep: &str, i: usize) -> (r: String)
    requires
        i <= v.len(),
    ensures
        r@ == join_sep(v.deep_view().subrange(i as int, v.len() as int), sep@),
    decreases v.len() - i,
{
    if i == v.len() {
        String::new()
    } else if i + 1 == v.len() {
        let r = v[i].clone();
        proof {
            assert(v.deep_view().subrange(i as int, v.len() as int) =~= seq![v@[i as int]@]);
        }
        r
    } else {
        let mut r = v[i].clone();
        r.append(sep);
        let rest = join_tail(v, sep, i + 1);
        r.append(rest.as_str());
        proof {
            let tail = v.deep_view().subrange(i as int, v.len() as int);
            assert(tail.drop_first() =~= v.deep_view().subrange(i + 1, v.len() as int));
            assert(tail[0] == v@[i as int]@);
            assert(r@ =~= join_sep(tail, sep@));
        }
        r
    }
}

/// Joins the pieces with `sep` between them, no leading or trailing copy.
pub fn join_with(v: &Vec<String>, sep: &str) -> (r: String)
    ensures
        r@ == join_sep(v.deep_view(), sep@),
{
    let r = join_tail(v, sep, 0);
    proof {
        assert(v.deep_view().subrange(0, v.len() as int) =~= v.deep_view());
    }
    r
}

/// Joins lines with `'\n'`, the inverse direction of `split_lines_vec`.
pub fn join_lines(v: &Vec<String>) -> (r: String)
    ensures
        r@ == join_nl(v.deep_view()),
{
    proof {
        reveal_strlit("\n");
        assert("\n"@ =~= seq!['\n']);
    }
    join_with(v, "\n")
}

pub open spec fn spaces(n: nat) -> Seq<char>
    decreases n,
{
    if n == 0 {
        Seq::empty()
    } else {
        spaces((n - 1) as nat).push(' ')
    }
}

/// `s` padded with trailing spaces to width `w`; longer input is untouched.
pub open spec fn pad_right(s: Seq<char>, w: nat) -> Seq<char> {
    if s.len() >= w {
        s
    } else {
        s + spaces((w - s.len()) as nat)
    }
}

/// `s` padded with leading spaces to width `w`; longer input is untouched.
pub open spec fn pad_left(s: Seq<char>, w: nat) -> Seq<char> {
    if s.len() >= w {
        s
    } else {
        spaces((w - s.len()) as nat) + s
    }
}

/// Appends `n` spaces, the padding the aligned menu columns use.
pub fn push_spaces(s: &mut String, n: usize)
    ensures
        final(s)@ == old(s)@ + spaces(n as nat),
{
    proof {
        reveal_strlit(" ");
    }
    let mut k: usize = 0;
    proof {
        assert(s@ =~= old(s)@ + spaces(0));
    }
    while k < n
        invariant
            0 <= k <= n,
            s@ == old(s)@ + spaces(k as nat),
            " "@ =~= seq![' '],
        decreases n - k,
    {
        s.append(" ");
        proof {
            assert(s@ =~= old(s)@ + spaces((k + 1) as nat));
        }
        k += 1;
    }
}

} // verus!
