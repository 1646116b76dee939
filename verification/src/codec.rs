use vstd::prelude::*;

use crate::calendar::{
    days_in_month, days_in_year, days_before_month, civil_secs, in_render_range, Fields, exec_days_in_month, fields_to_secs,
    secs_to_fields, exec_days_before_year, lemma_days_before_year_bound,
    lemma_days_before_month_monotone, lemma_months_fill_year,
};
use crate::instant::Instant;
use vstd::string::*;

verus! {

// ---------------------------------------------------------------------------
// Characters and decimal digit strings
// ---------------------------------------------------------------------------

pub open spec fn is_digit(c: char) -> bool {
    48 <= c as u32 <= 57
}

pub open spec fn digit_val(c: char) -> int {
    c as u32 - 48
}

pub open spec fn digit_char(d: int) -> char {
    if d == 0 { '0' } else if d == 1 { '1' } else if d == 2 { '2' } else if d == 3 { '3' }
    else if d == 4 { '4' } else if d == 5 { '5' } else if d == 6 { '6' } else if d == 7 { '7' }
    else if d == 8 { '8' } else { '9' }
}

pub open spec fn is_ws(c: char) -> bool {
    c == ' ' || c == '\t' || c == '\n' || c == '\r' || c == '\u{b}' || c == '\u{c}'
}

pub open spec fn pow10(e: int) -> int
    decreases e,
{
    if e <= 0 { 1 } else { 10 * pow10(e - 1) }
}

/// The number a string of decimal digits denotes.
pub open spec fn seq_val(s: Seq<char>) -> int
    decreases s.len(),
{
    if s.len() == 0 { 0 } else { seq_val(s.drop_last()) * 10 + digit_val(s.last()) }
}

/// A number written out with exactly `w` decimal digits, leading zeros kept.
pub open spec fn spec_dec(v: int, w: int) -> Seq<char>
    decreases w,
{
    if w <= 0 { Seq::empty() } else { spec_dec(v / 10, w - 1).push(digit_char(v % 10)) }
}

pub proof fn lemma_pow10_pos(e: int)
    ensures
        pow10(e) >= 1,
    decreases e,
{
    if e > 0 {
        lemma_pow10_pos(e - 1);
    }
}

pub proof fn lemma_pow10_add(a: int, b: int)
    requires
        a >= 0,
        b >= 0,
    ensures
        pow10(a + b) == pow10(a) * pow10(b),
    decreases a,
{
    if a > 0 {
        lemma_pow10_add(a - 1, b);
        assert(pow10(a + b) == 10 * pow10(a - 1 + b));
        assert(10 * (pow10(a - 1) * pow10(b)) == (10 * pow10(a - 1)) * pow10(b))
            by (nonlinear_arith);
    }
}

pub proof fn lemma_digit_char(d: int)
    requires
        0 <= d < 10,
    ensures
        is_digit(digit_char(d)),
        digit_val(digit_char(d)) == d,
{
}

pub proof fn lemma_dec_len(v: int, w: int)
    requires
        w >= 0,
    ensures
        spec_dec(v, w).len() == w,
    decreases w,
{
    if w > 0 {
        lemma_dec_len(v / 10, w - 1);
    }
}

/// Writing a number with enough digits and reading the digits back yields
/// the number again.
pub proof fn lemma_seq_val_dec(v: int, w: int)
    requires
        w >= 0,
        0 <= v < pow10(w),
    ensures
        seq_val(spec_dec(v, w)) == v,
        forall|j: int| 0 <= j < w ==> is_digit(#[trigger] spec_dec(v, w)[j]),
    decreases w,
{
    lemma_dec_len(v, w);
    if w == 0 {
    } else {
        assert(v / 10 < pow10(w - 1)) by {
            if v / 10 >= pow10(w - 1) {
                assert(10 * (v / 10) >= 10 * pow10(w - 1)) by (nonlinear_arith)
                    requires v / 10 >= pow10(w - 1),
                ;
                assert(v >= 10 * (v / 10));
            }
        };
        lemma_seq_val_dec(v / 10, w - 1);
        lemma_digit_char(v % 10);
        let s = spec_dec(v, w);
        assert(s.drop_last() =~= spec_dec(v / 10, w - 1));
        assert(seq_val(s) == (v / 10) * 10 + v % 10);
        assert(forall|j: int| 0 <= j < w - 1 ==> is_digit(#[trigger] s[j]));
        assert(is_digit(s[w - 1]));
    }
}

// ---------------------------------------------------------------------------
// Whitespace trimming
// ---------------------------------------------------------------------------

pub open spec fn trim_start(s: Seq<char>) -> Seq<char>
    decreases s.len(),
{
    if s.len() > 0 && is_ws(s[0]) { trim_start(s.skip(1)) } else { s }
}

pub open spec fn trim_end(s: Seq<char>) -> Seq<char>
    decreases s.len(),
{
    if s.len() > 0 && is_ws(s.last()) { trim_end(s.drop_last()) } else { s }
}

pub open spec fn spec_trim(s: Seq<char>) -> Seq<char> {
    trim_end(trim_start(s))
}

proof fn lemma_trim_start_at(s: Seq<char>, b: int)
    requires
        0 <= b <= s.len(),
        forall|j: int| 0 <= j < b ==> is_ws(s[j]),
        b == s.len() || !is_ws(s[b]),
    ensures
        trim_start(s) == s.skip(b),
    decreases b,
{
    if b == 0 {
        assert(s.skip(0) =~= s);
    } else {
        lemma_trim_start_at(s.skip(1), b - 1);
        assert(s.skip(1).skip(b - 1) =~= s.skip(b));
    }
}

proof fn lemma_trim_end_at(s: Seq<char>, e: int)
    requires
        0 <= e <= s.len(),
        forall|j: int| e <= j < s.len() ==> is_ws(s[j]),
        e == 0 || !is_ws(s[e - 1]),
    ensures
        trim_end(s) == s.subrange(0, e),
    decreases s.len(),
{
    if e == s.len() {
        assert(s.subrange(0, e) =~= s);
        if s.len() > 0 {
            assert(!is_ws(s.last()));
        }
    } else {
        assert(is_ws(s.last()));
        lemma_trim_end_at(s.drop_last(), e);
        assert(s.drop_last().subrange(0, e) =~= s.subrange(0, e));
    }
}

/// Entirely whitespace, or empty.
pub open spec fn all_ws(s: Seq<char>) -> bool {
    forall|j: int| 0 <= j < s.len() ==> is_ws(#[trigger] s[j])
}

/// Whitespace around a string never changes what it parses to.
pub proof fn lemma_trim_ws_around(pre: Seq<char>, s: Seq<char>, suf: Seq<char>)
    requires
        all_ws(pre),
        all_ws(suf),
    ensures
        spec_trim(pre + s + suf) == spec_trim(s),
{
    lemma_trim_start_ws_prefix(pre, s + suf);
    assert(pre + s + suf =~= pre + (s + suf));
    lemma_trim_start_concat(s, suf);
    if trim_start(s).len() > 0 {
        lemma_trim_end_ws_suffix(trim_start(s), suf);
    } else {
        lemma_trim_start_all_ws(suf);
    }
}

proof fn lemma_trim_start_ws_prefix(pre: Seq<char>, x: Seq<char>)
    requires
        forall|j: int| 0 <= j < pre.len() ==> is_ws(pre[j]),
    ensures
        trim_start(pre + x) == trim_start(x),
    decreases pre.len(),
{
    if pre.len() == 0 {
        assert(pre + x =~= x);
    } else {
        assert(is_ws((pre + x)[0]));
        assert((pre + x).skip(1) =~= pre.skip(1) + x);
        lemma_trim_start_ws_prefix(pre.skip(1), x);
    }
}

proof fn lemma_trim_start_all_ws(x: Seq<char>)
    requires
        forall|j: int| 0 <= j < x.len() ==> is_ws(x[j]),
    ensures
        trim_start(x) == Seq::<char>::empty(),
    decreases x.len(),
{
    if x.len() == 0 {
        assert(x =~= Seq::<char>::empty());
    } else {
        lemma_trim_start_all_ws(x.skip(1));
    }
}

proof fn lemma_trim_end_ws_suffix(x: Seq<char>, suf: Seq<char>)
    requires
        forall|j: int| 0 <= j < suf.len() ==> is_ws(suf[j]),
    ensures
        trim_end(x + suf) == trim_end(x),
    decreases suf.len(),
{
    if suf.len() == 0 {
        assert(x + suf =~= x);
    } else {
        assert((x + suf).last() == suf.last());
        assert((x + suf).drop_last() =~= x + suf.drop_last());
        lemma_trim_end_ws_suffix(x, suf.drop_last());
    }
}

proof fn lemma_trim_start_concat(s: Seq<char>, suf: Seq<char>)
    ensures
        trim_start(s + suf) == if trim_start(s).len() > 0 {
            trim_start(s) + suf
        } else {
            trim_start(suf)
        },
    decreases s.len(),
{
    if s.len() == 0 {
        assert(s + suf =~= suf);
        assert(trim_start(s) == s);
    } else if is_ws(s[0]) {
        assert((s + suf)[0] == s[0]);
        assert((s + suf).skip(1) =~= s.skip(1) + suf);
        lemma_trim_start_concat(s.skip(1), suf);
    } else {
        assert((s + suf)[0] == s[0]);
        assert(trim_start(s + suf) == s + suf);
        assert(trim_start(s) == s);
    }
}

fn is_ws_exec(c: char) -> (r: bool)
    ensures
        r == is_ws(c),
{
    c == ' ' || c == '\t' || c == '\n' || c == '\r' || c == '\u{b}' || c == '\u{c}'
}

fn is_digit_exec(c: char) -> (r: bool)
    ensures
        r == is_digit(c),
{
    let v = c as u32;
    48 <= v && v <= 57
}

/// Strips surrounding whitespace, the tolerance the reader grants the
/// persisted record.
pub fn trim_ws<'a>(s: &'a str) -> (r: &'a str)
    ensures
        r@ == spec_trim(s@),
{
    let n = s.unicode_len();
    let mut b: usize = 0;
    while b < n && is_ws_exec(s.get_char(b))
        invariant
            b <= n,
            n == s@.len(),
            forall|j: int| 0 <= j < b ==> is_ws(s@[j]),
        decreases n - b,
    {
        b = b + 1;
    }
    let mut e: usize = n;
    while e > b && is_ws_exec(s.get_char(e - 1))
        invariant
            b <= e <= n,
            n == s@.len(),
            forall|j: int| e <= j < n ==> is_ws(s@[j]),
        decreases e,
    {
        e = e - 1;
    }
    let r = s.substring_char(b, e);
    proof {
        lemma_trim_start_at(s@, b as int);
        let u = s@.skip(b as int);
        lemma_trim_end_at(u, e - b);
        assert(u.subrange(0, e - b) =~= s@.subrange(b as int, e as int));
    }
    r
}

// ---------------------------------------------------------------------------
// The persisted timestamp grammar
// ---------------------------------------------------------------------------

pub open spec fn all_digits(t: Seq<char>, i: int, j: int) -> bool {
    forall|k: int| i <= k < j ==> is_digit(t[k])
}

pub open spec fn seq_num(t: Seq<char>, i: int, j: int) -> int {
    seq_val(t.subrange(i, j))
}

/// The fixed date-and-time head `YYYY-MM-DDTHH:MM:SS`; the separator may
/// also be lowercase or a single space.
pub open spec fn head_ok(t: Seq<char>) -> bool {
    &&& t.len() >= 20
    &&& all_digits(t, 0, 4)
    &&& t[4] == '-'
    &&& all_digits(t, 5, 7)
    &&& t[7] == '-'
    &&& all_digits(t, 8, 10)
    &&& (t[10] == 'T' || t[10] == 't' || t[10] == ' ')
    &&& all_digits(t, 11, 13)
    &&& t[13] == ':'
    &&& all_digits(t, 14, 16)
    &&& t[16] == ':'
    &&& all_digits(t, 17, 19)
}

/// How many decimal digits follow position `i`.
pub open spec fn digit_run(t: Seq<char>, i: int) -> int
    decreases t.len() - i,
{
    if 0 <= i < t.len() && is_digit(t[i]) { 1 + digit_run(t, i + 1) } else { 0 }
}

pub open spec fn has_frac(t: Seq<char>) -> bool {
    t.len() > 19 && t[19] == '.'
}

/// Where the offset part begins: right after the head, or after the
/// fractional-second digits.
pub open spec fn off_start(t: Seq<char>) -> int {
    if has_frac(t) { 20 + digit_run(t, 20) } else { 19 }
}

pub open spec fn offset_ok(t: Seq<char>, p: int) -> bool {
    if p < t.len() && (t[p] == 'Z' || t[p] == 'z') {
        p + 1 == t.len()
    } else {
        &&& p + 6 == t.len()
        &&& p < t.len()
        &&& (t[p] == '+' || t[p] == '-')
        &&& all_digits(t, p + 1, p + 3)
        &&& t[p + 3] == ':'
        &&& all_digits(t, p + 4, p + 6)
        &&& seq_num(t, p + 1, p + 3) < 24
        &&& seq_num(t, p + 4, p + 6) < 60
    }
}

pub open spec fn offset_secs(t: Seq<char>, p: int) -> int {
    if p < t.len() && (t[p] == 'Z' || t[p] == 'z') {
        0
    } else {
        let v = seq_num(t, p + 1, p + 3) * 3600 + seq_num(t, p + 4, p + 6) * 60;
        if t[p] == '-' { -v } else { v }
    }
}

/// What a trimmed timestamp string denotes: the fields read back, checked
/// for calendar validity, with the written offset taken out again.
pub open spec fn spec_parse_stamp(t: Seq<char>) -> Option<Instant> {
    if !head_ok(t) {
        None
    } else {
        let y = seq_num(t, 0, 4);
        let mo = seq_num(t, 5, 7);
        let d = seq_num(t, 8, 10);
        let h = seq_num(t, 11, 13);
        let mi = seq_num(t, 14, 16);
        let s = seq_num(t, 17, 19);
        let k = digit_run(t, 20);
        let k9 = if k > 9 { 9 } else { k };
        let p = off_start(t);
        let nanos = if has_frac(t) { seq_num(t, 20, 20 + k9) * pow10(9 - k9) } else { 0 };
        if !(1 <= mo <= 12 && 1 <= d <= days_in_month(y, mo) && h < 24 && mi < 60 && s <= 60) {
            None
        } else if has_frac(t) && k < 1 {
            None
        } else if !offset_ok(t, p) {
            None
        } else {
            Some(Instant {
                secs: (civil_secs(y, mo, d, h, mi, s) - offset_secs(t, p)) as i64,
                nanos: nanos as u32,
            })
        }
    }
}

/// What any timestamp string denotes, surrounding whitespace ignored.
pub open spec fn spec_parse_time(s: Seq<char>) -> Option<Instant> {
    spec_parse_stamp(spec_trim(s))
}

proof fn lemma_digit_run_val(t: Seq<char>, i: int, e: int)
    requires
        0 <= i <= e <= t.len(),
        all_digits(t, i, e),
        e == t.len() || !is_digit(t[e]),
    ensures
        digit_run(t, i) == e - i,
    decreases e - i,
{
    if i < e {
        lemma_digit_run_val(t, i + 1, e);
    }
}

// ---------------------------------------------------------------------------
// Executable parsing
// ---------------------------------------------------------------------------

/// Reads the fixed-width decimal number at `[i, j)`, or reports the first
/// non-digit.
fn read_num(t: &str, i: usize, j: usize) -> (r: Option<u32>)
    requires
        i <= j <= t@.len(),
        j - i <= 9,
    ensures
        match r {
            Some(v) => all_digits(t@, i as int, j as int) && v == seq_num(t@, i as int, j as int)
                && v < pow10(j - i),
            None => !all_digits(t@, i as int, j as int),
        },
{
    proof {
        lemma_pow10_pos(0);
    }
    let mut k = i;
    let mut v: u32 = 0;
    while k < j
        invariant
            i <= k <= j <= t@.len(),
            j - i <= 9,
            all_digits(t@, i as int, k as int),
            v == seq_num(t@, i as int, k as int),
            v < pow10(k - i),
        decreases j - k,
    {
        let c = t.get_char(k);
        if !is_digit_exec(c) {
            assert(!all_digits(t@, i as int, j as int));
            return None;
        }
        proof {
            assert(t@.subrange(i as int, k + 1).drop_last() =~= t@.subrange(i as int, k as int));
            assert(t@.subrange(i as int, k + 1).last() == t@[k as int]);
            assert(pow10(k + 1 - i) == 10 * pow10(k - i));
            lemma_pow10_pos(k - i);
            assert(pow10(k + 1 - i) <= pow10(9)) by {
                lemma_pow10_add(k + 1 - i, 9 - (k + 1 - i));
                lemma_pow10_pos(9 - (k + 1 - i));
                assert(pow10(9) >= pow10(k + 1 - i) * 1) by (nonlinear_arith)
                    requires
                        pow10(9) == pow10(k + 1 - i) * pow10(9 - (k + 1 - i)),
                        pow10(9 - (k + 1 - i)) >= 1,
                        pow10(k + 1 - i) >= 1,
                ;
            };
            reveal_with_fuel(pow10, 11);
            assert(pow10(9) == 1_000_000_000);
        }
        v = v * 10 + (c as u32 - 48);
        k = k + 1;
    }
    Some(v)
}

fn pow10_exec(e: usize) -> (r: u32)
    requires
        e <= 9,
    ensures
        r == pow10(e as int),
{
    proof {
        reveal_with_fuel(pow10, 11);
        assert(pow10(0) == 1 && pow10(1) == 10 && pow10(2) == 100 && pow10(3) == 1000
            && pow10(4) == 10000 && pow10(5) == 100000 && pow10(6) == 1000000
            && pow10(7) == 10000000 && pow10(8) == 100000000 && pow10(9) == 1000000000);
    }
    match e {
        0 => 1,
        1 => 10,
        2 => 100,
        3 => 1000,
        4 => 10000,
        5 => 100000,
        6 => 1000000,
        7 => 10000000,
        8 => 100000000,
        _ => 1000000000,
    }
}

/// Parses a trimmed timestamp; any malformed input yields `None`, never a
/// failure.
fn parse_stamp(t: &str) -> (r: Option<Instant>)
    ensures
        r == spec_parse_stamp(t@),
        r matches Some(i) ==> i.wf(),
{
    proof {
        reveal_with_fuel(pow10, 11);
        assert(pow10(2) == 100 && pow10(4) == 10000);
    }
    let n = t.unicode_len();
    if n < 20 {
        return None;
    }
    if t.get_char(4) != '-' || t.get_char(7) != '-' {
        return None;
    }
    let c10 = t.get_char(10);
    if !(c10 == 'T' || c10 == 't' || c10 == ' ') {
        return None;
    }
    if t.get_char(13) != ':' || t.get_char(16) != ':' {
        return None;
    }
    let y = match read_num(t, 0, 4) { Some(v) => v, None => { return None; } };
    let mo = match read_num(t, 5, 7) { Some(v) => v, None => { return None; } };
    let d = match read_num(t, 8, 10) { Some(v) => v, None => { return None; } };
    let h = match read_num(t, 11, 13) { Some(v) => v, None => { return None; } };
    let mi = match read_num(t, 14, 16) { Some(v) => v, None => { return None; } };
    let sec = match read_num(t, 17, 19) { Some(v) => v, None => { return None; } };
    assert(head_ok(t@));

    let mut nanos: u32 = 0;
    let mut p: usize = 19;
    if t.get_char(19) == '.' {
        let mut e: usize = 20;
        while e < n && is_digit_exec(t.get_char(e))
            invariant
                20 <= e <= n,
                n == t@.len(),
                all_digits(t@, 20, e as int),
            decreases n - e,
        {
            e = e + 1;
        }
        proof {
            lemma_digit_run_val(t@, 20, e as int);
        }
        let k = e - 20;
        if k < 1 {
            return None;
        }
        let k9: usize = if k > 9 { 9 } else { k };
        let v = match read_num(t, 20, 20 + k9) { Some(v) => v, None => { return None; } };
        let scale = pow10_exec(9 - k9);
        proof {
            lemma_pow10_add(k9 as int, 9 - k9 as int);
            reveal_with_fuel(pow10, 11);
            assert(pow10(9) == 1_000_000_000);
            assert(v * scale < 1_000_000_000) by (nonlinear_arith)
                requires
                    v < pow10(k9 as int),
                    scale == pow10(9 - k9 as int),
                    pow10(k9 as int) * pow10(9 - k9 as int) == 1_000_000_000,
                    v >= 0,
                    scale >= 1,
            ;
        }
        nanos = v * scale;
        p = e;
    }

    if p >= n {
        return None;
    }
    let c = t.get_char(p);
    let off: i64;
    if c == 'Z' || c == 'z' {
        if p + 1 != n {
            return None;
        }
        off = 0;
    } else if c == '+' || c == '-' {
        if n - p != 6 {
            return None;
        }
        if t.get_char(p + 3) != ':' {
            return None;
        }
        let oh = match read_num(t, p + 1, p + 3) { Some(v) => v, None => { return None; } };
        let om = match read_num(t, p + 4, p + 6) { Some(v) => v, None => { return None; } };
        if oh >= 24 || om >= 60 {
            return None;
        }
        let v = (oh * 3600 + om * 60) as i64;
        off = if c == '-' { -v } else { v };
        assert(offset_ok(t@, p as int));
    } else {
        return None;
    }

    if !(1 <= mo && mo <= 12) {
        return None;
    }
    let dim = exec_days_in_month(y as u16, mo as u8);
    if d < 1 || d > dim as u32 {
        return None;
    }
    if h >= 24 || mi >= 60 || sec > 60 {
        return None;
    }
    // A leap-second reading folds forward: second 60 denotes the instant
    // one second past second 59, which the civil arithmetic gives directly.
    let leap: i64 = if sec == 60 { 1 } else { 0 };
    let fsec: u32 = if sec == 60 { 59 } else { sec };
    let f = Fields {
        year: y as u16,
        month: mo as u8,
        day: d as u8,
        hour: h as u8,
        minute: mi as u8,
        second: fsec as u8,
        nanos,
    };
    let secs = fields_to_secs(&f) + leap - off;
    Some(Instant { secs, nanos })
}

/// Reads a persisted timestamp back; surrounding whitespace is tolerated
/// and any malformed content simply yields `None`.
pub fn parse_time(s: &str) -> (r: Option<Instant>)
    ensures
        r == spec_parse_time(s@),
        r matches Some(i) ==> i.wf(),
{
    let t = trim_ws(s);
    parse_stamp(t)
}

/// The read path of the persisted reset record: a missing record and an
/// unparseable one alike resolve to "no reset on record".
pub fn parse_persisted(content: &Option<String>) -> (r: Option<Instant>)
    ensures
        r == match content {
            Some(s) => spec_parse_time(s@),
            None => None::<Instant>,
        },
        r matches Some(i) ==> i.wf(),
{
    match content {
        Some(s) => parse_time(s.as_str()),
        None => None,
    }
}

// ---------------------------------------------------------------------------
// Rendering an instant as a timestamp
// ---------------------------------------------------------------------------

pub open spec fn off_abs(off: int) -> int {
    if off < 0 { -off } else { off }
}

/// The textual offset part, `+HH:MM` or `-HH:MM`.
pub open spec fn spec_offset_text(off: int) -> Seq<char> {
    (if off < 0 { seq!['-'] } else { seq!['+'] }) + spec_dec(off_abs(off) / 3600, 2)
        + seq![':'] + spec_dec((off_abs(off) / 60) % 60, 2)
}

/// The full rendered timestamp: date, time, nine fraction digits, offset.
pub open spec fn spec_render_stamp(f: Fields, off: int) -> Seq<char> {
    spec_dec(f.year as int, 4) + seq!['-'] + spec_dec(f.month as int, 2) + seq!['-']
        + spec_dec(f.day as int, 2) + seq!['T'] + spec_dec(f.hour as int, 2) + seq![':']
        + spec_dec(f.minute as int, 2) + seq![':'] + spec_dec(f.second as int, 2)
        + seq!['.'] + spec_dec(f.nanos as int, 9) + spec_offset_text(off)
}

pub(crate) fn digit_str_of(d: u32) -> (r: &'static str)
    requires
        d < 10,
    ensures
        r@ == seq![digit_char(d as int)],
{
    proof {
        reveal_strlit("0");
        reveal_strlit("1");
        reveal_strlit("2");
        reveal_strlit("3");
        reveal_strlit("4");
        reveal_strlit("5");
        reveal_strlit("6");
        reveal_strlit("7");
        reveal_strlit("8");
        reveal_strlit("9");
    }
    let r: &'static str = match d {
        0 => "0",
        1 => "1",
        2 => "2",
        3 => "3",
        4 => "4",
        5 => "5",
        6 => "6",
        7 => "7",
        8 => "8",
        _ => "9",
    };
    proof {
        assert(r@ =~= seq![digit_char(d as int)]);
    }
    r
}

/// Appends `v` as exactly `w` decimal digits, leading zeros kept.
pub(crate) fn push_dec(out: &mut String, v: u32, w: u8)
    requires
        w <= 9,
    ensures
        final(out)@ == old(out)@ + spec_dec(v as int, w as int),
    decreases w,
{
    if w == 0 {
        proof {
            assert(out@ =~= old(out)@ + spec_dec(v as int, 0));
        }
    } else {
        push_dec(out, v / 10, w - 1);
        let ds = digit_str_of(v % 10);
        out.append(ds);
        proof {
            assert(out@ =~= old(out)@ + spec_dec(v as int, w as int));
        }
    }
}

/// Writes calendar fields with an explicit offset in the persisted shape.
pub fn render_stamp(f: &Fields, off_secs: i64) -> (r: String)
    requires
        f.wf(),
        -86400 < off_secs < 86400,
    ensures
        r@ == spec_render_stamp(*f, off_secs as int),
{
    let mut out = String::new();
    push_dec(&mut out, f.year as u32, 4);
    out.append("-");
    push_dec(&mut out, f.month as u32, 2);
    out.append("-");
    push_dec(&mut out, f.day as u32, 2);
    out.append("T");
    push_dec(&mut out, f.hour as u32, 2);
    out.append(":");
    push_dec(&mut out, f.minute as u32, 2);
    out.append(":");
    push_dec(&mut out, f.second as u32, 2);
    out.append(".");
    push_dec(&mut out, f.nanos, 9);
    if off_secs < 0 {
        out.append("-");
    } else {
        out.append("+");
    }
    let a: i64 = if off_secs < 0 { -off_secs } else { off_secs };
    push_dec(&mut out, (a / 3600) as u32, 2);
    out.append(":");
    push_dec(&mut out, ((a / 60) % 60) as u32, 2);
    proof {
        reveal_strlit("-");
        reveal_strlit("T");
        reveal_strlit(":");
        reveal_strlit(".");
        reveal_strlit("+");
        assert(out@ =~= spec_render_stamp(*f, off_secs as int));
    }
    out
}

/// Rendering well-formed fields and parsing the text back recovers exactly
/// the instant the fields denote.
pub proof fn lemma_parse_render(f: Fields)
    requires
        f.wf(),
    ensures
        spec_parse_stamp(spec_render_stamp(f, 0)) == Some(
            Instant { secs: f.to_secs() as i64, nanos: f.nanos },
        ),
        spec_render_stamp(f, 0).len() == 35,
        !is_ws(spec_render_stamp(f, 0)[0]),
        !is_ws(spec_render_stamp(f, 0)[34]),
{
    reveal_with_fuel(pow10, 11);
    let t = spec_render_stamp(f, 0);
    let y = f.year as int;
    let mo = f.month as int;
    let d = f.day as int;
    let h = f.hour as int;
    let mi = f.minute as int;
    let sec = f.second as int;
    let na = f.nanos as int;
    lemma_dec_len(y, 4);
    lemma_dec_len(mo, 2);
    lemma_dec_len(d, 2);
    lemma_dec_len(h, 2);
    lemma_dec_len(mi, 2);
    lemma_dec_len(sec, 2);
    lemma_dec_len(na, 9);
    lemma_dec_len(0, 2);
    lemma_seq_val_dec(y, 4);
    lemma_seq_val_dec(mo, 2);
    lemma_seq_val_dec(d, 2);
    lemma_seq_val_dec(h, 2);
    lemma_seq_val_dec(mi, 2);
    lemma_seq_val_dec(sec, 2);
    lemma_seq_val_dec(na, 9);
    lemma_seq_val_dec(0, 2);
    assert(t.len() == 35);
    assert(t.subrange(0, 4) =~= spec_dec(y, 4));
    assert(t[4] == '-');
    assert(t.subrange(5, 7) =~= spec_dec(mo, 2));
    assert(t[7] == '-');
    assert(t.subrange(8, 10) =~= spec_dec(d, 2));
    assert(t[10] == 'T');
    assert(t.subrange(11, 13) =~= spec_dec(h, 2));
    assert(t[13] == ':');
    assert(t.subrange(14, 16) =~= spec_dec(mi, 2));
    assert(t[16] == ':');
    assert(t.subrange(17, 19) =~= spec_dec(sec, 2));
    assert(t[19] == '.');
    assert(t.subrange(20, 29) =~= spec_dec(na, 9));
    assert(t[29] == '+');
    assert(t.subrange(30, 32) =~= spec_dec(0, 2));
    assert(t[32] == ':');
    assert(t.subrange(33, 35) =~= spec_dec(0, 2));

    assert forall|k: int| 0 <= k < 4 implies is_digit(t[k]) by {
        assert(t[k] == spec_dec(y, 4)[k]);
    }
    assert forall|k: int| 5 <= k < 7 implies is_digit(t[k]) by {
        assert(t[k] == spec_dec(mo, 2)[k - 5]);
    }
    assert forall|k: int| 8 <= k < 10 implies is_digit(t[k]) by {
        assert(t[k] == spec_dec(d, 2)[k - 8]);
    }
    assert forall|k: int| 11 <= k < 13 implies is_digit(t[k]) by {
        assert(t[k] == spec_dec(h, 2)[k - 11]);
    }
    assert forall|k: int| 14 <= k < 16 implies is_digit(t[k]) by {
        assert(t[k] == spec_dec(mi, 2)[k - 14]);
    }
    assert forall|k: int| 17 <= k < 19 implies is_digit(t[k]) by {
        assert(t[k] == spec_dec(sec, 2)[k - 17]);
    }
    assert forall|k: int| 20 <= k < 29 implies is_digit(t[k]) by {
        assert(t[k] == spec_dec(na, 9)[k - 20]);
    }
    assert forall|k: int| 30 <= k < 32 implies is_digit(t[k]) by {
        assert(t[k] == spec_dec(0, 2)[k - 30]);
    }
    assert forall|k: int| 33 <= k < 35 implies is_digit(t[k]) by {
        assert(t[k] == spec_dec(0, 2)[k - 33]);
    }
    assert(head_ok(t));
    assert(seq_num(t, 0, 4) == y);
    assert(seq_num(t, 5, 7) == mo);
    assert(seq_num(t, 8, 10) == d);
    assert(seq_num(t, 11, 13) == h);
    assert(seq_num(t, 14, 16) == mi);
    assert(seq_num(t, 17, 19) == sec);
    assert(has_frac(t));
    lemma_digit_run_val(t, 20, 29);
    assert(digit_run(t, 20) == 9);
    assert(off_start(t) == 29);
    assert(seq_num(t, 20, 29) == na);
    assert(seq_num(t, 20, 29) * pow10(0) == na);
    assert(seq_num(t, 30, 32) == 0);
    assert(seq_num(t, 33, 35) == 0);
    assert(offset_ok(t, 29));
    assert(offset_secs(t, 29) == 0);
    assert(spec_parse_stamp(t) == Some(
        Instant { secs: civil_secs(y, mo, d, h, mi, sec) as i64, nanos: na as u32 },
    ));
    lemma_days_before_year_bound(y);
    lemma_days_before_year_bound(1970);
    lemma_days_before_month_monotone(y, 1, mo);
    lemma_days_before_month_monotone(y, mo, 13);
    lemma_months_fill_year(y);
    assert(0 <= days_before_month(y, mo) <= days_in_year(y));
    assert(-62_300_000_000 <= f.to_secs() <= 320_000_000_000);
    assert(!is_ws(t[0]));
    assert(!is_ws(t[34]));
}

/// Serializing an instant within the writable range and parsing the text
/// back yields exactly the original instant: the persisted record never
/// loses precision.
pub fn serialize_reset(i: &Instant) -> (r: Option<String>)
    requires
        i.wf(),
    ensures
        r is Some <==> in_render_range(i.secs as int),
        r matches Some(text) ==> spec_parse_time(text@) == Some(*i),
        r matches Some(text) ==> forall|pre: Seq<char>, suf: Seq<char>|
            all_ws(pre) && all_ws(suf) ==> #[trigger] spec_parse_time(pre + text@ + suf)
                == Some(*i),
{
    proof {
        lemma_days_before_year_bound(1970);
        lemma_days_before_year_bound(10000);
    }
    let epoch = exec_days_before_year(1970);
    let total_days = exec_days_before_year(10000);
    let lo: i64 = -(epoch * 86400);
    let hi: i64 = (total_days - epoch) * 86400;
    if i.secs < lo || i.secs >= hi {
        return None;
    }
    let f = secs_to_fields(i.secs, i.nanos);
    let text = render_stamp(&f, 0);
    proof {
        lemma_parse_render(f);
        let t = spec_render_stamp(f, 0);
        assert(trim_start(t) == t);
        assert(trim_end(t) == t);
        assert(spec_trim(t) == t);
        assert(f.to_secs() as i64 == i.secs);
        assert forall|pre: Seq<char>, suf: Seq<char>|
            all_ws(pre) && all_ws(suf) implies #[trigger] spec_parse_time(pre + t + suf)
                == Some(*i) by {
            lemma_parse_time_ws(pre, t, suf);
        }
    }
    Some(text)
}

/// Whitespace around a timestamp never changes what it parses to.
pub proof fn lemma_parse_time_ws(pre: Seq<char>, s: Seq<char>, suf: Seq<char>)
    requires
        all_ws(pre),
        all_ws(suf),
    ensures
        spec_parse_time(pre + s + suf) == spec_parse_time(s),
{
    lemma_trim_ws_around(pre, s, suf);
}

} // verus!
