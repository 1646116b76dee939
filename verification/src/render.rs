use vstd::prelude::*;

use vstd::arithmetic::div_mod::lemma_fundamental_div_mod_converse;
use vstd::string::*;

use crate::calendar::Fields;
use crate::codec::{spec_dec, spec_render_stamp};
use crate::instant::Instant;
use chrono_humanize::{Accuracy, Tense};

verus! {

// ---------------------------------------------------------------------------
// The elapsed span between two instants
// ---------------------------------------------------------------------------

/// The signed span from `start` to `now`, in nanoseconds; negative when
/// the clock moved backward past the start.
pub open spec fn spec_delta(now: Instant, start: Instant) -> int {
    now.total_nanos() - start.total_nanos()
}

pub open spec fn spec_dsecs(now: Instant, start: Instant) -> int {
    spec_delta(now, start) / 1_000_000_000
}

pub open spec fn spec_dnanos(now: Instant, start: Instant) -> int {
    spec_delta(now, start) % 1_000_000_000
}

/// The elapsed whole seconds, truncated toward zero as the human renderer
/// expects them.
pub open spec fn spec_trunc_secs(now: Instant, start: Instant) -> int {
    if spec_dsecs(now, start) < 0 && spec_dnanos(now, start) > 0 {
        spec_dsecs(now, start) + 1
    } else {
        spec_dsecs(now, start)
    }
}

/// Computes the span as floor seconds plus a non-negative sub-second
/// part, or `None` when it cannot be represented.
pub fn delta(now: &Instant, start: &Instant) -> (r: Option<(i64, u32)>)
    requires
        now.wf(),
        start.wf(),
    ensures
        r matches Some(p) ==> p.0 == spec_dsecs(*now, *start) && p.1 == spec_dnanos(*now, *start),
        r is None <==> !(i64::MIN <= spec_dsecs(*now, *start) <= i64::MAX),
{
    let bn: u32;
    let borrow: i128;
    if now.nanos >= start.nanos {
        bn = now.nanos - start.nanos;
        borrow = 0;
    } else {
        bn = now.nanos + 1_000_000_000 - start.nanos;
        borrow = 1;
    }
    let ds: i128 = now.secs as i128 - start.secs as i128 - borrow;
    proof {
        lemma_fundamental_div_mod_converse(
            spec_delta(*now, *start),
            1_000_000_000,
            ds as int,
            bn as int,
        );
    }
    if ds < i64::MIN as i128 || ds > i64::MAX as i128 {
        None
    } else {
        Some((ds as i64, bn))
    }
}

// ---------------------------------------------------------------------------
// Machine-readable rendering
// ---------------------------------------------------------------------------

/// The text chrono gives a time delta of the given floor seconds and
/// non-negative sub-second nanoseconds; a pure function of the two.
pub uninterp spec fn iso_text_of(secs: int, nanos: int) -> Seq<char>;

/// The bounds within which chrono can hold such a delta at all, as its
/// source states them.
pub open spec fn spec_td_bounds(secs: int, nanos: int) -> bool {
    &&& -9_223_372_036_854_776 <= secs <= 9_223_372_036_854_775
    &&& 0 <= nanos < 1_000_000_000
    &&& !(secs == 9_223_372_036_854_775 && nanos > 807_000_000)
    &&& !(secs == -9_223_372_036_854_776 && nanos < 193_000_000)
}

/// Relies on `chrono::TimeDelta::new` and its `Display`: `new` accepts
/// exactly the documented bounds, and the display text depends on the
/// delta alone.
#[verifier::external_body]
fn iso_phrase(secs: i64, nanos: u32) -> (r: Option<String>)
    ensures
        r is Some <==> spec_td_bounds(secs as int, nanos as int),
        r matches Some(s) ==> s@ == iso_text_of(secs as int, nanos as int),
{
    match chrono::TimeDelta::new(secs, nanos) {
        Some(td) => Some(td.to_string()),
        None => None,
    }
}

// ---------------------------------------------------------------------------
// Human-readable rendering
// ---------------------------------------------------------------------------

/// The English phrase chrono-humanize gives a whole-second delta under
/// precise accuracy in the present tense; a pure function of the seconds.
pub uninterp spec fn human_text_of(secs: int) -> Seq<char>;

/// The seconds chrono can turn into a whole-second delta, per its source.
pub open spec fn spec_human_bounds(secs: int) -> bool {
    -9_223_372_036_854_775 <= secs <= 9_223_372_036_854_775
}

/// Relies on `chrono::TimeDelta::try_seconds` (in range, by the bound
/// required here) and `chrono_humanize::HumanTime::to_text_en` with
/// precise accuracy and present tense: English text that depends on the
/// seconds alone.
#[verifier::external_body]
fn human_phrase(secs: i64) -> (r: String)
    requires
        spec_human_bounds(secs as int),
    ensures
        r@ == human_text_of(secs as int),
{
    let td = chrono::TimeDelta::try_seconds(secs).unwrap();
    chrono_humanize::HumanTime::from(td).to_text_en(Accuracy::Precise, Tense::Present)
}

/// The house style: every ` and` joining two units becomes a comma.
pub open spec fn spec_replace_and(s: Seq<char>) -> Seq<char>
    decreases s.len(),
{
    if s.len() >= 4 && s[0] == ' ' && s[1] == 'a' && s[2] == 'n' && s[3] == 'd' {
        seq![','] + spec_replace_and(s.skip(4))
    } else if s.len() > 0 {
        seq![s[0]] + spec_replace_and(s.skip(1))
    } else {
        Seq::empty()
    }
}

/// Rewrites ` and` to a comma throughout, left to right.
pub fn replace_and(s: &str) -> (r: String)
    ensures
        r@ == spec_replace_and(s@),
{
    let n = s.unicode_len();
    let mut out = String::new();
    let mut i: usize = 0;
    let mut seg: usize = 0;
    proof {
        assert(s@.skip(0) =~= s@);
        assert(out@ + s@.subrange(0, 0) + spec_replace_and(s@) =~= spec_replace_and(s@));
    }
    while i < n
        invariant
            seg <= i <= n,
            n == s@.len(),
            spec_replace_and(s@) == out@ + s@.subrange(seg as int, i as int)
                + spec_replace_and(s@.skip(i as int)),
        decreases n - i,
    {
        if n - i >= 4 && s.get_char(i) == ' ' && s.get_char(i + 1) == 'a' && s.get_char(i + 2)
            == 'n' && s.get_char(i + 3) == 'd' {
            let chunk = s.substring_char(seg, i);
            out.append(chunk);
            out.append(",");
            proof {
                reveal_strlit(",");
                let t = s@.skip(i as int);
                assert(t.len() >= 4 && t[0] == ' ' && t[1] == 'a' && t[2] == 'n' && t[3] == 'd');
                assert(t.skip(4) =~= s@.skip(i + 4));
                assert(","@ =~= seq![',']);
                assert(s@.subrange(i + 4, i + 4) =~= Seq::<char>::empty());
            }
            i = i + 4;
            seg = i;
        } else {
            proof {
                let t = s@.skip(i as int);
                assert(t.len() > 0 && t[0] == s@[i as int]);
                assert(!(t.len() >= 4 && t[0] == ' ' && t[1] == 'a' && t[2] == 'n' && t[3] == 'd'))
                    by {
                    if i + 4 <= n {
                        assert(t[1] == s@[i + 1] && t[2] == s@[i + 2] && t[3] == s@[i + 3]);
                    }
                };
                assert(t.skip(1) =~= s@.skip(i + 1));
                assert(seq![t[0]] =~= s@.subrange(i as int, i + 1));
                assert(s@.subrange(seg as int, i as int) + s@.subrange(i as int, i + 1)
                    =~= s@.subrange(seg as int, i + 1));
            }
            i = i + 1;
        }
    }
    let tail = s.substring_char(seg, n);
    out.append(tail);
    proof {
        assert(s@.skip(n as int) =~= Seq::<char>::empty());
        assert(out@ =~= spec_replace_and(s@));
    }
    out
}

/// Renders the span from `start` to `now`: the lossless machine shape
/// under the iso flag, else the precise human phrase with the house-style
/// comma before the final unit. `None` only when the span cannot be held
/// by the renderer at all.
pub fn render_duration(now: &Instant, start: &Instant, iso: bool) -> (r: Option<String>)
    requires
        now.wf(),
        start.wf(),
    ensures
        iso ==> ((r is Some <==> spec_td_bounds(spec_dsecs(*now, *start), spec_dnanos(*now, *start)))
            && (r matches Some(t) ==> t@ == iso_text_of(
            spec_dsecs(*now, *start),
            spec_dnanos(*now, *start),
        ))),
        !iso ==> ((r is Some <==> spec_human_bounds(spec_trunc_secs(*now, *start))) && (
        r matches Some(t) ==> t@ == spec_replace_and(human_text_of(spec_trunc_secs(*now, *start))))),
{
    let d = match delta(now, start) {
        Some(d) => d,
        None => {
            return None;
        },
    };
    if iso {
        iso_phrase(d.0, d.1)
    } else {
        let t: i64 = if d.0 < 0 && d.1 > 0 {
            d.0 + 1
        } else {
            d.0
        };
        if t < -9_223_372_036_854_775 || t > 9_223_372_036_854_775 {
            return None;
        }
        let phrase = human_phrase(t);
        Some(replace_and(phrase.as_str()))
    }
}

// ---------------------------------------------------------------------------
// The start line and the live line eraser
// ---------------------------------------------------------------------------

/// The simplified fixed-format date and time, `YYYY-MM-DD HH:MM:SS`.
pub open spec fn spec_render_simple(f: Fields) -> Seq<char> {
    spec_dec(f.year as int, 4) + seq!['-'] + spec_dec(f.month as int, 2) + seq!['-']
        + spec_dec(f.day as int, 2) + seq![' '] + spec_dec(f.hour as int, 2) + seq![':']
        + spec_dec(f.minute as int, 2) + seq![':'] + spec_dec(f.second as int, 2)
}

pub open spec fn spec_start_message(f: Fields, off: int, strict_iso: bool) -> Seq<char> {
    "Started "@ + if strict_iso {
        spec_render_stamp(f, off)
    } else {
        spec_render_simple(f)
    }
}

/// The one-line report of the resolved start instant in local time,
/// verbose or simplified under the iso flag.
pub fn start_message(f: &Fields, off_secs: i64, strict_iso: bool) -> (r: String)
    requires
        f.wf(),
        -86400 < off_secs < 86400,
    ensures
        r@ == spec_start_message(*f, off_secs as int, strict_iso),
{
    let mut out = String::from_str("Started ");
    if strict_iso {
        let stamp = crate::codec::render_stamp(f, off_secs);
        out.append(stamp.as_str());
    } else {
        let simple = render_simple(f);
        out.append(simple.as_str());
    }
    out
}

fn render_simple(f: &Fields) -> (r: String)
    requires
        f.wf(),
    ensures
        r@ == spec_render_simple(*f),
{
    let mut out = String::new();
    crate::codec::push_dec(&mut out, f.year as u32, 4);
    out.append("-");
    crate::codec::push_dec(&mut out, f.month as u32, 2);
    out.append("-");
    crate::codec::push_dec(&mut out, f.day as u32, 2);
    out.append(" ");
    crate::codec::push_dec(&mut out, f.hour as u32, 2);
    out.append(":");
    crate::codec::push_dec(&mut out, f.minute as u32, 2);
    out.append(":");
    crate::codec::push_dec(&mut out, f.second as u32, 2);
    proof {
        reveal_strlit("-");
        reveal_strlit(" ");
        reveal_strlit(":");
        assert(out@ =~= spec_render_simple(*f));
    }
    out
}

/// The erase line: return to the line start, blank out the prior text,
/// return again.
pub open spec fn spec_clear_text(n: int) -> Seq<char> {
    seq!['\r'] + Seq::new(n as nat, |i: int| ' ') + seq!['\r']
}

/// Overwrites the previously drawn line of the given length with spaces.
pub fn clear_text(n: usize) -> (r: String)
    ensures
        r@ == spec_clear_text(n as int),
{
    proof {
        reveal_strlit("\r");
        reveal_strlit(" ");
    }
    let mut out = String::from_str("\r");
    let mut i: usize = 0;
    while i < n
        invariant
            i <= n,
            out@ =~= seq!['\r'] + Seq::new(i as nat, |k: int| ' '),
        decreases n - i,
    {
        out.append(" ");
        i = i + 1;
        proof {
            reveal_strlit(" ");
            assert(out@ =~= seq!['\r'] + Seq::new(i as nat, |k: int| ' '));
        }
    }
    out.append("\r");
    proof {
        reveal_strlit("\r");
        assert(out@ =~= spec_clear_text(n as int));
    }
    out
}

} // verus!
