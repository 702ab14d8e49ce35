use vstd::prelude::*;
use crate::color::{decimal, digit_char, push_decimal};
use crate::format::{FIELD_SEP, LogLevel, label_of, persisted_text, split_on, lemma_persisted_fields};
use chrono::{Datelike, Timelike};

verus! {

/// A wall-clock reading in some time zone, to the minute.
#[derive(PartialEq, Eq, Structural, Clone, Copy, Debug)]
pub struct CivilTime {
    pub year: i32,
    pub month: u32,
    pub day: u32,
    pub hour: u32,
    pub minute: u32,
}

impl CivilTime {
    pub open spec fn wf(&self) -> bool {
        &&& 1 <= self.month <= 12
        &&& 1 <= self.day <= 31
        &&& self.hour < 24
        &&& self.minute < 60
    }
}

/// The decimal digits of `n`, with zeros in front up to `width` digits.
pub open spec fn padded(n: nat, width: nat) -> Seq<char> {
    let d = decimal(n);
    if d.len() >= width {
        d
    } else {
        Seq::new((width - d.len()) as nat, |_i: int| '0') + d
    }
}

/// A year: four digits or more for 0 through 9999, else a sign in front of
/// at least four digits.
pub open spec fn year_text(y: int) -> Seq<char> {
    if 0 <= y <= 9999 {
        padded(y as nat, 4)
    } else if y > 9999 {
        seq!['+'] + padded(y as nat, 4)
    } else {
        seq!['-'] + padded((-y) as nat, 4)
    }
}

/// `<year>年<month>月<day>日 <HH>:<MM>`, the month without a leading zero,
/// day, hour and minute with two digits.
pub open spec fn time_text(t: CivilTime) -> Seq<char> {
    year_text(t.year as int) + seq!['年'] + decimal(t.month as nat) + seq!['月'] + padded(t.day as nat, 2)
        + seq!['日', ' '] + padded(t.hour as nat, 2) + seq![':'] + padded(t.minute as nat, 2)
}

/// Whether a time-zone name is one that the zone database knows; a property
/// of the name alone.
pub uninterp spec fn zone_known(name: Seq<char>) -> bool;

/// Whether a count of seconds since the Unix epoch is within chrono's range
/// of representable instants.
pub uninterp spec fn utc_representable(secs: int) -> bool;

/// The wall-clock reading, in the named zone, of the instant `secs` seconds
/// after the Unix epoch; a function of the two alone.
pub uninterp spec fn civil_in_zone(secs: int, zone: Seq<char>) -> CivilTime;

/// Relies on `chrono::Utc::now` and `DateTime::timestamp`: the present instant
/// in whole seconds since the epoch. `Utc::now` builds it with
/// `DateTime::from_timestamp`, which round-trips with `timestamp`. (`Utc::now`
/// panics when the machine's clock reads before 1970.)
#[verifier::external_body]
fn now_seconds() -> (r: i64)
    ensures
        utc_representable(r as int),
{
    chrono::Utc::now().timestamp()
}

/// Relies on `<chrono_tz::Tz as FromStr>::from_str` (an exact lookup of the
/// name in the compiled zone table), `DateTime::from_timestamp` and
/// `DateTime::with_timezone`: the reading of an instant in a named zone;
/// chrono's calendar fields are within their ranges.
#[verifier::external_body]
fn civil_at(secs: i64, name: &str) -> (r: Option<CivilTime>)
    ensures
        r is Some <==> (zone_known(name@) && utc_representable(secs as int)),
        r is Some ==> r->0 == civil_in_zone(secs as int, name@),
        r is Some ==> r->0.wf(),
{
    let tz = name.parse::<chrono_tz::Tz>().ok()?;
    let t = chrono::DateTime::from_timestamp(secs, 0)?.with_timezone(&tz);
    Some(CivilTime { year: t.year(), month: t.month(), day: t.day(), hour: t.hour(), minute: t.minute() })
}

/// Relies on `chrono::Local::now`: the present moment in the machine's zone;
/// chrono's calendar fields are within their ranges. (It panics when the
/// machine's clock or zone data cannot be read.)
#[verifier::external_body]
fn now_local() -> (r: CivilTime)
    ensures
        r.wf(),
{
    let t = chrono::Local::now();
    CivilTime { year: t.year(), month: t.month(), day: t.day(), hour: t.hour(), minute: t.minute() }
}

proof fn lemma_decimal_len(n: nat)
    ensures
        1 <= decimal(n).len(),
        n < 10 <==> decimal(n).len() == 1,
        n < 100 ==> decimal(n).len() <= 2,
        decimal(n).len() <= n + 1,
    decreases n,
{
    if n >= 10 {
        lemma_decimal_len(n / 10);
    }
}

/// How many decimal digits `n` has.
fn digit_count(n: u32) -> (r: usize)
    ensures
        r == decimal(n as nat).len(),
        1 <= r <= n as nat + 1,
    decreases n,
{
    proof {
        lemma_decimal_len(n as nat);
    }
    if n < 10 {
        1
    } else {
        let r = digit_count(n / 10) + 1;
        r
    }
}

/// Appends `n` with zeros in front up to `width` digits.
fn push_padded(out: &mut String, n: u32, width: usize)
    requires
        width <= 4,
    ensures
        final(out)@ == old(out)@ + padded(n as nat, width as nat),
{
    let len = digit_count(n);
    let zero = "0";
    proof {
        reveal_strlit("0");
    }
    if len < width {
        let mut k: usize = len;
        while k < width
            invariant
                len <= k <= width,
                zero@ == seq!['0'],
                out@ == old(out)@ + Seq::new((k - len) as nat, |_i: int| '0'),
            decreases width - k,
        {
            out.append(zero);
            k = k + 1;
            proof {
                assert(out@ =~= old(out)@ + Seq::new((k - len) as nat, |_i: int| '0'));
            }
        }
    }
    push_decimal(out, n);
    proof {
        assert(final(out)@ =~= old(out)@ + padded(n as nat, width as nat));
    }
}

/// Renders a reading as `<year>年<month>月<day>日 <HH>:<MM>`.
pub fn format_time(t: &CivilTime) -> (r: String)
    ensures
        r@ == time_text(*t),
{
    let mut out = String::new();
    if t.year >= 0 {
        if t.year > 9999 {
            out.append("+");
            proof {
                reveal_strlit("+");
            }
        }
        push_padded(&mut out, t.year as u32, 4);
    } else {
        out.append("-");
        proof {
            reveal_strlit("-");
        }
        push_padded(&mut out, (-(t.year as i64)) as u32, 4);
    }
    assert(out@ == year_text(t.year as int));
    out.append("年");
    push_decimal(&mut out, t.month);
    out.append("月");
    push_padded(&mut out, t.day, 2);
    out.append("日 ");
    push_padded(&mut out, t.hour, 2);
    out.append(":");
    push_padded(&mut out, t.minute, 2);
    proof {
        reveal_strlit("年");
        reveal_strlit("月");
        reveal_strlit("日 ");
        reveal_strlit(":");
        assert(out@ =~= time_text(*t));
    }
    out
}

/// The present time in the named zone, or in the machine's own zone when the
/// name is not one the zone database knows; never fails.
pub fn get_current_time(time_zone: &str) -> (r: String)
    ensures
        zone_known(time_zone@) ==> exists|s: int| r@ == time_text(civil_in_zone(s, time_zone@)),
        exists|t: CivilTime| t.wf() && r@ == time_text(t),
{
    let secs = now_seconds();
    match civil_at(secs, time_zone) {
        Some(t) => format_time(&t),
        None => format_time(&now_local()),
    }
}

proof fn lemma_decimal_no_sep(n: nat)
    ensures
        !decimal(n).contains(FIELD_SEP),
    decreases n,
{
    if n >= 10 {
        lemma_decimal_no_sep(n / 10);
        let d = decimal(n);
        let a = decimal(n / 10);
        assert forall|i: int| 0 <= i < d.len() implies d[i] != FIELD_SEP by {
            if i < a.len() {
                assert(d[i] == a[i]);
                assert(a.contains(a[i]));
            }
        }
    }
}

proof fn lemma_padded_no_sep(n: nat, w: nat)
    ensures
        !padded(n, w).contains(FIELD_SEP),
        padded(n, w).len() >= 1,
{
    lemma_decimal_no_sep(n);
    lemma_decimal_len(n);
    let d = decimal(n);
    let p = padded(n, w);
    assert forall|i: int| 0 <= i < p.len() implies p[i] != FIELD_SEP by {
        if d.len() < w {
            let z = (w - d.len()) as nat;
            if i >= z {
                assert(p[i] == d[i - z]);
                assert(d.contains(d[i - z]));
            }
        } else {
            assert(d.contains(d[i]));
        }
    }
}

/// A rendered time is never empty and never holds the field separator.
pub proof fn lemma_time_text_plain(t: CivilTime)
    ensures
        time_text(t).len() > 0,
        !time_text(t).contains(FIELD_SEP),
{
    let y = t.year as int;
    let yt = year_text(y);
    if 0 <= y <= 9999 {
        lemma_padded_no_sep(y as nat, 4);
    } else if y > 9999 {
        lemma_padded_no_sep(y as nat, 4);
        let p = padded(y as nat, 4);
        assert forall|i: int| 0 <= i < yt.len() implies yt[i] != FIELD_SEP by {
            if i > 0 {
                assert(yt[i] == p[i - 1]);
                assert(p.contains(p[i - 1]));
            }
        }
    } else {
        lemma_padded_no_sep((-y) as nat, 4);
        let p = padded((-y) as nat, 4);
        assert forall|i: int| 0 <= i < yt.len() implies yt[i] != FIELD_SEP by {
            if i > 0 {
                assert(yt[i] == p[i - 1]);
                assert(p.contains(p[i - 1]));
            }
        }
    }
    lemma_decimal_no_sep(t.month as nat);
    lemma_padded_no_sep(t.day as nat, 2);
    lemma_padded_no_sep(t.hour as nat, 2);
    lemma_padded_no_sep(t.minute as nat, 2);
    assert(!yt.contains(FIELD_SEP));
    lemma_concat_no_sep(yt, seq!['年']);
    let s1 = yt + seq!['年'];
    lemma_concat_no_sep(s1, decimal(t.month as nat));
    let s2 = s1 + decimal(t.month as nat);
    lemma_concat_no_sep(s2, seq!['月']);
    let s3 = s2 + seq!['月'];
    lemma_concat_no_sep(s3, padded(t.day as nat, 2));
    let s4 = s3 + padded(t.day as nat, 2);
    lemma_concat_no_sep(s4, seq!['日', ' ']);
    let s5 = s4 + seq!['日', ' '];
    lemma_concat_no_sep(s5, padded(t.hour as nat, 2));
    let s6 = s5 + padded(t.hour as nat, 2);
    lemma_concat_no_sep(s6, seq![':']);
    let s7 = s6 + seq![':'];
    lemma_concat_no_sep(s7, padded(t.minute as nat, 2));
}

proof fn lemma_concat_no_sep(a: Seq<char>, b: Seq<char>)
    requires
        !a.contains(FIELD_SEP),
        !b.contains(FIELD_SEP),
    ensures
        !(a + b).contains(FIELD_SEP),
        (a + b).len() >= a.len(),
{
    assert forall|i: int| 0 <= i < (a + b).len() implies (a + b)[i] != FIELD_SEP by {
        if i < a.len() {
            assert(a.contains(a[i]));
        } else {
            assert(b.contains(b[i - a.len()]));
        }
    }
}

/// A persisted line of a message free of the separator splits into an empty
/// piece before the leading separator and then exactly three non-empty
/// fields: the rendered time, the level label and the message.
pub proof fn lemma_persisted_line_fields(t: CivilTime, level: LogLevel, message: Seq<char>)
    requires
        message.len() > 0,
        !message.contains(FIELD_SEP),
    ensures
        split_on(persisted_text(time_text(t), level, message), FIELD_SEP) == seq![
            Seq::<char>::empty(),
            time_text(t),
            label_of(level),
            message,
        ],
        time_text(t).len() > 0,
        label_of(level).len() > 0,
{
    lemma_time_text_plain(t);
    lemma_persisted_fields(time_text(t), level, message);
}

} // verus!
