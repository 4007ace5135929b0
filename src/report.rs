use vstd::prelude::*;
use vstd::string::*;

use crate::decide::Action;
use crate::stamp::{Stamp, NANOS_PER_SEC};

verus! {

/// Nanoseconds in one day.
pub const NANOS_PER_DAY: u128 = 86_400_000_000_000;

/// The decimal digits, in order.
pub const DIGITS: &'static str = "0123456789";

/// The decimal digits of `n`, without leading zeros.
pub open spec fn decimal(n: nat) -> Seq<char>
    decreases n,
{
    if n < 10 {
        DIGITS@.subrange(n as int, n as int + 1)
    } else {
        decimal(n / 10) + DIGITS@.subrange((n % 10) as int, (n % 10) as int + 1)
    }
}

/// Appends the decimal digits of `n`.
pub fn append_decimal(out: &mut String, n: u64)
    ensures
        final(out)@ == old(out)@ + decimal(n as nat),
    decreases n,
{
    proof {
        reveal_strlit("0123456789");
    }
    if n >= 10 {
        append_decimal(out, n / 10);
    }
    let d = (n % 10) as usize;
    out.append(DIGITS.substring_char(d, d + 1));
}

/// The distance between two instants in tenths of a day, rounded to the
/// nearest tenth, halves away from zero.
pub open spec fn day_tenths(from: Stamp, to: Stamp) -> nat {
    let d = to.total() - from.total();
    let mag = if d < 0 { -d } else { d };
    ((mag * 10 + NANOS_PER_DAY / 2) / NANOS_PER_DAY as int) as nat
}

/// The signed day delta from `from` to `to`, to one decimal: `+1.5`, `-0.3`.
pub open spec fn days_text(from: Stamp, to: Stamp) -> Seq<char> {
    let t = day_tenths(from, to);
    (if to.total() < from.total() { "-"@ } else { "+"@ }) + decimal(t / 10) + "."@ + decimal(t % 10)
}

/// Renders the signed day delta from `from` to `to`.
pub fn days_delta(from: &Stamp, to: &Stamp) -> (r: String)
    requires
        from.wf(),
        to.wf(),
    ensures
        r@ == days_text(*from, *to),
{
    let d: i128 = (to.secs as i128 - from.secs as i128) * (NANOS_PER_SEC as i128)
        + (to.nanos as i128 - from.nanos as i128);
    assert(d == to.total() - from.total());
    let mag: u128 = if d < 0 { (-d) as u128 } else { d as u128 };
    assert(mag <= 0x1_0000_0000_0000_0000_0000_0000u128);
    let t: u128 = (mag * 10 + NANOS_PER_DAY / 2) / NANOS_PER_DAY;
    assert(t <= 0x1_0000_0000_0000_0000u128) by (nonlinear_arith)
        requires
            mag <= 0x1_0000_0000_0000_0000_0000_0000u128,
            t as int == (mag as int * 10 + 43_200_000_000_000) / 86_400_000_000_000int,
    ;
    let t = t as u64;
    let mut r = if d < 0 { String::from_str("-") } else { String::from_str("+") };
    append_decimal(&mut r, t / 10);
    r.append(".");
    append_decimal(&mut r, t % 10);
    r
}

/// The text that `time` gives for an instant, in whole seconds since the
/// epoch, as `YYYY-MM-DD hh:mm:ss UTC`; `None` where it cannot.
pub uninterp spec fn utc_text_of(secs: int) -> Option<Seq<char>>;

/// Relies on `time::format_description::parse`,
/// `time::OffsetDateTime::from_unix_timestamp` and `OffsetDateTime::format`:
/// the text depends on the second alone.
#[verifier::external_body]
fn utc_text(secs: i64) -> (r: Option<String>)
    ensures
        (match r {
            Some(t) => Some(t@),
            None => None,
        }) == utc_text_of(secs as int),
{
    let f = time::format_description::parse("[year]-[month]-[day] [hour]:[minute]:[second] UTC").ok()?;
    let t = time::OffsetDateTime::from_unix_timestamp(secs).ok()?;
    t.format(&f).ok()
}

/// Shown in place of a date that cannot be rendered.
pub const BAD_TIME: &'static str = "<bad time>";

/// The dates of an instant as a report shows it.
pub open spec fn date_text(s: Stamp) -> Seq<char> {
    match utc_text_of(s.secs as int) {
        Some(t) => t,
        None => BAD_TIME@,
    }
}

/// The report line for an action, given the path as shown and, where dates
/// are shown, the texts of the old and new time.
pub open spec fn line_text(a: Action, path: Seq<char>, dates: Option<(Seq<char>, Seq<char>)>) -> Option<Seq<char>> {
    let detail = |from: Stamp, to: Stamp|
        match dates {
            Some((f, t)) => " (from "@ + f + " to "@ + t + ", "@ + days_text(from, to) + " days)"@,
            None => Seq::<char>::empty(),
        };
    match a {
        Action::Skip => None,
        Action::WouldUpdate { from, to } => Some("would update "@ + path + detail(from, to)),
        Action::Write { from, to } => Some("updated "@ + path + detail(from, to)),
    }
}

pub open spec fn dates_view(dates: Option<(&str, &str)>) -> Option<(Seq<char>, Seq<char>)> {
    match dates {
        Some((f, t)) => Some((f@, t@)),
        None => None,
    }
}

/// Builds the report line for an action from the rendered dates.
pub fn report_text(a: &Action, path: &str, dates: Option<(&str, &str)>) -> (r: Option<String>)
    requires
        a matches Action::WouldUpdate { from, to } ==> from.wf() && to.wf(),
        a matches Action::Write { from, to } ==> from.wf() && to.wf(),
    ensures
        (match r {
            Some(t) => Some(t@),
            None => None,
        }) == line_text(*a, path@, dates_view(dates)),
{
    let (head, from, to) = match *a {
        Action::Skip => {
            return None;
        },
        Action::WouldUpdate { from, to } => (String::from_str("would update "), from, to),
        Action::Write { from, to } => (String::from_str("updated "), from, to),
    };
    let mut r = head.concat(path);
    match dates {
        Some((f, t)) => {
            r.append(" (from ");
            r.append(f);
            r.append(" to ");
            r.append(t);
            r.append(", ");
            let days = days_delta(&from, &to);
            r.append(days.as_str());
            r.append(" days)");
        },
        None => {},
    }
    Some(r)
}

/// The dates of an instant, or the stand-in where it cannot be rendered.
pub fn render_date(s: &Stamp) -> (r: String)
    ensures
        r@ == date_text(*s),
{
    match utc_text(s.secs) {
        Some(t) => t,
        None => String::from_str(BAD_TIME),
    }
}

/// The rendered old and new time of a change, where dates are shown.
pub open spec fn shown_dates(a: Action, show_dates: bool) -> Option<(Seq<char>, Seq<char>)> {
    match a {
        Action::WouldUpdate { from, to } => if show_dates { Some((date_text(from), date_text(to))) } else { None },
        Action::Write { from, to } => if show_dates { Some((date_text(from), date_text(to))) } else { None },
        Action::Skip => None,
    }
}

/// The report line for an action; with `show_dates`, it carries the old and
/// new time and the day delta.
pub fn report_line(a: &Action, path: &str, show_dates: bool) -> (r: Option<String>)
    requires
        a matches Action::WouldUpdate { from, to } ==> from.wf() && to.wf(),
        a matches Action::Write { from, to } ==> from.wf() && to.wf(),
    ensures
        (match r {
            Some(t) => Some(t@),
            None => None,
        }) == line_text(*a, path@, shown_dates(*a, show_dates)),
{
    let stamps = match *a {
        Action::WouldUpdate { from, to } => Some((from, to)),
        Action::Write { from, to } => Some((from, to)),
        Action::Skip => None,
    };
    match stamps {
        Some((from, to)) if show_dates => {
            let f = render_date(&from);
            let t = render_date(&to);
            report_text(a, path, Some((f.as_str(), t.as_str())))
        },
        _ => report_text(a, path, None),
    }
}

/// The count of directories changed, or that would be, in one run.
#[derive(Clone, Copy, Debug, PartialEq, Eq, Structural)]
pub struct Tally {
    pub confirm: bool,
    pub updated: usize,
}

/// Printed when nothing was, or would be, changed.
pub const NOTHING_TO_DO: &'static str = "No folder timestamps needed updating.";

/// Printed after a dry run that found changes.
pub const DRY_RUN_NOTE: &'static str = "\nNote: this was a dry run. Use -C to confirm and apply changes.";

impl Tally {
    /// A tally for a run in the given mode, at zero.
    pub fn new(confirm: bool) -> (r: Tally)
        ensures
            r == (Tally { confirm, updated: 0 }),
    {
        Tally { confirm, updated: 0 }
    }

    /// Counts one directory changed, or reported as to be changed.
    pub fn note_change(&mut self)
        requires
            old(self).updated < usize::MAX,
        ensures
            *final(self) == (Tally { confirm: old(self).confirm, updated: (old(self).updated + 1) as usize }),
    {
        self.updated = self.updated + 1;
    }

    /// The closing message of the run: that nothing needed a change, or
    /// after a dry run with changes, that the confirm flag applies them.
    pub fn summary(&self) -> (r: Option<String>)
        ensures
            (match r {
                Some(t) => Some(t@),
                None => None,
            }) == (if self.updated == 0 {
                Some(NOTHING_TO_DO@)
            } else if !self.confirm {
                Some(DRY_RUN_NOTE@)
            } else {
                None::<Seq<char>>
            }),
    {
        if self.updated == 0 {
            Some(String::from_str(NOTHING_TO_DO))
        } else if !self.confirm {
            Some(String::from_str(DRY_RUN_NOTE))
        } else {
            None
        }
    }
}

} // verus!
