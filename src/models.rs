//! The record and view types of the pipeline.

use vstd::prelude::*;
use crate::text::{decimal, fixed_digits, lemma_fixed_digits_len, lemma_fixed_digits_order, lemma_text_lt_append, lemma_text_lt_prefix, text_lt};

verus! {

/// Units of `instant` in one second. Twice a billion, because a timestamp
/// inside a leap second carries up to 1,999,999,999 nanoseconds.
pub const INSTANT_UNITS_PER_SECOND: i128 = 2_000_000_000;

/// A year as written in a date: four digits when in 0..=9999, else with
/// its sign and four digits at least.
pub open spec fn year_text(y: int) -> Seq<char> {
    if 0 <= y <= 9999 {
        fixed_digits(y as nat, 4)
    } else if y > 9999 {
        seq!['+'] + decimal(y as nat)
    } else if y >= -9999 {
        seq!['-'] + fixed_digits((-y) as nat, 4)
    } else {
        seq!['-'] + decimal((-y) as nat)
    }
}

/// Seconds in a day.
pub const SECONDS_PER_DAY: i64 = 86_400;

/// A moment in UTC: seconds since the Unix epoch, the nanoseconds past that
/// second, and the calendar date it falls on.
#[derive(Clone, Copy, Debug, PartialEq, Eq)]
pub struct Timestamp {
    pub secs: i64,
    pub nanos: u32,
    pub year: i32,
    pub month: u32,
    pub day: u32,
}

impl Timestamp {
    /// Field ranges: nanoseconds below two seconds, a month and a day of
    /// month.
    pub open spec fn wf(self) -> bool {
        &&& self.nanos < 2_000_000_000
        &&& 1 <= self.month <= 12
        &&& 1 <= self.day <= 31
    }

    /// The position of this moment on the time line; larger is later.
    pub open spec fn instant(self) -> int {
        self.secs * 2_000_000_000 + self.nanos
    }

    /// The calendar date as the number `YYYYMMDD`.
    pub open spec fn date_number(self) -> int {
        self.year * 10000 + self.month * 100 + self.day
    }

    /// The year has four digits and no sign.
    pub open spec fn plain_year(self) -> bool {
        0 <= self.year <= 9999
    }

    /// The calendar date as text `YYYY-MM-DD`; a year outside 0..=9999 is
    /// written with its sign (and four digits at least), as `+10000` or `-0001`.
    pub open spec fn date_text(self) -> Seq<char> {
        year_text(self.year as int) + seq!['-'] + fixed_digits(self.month as nat, 2) + seq!['-']
            + fixed_digits(self.day as nat, 2)
    }

    /// The position of this moment on the time line.
    pub fn instant_key(&self) -> (r: i128)
        ensures
            r == self.instant(),
    {
        self.secs as i128 * INSTANT_UNITS_PER_SECOND + self.nanos as i128
    }

    /// The calendar date as the number `YYYYMMDD`.
    pub fn date_key_number(&self) -> (r: i128)
        requires
            self.wf(),
        ensures
            r == self.date_number(),
    {
        self.year as i128 * 10000 + self.month as i128 * 100 + self.day as i128
    }

    /// The calendar date as `YYYY-MM-DD`.
    pub fn date_key(&self) -> (r: String)
        requires
            self.wf(),
        ensures
            r@ == self.date_text(),
            self.plain_year() ==> r@.len() == 10,
    {
        let mut out = String::new();
        let y = self.year as i64;
        if 0 <= y && y <= 9999 {
            crate::text::push_fixed_digits(&mut out, y as u64, 4);
        } else if y > 9999 {
            out.append("+");
            crate::text::push_decimal(&mut out, y as u64);
        } else if y >= -9999 {
            out.append("-");
            crate::text::push_fixed_digits(&mut out, (-y) as u64, 4);
        } else {
            out.append("-");
            crate::text::push_decimal(&mut out, (-y) as u64);
        }
        proof {
            reveal_strlit("+");
            reveal_strlit("-");
        }
        out.append("-");
        crate::text::push_fixed_digits(&mut out, self.month as u64, 2);
        out.append("-");
        crate::text::push_fixed_digits(&mut out, self.day as u64, 2);
        proof {
            crate::text::lemma_fixed_digits_len(self.year as nat, 4);
            crate::text::lemma_fixed_digits_len(self.month as nat, 2);
            crate::text::lemma_fixed_digits_len(self.day as nat, 2);
        }
        out
    }
}

/// Dates in `YYYY-MM-DD` compare as text as they do by `YYYYMMDD` number.
pub proof fn lemma_date_text_order(t1: Timestamp, t2: Timestamp)
    requires
        t1.wf(),
        t2.wf(),
        t1.plain_year(),
        t2.plain_year(),
        t1.date_number() < t2.date_number(),
    ensures
        text_lt(t1.date_text(), t2.date_text()),
{
    crate::amount::lemma_pow10_small();
    let (y1, m1, d1) = (t1.year as int, t1.month as int, t1.day as int);
    let (y2, m2, d2) = (t2.year as int, t2.month as int, t2.day as int);
    let dash = seq!['-'];
    let ya = fixed_digits(y1 as nat, 4);
    let yb = fixed_digits(y2 as nat, 4);
    let ma = fixed_digits(m1 as nat, 2);
    let mb = fixed_digits(m2 as nat, 2);
    let da = fixed_digits(d1 as nat, 2);
    let db = fixed_digits(d2 as nat, 2);
    lemma_fixed_digits_len(y1 as nat, 4);
    lemma_fixed_digits_len(y2 as nat, 4);
    lemma_fixed_digits_len(m1 as nat, 2);
    lemma_fixed_digits_len(m2 as nat, 2);
    lemma_fixed_digits_len(d1 as nat, 2);
    lemma_fixed_digits_len(d2 as nat, 2);
    if y1 != y2 {
        assert(y1 < y2) by (nonlinear_arith)
            requires
                y1 * 10000 + m1 * 100 + d1 < y2 * 10000 + m2 * 100 + d2,
                1 <= m1 <= 12,
                1 <= m2 <= 12,
                1 <= d1 <= 31,
                1 <= d2 <= 31,
                y1 != y2,
        ;
        lemma_fixed_digits_order(y1 as nat, y2 as nat, 4);
        lemma_text_lt_append(ya, yb, dash + ma + dash + da, dash + mb + dash + db);
        assert(t1.date_text() =~= ya + (dash + ma + dash + da));
        assert(t2.date_text() =~= yb + (dash + mb + dash + db));
    } else if m1 != m2 {
        assert(m1 < m2) by (nonlinear_arith)
            requires
                y1 * 10000 + m1 * 100 + d1 < y2 * 10000 + m2 * 100 + d2,
                1 <= d1 <= 31,
                1 <= d2 <= 31,
                y1 == y2,
                m1 != m2,
        ;
        lemma_fixed_digits_order(m1 as nat, m2 as nat, 2);
        lemma_text_lt_prefix(ya + dash, ma, mb);
        lemma_text_lt_append(ya + dash + ma, ya + dash + mb, dash + da, dash + db);
        assert(t1.date_text() =~= (ya + dash + ma) + (dash + da));
        assert(t2.date_text() =~= (ya + dash + mb) + (dash + db));
    } else {
        lemma_fixed_digits_order(d1 as nat, d2 as nat, 2);
        lemma_text_lt_prefix(ya + dash + ma + dash, da, db);
    }
}

/// The digits after a year's sign (or all of a plain year) read back as
/// the year's magnitude.
proof fn lemma_year_digits(y: int)
    ensures
        0 <= y <= 9999 ==> crate::amount::digits_value(year_text(y)) == y,
        y > 9999 ==> crate::amount::digits_value(year_text(y).drop_first()) == y,
        y < 0 ==> crate::amount::digits_value(year_text(y).drop_first()) == -y,
        0 <= y <= 9999 ==> crate::text::is_digit(year_text(y)[0]),
        y > 9999 ==> year_text(y)[0] == '+',
        y < 0 ==> year_text(y)[0] == '-',
{
    crate::amount::lemma_pow10_small();
    if 0 <= y <= 9999 {
        crate::text::lemma_fixed_digits_value(y as nat, 4);
        lemma_fixed_digits_len(y as nat, 4);
    } else if y > 9999 {
        assert(year_text(y).drop_first() =~= decimal(y as nat));
        crate::text::lemma_decimal_value(y as nat);
    } else if y >= -9999 {
        assert(year_text(y).drop_first() =~= fixed_digits((-y) as nat, 4));
        crate::text::lemma_fixed_digits_value((-y) as nat, 4);
    } else {
        assert(year_text(y).drop_first() =~= decimal((-y) as nat));
        crate::text::lemma_decimal_value((-y) as nat);
    }
}

/// Different years are written differently.
proof fn lemma_year_text_injective(a: int, b: int)
    requires
        year_text(a) == year_text(b),
    ensures
        a == b,
{
    lemma_year_digits(a);
    lemma_year_digits(b);
}

/// Different dates are written differently.
pub proof fn lemma_date_text_injective(t1: Timestamp, t2: Timestamp)
    requires
        t1.wf(),
        t2.wf(),
        t1.date_text() == t2.date_text(),
    ensures
        t1.year == t2.year && t1.month == t2.month && t1.day == t2.day,
        t1.date_number() == t2.date_number(),
{
    crate::amount::lemma_pow10_small();
    let y1 = year_text(t1.year as int);
    let y2 = year_text(t2.year as int);
    let m1 = fixed_digits(t1.month as nat, 2);
    let m2 = fixed_digits(t2.month as nat, 2);
    let d1 = fixed_digits(t1.day as nat, 2);
    let d2 = fixed_digits(t2.day as nat, 2);
    lemma_fixed_digits_len(t1.month as nat, 2);
    lemma_fixed_digits_len(t2.month as nat, 2);
    lemma_fixed_digits_len(t1.day as nat, 2);
    lemma_fixed_digits_len(t2.day as nat, 2);
    let a = t1.date_text();
    let l = y1.len() as int;
    assert(a.len() == l + 6);
    assert(y2.len() == l);
    assert(y1 =~= a.take(l));
    assert(y2 =~= t2.date_text().take(l));
    assert(m1 =~= a.subrange(l + 1, l + 3));
    assert(m2 =~= t2.date_text().subrange(l + 1, l + 3));
    assert(d1 =~= a.subrange(l + 4, l + 6));
    assert(d2 =~= t2.date_text().subrange(l + 4, l + 6));
    lemma_year_text_injective(t1.year as int, t2.year as int);
    crate::text::lemma_fixed_digits_value(t1.month as nat, 2);
    crate::text::lemma_fixed_digits_value(t2.month as nat, 2);
    crate::text::lemma_fixed_digits_value(t1.day as nat, 2);
    crate::text::lemma_fixed_digits_value(t2.day as nat, 2);
}

/// One billable request, as read from one log line.
#[derive(Debug)]
pub struct UsageEntry {
    pub timestamp: Timestamp,
    pub model: String,
    pub project_path: Option<String>,
    pub session_id: Option<String>,
    pub request_id: Option<String>,
    pub input_tokens: u32,
    pub output_tokens: u32,
    pub cache_read_tokens: u32,
    pub cache_creation_tokens: u32,
    /// In billionths of a US dollar.
    pub cost: u64,
}

/// A copy of an optional string.
pub fn copy_opt(o: &Option<String>) -> (r: Option<String>)
    ensures
        r == *o,
{
    match o {
        Some(s) => Some(s.clone()),
        None => None,
    }
}

impl UsageEntry {
    /// The entry holds a usable timestamp and at least one token.
    pub open spec fn wf(self) -> bool {
        &&& self.timestamp.wf()
        &&& self.token_sum() > 0
    }

    /// All four token counts added up.
    pub open spec fn token_sum(self) -> int {
        self.input_tokens + self.output_tokens + self.cache_read_tokens + self.cache_creation_tokens
    }

    /// A field-for-field copy.
    pub fn copy(&self) -> (r: Self)
        ensures
            r == *self,
    {
        UsageEntry {
            timestamp: self.timestamp,
            model: self.model.clone(),
            project_path: copy_opt(&self.project_path),
            session_id: copy_opt(&self.session_id),
            request_id: copy_opt(&self.request_id),
            input_tokens: self.input_tokens,
            output_tokens: self.output_tokens,
            cache_read_tokens: self.cache_read_tokens,
            cache_creation_tokens: self.cache_creation_tokens,
            cost: self.cost,
        }
    }
}

/// Usage of one model.
#[derive(Debug)]
pub struct ModelStats {
    pub model: String,
    pub display_name: String,
    /// In billionths of a US dollar.
    pub total_cost: u64,
    /// Input plus output tokens only.
    pub total_tokens: u64,
    pub input_tokens: u64,
    pub output_tokens: u64,
    pub cache_read_tokens: u64,
    pub cache_creation_tokens: u64,
    pub request_count: usize,
}

/// Usage of one project directory.
#[derive(Debug)]
pub struct ProjectStats {
    pub project_name: String,
    pub project_path: String,
    /// In billionths of a US dollar.
    pub total_cost: u64,
    /// All four token categories.
    pub total_tokens: u64,
    pub input_tokens: u64,
    pub output_tokens: u64,
    pub cache_read_tokens: u64,
    pub cache_creation_tokens: u64,
    pub request_count: usize,
    pub session_count: usize,
    pub last_used: Timestamp,
}

/// Usage of one session of one project.
#[derive(Debug)]
pub struct SessionStats {
    /// `project:session`, each part `unknown` when missing: what the row
    /// groups by.
    pub session_key: String,
    pub session_id: String,
    pub project_path: String,
    /// In billionths of a US dollar.
    pub total_cost: u64,
    /// All four token categories.
    pub total_tokens: u64,
    pub input_tokens: u64,
    pub output_tokens: u64,
    pub cache_read_tokens: u64,
    pub cache_creation_tokens: u64,
    pub request_count: usize,
    /// The latest request of the session.
    pub timestamp: Timestamp,
}

/// Usage on one calendar day (UTC).
#[derive(Debug)]
pub struct DailyUsage {
    /// `YYYY-MM-DD`.
    pub date: String,
    /// In billionths of a US dollar.
    pub total_cost: u64,
    /// All four token categories.
    pub total_tokens: u64,
    pub input_tokens: u64,
    pub output_tokens: u64,
    pub cache_read_tokens: u64,
    pub cache_creation_tokens: u64,
    pub request_count: usize,
    /// The model ids seen that day, in order of first appearance.
    pub models_used: Vec<String>,
}

/// Totals over a record set, with the four breakdowns.
#[derive(Debug)]
pub struct UsageStats {
    /// In billionths of a US dollar.
    pub total_cost: u64,
    pub total_input_tokens: u64,
    pub total_output_tokens: u64,
    pub total_cache_read_tokens: u64,
    pub total_cache_creation_tokens: u64,
    pub total_tokens: u64,
    /// Distinct session ids, whatever their project.
    pub session_count: usize,
    pub entries: Vec<UsageEntry>,
    /// By total cost, most expensive first.
    pub model_stats: Vec<ModelStats>,
    /// By total cost, most expensive first.
    pub project_stats: Vec<ProjectStats>,
    /// By latest request, most recent first.
    pub session_stats: Vec<SessionStats>,
    /// By date, earliest first.
    pub daily_usage: Vec<DailyUsage>,
}

impl UsageStats {
    /// The view of an empty record set: every total zero, every list empty.
    pub fn new() -> (r: Self)
        ensures
            r.total_cost == 0,
            r.total_input_tokens == 0,
            r.total_output_tokens == 0,
            r.total_cache_read_tokens == 0,
            r.total_cache_creation_tokens == 0,
            r.total_tokens == 0,
            r.session_count == 0,
            r.entries@.len() == 0,
            r.model_stats@.len() == 0,
            r.project_stats@.len() == 0,
            r.session_stats@.len() == 0,
            r.daily_usage@.len() == 0,
    {
        UsageStats {
            total_cost: 0,
            total_input_tokens: 0,
            total_output_tokens: 0,
            total_cache_read_tokens: 0,
            total_cache_creation_tokens: 0,
            total_tokens: 0,
            session_count: 0,
            entries: Vec::new(),
            model_stats: Vec::new(),
            project_stats: Vec::new(),
            session_stats: Vec::new(),
            daily_usage: Vec::new(),
        }
    }

    /// No records and no cost.
    pub fn is_empty(&self) -> (r: bool)
        ensures
            r == (self.entries@.len() == 0 && self.total_cost == 0),
    {
        self.entries.len() == 0 && self.total_cost == 0
    }
}

/// A window of time ending now.
#[derive(Clone, Copy, Debug, PartialEq, Eq)]
pub enum TimeRange {
    AllTime,
    Last7Days,
    Last30Days,
}

impl TimeRange {
    /// The length of the window in days, none for all time.
    pub open spec fn days(self) -> Option<int> {
        match self {
            TimeRange::AllTime => None,
            TimeRange::Last7Days => Some(7),
            TimeRange::Last30Days => Some(30),
        }
    }

    /// The text shown for the range.
    pub open spec fn label_text(self) -> Seq<char> {
        match self {
            TimeRange::AllTime => "All Time"@,
            TimeRange::Last7Days => "7 Days"@,
            TimeRange::Last30Days => "30 Days"@,
        }
    }

    pub fn label(&self) -> (r: &'static str)
        ensures
            r@ == self.label_text(),
    {
        match self {
            TimeRange::AllTime => "All Time",
            TimeRange::Last7Days => "7 Days",
            TimeRange::Last30Days => "30 Days",
        }
    }
}

} // verus!
