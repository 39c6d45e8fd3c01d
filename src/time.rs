//! Time results: instants, dates and times of day, read from phrases, and
//! compared with the local clock. All times are local wall-clock
//! milliseconds since the epoch; a time of day is milliseconds since midnight.
use vstd::prelude::*;

verus! {

/// Milliseconds in a day.
pub const DAY_MS: i64 = 86_400_000;

/// Tolerance around an instant inside which it counts as now.
pub const EXECUTION_PERIOD_MS: i64 = 1000;

/// How long an event id stays blocked after it fired.
pub const COOL_DOWN_MS: i64 = 3000;

/// The time of day of a local instant.
pub open spec fn day_ms(now: int) -> int {
    now % (DAY_MS as int)
}

/// The time of day of a local instant.
pub fn time_of_day(now: i64) -> (r: i64)
    ensures
        r == day_ms(now as int),
        0 <= r < DAY_MS,
{
    if now >= 0 {
        now % DAY_MS
    } else {
        let back: i64 = -(now + 1);
        let p = back % DAY_MS;
        proof {
            let d = DAY_MS as int;
            vstd::arithmetic::div_mod::lemma_fundamental_div_mod(back as int, d);
            let q = (back as int) / d;
            assert(now as int == (-q - 1) * d + (d - 1 - p)) by (nonlinear_arith)
                requires
                    back as int == d * q + p,
                    back as int == -(now as int + 1),
            ;
            vstd::arithmetic::div_mod::lemma_fundamental_div_mod_converse(
                now as int,
                d,
                -q - 1,
                d - 1 - p,
            );
        }
        DAY_MS - 1 - p
    }
}

/// What a phrase names, as human-date-parser reads it.
#[derive(Debug, Clone, Copy, PartialEq, Eq, Structural)]
pub enum HumanTime {
    DateTime(i64),
    Date(i64),
    Time(i64),
}

/// What human-date-parser makes of a phrase, at a given local instant.
pub uninterp spec fn human_time_of(s: Seq<char>, now: i64) -> Option<HumanTime>;

/// The latest (and, negated, the earliest) reference instant phrases are read
/// at: about the year 5100.
pub const MAX_REFERENCE_MS: i64 = 100_000_000_000_000;

/// The largest total shift, in seconds, a phrase may name: about 253 000
/// years, which keeps every instant reached from a reference instant within
/// [`MAX_REFERENCE_MS`] of 1970 inside chrono's range of years
/// -262 143..=262 142, with a margin of some 3 000 years for the one-unit
/// shifts that words such as "next" or "an" name.
pub const MAX_SHIFT_SECONDS: u64 = 8_000_000_000_000;

/// The value a digit run is counted at, at most (more than any shift allowed).
pub const RUN_CAP: u64 = 10_000_000_000_000;

/// Whether `c` is the lower-case ASCII letter `w` in either case.
pub open spec fn fold_eq(c: char, w: char) -> bool {
    c == w || ('a' <= w <= 'z' && c as u32 + 32 == w as u32)
}

pub open spec fn is_digit_char(c: char) -> bool {
    '0' <= c <= '9'
}

/// Whether the word `w` (lower case) starts at `i` in `s`, in either case.
pub open spec fn word_at(s: Seq<char>, i: int, w: Seq<char>) -> bool {
    0 <= i && i + w.len() <= s.len() && forall|k: int| 0 <= k < w.len() ==> #[trigger] fold_eq(s[i + k], w[k])
}

/// The first position at or after `j` that is not a space.
pub open spec fn skip_spaces(s: Seq<char>, j: int) -> int
    decreases s.len() - j,
{
    if 0 <= j < s.len() && s[j] == ' ' {
        skip_spaces(s, j + 1)
    } else {
        j
    }
}

/// Whether a relative specifier (`this`, `next`, `last`) starts at `i` and
/// is followed by what the parser reads as an hour, minute or second unit
/// (and not as `mon…`, `sat…` or `sun…`, which it reads as a weekday first).
pub open spec fn relative_clock_unit_at(s: Seq<char>, i: int) -> bool {
    (word_at(s, i, seq!['t', 'h', 'i', 's']) || word_at(s, i, seq!['n', 'e', 'x', 't'])
        || word_at(s, i, seq!['l', 'a', 's', 't'])) && {
        let j = skip_spaces(s, i + 4);
        0 <= j < s.len() && (fold_eq(s[j], 'h') || (fold_eq(s[j], 'm') && !word_at(s, j + 1, seq!['o', 'n']))
            || (fold_eq(s[j], 's') && !word_at(s, j + 1, seq!['a', 't']) && !word_at(s, j + 1, seq!['u', 'n'])))
    }
}

/// The most seconds one of the unit that starts at `j` can stand for
/// (a year counted as 366 days, a month as 31); 0 when no unit starts there.
pub open spec fn unit_seconds(s: Seq<char>, j: int) -> int {
    if 0 <= j < s.len() {
        let c = s[j];
        if fold_eq(c, 'y') { 31_622_400 }
        else if fold_eq(c, 'm') { 2_678_400 }
        else if fold_eq(c, 'w') { 604_800 }
        else if fold_eq(c, 'd') { 86_400 }
        else if fold_eq(c, 'h') { 3_600 }
        else if fold_eq(c, 's') { 1 }
        else { 0 }
    } else {
        0
    }
}

/// The value of the digit run that ends at `i`, counted at most [`RUN_CAP`].
pub open spec fn run_value(s: Seq<char>, i: int) -> int
    decreases i,
{
    if 0 <= i < s.len() && is_digit_char(s[i]) {
        let prev = if i > 0 { run_value(s, i - 1) } else { 0 };
        let v = prev * 10 + (s[i] as int - '0' as int);
        if v > RUN_CAP { RUN_CAP as int } else { v }
    } else {
        0
    }
}

/// What the number ending at `i` (if one does) adds to the shift: its value
/// times the seconds of the unit that follows it.
pub open spec fn shift_term(s: Seq<char>, i: int) -> int {
    if 0 <= i < s.len() && is_digit_char(s[i]) && (i + 1 == s.len() || !is_digit_char(s[i + 1])) {
        run_value(s, i) * unit_seconds(s, skip_spaces(s, i + 1))
    } else {
        0
    }
}

/// The total shift named by the numbers before position `k`.
pub open spec fn shift_total(s: Seq<char>, k: int) -> int
    decreases k,
{
    if k <= 0 {
        0
    } else {
        shift_total(s, k - 1) + shift_term(s, k - 1)
    }
}

/// The longest phrase given to the parser: it bounds the one-unit shifts
/// ("a year ago at …", "next year") a phrase can chain, at one per five
/// characters, to 2 000 years, inside the margin of [`MAX_SHIFT_SECONDS`].
pub const MAX_PHRASE_CHARS: usize = 10_000;

pub open spec fn is_ascii_text(s: Seq<char>) -> bool {
    forall|i: int| 0 <= i < s.len() ==> (#[trigger] s[i]) as u32 <= 127
}

/// Whether the parser is given a phrase at all: at most [`MAX_PHRASE_CHARS`]
/// characters of ASCII text (which its
/// lower-casing keeps letter for letter), no relative specifier before a clock
/// unit, a total shift of at most [`MAX_SHIFT_SECONDS`], and a reference
/// instant within [`MAX_REFERENCE_MS`] of 1970.
pub open spec fn readable(s: Seq<char>, now: i64) -> bool {
    &&& s.len() <= MAX_PHRASE_CHARS
    &&& is_ascii_text(s)
    &&& !(exists|i: int| 0 <= i < s.len() && #[trigger] relative_clock_unit_at(s, i))
    &&& shift_total(s, s.len() as int) <= MAX_SHIFT_SECONDS
    &&& -MAX_REFERENCE_MS <= now <= MAX_REFERENCE_MS
}

proof fn lemma_run_value_bounds(s: Seq<char>, i: int)
    ensures
        0 <= run_value(s, i) <= RUN_CAP,
    decreases i,
{
    if 0 <= i < s.len() && is_digit_char(s[i]) && i > 0 {
        lemma_run_value_bounds(s, i - 1);
    }
}

proof fn lemma_shift_total_grows(s: Seq<char>, k: int, n: int)
    requires
        k <= n,
    ensures
        shift_total(s, k) <= shift_total(s, n),
    decreases n - k,
{
    if k < n {
        lemma_shift_total_grows(s, k, n - 1);
        let i = n - 1;
        if 0 <= i < s.len() && is_digit_char(s[i]) && (i + 1 == s.len() || !is_digit_char(s[i + 1])) {
            lemma_run_value_bounds(s, i);
            let u = unit_seconds(s, skip_spaces(s, i + 1));
            assert(u >= 0);
            assert(run_value(s, i) * u >= 0) by (nonlinear_arith)
                requires run_value(s, i) >= 0, u >= 0;
        }
    }
}

fn fold_eq_exec(c: char, w: char) -> (r: bool)
    requires
        'a' <= w <= 'z',
    ensures
        r == fold_eq(c, w),
{
    c == w || (c as u32) + 32 == (w as u32)
}

/// Whether the word `w` starts at `i` in `s`, in either case.
fn word_at_exec(s: &Vec<char>, i: usize, w: &Vec<char>) -> (r: bool)
    requires
        forall|k: int| 0 <= k < w@.len() ==> 'a' <= #[trigger] w@[k] <= 'z',
    ensures
        r == word_at(s@, i as int, w@),
{
    if i > s.len() || w.len() > s.len() - i {
        return false;
    }
    let mut k: usize = 0;
    while k < w.len()
        invariant
            k <= w.len(),
            i + w.len() <= s.len(),
            forall|q: int| 0 <= q < w@.len() ==> 'a' <= #[trigger] w@[q] <= 'z',
            forall|q: int| 0 <= q < k ==> #[trigger] fold_eq(s@[i + q], w@[q]),
        decreases w.len() - k,
    {
        if !fold_eq_exec(s[i + k], w[k]) {
            return false;
        }
        k += 1;
    }
    true
}

fn skip_spaces_exec(s: &Vec<char>, j: usize) -> (r: usize)
    requires
        j <= s.len(),
    ensures
        r == skip_spaces(s@, j as int),
        j <= r <= s.len(),
{
    let mut k = j;
    while k < s.len() && s[k] == ' '
        invariant
            j <= k <= s.len(),
            skip_spaces(s@, k as int) == skip_spaces(s@, j as int),
        decreases s.len() - k,
    {
        k += 1;
    }
    k
}

fn unit_seconds_exec(s: &Vec<char>, j: usize) -> (r: u64)
    ensures
        r == unit_seconds(s@, j as int),
{
    if j >= s.len() {
        return 0;
    }
    let c = s[j];
    if fold_eq_exec(c, 'y') { 31_622_400 }
    else if fold_eq_exec(c, 'm') { 2_678_400 }
    else if fold_eq_exec(c, 'w') { 604_800 }
    else if fold_eq_exec(c, 'd') { 86_400 }
    else if fold_eq_exec(c, 'h') { 3_600 }
    else if fold_eq_exec(c, 's') { 1 }
    else { 0 }
}

fn relative_clock_unit_exec(s: &Vec<char>, i: usize) -> (r: bool)
    requires
        i < s.len(),
    ensures
        r == relative_clock_unit_at(s@, i as int),
{
    let this = vec!['t', 'h', 'i', 's'];
    let next = vec!['n', 'e', 'x', 't'];
    let last = vec!['l', 'a', 's', 't'];
    let on = vec!['o', 'n'];
    let at = vec!['a', 't'];
    let un = vec!['u', 'n'];
    proof {
        assert(this@ == seq!['t', 'h', 'i', 's']);
        assert(next@ == seq!['n', 'e', 'x', 't']);
        assert(last@ == seq!['l', 'a', 's', 't']);
        assert(on@ == seq!['o', 'n']);
        assert(at@ == seq!['a', 't']);
        assert(un@ == seq!['u', 'n']);
    }
    if !(word_at_exec(s, i, &this) || word_at_exec(s, i, &next) || word_at_exec(s, i, &last)) {
        return false;
    }
    let j = skip_spaces_exec(s, i + 4);
    if j >= s.len() {
        return false;
    }
    let c = s[j];
    fold_eq_exec(c, 'h') || (fold_eq_exec(c, 'm') && !word_at_exec(s, j + 1, &on)) || (fold_eq_exec(c, 's')
        && !word_at_exec(s, j + 1, &at) && !word_at_exec(s, j + 1, &un))
}

/// Whether the date parser is given the phrase `s` (see [`readable`], without
/// the reference instant).
pub fn phrase_readable(s: &str) -> (r: bool)
    ensures
        r == (s@.len() <= MAX_PHRASE_CHARS && is_ascii_text(s@) && !(exists|i: int| 0 <= i < s@.len() && #[trigger] relative_clock_unit_at(s@, i))
            && shift_total(s@, s@.len() as int) <= MAX_SHIFT_SECONDS),
{
    let cs = crate::text::chars_of(s);
    let n = cs.len();
    if n > MAX_PHRASE_CHARS {
        return false;
    }
    let mut total: u64 = 0;
    let mut cur: u64 = 0;
    let mut i: usize = 0;
    while i < n
        invariant
            i <= n,
            n == cs@.len(),
            cs@ == s@,
            forall|q: int| 0 <= q < i ==> (#[trigger] cs@[q]) as u32 <= 127,
            forall|q: int| 0 <= q < i ==> !#[trigger] relative_clock_unit_at(cs@, q),
            total == shift_total(cs@, i as int),
            total <= MAX_SHIFT_SECONDS,
            cur == (if i > 0 { run_value(cs@, i - 1) } else { 0 }),
        decreases n - i,
    {
        let c = cs[i];
        if (c as u32) > 127 {
            return false;
        }
        if relative_clock_unit_exec(&cs, i) {
            return false;
        }
        proof {
            if i > 0 {
                lemma_run_value_bounds(cs@, i - 1);
            }
        }
        if '0' <= c && c <= '9' {
            let v: u64 = (if i > 0 && '0' <= cs[i - 1] && cs[i - 1] <= '9' { cur } else { 0 }) * 10 + (c as u64 - '0' as u64);
            cur = if v > RUN_CAP { RUN_CAP } else { v };
            if i + 1 == n || !('0' <= cs[i + 1] && cs[i + 1] <= '9') {
                let j = skip_spaces_exec(&cs, i + 1);
                let w = unit_seconds_exec(&cs, j);
                let term: u128 = cur as u128 * w as u128;
                proof {
                    assert(term == shift_term(cs@, i as int));
                }
                if total as u128 + term > MAX_SHIFT_SECONDS as u128 {
                    proof {
                        lemma_shift_total_grows(cs@, i + 1, n as int);
                    }
                    return false;
                }
                total = total + term as u64;
            }
        } else {
            cur = 0;
        }
        i += 1;
    }
    true
}

/// Relies on human_date_parser::from_human_time: the result depends on the
/// phrase and the reference instant alone (none when it does not parse). The
/// parser reaches `unreachable!` for a relative specifier before an hour,
/// minute or second unit ("next hour"), and shifts instants by hours,
/// minutes and seconds with chrono's panicking `+`; only [`readable`]
/// phrases, which have neither, are given to it.
#[verifier::external_body]
fn human_time(s: &str, now: i64) -> (r: Option<HumanTime>)
    requires
        readable(s@, now),
    ensures
        r == human_time_of(s@, now),
{
    let now = chrono::DateTime::from_timestamp_millis(now)?.naive_utc();
    Some(match human_date_parser::from_human_time(s, now).ok()? {
        human_date_parser::ParseResult::DateTime(d) => HumanTime::DateTime(d.and_utc().timestamp_millis()),
        human_date_parser::ParseResult::Date(d) => HumanTime::Date(d.and_time(chrono::NaiveTime::MIN).and_utc().timestamp_millis()),
        human_date_parser::ParseResult::Time(t) => HumanTime::Time(t.signed_duration_since(chrono::NaiveTime::MIN).num_milliseconds()),
    })
}

/// An instant, a date or a time of day, with the text it was read from.
#[derive(Debug)]
pub enum TimeResult {
    DateTime(i64, String),
    Date(i64, String),
    Time(i64, String),
}

impl TimeResult {
    /// The instant, the date's midnight, or the time of day.
    pub open spec fn value(&self) -> int {
        match self {
            TimeResult::DateTime(d, _) => *d as int,
            TimeResult::Date(d, _) => *d as int,
            TimeResult::Time(d, _) => *d as int,
        }
    }

    /// The text this result was read from.
    pub open spec fn source(&self) -> Seq<char> {
        match self {
            TimeResult::DateTime(_, s) => s@,
            TimeResult::Date(_, s) => s@,
            TimeResult::Time(_, s) => s@,
        }
    }

    /// `now` in this result's terms: the time of day for a time of day, the
    /// instant itself otherwise.
    pub open spec fn reading(&self, now: int) -> int {
        match self {
            TimeResult::Time(_, _) => day_ms(now),
            _ => now,
        }
    }

    /// Whether this result is what the parser read: the same shape and value.
    pub open spec fn read_as(&self, h: Option<HumanTime>) -> bool {
        match (self, h) {
            (TimeResult::DateTime(d, _), Some(HumanTime::DateTime(v))) => *d == v,
            (TimeResult::Date(d, _), Some(HumanTime::Date(v))) => *d == v,
            (TimeResult::Time(d, _), Some(HumanTime::Time(v))) => *d == v,
            _ => false,
        }
    }

    /// Reads a phrase ("now", "tomorrow 12:00", "in 10s", "22:00", ...) at the
    /// local instant `now`; a phrase that is not [`readable`] is not read.
    pub fn parse(s: &str, now: i64) -> (r: Option<TimeResult>)
        ensures
            !readable(s@, now) ==> r is None,
            readable(s@, now) ==> (r is None <==> human_time_of(s@, now) is None),
            r matches Some(t) ==> t.source() == s@ && t.read_as(human_time_of(s@, now)),
    {
        if !(phrase_readable(s) && -MAX_REFERENCE_MS <= now && now <= MAX_REFERENCE_MS) {
            return None;
        }
        let text = s.to_owned();
        match human_time(s, now) {
            Some(HumanTime::DateTime(d)) => Some(TimeResult::DateTime(d, text)),
            Some(HumanTime::Date(d)) => Some(TimeResult::Date(d, text)),
            Some(HumanTime::Time(d)) => Some(TimeResult::Time(d, text)),
            None => None,
        }
    }

    /// The reading of `now` that this result compares with.
    fn reading_of(&self, now: i64) -> (r: i64)
        ensures
            r == self.reading(now as int),
    {
        match self {
            TimeResult::Time(_, _) => time_of_day(now),
            _ => now,
        }
    }

    fn value_of(&self) -> (r: i64)
        ensures
            r == self.value(),
    {
        match self {
            TimeResult::DateTime(d, _) => *d,
            TimeResult::Date(d, _) => *d,
            TimeResult::Time(d, _) => *d,
        }
    }

    /// Whether this result is at or after `now`.
    pub fn gte(&self, now: i64) -> (r: bool)
        ensures
            r == (self.value() >= self.reading(now as int)),
    {
        self.value_of() >= self.reading_of(now)
    }

    /// Whether this result is at or before `now`.
    pub fn lte(&self, now: i64) -> (r: bool)
        ensures
            r == (self.value() <= self.reading(now as int)),
    {
        self.value_of() <= self.reading_of(now)
    }

    /// Whether this result is after `now`.
    pub fn gt(&self, now: i64) -> (r: bool)
        ensures
            r == (self.value() > self.reading(now as int)),
    {
        self.value_of() > self.reading_of(now)
    }

    /// Whether this result is before `now`.
    pub fn lt(&self, now: i64) -> (r: bool)
        ensures
            r == (self.value() < self.reading(now as int)),
    {
        self.value_of() < self.reading_of(now)
    }

    /// Whether `now` lies less than a second away from this result.
    pub fn within_execution_period(&self, now: i64) -> (r: bool)
        ensures
            r == (-EXECUTION_PERIOD_MS < self.reading(now as int) - self.value() < EXECUTION_PERIOD_MS),
    {
        let diff: i128 = self.reading_of(now) as i128 - self.value_of() as i128;
        -(EXECUTION_PERIOD_MS as i128) < diff && diff < EXECUTION_PERIOD_MS as i128
    }

    /// The text this result was read from.
    pub fn source_text(&self) -> (r: String)
        ensures
            r@ == self.source(),
    {
        match self {
            TimeResult::DateTime(_, s) => s.clone(),
            TimeResult::Date(_, s) => s.clone(),
            TimeResult::Time(_, s) => s.clone(),
        }
    }

    /// Reads the source text again at `now`, so that a relative phrase slides
    /// to its next occurrence; none when the text does not read as a phrase
    /// (a sun expression, which the caller computes itself).
    pub fn reset(&self, now: i64) -> (r: Option<TimeResult>)
        ensures
            r is None <==> (!readable(self.source(), now) || human_time_of(self.source(), now) is None),
            r matches Some(t) ==> t.source() == self.source() && t.read_as(human_time_of(self.source(), now)),
    {
        let text = self.source_text();
        TimeResult::parse(text.as_str(), now)
    }

    /// A copy of this result.
    pub fn copy(&self) -> (r: TimeResult)
        ensures
            r == *self,
    {
        match self {
            TimeResult::DateTime(d, s) => TimeResult::DateTime(*d, s.clone()),
            TimeResult::Date(d, s) => TimeResult::Date(*d, s.clone()),
            TimeResult::Time(d, s) => TimeResult::Time(*d, s.clone()),
        }
    }
}

/// The instant of a sun-relative expression: the sun event of today, or of
/// the next day when today's has already passed, moved by the time of day of
/// the phrase after the sun's name less the time of day of `now` (a phrase
/// such as "in 1 hour", read at `now`, moves it an hour later).
pub open spec fn sun_instant_spec(sun_today: int, sun_next_day: int, now: int, phrase_at: int) -> int {
    let base = if sun_today - day_ms(sun_today) == now - day_ms(now) && now >= sun_today {
        sun_next_day
    } else {
        sun_today
    };
    base - (day_ms(now) - day_ms(phrase_at))
}

/// Chooses the instant of a sun-relative expression (see [`sun_instant_spec`]);
/// none when it does not fit the clock's range.
pub fn sun_instant(sun_today: i64, sun_next_day: i64, now: i64, phrase_at: i64) -> (r: Option<i64>)
    ensures
        r matches Some(v) ==> v == sun_instant_spec(sun_today as int, sun_next_day as int, now as int, phrase_at as int),
        r is None ==> !(i64::MIN <= sun_instant_spec(sun_today as int, sun_next_day as int, now as int, phrase_at as int) <= i64::MAX),
{
    let same_day = sun_today as i128 - time_of_day(sun_today) as i128 == now as i128 - time_of_day(
        now,
    ) as i128;
    let base = if same_day && now >= sun_today {
        sun_next_day
    } else {
        sun_today
    };
    let v: i128 = base as i128 - (time_of_day(now) as i128 - time_of_day(phrase_at) as i128);
    if v < i64::MIN as i128 || v > i64::MAX as i128 {
        None
    } else {
        Some(v as i64)
    }
}

/// A time trigger: fires when its time result comes round.
#[derive(Debug)]
pub struct TimeEvent {
    pub execute_time: TimeResult,
    /// Events with the same id replace each other in the scheduler.
    pub event_id: Option<String>,
}

impl TimeEvent {
    /// Whether the event is due at `now`.
    pub fn matches(&self, now: i64) -> (r: bool)
        ensures
            r == (-EXECUTION_PERIOD_MS < self.execute_time.reading(now as int) - self.execute_time.value() < EXECUTION_PERIOD_MS),
    {
        self.execute_time.within_execution_period(now)
    }

    /// Whether the event's moment is more than a second past; a time of day
    /// never expires.
    pub fn expired(&self, now: i64) -> (r: bool)
        ensures
            r == (!(self.execute_time is Time) && self.execute_time.value() < now - EXECUTION_PERIOD_MS),
    {
        match &self.execute_time {
            TimeResult::Time(_, _) => false,
            t => (t.value_of() as i128) < now as i128 - EXECUTION_PERIOD_MS as i128,
        }
    }

    /// The same event with its time read again at `now` (kept as it is when
    /// its text does not read as a phrase).
    pub fn reset(self, now: i64) -> (r: TimeEvent)
        ensures
            r.event_id == self.event_id,
            r.execute_time.source() == self.execute_time.source(),
            (!readable(self.execute_time.source(), now) || human_time_of(self.execute_time.source(), now) is None)
                ==> r.execute_time == self.execute_time,
            (readable(self.execute_time.source(), now) && human_time_of(self.execute_time.source(), now) is Some)
                ==> r.execute_time.read_as(human_time_of(self.execute_time.source(), now)),
    {
        match self.execute_time.reset(now) {
            Some(t) => TimeEvent { execute_time: t, event_id: self.event_id },
            None => self,
        }
    }

    /// A copy of this event.
    pub fn copy(&self) -> (r: TimeEvent)
        ensures
            r == *self,
    {
        TimeEvent {
            execute_time: self.execute_time.copy(),
            event_id: match &self.event_id {
                Some(s) => Some(s.clone()),
                None => None,
            },
        }
    }
}

/// A span of time between two time results.
#[derive(Debug)]
pub struct ExecutionPeriod {
    pub from: TimeResult,
    pub to: TimeResult,
}

impl ExecutionPeriod {
    /// Whether the span wraps round midnight: two times of day, `from` later than `to`.
    pub open spec fn wraps(&self) -> bool {
        self.from is Time && self.to is Time && self.from.value() > self.to.value()
    }

    /// Whether `now` lies in the span: `from <= now < to`, or for a span
    /// that wraps round midnight, `now >= from || now < to`.
    pub open spec fn contains(&self, now: int) -> bool {
        let after_from = self.from.value() <= self.from.reading(now);
        let before_to = self.to.value() > self.to.reading(now);
        if self.wraps() {
            after_from || before_to
        } else {
            after_from && before_to
        }
    }

    /// Whether `now` lies in the span (see [`ExecutionPeriod::contains`]).
    pub fn matches(&self, now: i64) -> (r: bool)
        ensures
            r == self.contains(now as int),
    {
        let wraps = match (&self.from, &self.to) {
            (TimeResult::Time(f, _), TimeResult::Time(t, _)) => *f > *t,
            _ => false,
        };
        if wraps {
            self.from.lte(now) || self.to.gt(now)
        } else {
            self.from.lte(now) && self.to.gt(now)
        }
    }

    /// A copy of this span.
    pub fn copy(&self) -> (r: ExecutionPeriod)
        ensures
            r == *self,
    {
        ExecutionPeriod { from: self.from.copy(), to: self.to.copy() }
    }
}

/// A gate: lets a chain go on only while the clock is inside its span.
#[derive(Debug)]
pub struct PeriodEvent(pub ExecutionPeriod);

impl PeriodEvent {
    pub fn new(period: ExecutionPeriod) -> (r: PeriodEvent)
        ensures
            r.0 == period,
    {
        PeriodEvent(period)
    }

    /// Whether `now` lies in the span.
    pub fn is_within_period(&self, now: i64) -> (r: bool)
        ensures
            r == self.0.contains(now as int),
    {
        self.0.matches(now)
    }

    /// The same gate with both ends read again at `now` (an end whose text
    /// does not read as a phrase is kept).
    pub fn reset(self, now: i64) -> (r: PeriodEvent)
        ensures
            r.0.from.source() == self.0.from.source(),
            r.0.to.source() == self.0.to.source(),
            (readable(self.0.from.source(), now) && human_time_of(self.0.from.source(), now) is Some)
                ==> r.0.from.read_as(human_time_of(self.0.from.source(), now)),
            (readable(self.0.to.source(), now) && human_time_of(self.0.to.source(), now) is Some)
                ==> r.0.to.read_as(human_time_of(self.0.to.source(), now)),
            !(readable(self.0.from.source(), now) && human_time_of(self.0.from.source(), now) is Some)
                ==> r.0.from == self.0.from,
            !(readable(self.0.to.source(), now) && human_time_of(self.0.to.source(), now) is Some)
                ==> r.0.to == self.0.to,
    {
        let from = match self.0.from.reset(now) {
            Some(t) => t,
            None => self.0.from,
        };
        let to = match self.0.to.reset(now) {
            Some(t) => t,
            None => self.0.to,
        };
        PeriodEvent(ExecutionPeriod { from, to })
    }

    /// A copy of this gate.
    pub fn copy(&self) -> (r: PeriodEvent)
        ensures
            r == *self,
    {
        PeriodEvent(self.0.copy())
    }
}

} // verus!

verus! {

/// `s` with every occurrence of `w` taken out, left to right.
pub open spec fn without_word(s: Seq<char>, w: Seq<char>) -> Seq<char>
    decreases s.len(),
{
    if s.len() == 0 {
        s
    } else if w.len() > 0 && crate::text::is_prefix(w, s) {
        without_word(s.subrange(w.len() as int, s.len() as int), w)
    } else {
        seq![s[0]] + without_word(s.subrange(1, s.len() as int), w)
    }
}

/// `s` without its leading spaces.
pub open spec fn trim_start_spaces(s: Seq<char>) -> Seq<char>
    decreases s.len(),
{
    if s.len() > 0 && s[0] == ' ' {
        trim_start_spaces(s.subrange(1, s.len() as int))
    } else {
        s
    }
}

/// `s` without its leading and trailing spaces.
pub open spec fn trim_spaces(s: Seq<char>) -> Seq<char> {
    trim_start_spaces(crate::text::trim_end_char(s, ' '))
}

/// A time phrase that names the sun.
#[derive(Debug)]
pub struct SunPhrase {
    /// Whether the text names a sunrise anywhere (for a date, the sun event taken).
    pub names_sunrise: bool,
    /// The sun event the text starts with: `Some(true)` for sunrise,
    /// `Some(false)` for sunset (for an instant, the sun event taken).
    pub leading: Option<bool>,
    /// The phrase read for the day and the offset.
    pub phrase: String,
}

/// The phrase read for a sun expression that starts with the word `w`: the
/// text without `w`, trimmed of spaces, and `now` when nothing is left.
pub open spec fn rest_phrase(s: Seq<char>, w: Seq<char>) -> Seq<char> {
    let t = trim_spaces(without_word(s, w));
    if t.len() == 0 { seq!['n', 'o', 'w'] } else { t }
}

fn remove_word(s: &Vec<char>, w: &Vec<char>) -> (r: Vec<char>)
    requires
        w.len() > 0,
    ensures
        r@ == without_word(s@, w@),
{
    let mut out: Vec<char> = Vec::new();
    let mut i: usize = 0;
    proof {
        assert(s@.subrange(0, s@.len() as int) =~= s@);
        assert(out@ + without_word(s@, w@) =~= without_word(s@, w@));
    }
    while i < s.len()
        invariant
            i <= s.len(),
            w.len() > 0,
            out@ + without_word(s@.subrange(i as int, s@.len() as int), w@) == without_word(s@, w@),
        decreases s.len() - i,
    {
        let ghost rest = s@.subrange(i as int, s@.len() as int);
        let mut hit = w.len() <= s.len() - i;
        let mut k: usize = 0;
        while hit && k < w.len()
            invariant
                k <= w.len(),
                i < s.len(),
                hit ==> w.len() <= s.len() - i,
                hit ==> forall|q: int| 0 <= q < k ==> s@[i + q] == w@[q],
                !hit ==> (w.len() > s.len() - i || exists|q: int| 0 <= q < k && s@[i + q] != w@[q]),
            decreases w.len() - k,
        {
            if s[i + k] != w[k] {
                hit = false;
            }
            k += 1;
        }
        proof {
            if hit {
                assert(rest.subrange(0, w@.len() as int) =~= w@);
            } else if w.len() <= s.len() - i {
                let q = choose|q: int| 0 <= q < w@.len() && s@[i + q] != w@[q];
                assert(rest.subrange(0, w@.len() as int)[q] != w@[q]);
            }
        }
        if hit {
            proof {
                assert(rest.subrange(w@.len() as int, rest.len() as int) =~= s@.subrange(i + w.len(), s@.len() as int));
            }
            i += w.len();
        } else {
            proof {
                assert(rest.subrange(1, rest.len() as int) =~= s@.subrange(i + 1, s@.len() as int));
                assert(out@.push(s@[i as int]) + without_word(s@.subrange(i + 1, s@.len() as int), w@)
                    =~= out@ + (seq![rest[0]] + without_word(rest.subrange(1, rest.len() as int), w@)));
            }
            out.push(s[i]);
            i += 1;
        }
    }
    proof {
        assert(s@.subrange(s@.len() as int, s@.len() as int) =~= Seq::<char>::empty());
        assert(out@ + Seq::<char>::empty() =~= out@);
    }
    out
}

fn trim_spaces_exec(s: &Vec<char>) -> (r: Vec<char>)
    ensures
        r@ == trim_spaces(s@),
{
    let mut end = s.len();
    proof {
        assert(s@.subrange(0, end as int) =~= s@);
    }
    while end > 0 && s[end - 1] == ' '
        invariant
            end <= s.len(),
            crate::text::trim_end_char(s@.subrange(0, end as int), ' ') == crate::text::trim_end_char(s@, ' '),
        decreases end,
    {
        proof {
            assert(s@.subrange(0, end as int).subrange(0, end - 1) =~= s@.subrange(0, end - 1));
        }
        end -= 1;
    }
    let ghost t = s@.subrange(0, end as int);
    proof {
        assert(crate::text::trim_end_char(t, ' ') == t);
    }
    let mut start: usize = 0;
    proof {
        assert(t.subrange(0, end as int) =~= t);
    }
    while start < end && s[start] == ' '
        invariant
            start <= end <= s.len(),
            t == s@.subrange(0, end as int),
            trim_start_spaces(t.subrange(start as int, end as int)) == trim_start_spaces(t),
        decreases end - start,
    {
        proof {
            let u = t.subrange(start as int, end as int);
            assert(u.subrange(1, u.len() as int) =~= t.subrange(start + 1, end as int));
        }
        start += 1;
    }
    let mut out: Vec<char> = Vec::new();
    let mut i = start;
    while i < end
        invariant
            start <= i <= end <= s.len(),
            out@ == s@.subrange(start as int, i as int),
        decreases end - i,
    {
        out.push(s[i]);
        i += 1;
        proof {
            assert(out@ =~= s@.subrange(start as int, i as int));
        }
    }
    proof {
        assert(out@ =~= t.subrange(start as int, end as int));
    }
    out
}

fn string_of(cs: &Vec<char>) -> (r: String)
    ensures
        r@ == cs@,
{
    let mut out = String::new();
    let mut i: usize = 0;
    while i < cs.len()
        invariant
            i <= cs.len(),
            out@ == cs@.subrange(0, i as int),
        decreases cs.len() - i,
    {
        out = crate::text::push_char(out, cs[i]);
        i += 1;
        proof {
            assert(out@ =~= cs@.subrange(0, i as int));
        }
    }
    proof {
        assert(cs@.subrange(0, cs.len() as int) =~= cs@);
    }
    out
}

fn rest_phrase_exec(s: &str, w: &Vec<char>) -> (r: String)
    requires
        w.len() > 0,
    ensures
        r@ == rest_phrase(s@, w@),
{
    let cs = crate::text::chars_of(s);
    let t = trim_spaces_exec(&remove_word(&cs, w));
    if t.len() == 0 {
        let now = vec!['n', 'o', 'w'];
        proof {
            assert(now@ == seq!['n', 'o', 'w']);
        }
        string_of(&now)
    } else {
        string_of(&t)
    }
}

/// Reads the sun out of a time phrase: none when it names neither
/// `sunrise` nor `sunset`; else which it names, which it starts with, and
/// the phrase for the day and offset (the rest of the text when it starts
/// with the sun's name, the whole text otherwise).
pub fn sun_phrase(s: &str) -> (r: Option<SunPhrase>)
    ensures
        !(crate::text::is_substring(seq!['s', 'u', 'n', 'r', 'i', 's', 'e'], s@)
            || crate::text::is_substring(seq!['s', 'u', 'n', 's', 'e', 't'], s@)) ==> r is None,
        (crate::text::is_substring(seq!['s', 'u', 'n', 'r', 'i', 's', 'e'], s@)
            || crate::text::is_substring(seq!['s', 'u', 'n', 's', 'e', 't'], s@)) ==> (r matches Some(p) && {
            let rise = seq!['s', 'u', 'n', 'r', 'i', 's', 'e'];
            let set = seq!['s', 'u', 'n', 's', 'e', 't'];
            &&& p.names_sunrise == crate::text::is_substring(rise, s@)
            &&& p.leading == if crate::text::is_prefix(set, s@) { Some(false) } else if crate::text::is_prefix(rise, s@) { Some(true) } else { None }
            &&& p.phrase@ == if crate::text::is_prefix(set, s@) { rest_phrase(s@, set) } else if crate::text::is_prefix(rise, s@) { rest_phrase(s@, rise) } else { s@ }
        }),
{
    let rise = vec!['s', 'u', 'n', 'r', 'i', 's', 'e'];
    let set = vec!['s', 'u', 'n', 's', 'e', 't'];
    proof {
        assert(rise@ == seq!['s', 'u', 'n', 'r', 'i', 's', 'e']);
        assert(set@ == seq!['s', 'u', 'n', 's', 'e', 't']);
    }
    let rise_text = string_of(&rise);
    let set_text = string_of(&set);
    let names_sunrise = crate::text::contains(s, rise_text.as_str());
    let names_sunset = crate::text::contains(s, set_text.as_str());
    if !(names_sunrise || names_sunset) {
        return None;
    }
    if crate::text::starts_with(s, set_text.as_str()) {
        Some(SunPhrase { names_sunrise, leading: Some(false), phrase: rest_phrase_exec(s, &set) })
    } else if crate::text::starts_with(s, rise_text.as_str()) {
        Some(SunPhrase { names_sunrise, leading: Some(true), phrase: rest_phrase_exec(s, &rise) })
    } else {
        Some(SunPhrase { names_sunrise, leading: None, phrase: s.to_owned() })
    }
}

} // verus!
