//! Durations and timeouts in configuration files.

use vstd::prelude::*;
use vstd::string::*;

use crate::error::{outcome_view, Error, Failure, Result};
use crate::spans::{scan_span, span, span_nanos, SpanProblem, Units};
use crate::text::compose::{cat3, cat5};
use crate::text::scan::{ascii_lowered, eq_ignore_ascii_case, trim, trimmed};
use crate::time::{Duration, MAX_NANOS};

verus! {

/// How many times its usual duration a test may take where the timeout is automatic.
pub const AUTO_TIMEOUT_MULTIPLIER: u128 = 10;

/// The shortest automatic timeout of a test in seconds.
pub const AUTO_TIMEOUT_MINIMUM_SECS: u64 = 30;

/// The shortest automatic limit of a whole run in seconds.
pub const AUTO_MAX_DURATION_MINIMUM_SECS: u64 = 60;

/// How often a child process with a timeout is looked at, in milliseconds.
pub const TIMEOUT_POLL_INTERVAL_MILLIS: u64 = 100;

/// How often a test process may be started again before a run gives up.
pub const MAX_TEST_RESTARTS: usize = 10;

/// How many times its usual duration a test has to take to be called slow.
pub const SLOW_TEST_WARNING_MULTIPLIER: u128 = 3;

/// How many nanoseconds a test must take before it is told to be slow.
pub const SLOW_TEST_WARNING_MIN_DURATION: u128 = 2_000_000;

/// A timeout.
#[derive(Clone, Copy, Debug, PartialEq, Eq, Structural)]
pub enum TimeoutSetting {
    /// There is none.
    Disabled,
    /// The same for every test.
    Fixed(Duration),
    /// Found from how long the tests took before.
    Auto,
}

/// A timeout with its span in nanoseconds.
pub enum Timeout {
    /// See [`TimeoutSetting::Disabled`].
    Disabled,
    /// See [`TimeoutSetting::Fixed`].
    Fixed(nat),
    /// See [`TimeoutSetting::Auto`].
    Auto,
}

impl View for TimeoutSetting {
    type V = Timeout;

    open spec fn view(&self) -> Timeout {
        match self {
            TimeoutSetting::Disabled => Timeout::Disabled,
            TimeoutSetting::Fixed(d) => Timeout::Fixed(d@),
            TimeoutSetting::Auto => Timeout::Auto,
        }
    }
}

impl Default for TimeoutSetting {
    fn default() -> (r: TimeoutSetting)
        ensures
            r == TimeoutSetting::Disabled,
    {
        TimeoutSetting::Disabled
    }
}

/// The nanoseconds that a text denotes, or what is wrong with it.
pub open spec fn parsed_duration(text: Seq<char>) -> core::result::Result<nat, Failure> {
    let s = trimmed(text);
    if s.len() == 0 {
        Err(Failure::Config("empty duration string"@))
    } else {
        match span(Units::Clock, s) {
            Err(SpanProblem::NoNumber) => Err(
                Failure::Config("invalid duration string: '"@ + s + "'"@),
            ),
            Err(SpanProblem::BadNumber) => Err(
                Failure::Config("invalid number in duration string: '"@ + s + "'"@),
            ),
            Err(SpanProblem::BadUnit(c)) => Err(
                Failure::Config(
                    "invalid duration suffix '"@ + seq![c] + "' in '"@ + s
                        + "' (use 's', 'm', or 'h', e.g. '30s', '5m', '1h')"@,
                ),
            ),
            Ok(x) => if x.0 == 0 {
                Err(Failure::Config("duration must be positive: '"@ + s + "'"@))
            } else if span_nanos(x) > MAX_NANOS {
                Err(Failure::Config("duration is too long: '"@ + s + "'"@))
            } else {
                Ok(span_nanos(x))
            },
        }
    }
}

/// Whether a text is the same as `word` but for the case of ASCII letters.
pub open spec fn is_word(text: Seq<char>, word: Seq<char>) -> bool {
    ascii_lowered(text) == ascii_lowered(word)
}

/// Whether a text says that there is no timeout.
pub open spec fn says_disabled(text: Seq<char>) -> bool {
    trimmed(text).len() == 0 || is_word(trimmed(text), "disabled"@)
}

/// The timeout that a text denotes, or what is wrong with it.
pub open spec fn parsed_timeout(text: Seq<char>) -> core::result::Result<Timeout, Failure> {
    let s = trimmed(text);
    if says_disabled(text) {
        Ok(Timeout::Disabled)
    } else if is_word(s, "auto"@) {
        Ok(Timeout::Auto)
    } else {
        match parsed_duration(s) {
            Ok(n) => Ok(Timeout::Fixed(n)),
            Err(f) => Err(f),
        }
    }
}

/// The timeout in nanoseconds of a test that usually takes `historical` nanoseconds.
pub open spec fn effective_nanos(t: Timeout, historical: Option<nat>) -> Option<nat> {
    match t {
        Timeout::Disabled => None,
        Timeout::Fixed(n) => Some(n),
        Timeout::Auto => {
            let minimum = 30_000_000_000nat;
            match historical {
                Some(h) if h * 10 > minimum => Some(h * 10),
                _ => Some(minimum),
            }
        },
    }
}

/// The nanoseconds of an optional span.
pub open spec fn optional_nanos(d: Option<Duration>) -> Option<nat> {
    match d {
        Some(d) => Some(d@),
        None => None,
    }
}

/// A string of one character.
pub(crate) fn one_char(c: char) -> (s: String)
    ensures
        s@ == seq![c],
{
    let mut s = String::new();
    s.push(c);
    assert(s@ =~= seq![c]);
    s
}

/// Reads a duration such as `5m`, `300s`, `1h`, `1h30m` or `90`: numbers with the units `s`, `m`
/// and `h`, a number without a unit in seconds.
pub fn parse_duration_string(s: &str) -> (r: Result<Duration>)
    ensures
        outcome_view(r) == parsed_duration(s@),
{
    let t: String = trim(s);
    if t.as_str().is_empty() {
        return Err(Error::Config("empty duration string".to_owned()));
    }
    match scan_span(Units::Clock, t.as_str()) {
        Err(SpanProblem::NoNumber) => Err(
            Error::Config(cat3("invalid duration string: '", t.as_str(), "'")),
        ),
        Err(SpanProblem::BadNumber) => Err(
            Error::Config(cat3("invalid number in duration string: '", t.as_str(), "'")),
        ),
        Err(SpanProblem::BadUnit(c)) => Err(
            Error::Config(
                cat5(
                    "invalid duration suffix '",
                    one_char(c).as_str(),
                    "' in '",
                    t.as_str(),
                    "' (use 's', 'm', or 'h', e.g. '30s', '5m', '1h')",
                ),
            ),
        ),
        Ok(scanned) => if !scanned.positive {
            Err(Error::Config(cat3("duration must be positive: '", t.as_str(), "'")))
        } else {
            match scanned.length {
                Some(d) => Ok(d),
                None => Err(Error::Config(cat3("duration is too long: '", t.as_str(), "'"))),
            }
        },
    }
}

/// Whether a text says that there is no timeout.
pub(crate) fn is_disabled(s: &str) -> (r: bool)
    ensures
        r == says_disabled(s@),
{
    let t: String = trim(s);
    t.as_str().is_empty() || eq_ignore_ascii_case(t.as_str(), "disabled")
}

impl TimeoutSetting {
    /// Reads a timeout: nothing or `disabled`, `auto`, or a duration.
    pub fn parse(s: &str) -> (r: Result<TimeoutSetting>)
        ensures
            outcome_view(r) == parsed_timeout(s@),
    {
        let t: String = trim(s);
        if t.as_str().is_empty() || eq_ignore_ascii_case(t.as_str(), "disabled") {
            return Ok(TimeoutSetting::Disabled);
        }
        if eq_ignore_ascii_case(t.as_str(), "auto") {
            return Ok(TimeoutSetting::Auto);
        }
        match parse_duration_string(t.as_str()) {
            Ok(d) => Ok(TimeoutSetting::Fixed(d)),
            Err(e) => Err(e),
        }
    }

    /// The timeout of a test, given how long it usually takes. An automatic timeout is ten times
    /// as long, and at least half a minute.
    pub fn effective_timeout(&self, historical: Option<Duration>) -> (r: Option<Duration>)
        requires
            self is Auto ==> (historical matches Some(h) ==> h@ * 10 <= MAX_NANOS),
        ensures
            optional_nanos(r) == effective_nanos(self@, optional_nanos(historical)),
    {
        match self {
            TimeoutSetting::Disabled => None,
            TimeoutSetting::Fixed(d) => Some(*d),
            TimeoutSetting::Auto => {
                let minimum: Duration = Duration::from_secs(AUTO_TIMEOUT_MINIMUM_SECS);
                match historical {
                    Some(h) => {
                        let computed: u128 = h.as_nanos() * AUTO_TIMEOUT_MULTIPLIER;
                        if computed > minimum.as_nanos() {
                            Some(Duration::from_nanos(computed))
                        } else {
                            Some(minimum)
                        }
                    },
                    None => Some(minimum),
                }
            },
        }
    }
}

/// A test has no timeout where that is disabled, the given one where one is given, and otherwise the
/// longer one of half a minute and ten times what it usually takes.
pub proof fn timeouts_are_as_asked_for(t: Timeout, historical: Option<nat>)
    ensures
        effective_nanos(t, historical) is None <==> t is Disabled,
        t matches Timeout::Fixed(n) ==> effective_nanos(t, historical) == Some(n),
        t is Auto ==> {
            let n = effective_nanos(t, historical)->0;
            &&& n >= 30_000_000_000
            &&& historical matches Some(h) ==> n >= 10 * h
            &&& n == 30_000_000_000 || (historical matches Some(h) && n == 10 * h)
        },
{
}

/// An automatic timeout is never shorter than half a minute, nor shorter than ten times what the
/// test usually takes.
pub proof fn automatic_timeout_is_generous(historical: Option<nat>)
    ensures
        effective_nanos(Timeout::Auto, historical) matches Some(n) && n >= 30_000_000_000 && (
        historical matches Some(h) ==> n >= 10 * h),
{
}

} // verus!
