//! The order in which tests are run.

use vstd::prelude::*;
use vstd::string::*;

use crate::error::{Error, Failure, Result};
use crate::text::compose::{cat2, cat3};
use crate::text::number::{decimal, decimal_round_trip, decimal_text, parse_nat, parsed_nat};
use crate::text::order::text_eq;
use crate::text::scan::{has_prefix, strip_prefix};

verus! {

/// A strategy for ordering tests.
#[derive(Clone, Copy, Debug, PartialEq, Eq, Structural)]
pub enum TestOrder {
    /// Chosen from what is known of the tests.
    Auto,
    /// As the test command lists them.
    Discovery,
    /// By name.
    Alphabetical,
    /// Tests that failed last time first.
    FailingFirst,
    /// Tests of one group apart from each other.
    Spread,
    /// At random, from a seed where one is given.
    Shuffle(Option<u64>),
    /// The slowest first.
    SlowestFirst,
    /// The fastest first.
    FastestFirst,
    /// The most often failing first.
    FrequentFailingFirst,
}

/// The name of a strategy.
pub open spec fn order_text(o: TestOrder) -> Seq<char> {
    match o {
        TestOrder::Auto => "auto"@,
        TestOrder::Discovery => "discovery"@,
        TestOrder::Alphabetical => "alphabetical"@,
        TestOrder::FailingFirst => "failing-first"@,
        TestOrder::Spread => "spread"@,
        TestOrder::Shuffle(None) => "shuffle"@,
        TestOrder::Shuffle(Some(seed)) => "shuffle:"@ + decimal(seed as nat),
        TestOrder::SlowestFirst => "slowest-first"@,
        TestOrder::FastestFirst => "fastest-first"@,
        TestOrder::FrequentFailingFirst => "frequent-failing-first"@,
    }
}

/// The strategy that a text names.
pub open spec fn named_order(s: Seq<char>) -> Option<TestOrder> {
    if s == "auto"@ {
        Some(TestOrder::Auto)
    } else if s == "discovery"@ {
        Some(TestOrder::Discovery)
    } else if s == "alphabetical"@ {
        Some(TestOrder::Alphabetical)
    } else if s == "failing-first"@ {
        Some(TestOrder::FailingFirst)
    } else if s == "spread"@ {
        Some(TestOrder::Spread)
    } else if s == "shuffle"@ {
        Some(TestOrder::Shuffle(None))
    } else if s == "slowest-first"@ {
        Some(TestOrder::SlowestFirst)
    } else if s == "fastest-first"@ {
        Some(TestOrder::FastestFirst)
    } else if s == "frequent-failing-first"@ {
        Some(TestOrder::FrequentFailingFirst)
    } else if has_prefix(s, "shuffle:"@) {
        match parsed_nat(s.skip("shuffle:"@.len() as int)) {
            Some(n) => if n <= u64::MAX {
                Some(TestOrder::Shuffle(Some(n as u64)))
            } else {
                None
            },
            None => None,
        }
    } else {
        None
    }
}

/// What is said of a text that names no strategy.
pub open spec fn unknown_order_text(s: Seq<char>) -> Seq<char> {
    "unknown test order '"@ + s
        + "': expected one of auto, discovery, alphabetical, failing-first, spread, shuffle[:<seed>], slowest-first, fastest-first, frequent-failing-first"@
}

/// The strategy that a text names, or what is wrong with it.
pub open spec fn parsed_order(s: Seq<char>) -> core::result::Result<TestOrder, Failure> {
    match named_order(s) {
        Some(o) => Ok(o),
        None => Err(Failure::Config(unknown_order_text(s))),
    }
}

impl TestOrder {
    /// The strategy that a text names.
    pub fn parse(s: &str) -> (r: Result<TestOrder>)
        ensures
            crate::error::outcome(r) == parsed_order(s@),
    {
        let named: Option<TestOrder> = if text_eq(s, "auto") {
            Some(TestOrder::Auto)
        } else if text_eq(s, "discovery") {
            Some(TestOrder::Discovery)
        } else if text_eq(s, "alphabetical") {
            Some(TestOrder::Alphabetical)
        } else if text_eq(s, "failing-first") {
            Some(TestOrder::FailingFirst)
        } else if text_eq(s, "spread") {
            Some(TestOrder::Spread)
        } else if text_eq(s, "shuffle") {
            Some(TestOrder::Shuffle(None))
        } else if text_eq(s, "slowest-first") {
            Some(TestOrder::SlowestFirst)
        } else if text_eq(s, "fastest-first") {
            Some(TestOrder::FastestFirst)
        } else if text_eq(s, "frequent-failing-first") {
            Some(TestOrder::FrequentFailingFirst)
        } else {
            match strip_prefix(s, "shuffle:") {
                Some(seed) => match parse_nat(seed.as_str(), u64::MAX) {
                    Some(n) => Some(TestOrder::Shuffle(Some(n))),
                    None => None,
                },
                None => None,
            }
        };
        match named {
            Some(o) => Ok(o),
            None => Err(
                Error::Config(
                    cat3(
                        "unknown test order '",
                        s,
                        "': expected one of auto, discovery, alphabetical, failing-first, spread, shuffle[:<seed>], slowest-first, fastest-first, frequent-failing-first",
                    ),
                ),
            ),
        }
    }

    /// The name of the strategy.
    pub fn text(&self) -> (r: String)
        ensures
            r@ == order_text(*self),
    {
        match self {
            TestOrder::Auto => "auto".to_owned(),
            TestOrder::Discovery => "discovery".to_owned(),
            TestOrder::Alphabetical => "alphabetical".to_owned(),
            TestOrder::FailingFirst => "failing-first".to_owned(),
            TestOrder::Spread => "spread".to_owned(),
            TestOrder::Shuffle(None) => "shuffle".to_owned(),
            TestOrder::Shuffle(Some(seed)) => cat2(
                "shuffle:",
                decimal_text(*seed as u128).as_str(),
            ),
            TestOrder::SlowestFirst => "slowest-first".to_owned(),
            TestOrder::FastestFirst => "fastest-first".to_owned(),
            TestOrder::FrequentFailingFirst => "frequent-failing-first".to_owned(),
        }
    }
}

/// The name of a strategy names that strategy.
pub proof fn order_round_trip(o: TestOrder)
    ensures
        named_order(order_text(o)) == Some(o),
{
    reveal_strlit("auto");
    reveal_strlit("discovery");
    reveal_strlit("alphabetical");
    reveal_strlit("failing-first");
    reveal_strlit("spread");
    reveal_strlit("shuffle");
    reveal_strlit("slowest-first");
    reveal_strlit("fastest-first");
    reveal_strlit("frequent-failing-first");
    reveal_strlit("shuffle:");
    let s = order_text(o);
    assert("auto"@.len() == 4 && "discovery"@.len() == 9 && "alphabetical"@.len() == 12);
    assert("auto"@[0] == 'a' && "alphabetical"@[0] == 'a' && "discovery"@[0] == 'd');
    assert("failing-first"@[0] == 'f' && "failing-first"@[2] == 'i');
    assert("fastest-first"@[0] == 'f' && "fastest-first"@[2] == 's');
    assert("frequent-failing-first"@[1] == 'r' && "frequent-failing-first"@[0] == 'f');
    assert("failing-first"@[1] == 'a' && "fastest-first"@[1] == 'a');
    assert("spread"@[0] == 's' && "spread"@[1] == 'p');
    assert("shuffle"@[0] == 's' && "shuffle"@[1] == 'h' && "shuffle"@.len() == 7);
    assert("slowest-first"@[0] == 's' && "slowest-first"@[1] == 'l');
    assert("shuffle:"@[0] == 's' && "shuffle:"@[1] == 'h' && "shuffle:"@.len() == 8);
    if let TestOrder::Shuffle(Some(seed)) = o {
        decimal_round_trip(seed as nat);
        assert(s.take(8) =~= "shuffle:"@);
        assert(s.skip(8) =~= decimal(seed as nat));
        assert(s[0] == 's' && s[1] == 'h' && s.len() > 7);
    }
}

} // verus!
