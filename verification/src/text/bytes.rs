//! How many bytes texts take.

use vstd::prelude::*;
use vstd::string::*;

use crate::text::compose::{chars, slice};

verus! {

/// How many bytes a character takes in UTF-8.
pub open spec fn char_bytes(c: char) -> nat {
    if (c as u32) < 0x80 {
        1
    } else if (c as u32) < 0x800 {
        2
    } else if (c as u32) < 0x10000 {
        3
    } else {
        4
    }
}

/// How many bytes a text takes in UTF-8.
pub open spec fn text_bytes(s: Seq<char>) -> nat
    decreases s.len(),
{
    if s.len() == 0 {
        0
    } else {
        text_bytes(s.drop_last()) + char_bytes(s.last())
    }
}

/// How many bytes a character takes in UTF-8.
fn char_width(c: char) -> (n: u128)
    ensures
        n == char_bytes(c),
        1 <= n <= 4,
{
    let c: u32 = c as u32;
    if c < 0x80 {
        1
    } else if c < 0x800 {
        2
    } else if c < 0x10000 {
        3
    } else {
        4
    }
}

/// How many bytes a text takes in UTF-8.
pub fn count_bytes(s: &str) -> (n: u128)
    ensures
        n == text_bytes(s@),
        n <= 0xffff_ffff_ffff_ffff_ffff,
{
    let v: Vec<char> = chars(s);
    let total: usize = v.len();
    let mut n: u128 = 0;
    for i in 0..total
        invariant
            total == v@.len(),
            n == text_bytes(v@.take(i as int)),
            n <= 4 * i,
    {
        assert(v@.take(i + 1).drop_last() =~= v@.take(i as int));
        let w: u128 = char_width(v[i]);
        n += w;
    }
    assert(v@.take(v@.len() as int) =~= v@);
    n
}

/// How many characters at the start of a text take at most `limit` bytes.
pub open spec fn fitting_chars(s: Seq<char>, limit: nat, n: nat) -> nat
    decreases s.len() - n,
{
    if n >= s.len() || text_bytes(s.take(n as int + 1)) > limit {
        n
    } else {
        fitting_chars(s, limit, n + 1)
    }
}

/// The start of a text that takes at most `limit` bytes.
pub open spec fn head_bytes(s: Seq<char>, limit: nat) -> Seq<char> {
    s.take(fitting_chars(s, limit, 0) as int)
}

/// The start of a text that takes at most `limit` bytes.
pub fn take_bytes(s: &str, limit: u128) -> (r: String)
    ensures
        r@ == head_bytes(s@, limit as nat),
{
    let v: Vec<char> = chars(s);
    let total: usize = v.len();
    let mut n: usize = 0;
    let mut bytes: u128 = 0;
    while n < total
        invariant
            n <= total == v@.len(),
            bytes == text_bytes(v@.take(n as int)),
            bytes <= 4 * n,
            fitting_chars(v@, limit as nat, 0) == fitting_chars(v@, limit as nat, n as nat),
        ensures
            n <= total,
            fitting_chars(v@, limit as nat, 0) == n,
        decreases total - n,
    {
        assert(v@.take(n + 1).drop_last() =~= v@.take(n as int));
        let w: u128 = char_width(v[n]);
        if bytes + w > limit {
            break;
        }
        bytes = bytes + w;
        n += 1;
    }
    let r: String = slice(&v, 0, n);
    assert(r@ =~= v@.take(n as int));
    r
}

} // verus!
