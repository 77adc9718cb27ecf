//! Finding an IPv6 address inside free-form text.
//!
//! `extract_ipv6` scans a response body for the first place where a valid
//! IPv6 literal starts and hands back the longest literal standing there.
//! Absence is an ordinary outcome, not an error: the result says, either way,
//! exactly what the text held.

use vstd::prelude::*;

use crate::addr::is_ipv6_literal;
use crate::addr::check_ipv6_range;
use crate::addr::unit_count;
use crate::addr::dc_split_ok;

verus! {

/// A valid IPv6 literal occupies [i, j) of t.
pub open spec fn valid_at(t: Seq<char>, i: int, j: int) -> bool {
    0 <= i <= j <= t.len() && is_ipv6_literal(t.subrange(i, j))
}

/// Some valid IPv6 literal occurs somewhere in t.
pub open spec fn has_ipv6_literal(t: Seq<char>) -> bool {
    exists|i: int, j: int| valid_at(t, i, j)
}

/// a is the literal that scanning t yields, taken at start position i: a
/// valid literal of t starting at i, where no valid literal starts earlier
/// and none standing at i reaches further.
pub open spec fn extracted_at(t: Seq<char>, a: Seq<char>, i: int) -> bool {
    &&& 0 <= i && i + a.len() <= t.len()
    &&& a == t.subrange(i, i + a.len())
    &&& is_ipv6_literal(a)
    &&& forall|i2: int, j2: int| valid_at(t, i2, j2) ==> i <= i2
    &&& forall|j2: int| valid_at(t, i, j2) ==> j2 <= i + a.len()
}

/// a is the literal that scanning t yields: the longest valid literal at the
/// first position where any valid literal starts.
pub open spec fn extracted(t: Seq<char>, a: Seq<char>) -> bool {
    exists|i: int| extracted_at(t, a, i)
}

/// The empty sequence is no IPv6 literal.
proof fn lemma_empty_not_literal(s: Seq<char>)
    requires
        s.len() == 0,
    ensures
        !is_ipv6_literal(s),
{
    assert(unit_count(s) == Some(0 as nat));
    assert(forall|i: int| !dc_split_ok(s, i));
}

/// The characters of text, one slot each.
fn str_chars(text: &str) -> (chars: Vec<char>)
    ensures
        chars@ == text@,
{
    let n = text.unicode_len();
    let mut chars: Vec<char> = Vec::new();
    let mut i: usize = 0;
    while i < n
        invariant
            i <= n,
            n == text@.len(),
            chars@ == text@.subrange(0, i as int),
        decreases n - i,
    {
        chars.push(text.get_char(i));
        proof {
            assert(chars@ =~= text@.subrange(0, i as int + 1));
        }
        i = i + 1;
    }
    proof {
        assert(text@.subrange(0, n as int) =~= text@);
    }
    chars
}

/// Whether the whole of addr is a valid IPv6 literal.
pub fn is_ipv6(addr: &str) -> (b: bool)
    ensures
        b == is_ipv6_literal(addr@),
{
    let chars = str_chars(addr);
    let b = check_ipv6_range(&chars, 0, chars.len());
    proof {
        assert(chars@.subrange(0, chars@.len() as int) =~= addr@);
    }
    b
}

/// Scans text left to right for IPv6 literals and returns the first valid
/// one: the longest literal at the earliest position where any valid literal
/// starts. Returns None exactly when no substring of text is a valid IPv6
/// literal.
pub fn extract_ipv6(text: &str) -> (r: Option<String>)
    ensures
        match r {
            Some(a) => extracted(text@, a@),
            None => !has_ipv6_literal(text@),
        },
{
    let ghost t = text@;
    let chars = str_chars(text);
    let n = chars.len();
    let mut i: usize = 0;
    while i < n
        invariant
            i <= n,
            chars@ == t,
            t == text@,
            n == t.len(),
            forall|i2: int, j2: int| i2 < i ==> !valid_at(t, i2, j2),
        decreases n - i,
    {
        let mut j = n;
        while j > i
            invariant
                i <= j <= n,
                chars@ == t,
                t == text@,
                n == t.len(),
                forall|i2: int, j2: int| i2 < i ==> !valid_at(t, i2, j2),
                forall|j2: int| j < j2 ==> !valid_at(t, i as int, j2),
            decreases j,
        {
            if check_ipv6_range(&chars, i, j) {
                let lit = text.substring_char(i, j);
                let a = lit.to_owned();
                proof {
                    assert(a@ == t.subrange(i as int, j as int));
                    assert forall|i2: int, j2: int| valid_at(t, i2, j2) implies i as int <= i2 by {
                        if i2 < i {
                            assert(!valid_at(t, i2, j2));
                        }
                    }
                    assert(extracted_at(t, a@, i as int));
                }
                return Some(a);
            }
            j = j - 1;
        }
        proof {
            assert forall|j2: int| !valid_at(t, i as int, j2) by {
                if i as int <= j2 <= t.len() {
                    if j2 == i as int {
                        assert(t.subrange(i as int, i as int).len() == 0);
                        lemma_empty_not_literal(t.subrange(i as int, i as int));
                    }
                }
            }
        }
        i = i + 1;
    }
    proof {
        assert forall|i2: int, j2: int| !valid_at(t, i2, j2) by {
            if 0 <= i2 <= j2 <= t.len() && i2 >= n {
                assert(t.subrange(i2, j2).len() == 0);
                lemma_empty_not_literal(t.subrange(i2, j2));
            }
        }
    }
    None
}

/// First-match policy: whatever valid literal occurs in t, the extracted one
/// starts at the same place or earlier.
pub proof fn lemma_first_match(t: Seq<char>, a: Seq<char>, i2: int, j2: int)
    requires
        extracted(t, a),
        valid_at(t, i2, j2),
    ensures
        exists|i1: int|
            {
                &&& 0 <= i1 && i1 + a.len() <= t.len()
                &&& a == #[trigger] t.subrange(i1, i1 + a.len())
                &&& i1 <= i2
            },
{
    let i1 = choose|i1: int| extracted_at(t, a, i1);
    assert(0 <= i1 && i1 + a.len() <= t.len() && a == t.subrange(i1, i1 + a.len()) && i1 <= i2);
}

/// Extraction correctness on a text holding exactly one valid literal: the
/// extracted literal is that one.
pub proof fn lemma_unique_literal(t: Seq<char>, a: Seq<char>, i: int, j: int)
    requires
        valid_at(t, i, j),
        forall|i2: int, j2: int| valid_at(t, i2, j2) ==> i2 == i && j2 == j,
        extracted(t, a),
    ensures
        a == t.subrange(i, j),
{
    let i1 = choose|i1: int| extracted_at(t, a, i1);
    assert(valid_at(t, i1, i1 + a.len()));
}

} // verus!
