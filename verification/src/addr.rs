//! The textual grammar of IPv6 literals.
//!
//! `is_ipv6_literal` states which character sequences are IPv6 addresses in
//! text form: either exactly eight 16-bit units written as hex groups joined
//! by single colons, or a `"::"`-compressed form; the last two units may be
//! written as an IPv4 dotted quad. Hex groups hold one to four hex digits;
//! IPv4 octets hold one to three decimal digits, value at most 255, with no
//! leading zero. A `"::"` stands for at least one zero unit, so the written
//! units of a compressed form number at most seven. `check_ipv6_range` decides
//! the grammar over a range of a character vector.

use vstd::prelude::*;

verus! {

// ---------------------------------------------------------------------------
// Character classes
// ---------------------------------------------------------------------------

pub open spec fn is_dec_digit(c: char) -> bool {
    '0' as u32 <= c as u32 && c as u32 <= '9' as u32
}

pub open spec fn is_hex_digit(c: char) -> bool {
    ||| is_dec_digit(c)
    ||| 'a' as u32 <= c as u32 && c as u32 <= 'f' as u32
    ||| 'A' as u32 <= c as u32 && c as u32 <= 'F' as u32
}

fn dec_digit(c: char) -> (b: bool)
    ensures
        b == is_dec_digit(c),
{
    '0' as u32 <= c as u32 && c as u32 <= '9' as u32
}

fn hex_digit(c: char) -> (b: bool)
    ensures
        b == is_hex_digit(c),
{
    dec_digit(c) || ('a' as u32 <= c as u32 && c as u32 <= 'f' as u32) || ('A' as u32 <= c as u32
        && c as u32 <= 'F' as u32)
}

// ---------------------------------------------------------------------------
// Leading digit runs
// ---------------------------------------------------------------------------

/// The length of the longest prefix of s made of hex digits.
pub open spec fn leading_hex_len(s: Seq<char>) -> nat
    decreases s.len(),
{
    if s.len() > 0 && is_hex_digit(s[0]) {
        (leading_hex_len(s.skip(1)) + 1) as nat
    } else {
        0
    }
}

/// The length of the longest prefix of s made of decimal digits.
pub open spec fn leading_dec_len(s: Seq<char>) -> nat
    decreases s.len(),
{
    if s.len() > 0 && is_dec_digit(s[0]) {
        (leading_dec_len(s.skip(1)) + 1) as nat
    } else {
        0
    }
}

pub proof fn lemma_leading_hex_len(s: Seq<char>)
    ensures
        leading_hex_len(s) <= s.len(),
        forall|k: int| 0 <= k < leading_hex_len(s) ==> is_hex_digit(s[k]),
        leading_hex_len(s) < s.len() ==> !is_hex_digit(s[leading_hex_len(s) as int]),
    decreases s.len(),
{
    if s.len() > 0 && is_hex_digit(s[0]) {
        lemma_leading_hex_len(s.skip(1));
        let r = leading_hex_len(s) as int;
        assert forall|k: int| 0 <= k < r implies is_hex_digit(s[k]) by {
            if k >= 1 {
                assert(s.skip(1)[k - 1] == s[k]);
            }
        }
        if r < s.len() {
            assert(s.skip(1)[r - 1] == s[r]);
        }
    }
}

pub proof fn lemma_leading_hex_len_is(s: Seq<char>, r: int)
    requires
        0 <= r <= s.len(),
        forall|k: int| 0 <= k < r ==> is_hex_digit(s[k]),
        r < s.len() ==> !is_hex_digit(s[r]),
    ensures
        leading_hex_len(s) == r,
    decreases s.len(),
{
    if s.len() > 0 && is_hex_digit(s[0]) {
        assert(r >= 1);
        assert forall|k: int| 0 <= k < r - 1 implies is_hex_digit(s.skip(1)[k]) by {
            assert(s.skip(1)[k] == s[k + 1]);
        }
        if r - 1 < s.skip(1).len() {
            assert(s.skip(1)[r - 1] == s[r]);
        }
        lemma_leading_hex_len_is(s.skip(1), r - 1);
    } else {
        assert(r == 0);
    }
}

pub proof fn lemma_leading_dec_len(s: Seq<char>)
    ensures
        leading_dec_len(s) <= s.len(),
        forall|k: int| 0 <= k < leading_dec_len(s) ==> is_dec_digit(s[k]),
        leading_dec_len(s) < s.len() ==> !is_dec_digit(s[leading_dec_len(s) as int]),
    decreases s.len(),
{
    if s.len() > 0 && is_dec_digit(s[0]) {
        lemma_leading_dec_len(s.skip(1));
        let r = leading_dec_len(s) as int;
        assert forall|k: int| 0 <= k < r implies is_dec_digit(s[k]) by {
            if k >= 1 {
                assert(s.skip(1)[k - 1] == s[k]);
            }
        }
        if r < s.len() {
            assert(s.skip(1)[r - 1] == s[r]);
        }
    }
}

pub proof fn lemma_leading_dec_len_is(s: Seq<char>, r: int)
    requires
        0 <= r <= s.len(),
        forall|k: int| 0 <= k < r ==> is_dec_digit(s[k]),
        r < s.len() ==> !is_dec_digit(s[r]),
    ensures
        leading_dec_len(s) == r,
    decreases s.len(),
{
    if s.len() > 0 && is_dec_digit(s[0]) {
        assert(r >= 1);
        assert forall|k: int| 0 <= k < r - 1 implies is_dec_digit(s.skip(1)[k]) by {
            assert(s.skip(1)[k] == s[k + 1]);
        }
        if r - 1 < s.skip(1).len() {
            assert(s.skip(1)[r - 1] == s[r]);
        }
        lemma_leading_dec_len_is(s.skip(1), r - 1);
    } else {
        assert(r == 0);
    }
}

/// The end of the run of hex digits that starts at `from`, within [from, to).
fn hex_run_end(s: &Vec<char>, from: usize, to: usize) -> (r: usize)
    requires
        from <= to <= s.len(),
    ensures
        from <= r <= to,
        r - from == leading_hex_len(s@.subrange(from as int, to as int)),
    decreases to - from,
{
    let mut r = from;
    while r < to && hex_digit(s[r])
        invariant
            from <= r <= to <= s.len(),
            forall|k: int| from <= k < r ==> is_hex_digit(s@[k]),
        decreases to - r,
    {
        r = r + 1;
    }
    proof {
        let sub = s@.subrange(from as int, to as int);
        assert forall|k: int| 0 <= k < r - from implies is_hex_digit(sub[k]) by {
            assert(sub[k] == s@[from + k]);
        }
        if r - from < sub.len() {
            assert(sub[r - from] == s@[r as int]);
        }
        lemma_leading_hex_len_is(sub, r - from);
    }
    r
}

/// The end of the run of decimal digits that starts at `from`, within [from, to).
fn dec_run_end(s: &Vec<char>, from: usize, to: usize) -> (r: usize)
    requires
        from <= to <= s.len(),
    ensures
        from <= r <= to,
        r - from == leading_dec_len(s@.subrange(from as int, to as int)),
    decreases to - from,
{
    let mut r = from;
    while r < to && dec_digit(s[r])
        invariant
            from <= r <= to <= s.len(),
            forall|k: int| from <= k < r ==> is_dec_digit(s@[k]),
        decreases to - r,
    {
        r = r + 1;
    }
    proof {
        let sub = s@.subrange(from as int, to as int);
        assert forall|k: int| 0 <= k < r - from implies is_dec_digit(sub[k]) by {
            assert(sub[k] == s@[from + k]);
        }
        if r - from < sub.len() {
            assert(sub[r - from] == s@[r as int]);
        }
        lemma_leading_dec_len_is(sub, r - from);
    }
    r
}

// ---------------------------------------------------------------------------
// IPv4 dotted quads
// ---------------------------------------------------------------------------

pub open spec fn dec_digit_val(c: char) -> int {
    c as u32 - '0' as u32
}

/// The value of a run of one to three decimal digits; -1 for other lengths.
pub open spec fn octet_val(s: Seq<char>) -> int {
    if s.len() == 1 {
        dec_digit_val(s[0])
    } else if s.len() == 2 {
        10 * dec_digit_val(s[0]) + dec_digit_val(s[1])
    } else if s.len() == 3 {
        100 * dec_digit_val(s[0]) + 10 * dec_digit_val(s[1]) + dec_digit_val(s[2])
    } else {
        -1
    }
}

/// A decimal octet of an IPv4 dotted quad: one to three digits, value at
/// most 255, and no leading zero.
pub open spec fn is_dec_octet(s: Seq<char>) -> bool {
    &&& 1 <= s.len() <= 3
    &&& (forall|k: int| 0 <= k < s.len() ==> is_dec_digit(s[k]))
    &&& octet_val(s) <= 255
    &&& (s.len() > 1 ==> s[0] != '0')
}

/// s is exactly n decimal octets joined by single dots.
pub open spec fn is_dec_octets(s: Seq<char>, n: nat) -> bool
    decreases n,
{
    if n == 0 {
        false
    } else {
        let r = leading_dec_len(s) as int;
        if n == 1 {
            s.len() == r && is_dec_octet(s)
        } else {
            &&& is_dec_octet(s.take(r))
            &&& r < s.len() && s[r] == '.'
            &&& is_dec_octets(s.skip(r + 1), (n - 1) as nat)
        }
    }
}

/// s is an IPv4 address in dotted-quad form, as std's address parser
/// accepts it.
pub open spec fn is_ipv4_literal(s: Seq<char>) -> bool {
    is_dec_octets(s, 4)
}

/// Decides is_dec_octet over s[from..to].
fn check_dec_octet(s: &Vec<char>, from: usize, to: usize) -> (b: bool)
    requires
        from <= to <= s.len(),
    ensures
        b == is_dec_octet(s@.subrange(from as int, to as int)),
{
    let ghost sub = s@.subrange(from as int, to as int);
    let len = to - from;
    if len < 1 || len > 3 {
        return false;
    }
    let mut k = from;
    while k < to && dec_digit(s[k])
        invariant
            from <= k <= to <= s.len(),
            forall|j: int| from <= j < k ==> is_dec_digit(s@[j]),
        decreases to - k,
    {
        k = k + 1;
    }
    if k < to {
        proof {
            assert(sub[k - from] == s@[k as int]);
        }
        return false;
    }
    assert(forall|j: int| 0 <= j < sub.len() ==> sub[j] == s@[from + j]);
    if len > 1 && s[from] == '0' {
        return false;
    }
    let v: u32 = if len == 1 {
        s[from] as u32 - '0' as u32
    } else if len == 2 {
        10 * (s[from] as u32 - '0' as u32) + (s[from + 1] as u32 - '0' as u32)
    } else {
        100 * (s[from] as u32 - '0' as u32) + 10 * (s[from + 1] as u32 - '0' as u32) + (s[from
            + 2] as u32 - '0' as u32)
    };
    v <= 255
}

/// Decides is_dec_octets over s[from..to].
fn check_dec_octets(s: &Vec<char>, from: usize, to: usize, n: u8) -> (b: bool)
    requires
        from <= to <= s.len(),
        n >= 1,
    ensures
        b == is_dec_octets(s@.subrange(from as int, to as int), n as nat),
    decreases n,
{
    let ghost sub = s@.subrange(from as int, to as int);
    let r = dec_run_end(s, from, to);
    if n == 1 {
        return r == to && check_dec_octet(s, from, to);
    }
    if !check_dec_octet(s, from, r) {
        proof {
            assert(sub.take(r - from) =~= s@.subrange(from as int, r as int));
        }
        return false;
    }
    if !(r < to && s[r] == '.') {
        proof {
            assert(sub.take(r - from) =~= s@.subrange(from as int, r as int));
            if r < to {
                assert(sub[r - from] == s@[r as int]);
            }
        }
        return false;
    }
    let rest = check_dec_octets(s, r + 1, to, n - 1);
    proof {
        assert(sub.take(r - from) =~= s@.subrange(from as int, r as int));
        assert(sub[r - from] == s@[r as int]);
        assert(sub.skip(r - from + 1) =~= s@.subrange(r + 1 as int, to as int));
    }
    rest
}

/// Decides is_ipv4_literal over s[from..to].
fn check_ipv4(s: &Vec<char>, from: usize, to: usize) -> (b: bool)
    requires
        from <= to <= s.len(),
    ensures
        b == is_ipv4_literal(s@.subrange(from as int, to as int)),
{
    check_dec_octets(s, from, to, 4)
}

// ---------------------------------------------------------------------------
// Unit runs: hex groups joined by single colons, optional IPv4 tail
// ---------------------------------------------------------------------------

/// The number of 16-bit units that s writes out, when s is a run of hex
/// groups joined by single colons, optionally ending in an IPv4 dotted quad
/// (which stands for the last two units); None when s is not of that form.
/// The empty sequence writes zero units.
pub open spec fn unit_count(s: Seq<char>) -> Option<nat>
    decreases s.len(),
{
    if s.len() == 0 {
        Some(0 as nat)
    } else if is_ipv4_literal(s) {
        Some(2 as nat)
    } else {
        let r = leading_hex_len(s) as int;
        if 1 <= r <= 4 {
            if s.len() == r {
                Some(1 as nat)
            } else if r < s.len() && s[r] == ':' {
                match unit_count(s.skip(r + 1)) {
                    Some(m) => if m >= 1 {
                        Some((m + 1) as nat)
                    } else {
                        None
                    },
                    None => None,
                }
            } else {
                None
            }
        } else {
            None
        }
    }
}

/// Like unit_count, but without the IPv4 tail: what may stand before a "::".
pub open spec fn hex_unit_count(s: Seq<char>) -> Option<nat>
    decreases s.len(),
{
    if s.len() == 0 {
        Some(0 as nat)
    } else {
        let r = leading_hex_len(s) as int;
        if 1 <= r <= 4 {
            if s.len() == r {
                Some(1 as nat)
            } else if r < s.len() && s[r] == ':' {
                match hex_unit_count(s.skip(r + 1)) {
                    Some(m) => if m >= 1 {
                        Some((m + 1) as nat)
                    } else {
                        None
                    },
                    None => None,
                }
            } else {
                None
            }
        } else {
            None
        }
    }
}

/// A unit run never writes more units than it has characters.
pub proof fn lemma_unit_count_le_len(s: Seq<char>)
    ensures
        unit_count(s) matches Some(n) ==> n <= s.len(),
    decreases s.len(),
{
    if s.len() == 0 || is_ipv4_literal(s) {
    } else {
        let r = leading_hex_len(s) as int;
        if 1 <= r <= 4 && r < s.len() && s[r] == ':' {
            lemma_unit_count_le_len(s.skip(r + 1));
        }
    }
}

/// As lemma_unit_count_le_len, for the head form.
pub proof fn lemma_hex_unit_count_le_len(s: Seq<char>)
    ensures
        hex_unit_count(s) matches Some(n) ==> n <= s.len(),
    decreases s.len(),
{
    if s.len() == 0 {
    } else {
        let r = leading_hex_len(s) as int;
        if 1 <= r <= 4 && r < s.len() && s[r] == ':' {
            lemma_hex_unit_count_le_len(s.skip(r + 1));
        }
    }
}

/// Decides unit_count over s[from..to].
fn count_units(s: &Vec<char>, from: usize, to: usize) -> (r: Option<usize>)
    requires
        from <= to <= s.len(),
    ensures
        match r {
            Some(u) => unit_count(s@.subrange(from as int, to as int)) == Some(u as nat),
            None => unit_count(s@.subrange(from as int, to as int)) is None,
        },
    decreases to - from,
{
    let ghost sub = s@.subrange(from as int, to as int);
    if from == to {
        return Some(0);
    }
    if check_ipv4(s, from, to) {
        return Some(2);
    }
    let r = hex_run_end(s, from, to);
    let rl = r - from;
    if rl < 1 || rl > 4 {
        return None;
    }
    if r == to {
        return Some(1);
    }
    proof {
        assert(sub[r - from] == s@[r as int]);
    }
    if s[r] != ':' {
        return None;
    }
    proof {
        assert(sub.skip(r - from + 1) =~= s@.subrange(r + 1 as int, to as int));
        lemma_unit_count_le_len(s@.subrange(r + 1 as int, to as int));
    }
    match count_units(s, r + 1, to) {
        Some(m) => if m >= 1 {
            Some(m + 1)
        } else {
            None
        },
        None => None,
    }
}

/// Decides hex_unit_count over s[from..to].
fn count_hex_units(s: &Vec<char>, from: usize, to: usize) -> (r: Option<usize>)
    requires
        from <= to <= s.len(),
    ensures
        match r {
            Some(u) => hex_unit_count(s@.subrange(from as int, to as int)) == Some(u as nat),
            None => hex_unit_count(s@.subrange(from as int, to as int)) is None,
        },
    decreases to - from,
{
    let ghost sub = s@.subrange(from as int, to as int);
    if from == to {
        return Some(0);
    }
    let r = hex_run_end(s, from, to);
    let rl = r - from;
    if rl < 1 || rl > 4 {
        return None;
    }
    if r == to {
        return Some(1);
    }
    proof {
        assert(sub[r - from] == s@[r as int]);
    }
    if s[r] != ':' {
        return None;
    }
    proof {
        assert(sub.skip(r - from + 1) =~= s@.subrange(r + 1 as int, to as int));
        lemma_hex_unit_count_le_len(s@.subrange(r + 1 as int, to as int));
    }
    match count_hex_units(s, r + 1, to) {
        Some(m) => if m >= 1 {
            Some(m + 1)
        } else {
            None
        },
        None => None,
    }
}

// ---------------------------------------------------------------------------
// Shape of unit runs
// ---------------------------------------------------------------------------

/// Every character of a dotted quad is a decimal digit or a dot, and both
/// ends are digits.
pub proof fn lemma_octets_chars(s: Seq<char>, n: nat)
    requires
        is_dec_octets(s, n),
    ensures
        s.len() > 0,
        forall|k: int| 0 <= k < s.len() ==> (is_dec_digit(s[k]) || s[k] == '.'),
        is_dec_digit(s[0]),
        is_dec_digit(s[s.len() - 1]),
    decreases n,
{
    let r = leading_dec_len(s) as int;
    lemma_leading_dec_len(s);
    if n == 1 {
    } else {
        let rest = s.skip(r + 1);
        lemma_octets_chars(rest, (n - 1) as nat);
        assert(s.take(r).len() == r);
        assert forall|k: int| 0 <= k < s.len() implies (is_dec_digit(s[k]) || s[k] == '.') by {
            if k > r {
                assert(rest[k - r - 1] == s[k]);
            }
        }
        assert(s[s.len() - 1] == rest[rest.len() - 1]);
    }
}

/// A unit run contains no two adjacent colons, starts with a hex digit, and
/// does not end with a colon.
pub proof fn lemma_unit_run_shape(s: Seq<char>)
    requires
        unit_count(s) is Some,
        s.len() > 0,
    ensures
        is_hex_digit(s[0]),
        s[s.len() - 1] != ':',
        forall|k: int| 0 <= k && k + 1 < s.len() ==> !((#[trigger] s[k]) == ':' && s[k + 1] == ':'),
    decreases s.len(),
{
    if is_ipv4_literal(s) {
        lemma_octets_chars(s, 4);
    } else {
        let r = leading_hex_len(s) as int;
        lemma_leading_hex_len(s);
        if s.len() == r {
        } else {
            let rest = s.skip(r + 1);
            if rest.len() == 0 {
                assert(unit_count(rest) == Some(0 as nat));
                assert(false);
            }
            lemma_unit_run_shape(rest);
            assert(s[s.len() - 1] == rest[rest.len() - 1]);
            assert forall|k: int| 0 <= k && k + 1 < s.len() implies !((#[trigger] s[k]) == ':' && s[k
                + 1] == ':') by {
                if k == r {
                    assert(rest[0] == s[r + 1]);
                } else if k > r {
                    assert(rest[k - r - 1] == s[k]);
                    assert(rest[k - r] == s[k + 1]);
                }
            }
        }
    }
}

/// As lemma_unit_run_shape, for the head form.
pub proof fn lemma_hex_unit_run_shape(s: Seq<char>)
    requires
        hex_unit_count(s) is Some,
        s.len() > 0,
    ensures
        is_hex_digit(s[0]),
        s[s.len() - 1] != ':',
        forall|k: int| 0 <= k && k + 1 < s.len() ==> !((#[trigger] s[k]) == ':' && s[k + 1] == ':'),
    decreases s.len(),
{
    let r = leading_hex_len(s) as int;
    lemma_leading_hex_len(s);
    if s.len() == r {
    } else {
        let rest = s.skip(r + 1);
        if rest.len() == 0 {
            assert(hex_unit_count(rest) == Some(0 as nat));
            assert(false);
        }
        lemma_hex_unit_run_shape(rest);
        assert(s[s.len() - 1] == rest[rest.len() - 1]);
        assert forall|k: int| 0 <= k && k + 1 < s.len() implies !((#[trigger] s[k]) == ':' && s[k
            + 1] == ':') by {
            if k == r {
                assert(rest[0] == s[r + 1]);
            } else if k > r {
                assert(rest[k - r - 1] == s[k]);
                assert(rest[k - r] == s[k + 1]);
            }
        }
    }
}

// ---------------------------------------------------------------------------
// IPv6 literals
// ---------------------------------------------------------------------------

/// A "::" at position i splits s into a valid compressed IPv6 literal: hex
/// groups before it, a unit run after it, and at most seven written units in
/// all, the "::" standing for the units left out.
pub open spec fn dc_split_ok(s: Seq<char>, i: int) -> bool {
    &&& 0 <= i && i + 2 <= s.len()
    &&& s[i] == ':' && s[i + 1] == ':'
    &&& match (hex_unit_count(s.take(i)), unit_count(s.skip(i + 2))) {
        (Some(m), Some(n)) => m + n <= 7,
        _ => false,
    }
}

/// s is an IPv6 address in text form, as std's address parser accepts it:
/// either exactly eight written units, or a "::"-compressed form.
pub open spec fn is_ipv6_literal(s: Seq<char>) -> bool {
    ||| unit_count(s) == Some(8 as nat)
    ||| exists|i: int| dc_split_ok(s, i)
}

/// Decides is_ipv6_literal over s[from..to].
pub fn check_ipv6_range(s: &Vec<char>, from: usize, to: usize) -> (b: bool)
    requires
        from <= to <= s.len(),
    ensures
        b == is_ipv6_literal(s@.subrange(from as int, to as int)),
{
    let ghost sub = s@.subrange(from as int, to as int);
    // find the first "::" in the range
    let mut k = from;
    let mut dc: Option<usize> = None;
    while dc.is_none() && k < to
        invariant
            from <= k <= to <= s.len(),
            match dc {
                Some(d) => {
                    &&& from <= d && d + 1 < to
                    &&& s@[d as int] == ':' && s@[d + 1] == ':'
                    &&& forall|k2: int|
                        from <= k2 && k2 + 1 < to && k2 < d ==> !((#[trigger] s@[k2]) == ':' && s@[k2
                            + 1] == ':')
                },
                None => forall|k2: int|
                    from <= k2 && k2 + 1 < to && k2 < k ==> !((#[trigger] s@[k2]) == ':' && s@[k2
                        + 1] == ':'),
            },
        decreases to - k + (if dc is Some { 0int } else { 1int }),
    {
        if s[k] == ':' && k + 1 < to && s[k + 1] == ':' {
            dc = Some(k);
        } else {
            k = k + 1;
        }
    }
    match dc {
        None => {
            let b = match count_units(s, from, to) {
                Some(u) => u == 8,
                None => false,
            };
            proof {
                assert forall|i: int| !dc_split_ok(sub, i) by {
                    if 0 <= i && i + 2 <= sub.len() {
                        assert(sub[i] == s@[from + i]);
                        assert(sub[i + 1] == s@[from + i + 1]);
                    }
                }
            }
            b
        },
        Some(d) => {
            let head = count_hex_units(s, from, d);
            let tail = count_units(s, d + 2, to);
            let b = match (head, tail) {
                (Some(m), Some(n)) => m <= 7 && n <= 7 && m + n <= 7,
                _ => false,
            };
            proof {
                let i0 = d - from;
                assert(sub.take(i0) =~= s@.subrange(from as int, d as int));
                assert(sub.skip(i0 + 2) =~= s@.subrange(d + 2 as int, to as int));
                assert(sub[i0] == s@[d as int]);
                assert(sub[i0 + 1] == s@[d + 1]);
                if b {
                    assert(dc_split_ok(sub, i0));
                } else {
                    // the split at the first "::" fails, and no other split
                    // can succeed
                    assert forall|i: int| !dc_split_ok(sub, i) by {
                        if 0 <= i && i + 2 <= sub.len() && sub[i] == ':' && sub[i + 1] == ':' {
                            if i < i0 {
                                assert(s@[from + i] == sub[i]);
                                assert(s@[from + i + 1] == sub[i + 1]);
                            } else if i > i0 {
                                let h = sub.take(i);
                                if hex_unit_count(h) is Some {
                                    assert(h.len() > 0);
                                    lemma_hex_unit_run_shape(h);
                                    if i0 + 1 < i {
                                        assert(h[i0] == sub[i0]);
                                        assert(h[i0 + 1] == sub[i0 + 1]);
                                        assert(false);
                                    } else {
                                        assert(h[h.len() - 1] == sub[i0]);
                                        assert(false);
                                    }
                                }
                            }
                        }
                    }
                    // eight plain units would leave no room for the "::"
                    if unit_count(sub) is Some {
                        lemma_unit_run_shape(sub);
                        assert(false);
                    }
                }
            }
            b
        },
    }
}

} // verus!
