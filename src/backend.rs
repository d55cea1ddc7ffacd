//! What the demonstration backend decides for each request: whether it is
//! a liveness probe, which number its path names, and how many factors that
//! number has.
use vstd::prelude::*;
use vstd::string::StringSliceAdditionalSpecFns;

verus! {

/// The number of divisors of `n` among `1..=k`.
pub open spec fn divisors_up_to(n: nat, k: nat) -> nat
    decreases k,
{
    if k == 0 {
        0
    } else if n % k == 0 {
        divisors_up_to(n, (k - 1) as nat) + 1
    } else {
        divisors_up_to(n, (k - 1) as nat)
    }
}

/// The number of positive divisors of `n` (0 for 0).
pub fn count_factors(n: u64) -> (r: u64)
    ensures
        r == divisors_up_to(n as nat, n as nat),
{
    let mut count: u64 = 0;
    let mut i: u64 = 0;
    while i < n
        invariant
            i <= n,
            count <= i,
            count == divisors_up_to(n as nat, i as nat),
        decreases n - i,
    {
        i += 1;
        if n % i == 0 {
            count += 1;
        }
    }
    count
}

/// What a liveness probe's request line starts with.
pub const HEALTH_PREFIX: &'static str = "GET /health ";

/// Whether `s` starts with `prefix`.
pub open spec fn starts_with(s: Seq<u8>, prefix: Seq<u8>) -> bool {
    prefix.len() <= s.len() && s.subrange(0, prefix.len() as int) == prefix
}

/// Whether a request line asks for the liveness check.
pub fn is_health_request(line: &[u8]) -> (r: bool)
    ensures
        r == starts_with(line@, HEALTH_PREFIX.spec_bytes()),
{
    let prefix = HEALTH_PREFIX.as_bytes();
    if prefix.len() > line.len() {
        return false;
    }
    let mut i: usize = 0;
    while i < prefix.len()
        invariant
            prefix@.len() <= line@.len(),
            prefix@.len() == prefix.len(),
            prefix@ == HEALTH_PREFIX.spec_bytes(),
            i <= prefix@.len(),
            forall|j: int| 0 <= j < i ==> line@[j] == prefix@[j],
        decreases prefix@.len() - i,
    {
        if line[i] != prefix[i] {
            assert(line@.subrange(0, prefix@.len() as int)[i as int] != prefix@[i as int]);
            return false;
        }
        i += 1;
    }
    assert(line@.subrange(0, prefix@.len() as int) =~= prefix@);
    true
}

/// `s` with its leading `/` characters removed.
pub open spec fn strip_slashes(s: Seq<u8>) -> Seq<u8>
    decreases s.len(),
{
    if s.len() > 0 && s[0] == 47u8 {
        strip_slashes(s.drop_first())
    } else {
        s
    }
}

pub open spec fn is_digit(b: u8) -> bool {
    48u8 <= b <= 57u8
}

/// The value of a run of decimal digits.
pub open spec fn digits_value(s: Seq<u8>) -> nat
    decreases s.len(),
{
    if s.len() == 0 {
        0
    } else {
        digits_value(s.drop_last()) * 10 + (s.last() - 48u8) as nat
    }
}

/// The digits of an unsigned decimal number, after an optional `+` sign.
pub open spec fn unsigned_digits(s: Seq<u8>) -> Seq<u8> {
    if s.len() > 0 && s[0] == 43u8 {
        s.drop_first()
    } else {
        s
    }
}

/// Whether `s` reads as an unsigned decimal number that fits in a `u64`.
pub open spec fn is_u64_text(s: Seq<u8>) -> bool {
    let d = unsigned_digits(s);
    &&& d.len() > 0
    &&& forall|i: int| 0 <= i < d.len() ==> is_digit(#[trigger] d[i])
    &&& digits_value(d) <= u64::MAX
}

/// The number that a request path names: the path without its leading
/// slashes, read as an unsigned decimal; 1 when it is not one.
pub open spec fn path_number(path: Seq<u8>) -> u64 {
    let t = strip_slashes(path);
    if is_u64_text(t) {
        digits_value(unsigned_digits(t)) as u64
    } else {
        1
    }
}

proof fn lemma_digits_step(s: Seq<u8>, k: int)
    requires
        0 <= k < s.len(),
    ensures
        digits_value(s.subrange(0, k + 1)) == digits_value(s.subrange(0, k)) * 10 + (s[k] - 48u8) as nat,
{
    assert(s.subrange(0, k + 1).drop_last() =~= s.subrange(0, k));
}

proof fn lemma_digits_grow(s: Seq<u8>, k: int, j: int)
    requires
        0 <= k <= j <= s.len(),
    ensures
        digits_value(s.subrange(0, k)) <= digits_value(s.subrange(0, j)),
    decreases j - k,
{
    if k < j {
        lemma_digits_grow(s, k, j - 1);
        lemma_digits_step(s, j - 1);
    }
}

/// Reads the number that a request path names (see `path_number`).
pub fn parse_path_number(path: &[u8]) -> (r: u64)
    ensures
        r == path_number(path@),
{
    let mut start: usize = 0;
    assert(path@.subrange(0, path@.len() as int) =~= path@);
    while start < path.len() && path[start] == 47u8
        invariant
            start <= path@.len(),
            path@.len() == path.len(),
            strip_slashes(path@.subrange(start as int, path@.len() as int)) == strip_slashes(path@),
        decreases path@.len() - start,
    {
        assert(path@.subrange(start as int, path@.len() as int).drop_first() =~= path@.subrange(
            start + 1,
            path@.len() as int,
        ));
        start += 1;
    }
    let ghost t = path@.subrange(start as int, path@.len() as int);
    assert(strip_slashes(t) == t);
    if start < path.len() && path[start] == 43u8 {
        start += 1;
    }
    let ghost d = path@.subrange(start as int, path@.len() as int);
    assert(d =~= unsigned_digits(t));
    if start == path.len() {
        return 1;
    }
    let mut value: u64 = 0;
    let mut i: usize = start;
    while i < path.len()
        invariant
            start <= i <= path@.len(),
            path@.len() == path.len(),
            d == path@.subrange(start as int, path@.len() as int),
            d == unsigned_digits(strip_slashes(path@)),
            d.len() > 0,
            forall|j: int| 0 <= j < i - start ==> is_digit(#[trigger] d[j]),
            value as nat == digits_value(d.subrange(0, i - start)),
        decreases path@.len() - i,
    {
        let b = path[i];
        if b < 48u8 || b > 57u8 {
            assert(!is_digit(d[i - start]));
            return 1;
        }
        let digit = (b - 48u8) as u64;
        proof {
            lemma_digits_step(d, i - start);
        }
        if value > (u64::MAX - digit) / 10 {
            proof {
                assert(value * 10 + digit > u64::MAX) by (nonlinear_arith)
                    requires
                        value > (u64::MAX - digit) / 10,
                        digit <= 9,
                ;
                lemma_digits_grow(d, i - start + 1, d.len() as int);
                assert(d.subrange(0, d.len() as int) =~= d);
            }
            return 1;
        }
        proof {
            assert(value * 10 + digit <= u64::MAX) by (nonlinear_arith)
                requires
                    value <= (u64::MAX - digit) / 10,
                    digit <= 9,
            ;
        }
        value = value * 10 + digit;
        i += 1;
    }
    assert(d.subrange(0, d.len() as int) =~= d);
    value
}

} // verus!
