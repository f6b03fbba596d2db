//! Unsigned numbers in text form: the grammar the scanner accepts for pool
//! GUIDs (hexadecimal, prefixed) and for sizes (decimal).

use vstd::prelude::*;
use vstd::string::*;

verus! {

/// The value of `c` as a digit in the given radix (10 or 16), if it is one.
pub open spec fn digit_value(c: char, radix: nat) -> Option<nat> {
    if '0' <= c <= '9' {
        Some((c as nat - '0' as nat) as nat)
    } else if radix == 16 && 'a' <= c <= 'f' {
        Some((c as nat - 'a' as nat + 10) as nat)
    } else if radix == 16 && 'A' <= c <= 'F' {
        Some((c as nat - 'A' as nat + 10) as nat)
    } else {
        None
    }
}

/// Every character of `s` is a digit in the given radix.
pub open spec fn all_digits(s: Seq<char>, radix: nat) -> bool {
    forall|i: int| 0 <= i < s.len() ==> (#[trigger] digit_value(s[i], radix)) is Some
}

/// The number that a string of digits denotes, most significant digit first.
pub open spec fn digits_value(s: Seq<char>, radix: nat) -> nat
    decreases s.len(),
{
    if s.len() == 0 {
        0
    } else {
        digits_value(s.drop_last(), radix) * radix + digit_value(s.last(), radix).unwrap_or(0)
    }
}

/// What is left of `s` once a leading `+` is taken away.
pub open spec fn unsigned_body(s: Seq<char>) -> Seq<char> {
    if s.len() > 0 && s[0] == '+' {
        s.drop_first()
    } else {
        s
    }
}

/// The number written in `s`: an optional `+`, then one or more digits whose
/// value fits in 64 bits. `None` for anything else.
pub open spec fn parse_unsigned(s: Seq<char>, radix: nat) -> Option<u64> {
    let body = unsigned_body(s);
    if body.len() > 0 && all_digits(body, radix) && digits_value(body, radix) <= u64::MAX {
        Some(digits_value(body, radix) as u64)
    } else {
        None
    }
}

/// `s` without any leading repetitions of `0x`.
pub open spec fn strip_hex_prefix(s: Seq<char>) -> Seq<char>
    decreases s.len(),
{
    if s.len() >= 2 && s[0] == '0' && s[1] == 'x' {
        strip_hex_prefix(s.skip(2))
    } else {
        s
    }
}

/// A longer string of digits denotes no smaller a number than its prefix.
proof fn lemma_digits_value_grows(s: Seq<char>, k: int, radix: nat)
    requires
        0 <= k <= s.len(),
        radix >= 1,
    ensures
        digits_value(s.subrange(0, k), radix) <= digits_value(s, radix),
    decreases s.len() - k,
{
    if k == s.len() {
        assert(s.subrange(0, k) =~= s);
    } else {
        lemma_digits_value_grows(s.drop_last(), k, radix);
        assert(s.drop_last().subrange(0, k) =~= s.subrange(0, k));
        let v = digits_value(s.drop_last(), radix);
        assert(v <= v * radix) by (nonlinear_arith)
            requires
                radix >= 1,
        ;
    }
}

fn digit_of(c: char, radix: u64) -> (r: Option<u64>)
    requires
        radix == 10 || radix == 16,
    ensures
        r is Some <==> digit_value(c, radix as nat) is Some,
        r is Some ==> r->0 == digit_value(c, radix as nat)->0 && r->0 < radix,
{
    let n: u32 = c as u32;
    if '0' <= c && c <= '9' {
        Some((n - 48) as u64)
    } else if radix == 16 && 'a' <= c && c <= 'f' {
        Some((n - 97 + 10) as u64)
    } else if radix == 16 && 'A' <= c && c <= 'F' {
        Some((n - 65 + 10) as u64)
    } else {
        None
    }
}

/// Reads the digits of `s` from position `from` on.
fn parse_digits_from(s: &str, from: usize, radix: u64) -> (r: Option<u64>)
    requires
        radix == 10 || radix == 16,
        from <= s@.len(),
    ensures
        r == ({
            let body = s@.skip(from as int);
            if body.len() > 0 && all_digits(body, radix as nat) && digits_value(body, radix as nat)
                <= u64::MAX {
                Some(digits_value(body, radix as nat) as u64)
            } else {
                None
            }
        }),
{
    let n = s.unicode_len();
    let ghost body = s@.skip(from as int);
    if from == n {
        return None;
    }
    let mut acc: u64 = 0;
    let mut i: usize = from;
    assert(body.subrange(0, 0) =~= Seq::<char>::empty());
    while i < n
        invariant
            radix == 10 || radix == 16,
            from <= i <= n,
            n == s@.len(),
            body == s@.skip(from as int),
            all_digits(body.subrange(0, i - from), radix as nat),
            acc == digits_value(body.subrange(0, i - from), radix as nat),
        decreases n - i,
    {
        let c = s.get_char(i);
        let ghost prefix = body.subrange(0, i - from);
        let ghost next = body.subrange(0, i - from + 1);
        proof {
            assert(next.drop_last() =~= prefix);
            assert(next.last() == c);
        }
        match digit_of(c, radix) {
            None => {
                assert(digit_value(body[i - from], radix as nat) is None);
                return None;
            },
            Some(d) => {
                let shifted = match acc.checked_mul(radix) {
                    Some(v) => v.checked_add(d),
                    None => None,
                };
                match shifted {
                    Some(v) => {
                        assert(v == digits_value(next, radix as nat));
                        assert forall|j: int| 0 <= j < next.len() implies (#[trigger] digit_value(
                            next[j],
                            radix as nat,
                        )) is Some by {
                            if j < prefix.len() {
                                assert(next[j] == prefix[j]);
                            }
                        }
                        acc = v;
                    },
                    None => {
                        assert(digits_value(next, radix as nat) > u64::MAX);
                        proof {
                            lemma_digits_value_grows(body, i - from + 1, radix as nat);
                        }
                        return None;
                    },
                }
            },
        }
        i += 1;
    }
    assert(body.subrange(0, n - from) =~= body);
    Some(acc)
}

/// Reads an unsigned number in the given radix from position `from` of `s`
/// on: an optional `+`, then digits.
fn parse_unsigned_from(s: &str, from: usize, radix: u64) -> (r: Option<u64>)
    requires
        radix == 10 || radix == 16,
        from <= s@.len(),
    ensures
        r == parse_unsigned(s@.skip(from as int), radix as nat),
{
    let n = s.unicode_len();
    let ghost rest = s@.skip(from as int);
    if from < n && s.get_char(from) == '+' {
        assert(rest[0] == '+');
        assert(rest.drop_first() =~= s@.skip(from + 1));
        parse_digits_from(s, from + 1, radix)
    } else {
        parse_digits_from(s, from, radix)
    }
}

/// Reads a decimal number: an optional `+`, then digits.
pub fn parse_decimal(s: &str) -> (r: Option<u64>)
    ensures
        r == parse_unsigned(s@, 10),
{
    assert(s@.skip(0) =~= s@);
    parse_unsigned_from(s, 0, 10)
}

/// Reads a hexadecimal number that may be prefixed by `0x`.
pub fn parse_prefixed_hex(s: &str) -> (r: Option<u64>)
    ensures
        r == parse_unsigned(strip_hex_prefix(s@), 16),
{
    let n = s.unicode_len();
    let mut from: usize = 0;
    assert(s@.skip(0) =~= s@);
    while n - from >= 2 && s.get_char(from) == '0' && s.get_char(from + 1) == 'x'
        invariant
            from <= n,
            n == s@.len(),
            strip_hex_prefix(s@) == strip_hex_prefix(s@.skip(from as int)),
        decreases n - from,
    {
        assert(s@.skip(from as int).skip(2) =~= s@.skip(from + 2));
        from += 2;
    }
    parse_unsigned_from(s, from, 16)
}

} // verus!
