//! Names for the attributes of a pool as events carry them.

use crate::error::Error;
use crate::number::{
    all_digits, digit_value, digits_value, parse_prefixed_hex, parse_unsigned, strip_hex_prefix,
    unsigned_body,
};
use vstd::prelude::*;
use vstd::std_specs::convert::FromSpecImpl;
use vstd::string::*;

verus! {

/// The name of a pool.
#[derive(Debug, PartialEq)]
pub struct Name(pub String);

/// The GUID of a pool in text form: sixteen hexadecimal digits after `0x`.
#[derive(Debug, PartialEq)]
pub struct Guid(pub String);

/// The state of a pool.
#[derive(Debug, PartialEq)]
pub struct State(pub String);

impl View for Name {
    type V = Seq<char>;

    open spec fn view(&self) -> Seq<char> {
        self.0@
    }
}

impl View for Guid {
    type V = Seq<char>;

    open spec fn view(&self) -> Seq<char> {
        self.0@
    }
}

impl View for State {
    type V = Seq<char>;

    open spec fn view(&self) -> Seq<char> {
        self.0@
    }
}

/// The upper-case hexadecimal digit for a value below sixteen.
pub open spec fn hex_upper(d: nat) -> char {
    if d == 0 {
        '0'
    } else if d == 1 {
        '1'
    } else if d == 2 {
        '2'
    } else if d == 3 {
        '3'
    } else if d == 4 {
        '4'
    } else if d == 5 {
        '5'
    } else if d == 6 {
        '6'
    } else if d == 7 {
        '7'
    } else if d == 8 {
        '8'
    } else if d == 9 {
        '9'
    } else if d == 10 {
        'A'
    } else if d == 11 {
        'B'
    } else if d == 12 {
        'C'
    } else if d == 13 {
        'D'
    } else if d == 14 {
        'E'
    } else {
        'F'
    }
}

/// The last `width` hexadecimal digits of `x`, most significant first.
pub open spec fn hex_digits(x: nat, width: nat) -> Seq<char>
    decreases width,
{
    if width == 0 {
        seq![]
    } else {
        hex_digits(x / 16, (width - 1) as nat).push(hex_upper(x % 16))
    }
}

/// The text of a GUID: `0x`, then its sixteen hexadecimal digits.
pub open spec fn guid_text(x: u64) -> Seq<char> {
    seq!['0', 'x'] + hex_digits(x as nat, 16)
}

/// The number that the text of a GUID stands for, if it is well formed: any
/// number of `0x` prefixes, then a hexadecimal number of at most 64 bits.
pub open spec fn guid_value(text: Seq<char>) -> Option<u64> {
    parse_unsigned(strip_hex_prefix(text), 16)
}

fn hex_str(d: u64) -> (r: &'static str)
    requires
        d < 16,
    ensures
        r@ == seq![hex_upper(d as nat)],
{
    proof {
        reveal_strlit("0");
        reveal_strlit("1");
        reveal_strlit("2");
        reveal_strlit("3");
        reveal_strlit("4");
        reveal_strlit("5");
        reveal_strlit("6");
        reveal_strlit("7");
        reveal_strlit("8");
        reveal_strlit("9");
        reveal_strlit("A");
        reveal_strlit("B");
        reveal_strlit("C");
        reveal_strlit("D");
        reveal_strlit("E");
        reveal_strlit("F");
    }
    let r = if d == 0 {
        "0"
    } else if d == 1 {
        "1"
    } else if d == 2 {
        "2"
    } else if d == 3 {
        "3"
    } else if d == 4 {
        "4"
    } else if d == 5 {
        "5"
    } else if d == 6 {
        "6"
    } else if d == 7 {
        "7"
    } else if d == 8 {
        "8"
    } else if d == 9 {
        "9"
    } else if d == 10 {
        "A"
    } else if d == 11 {
        "B"
    } else if d == 12 {
        "C"
    } else if d == 13 {
        "D"
    } else if d == 14 {
        "E"
    } else {
        "F"
    };
    assert(r@ =~= seq![hex_upper(d as nat)]);
    r
}

fn push_hex(x: u64, width: usize, out: &mut String)
    ensures
        final(out)@ == old(out)@ + hex_digits(x as nat, width as nat),
    decreases width,
{
    if width > 0 {
        push_hex(x / 16, width - 1, out);
        out.append(hex_str(x % 16));
        assert(out@ =~= old(out)@ + hex_digits(x as nat, width as nat));
    } else {
        assert(out@ =~= old(out)@ + hex_digits(x as nat, width as nat));
    }
}

impl Guid {
    /// The GUID in text form.
    pub fn from_u64(x: u64) -> (g: Guid)
        ensures
            g@ == guid_text(x),
    {
        proof {
            reveal_strlit("0x");
        }
        let mut s = String::from_str("0x");
        push_hex(x, 16, &mut s);
        assert(s@ =~= guid_text(x));
        Guid(s)
    }

    /// The number the text stands for, or `ParseInt` where it is malformed.
    pub fn to_u64(&self) -> (r: Result<u64, Error>)
        ensures
            r == match guid_value(self@) {
                Some(n) => Ok::<u64, Error>(n),
                None => Err::<u64, Error>(Error::ParseInt),
            },
    {
        match parse_prefixed_hex(self.0.as_str()) {
            Some(n) => Ok(n),
            None => Err(Error::ParseInt),
        }
    }
}

impl FromSpecImpl<u64> for Guid {
    open spec fn obeys_from_spec() -> bool {
        false
    }

    open spec fn from_spec(x: u64) -> Guid {
        arbitrary()
    }
}

impl From<u64> for Guid {
    fn from(x: u64) -> (g: Guid)
        ensures
            g@ == guid_text(x),
    {
        Guid::from_u64(x)
    }
}

impl State {
    /// The text of the state.
    pub fn into_string(self) -> (s: String)
        ensures
            s@ == self@,
    {
        self.0
    }
}

/// Sixteen to the power of `w`.
spec fn pow16(w: nat) -> nat
    decreases w,
{
    if w == 0 {
        1
    } else {
        16 * pow16((w - 1) as nat)
    }
}

/// The digits of a number are digits, and they denote the number where it
/// has no more digits than were asked for.
proof fn lemma_hex_digits(x: nat, width: nat)
    ensures
        hex_digits(x, width).len() == width,
        all_digits(hex_digits(x, width), 16),
        forall|i: int|
            0 <= i < width ==> (#[trigger] hex_digits(x, width)[i]) != 'x' && hex_digits(
                x,
                width,
            )[i] != '+',
        x < pow16(width) ==> digits_value(hex_digits(x, width), 16) == x,
    decreases width,
{
    if width > 0 {
        let rest = hex_digits(x / 16, (width - 1) as nat);
        let last = hex_upper(x % 16);
        let all = hex_digits(x, width);
        lemma_hex_digits(x / 16, (width - 1) as nat);
        assert(all == rest.push(last));
        assert(digit_value(last, 16) == Some(x % 16));
        assert forall|i: int| 0 <= i < all.len() implies (#[trigger] digit_value(all[i], 16))
            is Some by {
            if i < rest.len() {
                assert(all[i] == rest[i]);
            }
        }
        assert forall|i: int| 0 <= i < width implies (#[trigger] all[i]) != 'x' && all[i]
            != '+' by {
            if i < rest.len() {
                assert(all[i] == rest[i]);
            }
        }
        assert(all.drop_last() =~= rest);
        if x < pow16(width) {
            assert(x / 16 < pow16((width - 1) as nat));
        }
    }
}

/// The text of a GUID stands for the GUID.
pub proof fn law_guid_round_trip(x: u64)
    ensures
        guid_value(guid_text(x)) == Some(x),
{
    let digits = hex_digits(x as nat, 16);
    let text = guid_text(x);
    lemma_hex_digits(x as nat, 16);
    assert(pow16(16) == 0x1_0000_0000_0000_0000) by {
        reveal_with_fuel(pow16, 17);
    }
    assert(text.skip(2) =~= digits);
    assert(text[0] == '0' && text[1] == 'x');
    assert(digits[1] != 'x');
    assert(strip_hex_prefix(digits) == digits);
    assert(strip_hex_prefix(text) == digits);
    assert(digits[0] != '+');
    assert(unsigned_body(digits) == digits);
}

} // verus!
