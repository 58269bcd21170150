//! A color as named red, green and blue channels, written as `#rrggbb`.
use vstd::prelude::*;
use crate::fixed::RgbBytes;

verus! {

/// The lowercase hexadecimal digits in order.
pub open spec fn hex_digits() -> Seq<char> {
    seq!['0', '1', '2', '3', '4', '5', '6', '7', '8', '9', 'a', 'b', 'c', 'd', 'e', 'f']
}

/// A byte as two lowercase hexadecimal digits.
pub open spec fn hex_pair(b: u8) -> Seq<char> {
    seq![hex_digits()[(b / 16) as int], hex_digits()[(b % 16) as int]]
}

/// A color with 8 bits per channel.
#[derive(Copy, Clone, Debug, PartialEq, Eq, Structural)]
pub struct RGB {
    pub red: u8,
    pub green: u8,
    pub blue: u8,
}

impl RGB {
    pub fn new(red: u8, green: u8, blue: u8) -> (r: RGB)
        ensures
            r == (RGB { red, green, blue }),
    {
        RGB { red, green, blue }
    }

    /// The channels in the order red, green, blue.
    pub fn channels(&self) -> (r: RgbBytes)
        ensures
            r@ == seq![self.red, self.green, self.blue],
    {
        let r = [self.red, self.green, self.blue];
        assert(r@ =~= seq![self.red, self.green, self.blue]);
        r
    }

    /// The color as `#` followed by two lowercase hexadecimal digits for each
    /// of red, green and blue.
    pub fn to_hex(&self) -> (r: String)
        ensures
            r@ == seq!['#'] + hex_pair(self.red) + hex_pair(self.green) + hex_pair(self.blue),
    {
        let mut out = String::from_str("#");
        proof {
            reveal_strlit("#");
        }
        push_hex(&mut out, self.red);
        push_hex(&mut out, self.green);
        push_hex(&mut out, self.blue);
        out
    }
}

/// Appends the two hexadecimal digits of `b`.
fn push_hex(out: &mut String, b: u8)
    ensures
        final(out)@ == old(out)@ + hex_pair(b),
{
    let digits = "0123456789abcdef";
    proof {
        reveal_strlit("0123456789abcdef");
        assert(digits@ =~= hex_digits());
    }
    let hi = (b / 16) as usize;
    let lo = (b % 16) as usize;
    out.append(digits.substring_ascii(hi, hi + 1));
    out.append(digits.substring_ascii(lo, lo + 1));
    assert(digits@.subrange(hi as int, hi + 1) =~= seq![hex_digits()[(b / 16) as int]]);
    assert(digits@.subrange(lo as int, lo + 1) =~= seq![hex_digits()[(b % 16) as int]]);
    assert(final(out)@ =~= old(out)@ + hex_pair(b));
}

} // verus!
