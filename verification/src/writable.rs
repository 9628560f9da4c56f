//! A capability for writing a value as UTF-8 text into a growable byte
//! buffer without an intermediate allocation.

use vstd::prelude::*;

verus! {

use vstd::string::StringSliceAdditionalSpecFns;

/// Something that can be written as UTF-8 text to a byte buffer.
///
/// `text_repr` is the exact byte sequence the value denotes; `writable`
/// says which values can be written (for example, a `char` must be ASCII,
/// since a text payload is a raw byte here).
pub trait WritableText: Sized {
    /// The UTF-8 bytes this value denotes.
    spec fn text_repr(&self) -> Seq<u8>;

    /// Whether this value can be written.
    spec fn writable(&self) -> bool;

    /// Append the value's bytes to `to`.
    fn write_as_text(self, to: &mut Vec<u8>)
        requires
            self.writable(),
        ensures
            final(to)@ == old(to)@ + self.text_repr(),
    ;
}

impl<'a> WritableText for &'a str {
    open spec fn text_repr(&self) -> Seq<u8> {
        self.spec_bytes()
    }

    open spec fn writable(&self) -> bool {
        true
    }

    fn write_as_text(self, to: &mut Vec<u8>) {
        let bytes = self.as_bytes();
        to.extend_from_slice(bytes);
    }
}

impl WritableText for String {
    open spec fn text_repr(&self) -> Seq<u8> {
        vstd::utf8::encode_utf8(self@)
    }

    open spec fn writable(&self) -> bool {
        true
    }

    fn write_as_text(self, to: &mut Vec<u8>) {
        let bytes = self.as_str().as_bytes();
        to.extend_from_slice(bytes);
    }
}

/// The decimal digits of a non-negative number, as ASCII bytes.
pub open spec fn dec_digits(n: int) -> Seq<u8>
    decreases n,
{
    if n < 10 {
        seq![(48 + n) as u8]
    } else {
        dec_digits(n / 10).push((48 + n % 10) as u8)
    }
}

/// The decimal rendering of a signed number: a minus sign, then digits.
pub open spec fn int_digits(n: int) -> Seq<u8> {
    if n < 0 {
        seq![45u8] + dec_digits(-n)
    } else {
        dec_digits(n)
    }
}

/// Append the decimal digits of `n` to the buffer.
fn push_u64_decimal(to: &mut Vec<u8>, n: u64)
    ensures
        final(to)@ == old(to)@ + dec_digits(n as int),
{
    let mut m: u64 = n;
    let mut tmp: Vec<u8> = Vec::new();
    tmp.push(48 + (m % 10) as u8);
    m = m / 10;
    proof {
        if m > 0 {
            assert(dec_digits(n as int) =~= dec_digits(m as int) + tmp@.reverse());
        } else {
            assert(dec_digits(n as int) =~= tmp@.reverse());
        }
    }
    while m > 0
        invariant
            m > 0 ==> dec_digits(n as int) == dec_digits(m as int) + tmp@.reverse(),
            m == 0 ==> dec_digits(n as int) == tmp@.reverse(),
        decreases m,
    {
        let ghost tmp0 = tmp@;
        let ghost m0 = m;
        tmp.push(48 + (m % 10) as u8);
        m = m / 10;
        proof {
            let d = (48 + m0 % 10) as u8;
            assert(tmp@.reverse() =~= seq![d] + tmp0.reverse());
            if m > 0 {
                assert(dec_digits(m0 as int) == dec_digits(m as int).push(d));
                assert(dec_digits(n as int) =~= dec_digits(m as int) + tmp@.reverse());
            } else {
                assert(dec_digits(m0 as int) =~= seq![d]);
                assert(dec_digits(n as int) =~= tmp@.reverse());
            }
        }
    }
    while tmp.len() > 0
        invariant
            to@ + tmp@.reverse() == old(to)@ + dec_digits(n as int),
        decreases tmp@.len(),
    {
        let ghost tmp0 = tmp@;
        let d = match tmp.pop() {
            Option::Some(d) => d,
            Option::None => 0,
        };
        to.push(d);
        proof {
            assert(tmp0.reverse() =~= seq![d] + tmp@.reverse());
        }
    }
    proof {
        assert(to@ =~= to@ + tmp@.reverse());
    }
}

/// Append the decimal digits of `n` to the buffer.
fn push_u128_decimal(to: &mut Vec<u8>, n: u128)
    ensures
        final(to)@ == old(to)@ + dec_digits(n as int),
{
    let mut m: u128 = n;
    let mut tmp: Vec<u8> = Vec::new();
    tmp.push(48 + (m % 10) as u8);
    m = m / 10;
    proof {
        if m > 0 {
            assert(dec_digits(n as int) =~= dec_digits(m as int) + tmp@.reverse());
        } else {
            assert(dec_digits(n as int) =~= tmp@.reverse());
        }
    }
    while m > 0
        invariant
            m > 0 ==> dec_digits(n as int) == dec_digits(m as int) + tmp@.reverse(),
            m == 0 ==> dec_digits(n as int) == tmp@.reverse(),
        decreases m,
    {
        let ghost tmp0 = tmp@;
        let ghost m0 = m;
        tmp.push(48 + (m % 10) as u8);
        m = m / 10;
        proof {
            let d = (48 + m0 % 10) as u8;
            assert(tmp@.reverse() =~= seq![d] + tmp0.reverse());
            if m > 0 {
                assert(dec_digits(m0 as int) == dec_digits(m as int).push(d));
                assert(dec_digits(n as int) =~= dec_digits(m as int) + tmp@.reverse());
            } else {
                assert(dec_digits(m0 as int) =~= seq![d]);
                assert(dec_digits(n as int) =~= tmp@.reverse());
            }
        }
    }
    while tmp.len() > 0
        invariant
            to@ + tmp@.reverse() == old(to)@ + dec_digits(n as int),
        decreases tmp@.len(),
    {
        let ghost tmp0 = tmp@;
        let d = match tmp.pop() {
            Option::Some(d) => d,
            Option::None => 0,
        };
        to.push(d);
        proof {
            assert(tmp0.reverse() =~= seq![d] + tmp@.reverse());
        }
    }
    proof {
        assert(to@ =~= to@ + tmp@.reverse());
    }
}

impl WritableText for u64 {
    open spec fn text_repr(&self) -> Seq<u8> {
        dec_digits(*self as int)
    }

    open spec fn writable(&self) -> bool {
        true
    }

    fn write_as_text(self, to: &mut Vec<u8>) {
        push_u64_decimal(to, self);
    }
}

impl WritableText for u32 {
    open spec fn text_repr(&self) -> Seq<u8> {
        dec_digits(*self as int)
    }

    open spec fn writable(&self) -> bool {
        true
    }

    fn write_as_text(self, to: &mut Vec<u8>) {
        push_u64_decimal(to, self as u64);
    }
}

impl WritableText for u16 {
    open spec fn text_repr(&self) -> Seq<u8> {
        dec_digits(*self as int)
    }

    open spec fn writable(&self) -> bool {
        true
    }

    fn write_as_text(self, to: &mut Vec<u8>) {
        push_u64_decimal(to, self as u64);
    }
}

impl WritableText for u8 {
    open spec fn text_repr(&self) -> Seq<u8> {
        dec_digits(*self as int)
    }

    open spec fn writable(&self) -> bool {
        true
    }

    fn write_as_text(self, to: &mut Vec<u8>) {
        push_u64_decimal(to, self as u64);
    }
}

impl WritableText for usize {
    open spec fn text_repr(&self) -> Seq<u8> {
        dec_digits(*self as int)
    }

    open spec fn writable(&self) -> bool {
        true
    }

    fn write_as_text(self, to: &mut Vec<u8>) {
        push_u64_decimal(to, self as u64);
    }
}

impl WritableText for i64 {
    open spec fn text_repr(&self) -> Seq<u8> {
        int_digits(*self as int)
    }

    open spec fn writable(&self) -> bool {
        true
    }

    fn write_as_text(self, to: &mut Vec<u8>) {
        if self < 0 {
            to.push(45);
            let mag: u64 = (-(self as i128)) as u64;
            push_u64_decimal(to, mag);
            proof {
                assert(final(to)@ =~= old(to)@ + (seq![45u8] + dec_digits(-(self as int))));
            }
        } else {
            push_u64_decimal(to, self as u64);
        }
    }
}

impl WritableText for i32 {
    open spec fn text_repr(&self) -> Seq<u8> {
        int_digits(*self as int)
    }

    open spec fn writable(&self) -> bool {
        true
    }

    fn write_as_text(self, to: &mut Vec<u8>) {
        if self < 0 {
            to.push(45);
            let mag: u64 = (-(self as i64)) as u64;
            push_u64_decimal(to, mag);
            proof {
                assert(final(to)@ =~= old(to)@ + (seq![45u8] + dec_digits(-(self as int))));
            }
        } else {
            push_u64_decimal(to, self as u64);
        }
    }
}

impl WritableText for i16 {
    open spec fn text_repr(&self) -> Seq<u8> {
        int_digits(*self as int)
    }

    open spec fn writable(&self) -> bool {
        true
    }

    fn write_as_text(self, to: &mut Vec<u8>) {
        (self as i64).write_as_text(to);
    }
}

impl WritableText for i8 {
    open spec fn text_repr(&self) -> Seq<u8> {
        int_digits(*self as int)
    }

    open spec fn writable(&self) -> bool {
        true
    }

    fn write_as_text(self, to: &mut Vec<u8>) {
        (self as i64).write_as_text(to);
    }
}

impl WritableText for isize {
    open spec fn text_repr(&self) -> Seq<u8> {
        int_digits(*self as int)
    }

    open spec fn writable(&self) -> bool {
        true
    }

    fn write_as_text(self, to: &mut Vec<u8>) {
        (self as i64).write_as_text(to);
    }
}


impl WritableText for u128 {
    open spec fn text_repr(&self) -> Seq<u8> {
        dec_digits(*self as int)
    }

    open spec fn writable(&self) -> bool {
        true
    }

    fn write_as_text(self, to: &mut Vec<u8>) {
        push_u128_decimal(to, self);
    }
}

impl WritableText for i128 {
    open spec fn text_repr(&self) -> Seq<u8> {
        int_digits(*self as int)
    }

    open spec fn writable(&self) -> bool {
        true
    }

    fn write_as_text(self, to: &mut Vec<u8>) {
        if self < 0 {
            to.push(45);
            let mag: u128 = if self == i128::MIN {
                170141183460469231731687303715884105728u128
            } else {
                (-self) as u128
            };
            push_u128_decimal(to, mag);
            proof {
                assert(final(to)@ =~= old(to)@ + (seq![45u8] + dec_digits(-(self as int))));
            }
        } else {
            push_u128_decimal(to, self as u128);
        }
    }
}

impl WritableText for char {
    open spec fn text_repr(&self) -> Seq<u8> {
        seq![(*self) as u8]
    }

    open spec fn writable(&self) -> bool {
        ((*self) as u32) < 128
    }

    fn write_as_text(self, to: &mut Vec<u8>) {
        to.push(self as u8);
    }
}

} // verus!
