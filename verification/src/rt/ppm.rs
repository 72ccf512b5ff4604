use crate::shapes::obj::{digits_value, index_spec, is_digits, DIGIT_NINE, PLUS, SPACE, DIGIT_ZERO};
use vstd::prelude::*;

verus! {

/// The line feed that ends the header of an image.
pub const LINE_FEED: u8 = 10;

/// The decimal digits of `n`, the most significant first, without leading
/// zeros.
pub open spec fn decimal_spec(n: nat) -> Seq<u8>
    decreases n,
{
    if n < 10 {
        seq![(DIGIT_ZERO + n) as u8]
    } else {
        decimal_spec(n / 10).push((DIGIT_ZERO + n % 10) as u8)
    }
}

/// The digits before the last ones written: none once nothing is left.
spec fn leading(rest: nat) -> Seq<u8> {
    if rest == 0 {
        Seq::empty()
    } else {
        decimal_spec(rest)
    }
}

/// The decimal digits of a number write that number.
pub proof fn lemma_decimal_reads_back(n: nat)
    ensures
        is_digits(decimal_spec(n)),
        digits_value(decimal_spec(n)) == n,
        n <= usize::MAX ==> index_spec(decimal_spec(n)) == Some(n as usize),
    decreases n,
{
    let digits = decimal_spec(n);
    if n < 10 {
        assert(digits.len() == 1 && digits[0] == DIGIT_ZERO + n);
        assert(digits.drop_last() =~= Seq::<u8>::empty());
        assert(digits_value(digits.drop_last()) == 0);
    } else {
        lemma_decimal_reads_back(n / 10);
        let before = decimal_spec(n / 10);
        assert(digits.drop_last() =~= before);
        assert(digits.last() == DIGIT_ZERO + n % 10);
        assert forall|i: int| 0 <= i < digits.len() implies DIGIT_ZERO <= #[trigger] digits[i] <= DIGIT_NINE by {
            if i < before.len() {
                assert(digits[i] == before[i]);
            }
        }
    }
    assert(digits[0] != PLUS);
}

/// Writes `n` in decimal digits.
pub fn decimal(n: usize) -> (r: Vec<u8>)
    ensures
        r@ == decimal_spec(n as nat),
{
    let mut reversed: Vec<u8> = Vec::new();
    let mut rest: usize = n;
    reversed.push(DIGIT_ZERO + (rest % 10) as u8);
    rest = rest / 10;
    proof {
        assert(reversed@.reverse() =~= seq![(DIGIT_ZERO + n % 10) as u8]);
        if n >= 10 {
            assert(decimal_spec(n as nat) =~= leading(rest as nat) + reversed@.reverse());
        }
    }
    while rest > 0
        invariant
            reversed.len() > 0,
            decimal_spec(n as nat) == leading(rest as nat) + reversed@.reverse(),
        decreases rest,
    {
        let digit = DIGIT_ZERO + (rest % 10) as u8;
        let ghost before = reversed@;
        reversed.push(digit);
        proof {
            assert(reversed@.reverse() =~= seq![digit] + before.reverse());
            assert(leading(rest as nat) =~= leading((rest / 10) as nat) + seq![digit]);
            assert(leading(rest as nat) + before.reverse() =~= leading((rest / 10) as nat)
                + reversed@.reverse());
        }
        rest = rest / 10;
    }
    let mut out: Vec<u8> = Vec::new();
    let mut i: usize = reversed.len();
    while i > 0
        invariant
            i <= reversed.len(),
            out@ == reversed@.reverse().take(reversed.len() - i),
        decreases i,
    {
        i -= 1;
        out.push(reversed[i]);
        assert(out@ =~= reversed@.reverse().take(reversed.len() - i));
    }
    assert(out@ =~= reversed@.reverse());
    assert(leading(0) + reversed@.reverse() =~= reversed@.reverse());
    out
}

/// The header of a binary colour image of the given size with channels of
/// one byte: the two bytes that name the format (the letter `P` and the
/// digit `6`), the width, the height and 255, with a space between them and
/// a line feed at the end.
pub open spec fn header_spec(width: nat, height: nat) -> Seq<u8> {
    seq![80u8, 54u8, SPACE] + decimal_spec(width) + seq![SPACE] + decimal_spec(height) + seq![
        SPACE,
        50u8,
        53u8,
        53u8,
        LINE_FEED,
    ]
}

/// Writes the header of an image.
pub fn header(width: usize, height: usize) -> (r: Vec<u8>)
    ensures
        r@ == header_spec(width as nat, height as nat),
{
    let mut out: Vec<u8> = Vec::new();
    out.push(80);
    out.push(54);
    out.push(SPACE);
    let mut w = decimal(width);
    out.append(&mut w);
    out.push(SPACE);
    let mut h = decimal(height);
    out.append(&mut h);
    out.push(SPACE);
    out.push(50);
    out.push(53);
    out.push(53);
    out.push(LINE_FEED);
    assert(out@ =~= header_spec(width as nat, height as nat));
    out
}

} // verus!
