//! Decimal rendering of integers, as `Display` writes them, and integers of
//! any size.
use vstd::prelude::*;

verus! {

/// The character of a decimal digit.
pub open spec fn digit_char(d: nat) -> char {
    if d == 0 { '0' }
    else if d == 1 { '1' }
    else if d == 2 { '2' }
    else if d == 3 { '3' }
    else if d == 4 { '4' }
    else if d == 5 { '5' }
    else if d == 6 { '6' }
    else if d == 7 { '7' }
    else if d == 8 { '8' }
    else { '9' }
}

/// Decimal digits of a natural number, most significant first, without leading zeros.
pub open spec fn nat_decimal(n: nat) -> Seq<char>
    decreases n,
{
    if n < 10 {
        seq![digit_char(n)]
    } else {
        nat_decimal(n / 10) + seq![digit_char(n % 10)]
    }
}

/// Decimal text of an integer: a minus sign before the digits of a negative number.
pub open spec fn int_decimal(i: int) -> Seq<char> {
    if i < 0 {
        seq!['-'] + nat_decimal((-i) as nat)
    } else {
        nat_decimal(i as nat)
    }
}

fn digit_str(d: u128) -> (s: &'static str)
    requires
        d < 10,
    ensures
        s@ == seq![digit_char(d as nat)],
{
    proof {
        reveal_strlit("0");
        reveal_strlit("1");
        reveal_strlit("2");
        reveal_strlit("3");
        reveal_strlit("4");
        reveal_strlit("5");
        reveal_strlit("6");
        reveal_strlit("7");
        reveal_strlit("8");
        reveal_strlit("9");
    }
    if d == 0 { "0" }
    else if d == 1 { "1" }
    else if d == 2 { "2" }
    else if d == 3 { "3" }
    else if d == 4 { "4" }
    else if d == 5 { "5" }
    else if d == 6 { "6" }
    else if d == 7 { "7" }
    else if d == 8 { "8" }
    else { "9" }
}

/// Appends the decimal digits of `n` to `out`.
pub fn push_unsigned(out: &mut String, n: u128)
    ensures
        final(out)@ == old(out)@ + nat_decimal(n as nat),
    decreases n,
{
    if n >= 10 {
        push_unsigned(out, n / 10);
    }
    out.append(digit_str(n % 10));
}

/// Appends the decimal text of `i` to `out`, as `Display` writes it.
pub fn push_signed(out: &mut String, i: i128)
    ensures
        final(out)@ == old(out)@ + int_decimal(i as int),
{
    if i < 0 {
        proof {
            reveal_strlit("-");
        }
        out.append("-");
        let magnitude: u128 = ((-(i + 1)) as u128) + 1;
        push_unsigned(out, magnitude);
    } else {
        push_unsigned(out, i as u128);
    }
}

/// The number that decimal digits stand for, most significant first.
pub open spec fn digits_value(ds: Seq<u8>) -> nat
    decreases ds.len(),
{
    if ds.len() == 0 {
        0
    } else {
        digits_value(ds.drop_last()) * 10 + ds.last() as nat
    }
}

/// Decimal digits as `Display` writes a number: at least one digit, each
/// below ten, and no leading zero unless the number is zero.
pub open spec fn canonical_digits(ds: Seq<u8>) -> bool {
    &&& ds.len() >= 1
    &&& forall|i: int| 0 <= i < ds.len() ==> #[trigger] ds[i] < 10
    &&& (ds.len() == 1 || ds[0] != 0)
}

/// The characters of decimal digits.
pub open spec fn digit_chars(ds: Seq<u8>) -> Seq<char> {
    ds.map_values(|d: u8| digit_char(d as nat))
}

/// An integer of any size: a sign and its decimal digits.
#[derive(Debug)]
pub struct BigInt {
    negative: bool,
    digits: Vec<u8>,
}

impl BigInt {
    #[verifier::type_invariant]
    spec fn canonical(self) -> bool {
        &&& canonical_digits(self.digits@)
        &&& self.negative ==> digits_value(self.digits@) != 0
    }

    /// The integer.
    pub closed spec fn value(self) -> int {
        if self.negative {
            -digits_value(self.digits@)
        } else {
            digits_value(self.digits@) as int
        }
    }

    /// The integer with the given sign and decimal digits (most significant
    /// first), when the digits are written as `Display` writes them and a
    /// zero is not negative.
    pub fn new(negative: bool, digits: Vec<u8>) -> (r: Option<BigInt>)
        ensures
            r is Some <==> (canonical_digits(digits@) && (negative ==> digits_value(digits@) != 0)),
            r matches Some(b) ==> b.value() == if negative {
                -digits_value(digits@)
            } else {
                digits_value(digits@) as int
            },
    {
        if digits.len() == 0 {
            return None;
        }
        let mut i: usize = 0;
        while i < digits.len()
            invariant
                0 <= i <= digits@.len(),
                forall|k: int| 0 <= k < i ==> #[trigger] digits@[k] < 10,
            decreases digits.len() - i,
        {
            if digits[i] >= 10 {
                return None;
            }
            i = i + 1;
        }
        if digits.len() > 1 && digits[0] == 0 {
            return None;
        }
        let zero = digits.len() == 1 && digits[0] == 0;
        proof {
            if digits@.len() > 1 || digits@[0] != 0 {
                lemma_digits_value_positive(digits@);
            } else {
                assert(digits_value(digits@.drop_last()) == 0);
                assert(digits@.last() == digits@[0]);
                assert(digits_value(digits@) == 0);
            }
        }
        if negative && zero {
            return None;
        }
        Some(BigInt { negative, digits })
    }

    /// Appends the decimal text of the integer to `out`, as `Display` writes it.
    pub fn push_decimal(&self, out: &mut String)
        ensures
            final(out)@ == old(out)@ + int_decimal(self.value()),
    {
        proof {
            use_type_invariant(self);
            lemma_decimal_digits(self.digits@);
            if self.digits@.len() > 1 || self.digits@[0] != 0 {
                lemma_digits_value_positive(self.digits@);
            }
        }
        let ghost start = out@;
        if self.negative {
            proof {
                reveal_strlit("-");
            }
            out.append("-");
        }
        let ghost sign = out@;
        let mut k: usize = 0;
        while k < self.digits.len()
            invariant
                0 <= k <= self.digits@.len(),
                canonical_digits(self.digits@),
                out@ == sign + digit_chars(self.digits@.take(k as int)),
            decreases self.digits.len() - k,
        {
            let d = self.digits[k];
            assert(d < 10);
            out.append(digit_str(d as u128));
            proof {
                assert(digit_chars(self.digits@.take(k + 1)) =~= digit_chars(
                    self.digits@.take(k as int),
                ) + seq![digit_char(d as nat)]);
            }
            k = k + 1;
        }
        proof {
            assert(self.digits@.take(self.digits@.len() as int) =~= self.digits@);
            if self.negative {
                assert(-self.value() == digits_value(self.digits@));
            }
        }
    }
}

proof fn lemma_digits_value_positive(ds: Seq<u8>)
    requires
        ds.len() >= 1,
        ds[0] != 0,
    ensures
        digits_value(ds) >= 1,
    decreases ds.len(),
{
    if ds.len() > 1 {
        lemma_digits_value_positive(ds.drop_last());
    } else {
        assert(ds.drop_last().len() == 0);
    }
}

/// The decimal text of the number that canonical digits stand for is those digits.
pub proof fn lemma_decimal_digits(ds: Seq<u8>)
    requires
        canonical_digits(ds),
    ensures
        nat_decimal(digits_value(ds)) == digit_chars(ds),
    decreases ds.len(),
{
    if ds.len() == 1 {
        assert(digits_value(ds.drop_last()) == 0);
        assert(ds.last() == ds[0]);
        assert(digits_value(ds) == ds[0] as nat);
        assert(digit_chars(ds) =~= seq![digit_char(ds[0] as nat)]);
    } else {
        let init = ds.drop_last();
        assert(canonical_digits(init)) by {
            assert(init[0] == ds[0]);
            assert forall|i: int| 0 <= i < init.len() implies #[trigger] init[i] < 10 by {
                assert(init[i] == ds[i]);
            }
        }
        lemma_decimal_digits(init);
        lemma_digits_value_positive(init);
        let a = digits_value(init);
        let d = ds.last() as nat;
        assert(d < 10) by {
            assert(ds[ds.len() - 1] < 10);
        }
        let v = digits_value(ds);
        assert(v == a * 10 + d);
        assert(v / 10 == a && v % 10 == d) by (nonlinear_arith)
            requires
                v == a * 10 + d,
                d < 10,
                a >= 0,
        ;
        assert(digit_chars(ds) =~= digit_chars(init) + seq![digit_char(d)]);
    }
}

} // verus!
