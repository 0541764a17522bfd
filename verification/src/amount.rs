use vstd::prelude::*;

verus! {

/// The number of values a 256-bit unsigned integer can represent: 2^256.
/// Fee arithmetic saturates against this limit via checked operations.
pub open spec fn u256_limit() -> nat {
    0x1_0000_0000_0000_0000_0000_0000_0000_0000_0000_0000_0000_0000_0000_0000_0000_0000nat
}

/// A digit character between '0' and '9'.
pub open spec fn is_digit_char(c: char) -> bool {
    48 <= c as int && c as int <= 57
}

/// True when every character of `s` is a decimal digit. The empty string
/// counts as well-formed and denotes zero, matching the upstream parser.
pub open spec fn is_dec_digits(s: Seq<char>) -> bool {
    forall|i: int| 0 <= i < s.len() ==> is_digit_char(#[trigger] s[i])
}

/// The non-negative integer a string of decimal digits denotes.
pub open spec fn dec_value(s: Seq<char>) -> nat
    decreases s.len(),
{
    if s.len() == 0 {
        0
    } else {
        (dec_value(s.drop_last()) * 10 + (s.last() as int - 48)) as nat
    }
}

/// The factor a numeric field contributes to a fee: its decimal value when it
/// parses as a 256-bit non-negative integer, and zero otherwise (lenient
/// parsing: malformed fields are treated as zero, not reported).
pub open spec fn parsed_factor(s: Seq<char>) -> nat {
    if is_dec_digits(s) && dec_value(s) < u256_limit() {
        dec_value(s)
    } else {
        0
    }
}

/// A 256-bit non-negative amount in the currency's smallest unit, held as
/// four 64-bit limbs, least significant first.
#[derive(Clone, Copy)]
pub struct Amount {
    pub limb0: u64,
    pub limb1: u64,
    pub limb2: u64,
    pub limb3: u64,
}

impl Amount {
    /// The integer this amount represents.
    pub open spec fn value(self) -> nat {
        (self.limb0 as int
            + self.limb1 as int * 0x1_0000_0000_0000_0000int
            + self.limb2 as int * 0x1_0000_0000_0000_0000_0000_0000_0000_0000int
            + self.limb3 as int
                * 0x1_0000_0000_0000_0000_0000_0000_0000_0000_0000_0000_0000_0000int) as nat
    }

    /// Every representable amount lies below 2^256.
    pub proof fn lemma_value_below_limit(self)
        ensures
            self.value() < u256_limit(),
    {
    }

    pub fn zero() -> (r: Amount)
        ensures
            r.value() == 0,
    {
        Amount { limb0: 0, limb1: 0, limb2: 0, limb3: 0 }
    }

    /// Parse a numeric field leniently: a malformed or out-of-range string
    /// yields zero rather than an error.
    pub fn parse_factor(s: &String) -> (r: Amount)
        ensures
            r.value() == parsed_factor(s@),
    {
        match u256_from_dec(s) {
            Some(a) => a,
            None => Amount::zero(),
        }
    }
}

/// Relies on `U256::from_dec_str` (the `uint` crate, re-exported by
/// `ethers::types`): it returns `Ok` exactly when every byte of the input is
/// an ASCII digit and the denoted value fits in 256 bits, and then yields that
/// value; the empty string parses as zero. A string whose characters are all
/// in '0'..='9' is exactly a string whose bytes are all ASCII digits.
#[verifier::external_body]
pub(crate) fn u256_from_dec(s: &String) -> (r: Option<Amount>)
    ensures
        match r {
            Some(a) => is_dec_digits(s@) && dec_value(s@) < u256_limit() && a.value() == dec_value(
                s@,
            ),
            None => !(is_dec_digits(s@) && dec_value(s@) < u256_limit()),
        },
{
    match ethers::types::U256::from_dec_str(s.as_str()) {
        Ok(v) => Some(Amount { limb0: v.0[0], limb1: v.0[1], limb2: v.0[2], limb3: v.0[3] }),
        Err(_) => None,
    }
}

/// Relies on `U256::checked_add` (the `uint` crate, re-exported by
/// `ethers::types`): it returns the exact sum when it fits in 256 bits and
/// `None` when it would overflow.
#[verifier::external_body]
pub(crate) fn u256_checked_add(a: &Amount, b: &Amount) -> (r: Option<Amount>)
    ensures
        match r {
            Some(c) => a.value() + b.value() < u256_limit() && c.value() == a.value() + b.value(),
            None => a.value() + b.value() >= u256_limit(),
        },
{
    let x = ethers::types::U256([a.limb0, a.limb1, a.limb2, a.limb3]);
    let y = ethers::types::U256([b.limb0, b.limb1, b.limb2, b.limb3]);
    x.checked_add(y).map(|v| Amount { limb0: v.0[0], limb1: v.0[1], limb2: v.0[2], limb3: v.0[3] })
}

/// Relies on `U256::checked_mul` (the `uint` crate, re-exported by
/// `ethers::types`): it returns the exact product when it fits in 256 bits
/// and `None` when it would overflow.
#[verifier::external_body]
pub(crate) fn u256_checked_mul(a: &Amount, b: &Amount) -> (r: Option<Amount>)
    ensures
        match r {
            Some(c) => a.value() * b.value() < u256_limit() && c.value() == a.value() * b.value(),
            None => a.value() * b.value() >= u256_limit(),
        },
{
    let x = ethers::types::U256([a.limb0, a.limb1, a.limb2, a.limb3]);
    let y = ethers::types::U256([b.limb0, b.limb1, b.limb2, b.limb3]);
    x.checked_mul(y).map(|v| Amount { limb0: v.0[0], limb1: v.0[1], limb2: v.0[2], limb3: v.0[3] })
}

} // verus!
