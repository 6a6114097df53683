//! Chain values: 256-bit amounts, account addresses and 32-byte identifiers.

use crate::text::{
    all_digits, dec_value, decimal, hex_bytes, law_decimal_round_trip,
    law_leading_digits_are_longest, law_two_hex_digits_for_each_byte, leading_digits,
    lemma_leading_digits_of_digits,
};
use std::cmp::Ordering;
use vstd::arithmetic::power2::{lemma2_to64, lemma2_to64_rest, lemma_pow2_adds, pow2};
use vstd::prelude::*;

verus! {

/// The first natural number that a 256-bit amount cannot hold.
pub open spec fn u256_limit() -> nat {
    0x1_0000000000000000_0000000000000000_0000000000000000_0000000000000000nat
}

/// An unsigned 256-bit amount as four 64-bit words, least significant first.
#[derive(Clone, Copy, Debug)]
pub struct U256(pub [u64; 4]);

impl View for U256 {
    type V = nat;

    open spec fn view(&self) -> nat {
        (self.0@[0] + self.0@[1] * 0x1_0000000000000000 + self.0@[2]
            * 0x1_0000000000000000_0000000000000000 + self.0@[3]
            * 0x1_0000000000000000_0000000000000000_0000000000000000) as nat
    }
}

/// Every amount lies below the limit.
pub proof fn lemma_u256_below_limit(x: U256)
    ensures
        x@ < u256_limit(),
{
}

/// An amount is determined by the number that it stands for.
pub proof fn lemma_u256_injective(a: U256, b: U256)
    ensures
        (a@ == b@) == (a == b),
{
    if a@ == b@ {
        assert(a.0@[0] == b.0@[0] && a.0@[1] == b.0@[1] && a.0@[2] == b.0@[2] && a.0@[3]
            == b.0@[3]);
        assert(a.0@ =~= b.0@);
        assert(a.0 =~= b.0);
    }
}

impl PartialEq for U256 {
    fn eq(&self, other: &Self) -> (r: bool) {
        proof {
            if self.0@[0] == other.0@[0] && self.0@[1] == other.0@[1] && self.0@[2] == other.0@[2]
                && self.0@[3] == other.0@[3] {
                lemma_u256_injective(*self, *other);
            }
        }
        self.0[0] == other.0[0] && self.0[1] == other.0[1] && self.0[2] == other.0[2] && self.0[3]
            == other.0[3]
    }
}

impl Eq for U256 {

}

impl vstd::std_specs::cmp::PartialEqSpecImpl for U256 {
    open spec fn obeys_eq_spec() -> bool {
        true
    }

    open spec fn eq_spec(&self, other: &Self) -> bool {
        *self == *other
    }
}

impl PartialOrd for U256 {
    fn partial_cmp(&self, other: &Self) -> (r: Option<Ordering>) {
        let mut i: usize = 4;
        while i > 0
            invariant
                i <= 4,
                forall|k: int| i <= k < 4 ==> self.0@[k] == other.0@[k],
            decreases i,
        {
            i -= 1;
            if self.0[i] < other.0[i] {
                return Some(Ordering::Less);
            }
            if self.0[i] > other.0[i] {
                return Some(Ordering::Greater);
            }
        }
        Some(Ordering::Equal)
    }
}

impl vstd::std_specs::cmp::PartialOrdSpecImpl for U256 {
    open spec fn obeys_partial_cmp_spec() -> bool {
        true
    }

    open spec fn partial_cmp_spec(&self, other: &Self) -> Option<Ordering> {
        if self@ < other@ {
            Some(Ordering::Less)
        } else if self@ > other@ {
            Some(Ordering::Greater)
        } else {
            Some(Ordering::Equal)
        }
    }
}

impl From<u64> for U256 {
    fn from(value: u64) -> (r: U256)
        ensures
            r@ == value,
    {
        U256([value, 0, 0, 0])
    }
}

impl vstd::std_specs::convert::FromSpecImpl<u64> for U256 {
    open spec fn obeys_from_spec() -> bool {
        true
    }

    open spec fn from_spec(value: u64) -> U256 {
        U256([value, 0, 0, 0])
    }
}

/// Why a text is not a 256-bit decimal amount.
#[derive(Clone, Copy, Debug, PartialEq, Eq, Structural)]
pub enum DecimalError {
    /// A character is not one of the digits.
    InvalidCharacter,
    /// The number does not fit in 256 bits.
    InvalidLength,
}

impl DecimalError {
    /// The explanation shown to the operator.
    pub open spec fn spec_message(self) -> Seq<char> {
        match self {
            DecimalError::InvalidCharacter => "a character is not in the range 0-9"@,
            DecimalError::InvalidLength => "the number is too large for the type"@,
        }
    }

    /// The explanation shown to the operator.
    pub fn message(&self) -> (r: &'static str)
        ensures
            r@ == self.spec_message(),
    {
        match self {
            DecimalError::InvalidCharacter => "a character is not in the range 0-9",
            DecimalError::InvalidLength => "the number is too large for the type",
        }
    }
}

/// What reading `s` as a 256-bit decimal amount gives. The digits are read from
/// the left, so a prefix that is already too large is reported before a stray
/// character further on; an empty text reads as zero.
pub open spec fn dec_str_result(s: Seq<char>) -> Result<nat, DecimalError> {
    if dec_value(leading_digits(s)) >= u256_limit() {
        Err(DecimalError::InvalidLength)
    } else if !all_digits(s) {
        Err(DecimalError::InvalidCharacter)
    } else {
        Ok(dec_value(s))
    }
}

impl U256 {
    /// The amount zero.
    pub fn zero() -> (r: U256)
        ensures
            r@ == 0,
    {
        U256([0, 0, 0, 0])
    }

    /// The amount that equals `value`.
    pub fn from_u128(value: u128) -> (r: U256)
        ensures
            r@ == value,
    {
        let low: u64 = (value % 0x1_0000000000000000) as u64;
        let high: u64 = (value / 0x1_0000000000000000) as u64;
        U256([low, high, 0, 0])
    }

    /// Whether the amount is zero.
    pub fn is_zero(&self) -> (r: bool)
        ensures
            r == (self@ == 0),
    {
        self.0[0] == 0 && self.0[1] == 0 && self.0[2] == 0 && self.0[3] == 0
    }

    /// The lower half of the amount.
    pub fn low_u128(&self) -> (r: u128)
        ensures
            r == self@ % 0x1_0000000000000000_0000000000000000nat,
    {
        self.0[0] as u128 + self.0[1] as u128 * 0x1_0000000000000000
    }

    /// `checked_add` of the 256-bit integer of `ethers`: the sum, or nothing
    /// where it does not fit in 256 bits.
    #[verifier::external_body]
    pub(crate) fn checked_add(self, other: U256) -> (r: Option<U256>)
        ensures
            r is Some <==> self@ + other@ < u256_limit(),
            r matches Some(v) ==> v@ == self@ + other@,
    {
        ethers::types::U256(self.0).checked_add(ethers::types::U256(other.0)).map(|v| U256(v.0))
    }

    /// `checked_sub` of the 256-bit integer of `ethers`: the difference, or
    /// nothing where it is negative.
    #[verifier::external_body]
    pub(crate) fn checked_sub(self, other: U256) -> (r: Option<U256>)
        ensures
            r is Some <==> self@ >= other@,
            r matches Some(v) ==> v@ == self@ - other@,
    {
        ethers::types::U256(self.0).checked_sub(ethers::types::U256(other.0)).map(|v| U256(v.0))
    }

    /// `checked_mul` of the 256-bit integer of `ethers`: the product, or nothing
    /// where it does not fit in 256 bits.
    #[verifier::external_body]
    pub(crate) fn checked_mul(self, other: U256) -> (r: Option<U256>)
        ensures
            r is Some <==> self@ * other@ < u256_limit(),
            r matches Some(v) ==> v@ == self@ * other@,
    {
        ethers::types::U256(self.0).checked_mul(ethers::types::U256(other.0)).map(|v| U256(v.0))
    }

    /// `checked_div` of the 256-bit integer of `ethers`: the quotient rounded
    /// down, or nothing where the divisor is zero.
    #[verifier::external_body]
    pub(crate) fn checked_div(self, other: U256) -> (r: Option<U256>)
        ensures
            r is Some <==> other@ != 0,
            r matches Some(v) ==> v@ == self@ / other@,
    {
        ethers::types::U256(self.0).checked_div(ethers::types::U256(other.0)).map(|v| U256(v.0))
    }

    /// `from_dec_str` of the 256-bit integer of `ethers`: reads decimal digits
    /// from the left, stops at the first character that is not a digit and at
    /// the first digit that takes the number out of 256 bits.
    #[verifier::external_body]
    pub(crate) fn from_dec_str(value: &str) -> (r: Result<U256, DecimalError>)
        ensures
            match dec_str_result(value@) {
                Ok(n) => r matches Ok(v) && v@ == n,
                Err(e) => r == Err::<U256, DecimalError>(e),
            },
    {
        match ethers::types::U256::from_dec_str(value) {
            Ok(v) => Ok(U256(v.0)),
            Err(ethers::abi::ethereum_types::FromDecStrErr::InvalidCharacter) => Err(
                DecimalError::InvalidCharacter,
            ),
            Err(ethers::abi::ethereum_types::FromDecStrErr::InvalidLength) => Err(
                DecimalError::InvalidLength,
            ),
        }
    }

    /// The `Display` text of the 256-bit integer of `ethers`: the decimal
    /// notation of the amount.
    #[verifier::external_body]
    pub(crate) fn display_text(&self) -> (r: String)
        ensures
            r@ == decimal(self@),
    {
        ethers::types::U256(self.0).to_string()
    }

    /// The decimal notation of the amount.
    pub fn to_dec_string(&self) -> (r: String)
        ensures
            r@ == decimal(self@),
    {
        self.display_text()
    }
}

/// `parse_units` of `ethers` for a whole number of gwei: the same amount in wei,
/// one gwei being a thousand million wei.
#[verifier::external_body]
pub(crate) fn parse_units(amount: u64, units: &str) -> (r: U256)
    requires
        units@ == "gwei"@,
    ensures
        r@ == amount * 1_000_000_000,
{
    let wei: ethers::types::U256 = ethers::utils::parse_units(amount, units).expect(
        "static unit",
    ).into();
    U256(wei.0)
}

/// A 20-byte account address.
#[derive(Clone, Copy, Debug)]
pub struct Address(pub [u8; 20]);

impl PartialEq for Address {
    fn eq(&self, other: &Self) -> (r: bool) {
        let mut i: usize = 0;
        while i < 20
            invariant
                i <= 20,
                forall|k: int| 0 <= k < i ==> self.0@[k] == other.0@[k],
            decreases 20 - i,
        {
            if self.0[i] != other.0[i] {
                return false;
            }
            i += 1;
        }
        proof {
            assert(self.0@ =~= other.0@);
            assert(self.0 =~= other.0);
        }
        true
    }
}

impl Eq for Address {

}

impl vstd::std_specs::cmp::PartialEqSpecImpl for Address {
    open spec fn obeys_eq_spec() -> bool {
        true
    }

    open spec fn eq_spec(&self, other: &Self) -> bool {
        *self == *other
    }
}

impl Address {
    /// The full `0x` notation of the address.
    pub open spec fn spec_text(self) -> Seq<char> {
        "0x"@ + hex_bytes(self.0@)
    }

    /// The `Debug` text of the address type of `ethers`: `0x` and then two
    /// lower-case hexadecimal digits for each of the twenty bytes.
    #[verifier::external_body]
    pub(crate) fn debug_text(&self) -> (r: String)
        ensures
            r@ == self.spec_text(),
    {
        format!("{:?}", ethers::types::H160(self.0))
    }
}

/// A 32-byte identifier.
#[derive(Clone, Copy, Debug)]
pub struct H256(pub [u8; 32]);

impl H256 {
    /// The identifier whose bytes are all zero.
    pub open spec fn spec_zero() -> H256 {
        H256(
            [
                0, 0, 0, 0, 0, 0, 0, 0, 0, 0, 0, 0, 0, 0, 0, 0,
                0, 0, 0, 0, 0, 0, 0, 0, 0, 0, 0, 0, 0, 0, 0, 0,
            ],
        )
    }

    /// The identifier whose bytes are all zero.
    pub fn zero() -> (r: H256)
        ensures
            r == H256::spec_zero(),
    {
        H256(
            [
                0, 0, 0, 0, 0, 0, 0, 0, 0, 0, 0, 0, 0, 0, 0, 0,
                0, 0, 0, 0, 0, 0, 0, 0, 0, 0, 0, 0, 0, 0, 0, 0,
            ],
        )
    }
}

/// Reading the text of an amount gives the amount back.
pub proof fn law_amount_text_round_trip(x: U256)
    ensures
        dec_str_result(decimal(x@)) == Ok::<nat, DecimalError>(x@),
{
    law_decimal_round_trip(x@);
    lemma_leading_digits_of_digits(decimal(x@));
    lemma_u256_below_limit(x);
}

/// Amounts are the numbers below two to the power of 256.
pub proof fn law_amounts_have_256_bits()
    ensures
        u256_limit() == pow2(256),
{
    lemma2_to64();
    lemma2_to64_rest();
    lemma_pow2_adds(64, 64);
    lemma_pow2_adds(128, 128);
    assert(pow2(64) == 0x1_0000000000000000);
    assert(pow2(128) == 0x1_0000000000000000_0000000000000000) by (nonlinear_arith)
        requires
            pow2(128) == pow2(64) * pow2(64),
            pow2(64) == 0x1_0000000000000000,
    ;
    assert(pow2(256) == u256_limit()) by (nonlinear_arith)
        requires
            pow2(256) == pow2(128) * pow2(128),
            pow2(128) == 0x1_0000000000000000_0000000000000000,
            u256_limit()
                == 0x1_0000000000000000_0000000000000000_0000000000000000_0000000000000000nat,
    ;
}

/// The words of an amount are its digits to the base of two to the power of 64,
/// least significant first.
pub proof fn law_words_are_digits(x: U256)
    ensures
        x@ == x.0@[0] + pow2(64) * (x.0@[1] + pow2(64) * (x.0@[2] + pow2(64) * x.0@[3])),
{
    lemma2_to64();
    lemma2_to64_rest();
    let b = pow2(64) as int;
    assert(b == 0x1_0000000000000000);
    let (w0, w1, w2, w3) = (
        x.0@[0] as int,
        x.0@[1] as int,
        x.0@[2] as int,
        x.0@[3] as int,
    );
    assert(w0 + b * (w1 + b * (w2 + b * w3)) == w0 + w1 * 0x1_0000000000000000 + w2
        * 0x1_0000000000000000_0000000000000000 + w3
        * 0x1_0000000000000000_0000000000000000_0000000000000000) by (nonlinear_arith)
        requires
            b == 0x1_0000000000000000,
    ;
}

/// Amounts are ordered as the numbers that they stand for.
pub proof fn law_amounts_are_ordered_by_value(a: U256, b: U256)
    ensures
        vstd::std_specs::cmp::PartialOrdSpec::partial_cmp_spec(&a, &b) == Some(Ordering::Less) <==> a@ < b@,
        vstd::std_specs::cmp::PartialOrdSpec::partial_cmp_spec(&a, &b) == Some(Ordering::Greater) <==> a@ > b@,
        vstd::std_specs::cmp::PartialOrdSpec::partial_cmp_spec(&a, &b) == Some(Ordering::Equal) <==> a@ == b@,
{
}

/// A longer run of digits never reads as a smaller number.
proof fn lemma_prefix_reads_smaller(s: Seq<char>, k: int, n: int)
    requires
        0 <= k <= n <= s.len(),
    ensures
        dec_value(s.take(k)) <= dec_value(s.take(n)),
    decreases n - k,
{
    if k < n {
        lemma_prefix_reads_smaller(s, k, n - 1);
        assert(s.take(n).drop_last() =~= s.take(n - 1));
    }
}

/// A text reads as an amount exactly where all of it is digits and the number is
/// below two to the power of 256. It is too large exactly where some run of digits
/// at its start is; any other text holds a character that is not a digit.
pub proof fn law_what_reads_as_an_amount(s: Seq<char>)
    ensures
        forall|n: nat|
            dec_str_result(s) == Ok::<nat, DecimalError>(n) <==> #[trigger] dec_value(s) == n && n
                < pow2(256) && forall|i: int| 0 <= i < s.len() ==> 48 <= #[trigger] s[i] as int <= 57,
        dec_str_result(s) == Err::<nat, DecimalError>(DecimalError::InvalidLength) <==> exists|
            k: int,
        |
            0 <= k <= s.len() && #[trigger] dec_value(s.take(k)) >= pow2(256) && forall|i: int|
                0 <= i < k ==> 48 <= #[trigger] s[i] as int <= 57,
        dec_str_result(s) == Err::<nat, DecimalError>(DecimalError::InvalidCharacter) ==> exists|
            i: int,
        |
            0 <= i < s.len() && !(48 <= #[trigger] s[i] as int <= 57),
{
    law_amounts_have_256_bits();
    law_leading_digits_are_longest(s);
    let m = leading_digits(s).len() as int;
    assert(s.take(s.len() as int) =~= s);
    if exists|k: int|
        0 <= k <= s.len() && #[trigger] dec_value(s.take(k)) >= pow2(256) && forall|i: int|
            0 <= i < k ==> 48 <= #[trigger] s[i] as int <= 57 {
        let k = choose|k: int|
            0 <= k <= s.len() && #[trigger] dec_value(s.take(k)) >= pow2(256) && forall|i: int|
                0 <= i < k ==> 48 <= #[trigger] s[i] as int <= 57;
        assert(k <= m);
        lemma_prefix_reads_smaller(s, k, m);
    }
    if dec_value(leading_digits(s)) >= u256_limit() {
        assert(dec_value(s.take(m)) >= pow2(256));
    }
    assert(all_digits(s) <==> forall|i: int| 0 <= i < s.len() ==> 48 <= #[trigger] s[i] as int <= 57);
    if all_digits(s) {
        assert(m == s.len());
    }
}

/// An address is written as `0x` and forty hexadecimal digits, two for each byte.
pub proof fn law_address_text(a: Address)
    ensures
        a.spec_text().len() == 42,
        a.spec_text()[0] == '0',
        a.spec_text()[1] == 'x',
        a.spec_text().skip(2) == hex_bytes(a.0@),
{
    reveal_strlit("0x");
    law_two_hex_digits_for_each_byte(a.0@, 0);
    assert(a.spec_text().skip(2) =~= hex_bytes(a.0@));
}

/// Every byte of the zero identifier is zero.
pub proof fn law_zero_identifier(i: int)
    requires
        0 <= i < 32,
    ensures
        H256::spec_zero().0@[i] == 0,
{
}

} // verus!
