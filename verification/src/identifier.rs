//! Identifiers of submissions and sessions.
//!
//! An identifier is a UUID. The library holds it as its 128-bit value, most
//! significant byte first, and leaves reading and writing its text forms to
//! the `uuid` crate.

use vstd::prelude::*;

verus! {

/// The identifier that a text denotes for `uuid::Uuid::parse_str`, if any.
pub uninterp spec fn parsed_uuid(text: Seq<char>) -> Option<u128>;

/// Sixteen to the power of `n`.
pub open spec fn pow16(n: nat) -> nat
    decreases n,
{
    if n == 0 {
        1
    } else {
        16 * pow16((n - 1) as nat)
    }
}

/// The `k`-th of the 32 hexadecimal digits of `id`, counted from the most
/// significant one.
pub open spec fn nibble(id: u128, k: int) -> nat {
    (id as nat / pow16((31 - k) as nat)) % 16
}

/// A hexadecimal digit in lower case.
pub open spec fn hex_char(d: nat) -> char {
    if d == 10 {
        'a'
    } else if d == 11 {
        'b'
    } else if d == 12 {
        'c'
    } else if d == 13 {
        'd'
    } else if d == 14 {
        'e'
    } else if d == 15 {
        'f'
    } else {
        crate::text::digit_char(d)
    }
}

/// The hyphenated form of an identifier: 32 hexadecimal digits in lower case
/// in groups of 8, 4, 4, 4 and 12, with a hyphen between the groups.
pub open spec fn hyphenated(id: u128) -> Seq<char> {
    Seq::new(
        36,
        |i: int|
            if i == 8 || i == 13 || i == 18 || i == 23 {
                '-'
            } else if i < 8 {
                hex_char(nibble(id, i))
            } else if i < 13 {
                hex_char(nibble(id, i - 1))
            } else if i < 18 {
                hex_char(nibble(id, i - 2))
            } else if i < 23 {
                hex_char(nibble(id, i - 3))
            } else {
                hex_char(nibble(id, i - 4))
            },
    )
}

/// The URN form of an identifier.
pub open spec fn urn(id: u128) -> Seq<char> {
    "urn:uuid:"@ + hyphenated(id)
}

/// Reads an identifier with `uuid::Uuid::parse_str`, which accepts the
/// simple, hyphenated, braced and URN forms. The contract only names what
/// that function returns for the text.
#[verifier::external_body]
pub(crate) fn parse_uuid(text: &str) -> (r: Option<u128>)
    ensures
        r == parsed_uuid(text@),
{
    match uuid::Uuid::parse_str(text) {
        Ok(id) => Some(id.as_u128()),
        Err(_) => None,
    }
}

/// Writes an identifier as `uuid::Uuid` displays it: the hyphenated form in
/// lower case, which `uuid::Uuid::parse_str` reads back as the identifier.
#[verifier::external_body]
pub(crate) fn uuid_text(id: u128) -> (r: String)
    ensures
        r@ == hyphenated(id),
        parsed_uuid(r@) == Some(id),
{
    uuid::Uuid::from_u128(id).to_string()
}

/// Writes an identifier as `uuid::fmt::Urn` displays it: `urn:uuid:` and the
/// hyphenated form in lower case.
#[verifier::external_body]
pub(crate) fn urn_text(id: u128) -> (r: String)
    ensures
        r@ == urn(id),
{
    uuid::fmt::Urn::from_uuid(uuid::Uuid::from_u128(id)).to_string()
}

/// Draws an identifier from `rand::random`. Nothing is promised of it.
#[verifier::external_body]
pub(crate) fn random_uuid() -> u128 {
    u128::from_be_bytes(rand::random::<[u8; 16]>())
}

/// Draws `len` bytes from `rand::thread_rng`. Only their number is promised.
#[verifier::external_body]
pub(crate) fn random_bytes(len: usize) -> (r: Vec<u8>)
    requires
        len <= 0x7fff_ffff,
    ensures
        r@.len() == len,
{
    let mut nonce = vec![0u8; len];
    rand::RngCore::fill_bytes(&mut rand::thread_rng(), &mut nonce);
    nonce
}

/// Sixteen to any power is positive.
pub proof fn lemma_pow16_positive(n: nat)
    ensures
        pow16(n) > 0,
    decreases n,
{
    if n > 0 {
        lemma_pow16_positive((n - 1) as nat);
    }
}

/// A hexadecimal digit is told by its character.
pub proof fn lemma_hex_char_injective(d: nat, e: nat)
    requires
        d < 16,
        e < 16,
        hex_char(d) == hex_char(e),
    ensures
        d == e,
{
}

/// Two identifiers whose first `k` hexadecimal digits agree agree in the
/// number that these digits denote.
pub proof fn lemma_leading_digits(a: u128, b: u128, k: nat)
    requires
        k <= 32,
        forall|i: int| 0 <= i < k ==> nibble(a, i) == nibble(b, i),
    ensures
        a as nat / pow16((32 - k) as nat) == b as nat / pow16((32 - k) as nat),
    decreases k,
{
    if k == 0 {
        reveal_with_fuel(pow16, 33);
        assert(pow16(32) == 0x1_0000_0000_0000_0000_0000_0000_0000_0000);
        vstd::arithmetic::div_mod::lemma_basic_div(a as int, pow16(32) as int);
        vstd::arithmetic::div_mod::lemma_basic_div(b as int, pow16(32) as int);
    } else {
        lemma_leading_digits(a, b, (k - 1) as nat);
        let m = pow16((32 - k) as nat);
        lemma_pow16_positive((32 - k) as nat);
        assert(pow16((33 - k) as nat) == 16 * m);
        let qa = a as nat / m;
        let qb = b as nat / m;
        vstd::arithmetic::div_mod::lemma_div_denominator(a as int, m as int, 16);
        vstd::arithmetic::div_mod::lemma_div_denominator(b as int, m as int, 16);
        assert(m * 16 == 16 * m) by (nonlinear_arith);
        assert(qa / 16 == qb / 16);
        assert(nibble(a, k - 1) == qa % 16);
        assert(nibble(b, k - 1) == qb % 16);
        vstd::arithmetic::div_mod::lemma_fundamental_div_mod(qa as int, 16);
        vstd::arithmetic::div_mod::lemma_fundamental_div_mod(qb as int, 16);
    }
}

/// An identifier is told by its hyphenated form.
pub proof fn lemma_hyphenated_injective(a: u128, b: u128)
    requires
        hyphenated(a) == hyphenated(b),
    ensures
        a == b,
{
    assert forall|k: int| 0 <= k < 32 implies nibble(a, k) == nibble(b, k) by {
        let i = if k < 8 {
            k
        } else if k < 12 {
            k + 1
        } else if k < 16 {
            k + 2
        } else if k < 20 {
            k + 3
        } else {
            k + 4
        };
        assert(hyphenated(a)[i] == hex_char(nibble(a, k)));
        assert(hyphenated(b)[i] == hex_char(nibble(b, k)));
        lemma_hex_char_injective(nibble(a, k), nibble(b, k));
    }
    lemma_leading_digits(a, b, 32);
    assert(pow16(0) == 1);
    assert(a as nat / pow16(0) == b as nat / pow16(0));
    assert(a as nat / 1 == a as nat);
    assert(b as nat / 1 == b as nat);
}

/// An identifier is told by its URN.
pub proof fn lemma_urn_injective(a: u128, b: u128)
    requires
        urn(a) == urn(b),
    ensures
        a == b,
{
    let head = "urn:uuid:"@;
    assert(urn(a).skip(head.len() as int) =~= hyphenated(a));
    assert(urn(b).skip(head.len() as int) =~= hyphenated(b));
    lemma_hyphenated_injective(a, b);
}

} // verus!
