//! The record of the next revision to import, kept in a Manifold object.

use vstd::prelude::*;

verus! {

/// The ASCII decimal digits of `n`, most significant first, with no leading zero.
pub open spec fn decimal_bytes(n: nat) -> Seq<u8>
    decreases n,
{
    if n < 10 {
        seq![(48 + n) as u8]
    } else {
        decimal_bytes(n / 10).push((48 + n % 10) as u8)
    }
}

/// The number that a sequence of ASCII decimal digits denotes.
pub open spec fn decimal_value(digits: Seq<u8>) -> nat
    decreases digits.len(),
{
    if digits.len() == 0 {
        0
    } else {
        decimal_value(digits.drop_last()) * 10 + ((digits.last() - 48) as nat)
    }
}

/// Whether every byte is an ASCII decimal digit.
pub open spec fn all_decimal_digits(digits: Seq<u8>) -> bool {
    forall|i: int| 0 <= i < digits.len() ==> 48 <= #[trigger] digits[i] <= 57
}

/// The revision to import after `latest_imported_rev`.
pub fn next_revision_to_import(latest_imported_rev: u32) -> (next: u32)
    requires
        latest_imported_rev < u32::MAX,
    ensures
        next == latest_imported_rev + 1,
{
    latest_imported_rev + 1
}

/// The ASCII decimal text of `n`.
pub fn decimal_text(n: u32) -> (text: Vec<u8>)
    ensures
        text@ == decimal_bytes(n as nat),
    decreases n,
{
    if n < 10 {
        let mut text: Vec<u8> = Vec::new();
        text.push(48u8 + n as u8);
        text
    } else {
        let mut text = decimal_text(n / 10);
        text.push(48u8 + (n % 10) as u8);
        text
    }
}

/// The payload of the object that records the next revision to import after
/// `latest_imported_rev`: that revision number as decimal text.
pub fn manifold_next_revision_payload(latest_imported_rev: u32) -> (payload: Vec<u8>)
    requires
        latest_imported_rev < u32::MAX,
    ensures
        payload@ == decimal_bytes((latest_imported_rev + 1) as nat),
{
    decimal_text(next_revision_to_import(latest_imported_rev))
}

/// The decimal text of a number is made of digits, starts with a non-zero digit
/// unless the number is zero, and reads back as the number.
pub proof fn lemma_decimal_bytes_roundtrip(n: nat)
    ensures
        all_decimal_digits(decimal_bytes(n)),
        decimal_bytes(n).len() >= 1,
        decimal_bytes(n)[0] != 48 || n == 0,
        decimal_value(decimal_bytes(n)) == n,
    decreases n,
{
    if n >= 10 {
        lemma_decimal_bytes_roundtrip(n / 10);
        let prefix = decimal_bytes(n / 10);
        assert(decimal_bytes(n).drop_last() =~= prefix);
        assert(decimal_bytes(n)[0] == prefix[0]);
        assert(decimal_bytes(n).last() == (48 + n % 10) as u8);
        assert(((48 + n % 10) as u8) - 48 == n % 10);
        assert((n / 10) * 10 + n % 10 == n);
        assert(decimal_value(decimal_bytes(n)) == decimal_value(prefix) * 10 + (n % 10));
    } else {
        assert(decimal_bytes(n).drop_last() =~= Seq::<u8>::empty());
        assert(((48 + n) as u8) - 48 == n);
        assert(decimal_value(Seq::<u8>::empty()) == 0);
        assert(decimal_value(decimal_bytes(n)) == 0 * 10 + n);
    }
}

} // verus!
