//! Identifiers of splits and workbenches.
//!
//! Both are ULIDs: 128-bit values made of a millisecond timestamp and random
//! bits, written as 26 symbols of Crockford's base 32 alphabet.

use vstd::arithmetic::power::pow;
use vstd::prelude::*;

verus! {

/// The symbol that stands for `digit` in Crockford's base 32 alphabet.
pub open spec fn crockford_symbol(digit: int) -> char
    recommends
        0 <= digit < 32,
{
    "0123456789ABCDEFGHJKMNPQRSTVWXYZ"@[digit]
}

/// Whether `symbol` belongs to Crockford's base 32 alphabet.
pub open spec fn is_crockford_symbol(symbol: char) -> bool {
    exists|digit: int| 0 <= digit < 32 && symbol == crockford_symbol(digit)
}

/// The text of the identifier `value`: its 130-bit zero extension cut in 26
/// groups of 5 bits, most significant group first, one symbol per group.
pub open spec fn ulid_text(value: u128) -> Seq<char> {
    Seq::new(26, |i: int| crockford_symbol((value as int / pow(32, (25 - i) as nat)) % 32))
}

/// Whether `text` has the shape of a split identifier: 26 symbols of
/// Crockford's base 32 alphabet.
pub open spec fn is_split_id(text: Seq<char>) -> bool {
    &&& text.len() == 26
    &&& forall|i: int| 0 <= i < 26 ==> is_crockford_symbol(#[trigger] text[i])
}

/// Calls `ulid::Ulid::new` and hands back the 128 bits of the identifier.
///
/// The identifier is made of the current time and of random bits, so
/// nothing is promised of its value.
#[verifier::external_body]
fn ulid_generate() -> (value: u128) {
    ulid::Ulid::new().0
}

/// Calls `ulid::Ulid::to_string` on the identifier whose bits are `value`.
///
/// The contract states the encoding in full: 26 symbols, each one the
/// Crockford symbol of a group of 5 bits, most significant group first.
#[verifier::external_body]
fn ulid_encode(value: u128) -> (text: String)
    ensures
        text@ == ulid_text(value),
{
    ulid::Ulid(value).to_string()
}

/// Every identifier text has the shape of a split identifier.
pub proof fn lemma_ulid_text_is_split_id(value: u128)
    ensures
        is_split_id(ulid_text(value)),
{
    let text = ulid_text(value);
    assert forall|i: int| 0 <= i < 26 implies is_crockford_symbol(#[trigger] text[i]) by {
        let digit = (value as int / pow(32, (25 - i) as nat)) % 32;
        assert(0 <= digit < 32);
        assert(text[i] == crockford_symbol(digit));
    }
}

/// A fresh identifier for a workbench.
pub fn new_workbench_id() -> (id: u128) {
    ulid_generate()
}

/// A fresh split identifier.
pub fn new_split_id() -> (id: String)
    ensures
        is_split_id(id@),
{
    let value = ulid_generate();
    proof {
        lemma_ulid_text_is_split_id(value);
    }
    ulid_encode(value)
}

/// The text of the identifier whose bits are `value`.
pub fn split_id_text(value: u128) -> (id: String)
    ensures
        id@ == ulid_text(value),
        is_split_id(id@),
{
    proof {
        lemma_ulid_text_is_split_id(value);
    }
    ulid_encode(value)
}

} // verus!
