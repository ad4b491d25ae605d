//! Plain values that stand for addresses, hashes, words and storage locations.

use vstd::prelude::*;

verus! {

/// An account address, as its bytes.
pub type Address = [u8; 20];

/// A hash, as its bytes.
pub type B256 = [u8; 32];

/// A 256-bit word, as its big-endian bytes.
pub type U256 = [u8; 32];

/// The word zero.
pub open spec fn zero_word_spec() -> U256 {
    [0u8; 32usize]
}

/// The address whose bytes are all zero.
pub open spec fn zero_address_spec() -> Address {
    [0u8; 20usize]
}

/// The word zero.
pub fn zero_word() -> (word: U256)
    ensures
        word == zero_word_spec(),
{
    [0u8; 32]
}

/// The address whose bytes are all zero.
pub fn zero_address() -> (address: Address)
    ensures
        address == zero_address_spec(),
{
    [0u8; 20]
}

/// The key of a table entry: a number, an address and a word.
pub type Key = (u64, Address, U256);

/// The key of an account.
pub open spec fn account_key_spec(address: Address) -> Key {
    (0, address, zero_word_spec())
}

/// The key of a storage slot.
pub open spec fn slot_key_spec(address: Address, slot: U256) -> Key {
    (1, address, slot)
}

/// The key of a contract's code.
pub open spec fn code_key_spec(hash: B256) -> Key {
    (2, zero_address_spec(), hash)
}

/// The key of a number.
pub open spec fn number_key_spec(number: u64) -> Key {
    (number, zero_address_spec(), zero_word_spec())
}

/// The key of an account.
pub fn account_key(address: Address) -> (key: Key)
    ensures
        key == account_key_spec(address),
{
    (0, address, zero_word())
}

/// The key of a storage slot.
pub fn slot_key(address: Address, slot: U256) -> (key: Key)
    ensures
        key == slot_key_spec(address, slot),
{
    (1, address, slot)
}

/// The key of a contract's code.
pub fn code_key(hash: B256) -> (key: Key)
    ensures
        key == code_key_spec(hash),
{
    (2, zero_address(), hash)
}

/// The key of a number.
pub fn number_key(number: u64) -> (key: Key)
    ensures
        key == number_key_spec(number),
{
    (number, zero_address(), zero_word())
}

/// Keys tell apart what they stand for: two accounts, two slots, two codes or two numbers have the
/// same key only if they are the same, a key of an account or a slot carries its address, and no
/// account has the key of a slot or a code.
pub proof fn law_keys_are_distinct(
    address: Address,
    other_address: Address,
    word: U256,
    other_word: U256,
    number: u64,
    other_number: u64,
)
    ensures
        account_key_spec(address) == account_key_spec(other_address) <==> address == other_address,
        slot_key_spec(address, word) == slot_key_spec(other_address, other_word) <==> address
            == other_address && word == other_word,
        code_key_spec(word) == code_key_spec(other_word) <==> word == other_word,
        number_key_spec(number) == number_key_spec(other_number) <==> number == other_number,
        account_key_spec(address).1 == address,
        slot_key_spec(address, word).1 == address,
        slot_key_spec(address, word).2 == word,
        code_key_spec(word).2 == word,
        account_key_spec(address) != slot_key_spec(other_address, word),
        account_key_spec(address) != code_key_spec(word),
        slot_key_spec(address, word) != code_key_spec(other_word),
{
}

/// The word zero and the address zero have no byte other than zero.
pub proof fn law_zero_has_only_zero_bytes()
    ensures
        forall|i: int| 0 <= i < 32 ==> #[trigger] zero_word_spec()[i] == 0,
        forall|i: int| 0 <= i < 20 ==> #[trigger] zero_address_spec()[i] == 0,
{
}

/// Whether two byte strings are the same.
pub fn same_bytes<const N: usize>(a: &[u8; N], b: &[u8; N]) -> (same: bool)
    ensures
        same == (*a == *b),
{
    let mut i: usize = 0;
    while i < N
        invariant
            i <= N,
            forall|j: int| 0 <= j < i ==> a[j] == b[j],
        decreases N - i,
    {
        if a[i] != b[i] {
            return false;
        }
        i = i + 1;
    }
    assert(*a =~= *b);
    true
}

} // verus!
