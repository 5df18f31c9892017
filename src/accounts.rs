use vstd::prelude::*;
use vstd::bytes::*;

use crate::store::{
    lemma_prefix_distinct, append_bytes, be_word_of, be_word_to_u128, be_word_value, bytes_to_key, copy_bytes, key_of,
    lemma_be_word_round_trip, u128_to_be_word, KeyPrefix, Store,
};

verus! {

/// A 20-byte EVM address.
pub type Address = [u8; 20];

/// A 32-byte storage slot key or value.
pub type H256 = [u8; 32];

/// Errors of the account model.
#[derive(Clone, Copy, Debug, PartialEq, Eq, Structural)]
pub enum AccountError {
    /// A stored nonce, balance or generation does not have the expected layout.
    InvalidEncoding,
    /// An account's storage generation cannot be advanced any further.
    GenerationOverflow,
}

pub open spec fn nonce_key(a: Seq<u8>) -> Seq<u8> {
    key_of(KeyPrefix::Nonce, a)
}

pub open spec fn balance_key(a: Seq<u8>) -> Seq<u8> {
    key_of(KeyPrefix::Balance, a)
}

pub open spec fn code_key(a: Seq<u8>) -> Seq<u8> {
    key_of(KeyPrefix::Code, a)
}

pub open spec fn generation_key(a: Seq<u8>) -> Seq<u8> {
    key_of(KeyPrefix::Generation, a)
}

/// The key of `slot` of account `a` in storage generation `g`.
pub open spec fn storage_key(a: Seq<u8>, g: u32, slot: Seq<u8>) -> Seq<u8> {
    key_of(KeyPrefix::Storage, a + spec_u32_to_le_bytes(g) + slot)
}

/// The amount stored under `k`: zero where nothing is stored, `None` where the
/// stored bytes are not a valid word.
pub open spec fn stored_amount(m: Map<Seq<u8>, Seq<u8>>, k: Seq<u8>) -> Option<u128> {
    if m.contains_key(k) {
        be_word_value(m[k])
    } else {
        Some(0)
    }
}

pub open spec fn nonce_of(m: Map<Seq<u8>, Seq<u8>>, a: Seq<u8>) -> Option<u128> {
    stored_amount(m, nonce_key(a))
}

pub open spec fn balance_of(m: Map<Seq<u8>, Seq<u8>>, a: Seq<u8>) -> Option<u128> {
    stored_amount(m, balance_key(a))
}

pub open spec fn code_of(m: Map<Seq<u8>, Seq<u8>>, a: Seq<u8>) -> Seq<u8> {
    if m.contains_key(code_key(a)) {
        m[code_key(a)]
    } else {
        Seq::empty()
    }
}

/// The storage generation of `a`: zero where none is stored.
pub open spec fn generation_of(m: Map<Seq<u8>, Seq<u8>>, a: Seq<u8>) -> Option<u32> {
    if !m.contains_key(generation_key(a)) {
        Some(0)
    } else if m[generation_key(a)].len() == 4 {
        Some(spec_u32_from_le_bytes(m[generation_key(a)]))
    } else {
        None
    }
}

/// The value of a storage slot: thirty-two zero bytes where nothing is stored.
pub open spec fn slot_value(m: Map<Seq<u8>, Seq<u8>>, k: Seq<u8>) -> Seq<u8> {
    if m.contains_key(k) {
        m[k]
    } else {
        Seq::new(32, |i: int| 0u8)
    }
}

pub open spec fn is_zero_word(s: Seq<u8>) -> bool {
    forall|i: int| 0 <= i < s.len() ==> s[i] == 0
}

pub open spec fn amount_result(v: Option<u128>) -> Result<u128, AccountError> {
    match v {
        Some(x) => Ok(x),
        None => Err(AccountError::InvalidEncoding),
    }
}

/// No account holds a storage slot above its current generation: slots are
/// only ever written in the generation an account is in.
pub open spec fn storage_wf(m: Map<Seq<u8>, Seq<u8>>) -> bool {
    forall|a: Seq<u8>, g: u32, s: Seq<u8>|
        #![trigger m.contains_key(storage_key(a, g, s))]
        a.len() == 20 && m.contains_key(storage_key(a, g, s)) ==> generation_of(m, a).is_some()
            && g <= generation_of(m, a).unwrap()
}

/// A storage key names its account and generation.
pub proof fn lemma_storage_key_injective(a: Seq<u8>, g: u32, s: Seq<u8>, a2: Seq<u8>, g2: u32, s2: Seq<u8>)
    requires
        a.len() == 20,
        a2.len() == 20,
        storage_key(a, g, s) == storage_key(a2, g2, s2),
    ensures
        a == a2,
        g == g2,
{
    lemma_auto_spec_u32_to_from_le_bytes();
    let k = storage_key(a, g, s);
    assert(k.subrange(1, 21) =~= a);
    assert(storage_key(a2, g2, s2).subrange(1, 21) =~= a2);
    assert(k.subrange(21, 25) =~= spec_u32_to_le_bytes(g));
    assert(storage_key(a2, g2, s2).subrange(21, 25) =~= spec_u32_to_le_bytes(g2));
}

/// Writing or removing a key outside the storage and generation tables keeps
/// the storage invariant.
pub proof fn lemma_storage_wf_other_key(m: Map<Seq<u8>, Seq<u8>>, p: KeyPrefix, body: Seq<u8>, v: Seq<u8>)
    requires
        storage_wf(m),
        p != KeyPrefix::Storage,
        p != KeyPrefix::Generation,
    ensures
        storage_wf(m.insert(key_of(p, body), v)),
        storage_wf(m.remove(key_of(p, body))),
{
    let m1 = m.insert(key_of(p, body), v);
    let m2 = m.remove(key_of(p, body));
    assert forall|a: Seq<u8>, g: u32, s: Seq<u8>|
        #![trigger m1.contains_key(storage_key(a, g, s))]
        a.len() == 20 && m1.contains_key(storage_key(a, g, s)) implies generation_of(m1, a).is_some()
            && g <= generation_of(m1, a).unwrap() by {
        lemma_prefix_distinct(p, KeyPrefix::Storage, body, a + spec_u32_to_le_bytes(g) + s);
        lemma_prefix_distinct(p, KeyPrefix::Generation, body, a);
        assert(m.contains_key(storage_key(a, g, s)));
    }
    assert forall|a: Seq<u8>, g: u32, s: Seq<u8>|
        #![trigger m2.contains_key(storage_key(a, g, s))]
        a.len() == 20 && m2.contains_key(storage_key(a, g, s)) implies generation_of(m2, a).is_some()
            && g <= generation_of(m2, a).unwrap() by {
        lemma_prefix_distinct(p, KeyPrefix::Generation, body, a);
        assert(m.contains_key(storage_key(a, g, s)));
    }
}

/// Moving an account to the next generation keeps the storage invariant.
pub proof fn lemma_storage_wf_bump(m: Map<Seq<u8>, Seq<u8>>, x: Seq<u8>, g: u32)
    requires
        storage_wf(m),
        generation_of(m, x) == Some(g),
        g < u32::MAX,
    ensures
        storage_wf(m.insert(generation_key(x), spec_u32_to_le_bytes((g + 1) as u32))),
        generation_of(m.insert(generation_key(x), spec_u32_to_le_bytes((g + 1) as u32)), x) == Some(
            (g + 1) as u32,
        ),
{
    lemma_auto_spec_u32_to_from_le_bytes();
    let m1 = m.insert(generation_key(x), spec_u32_to_le_bytes((g + 1) as u32));
    assert forall|a: Seq<u8>, g2: u32, s: Seq<u8>|
        #![trigger m1.contains_key(storage_key(a, g2, s))]
        a.len() == 20 && m1.contains_key(storage_key(a, g2, s)) implies generation_of(m1, a).is_some()
            && g2 <= generation_of(m1, a).unwrap() by {
        lemma_prefix_distinct(KeyPrefix::Generation, KeyPrefix::Storage, x, a + spec_u32_to_le_bytes(g2) + s);
        assert(m.contains_key(storage_key(a, g2, s)));
        if a != x {
            lemma_key_injective_body(KeyPrefix::Generation, a, x);
        }
    }
}

/// Writing or removing a slot of `x` in its current generation keeps the
/// storage invariant.
pub proof fn lemma_storage_wf_slot(m: Map<Seq<u8>, Seq<u8>>, x: Seq<u8>, g: u32, slot: Seq<u8>, v: Seq<u8>)
    requires
        storage_wf(m),
        x.len() == 20,
        generation_of(m, x) == Some(g),
    ensures
        storage_wf(m.insert(storage_key(x, g, slot), v)),
        storage_wf(m.remove(storage_key(x, g, slot))),
        generation_of(m.insert(storage_key(x, g, slot), v), x) == Some(g),
        generation_of(m.remove(storage_key(x, g, slot)), x) == Some(g),
{
    let k = storage_key(x, g, slot);
    let m1 = m.insert(k, v);
    let m2 = m.remove(k);
    assert forall|a: Seq<u8>| #![trigger generation_key(a)] generation_of(m1, a) == generation_of(m, a)
        && generation_of(m2, a) == generation_of(m, a) by {
        lemma_prefix_distinct(KeyPrefix::Generation, KeyPrefix::Storage, a, x + spec_u32_to_le_bytes(g) + slot);
    }
    assert forall|a: Seq<u8>, g2: u32, s: Seq<u8>|
        #![trigger m1.contains_key(storage_key(a, g2, s))]
        a.len() == 20 && m1.contains_key(storage_key(a, g2, s)) implies generation_of(m1, a).is_some()
            && g2 <= generation_of(m1, a).unwrap() by {
        assert(generation_of(m1, a) == generation_of(m, a));
        if storage_key(a, g2, s) == k {
            lemma_storage_key_injective(a, g2, s, x, g, slot);
        } else {
            assert(m.contains_key(storage_key(a, g2, s)));
        }
    }
    assert forall|a: Seq<u8>, g2: u32, s: Seq<u8>|
        #![trigger m2.contains_key(storage_key(a, g2, s))]
        a.len() == 20 && m2.contains_key(storage_key(a, g2, s)) implies generation_of(m2, a).is_some()
            && g2 <= generation_of(m2, a).unwrap() by {
        assert(generation_of(m2, a) == generation_of(m, a));
        assert(m.contains_key(storage_key(a, g2, s)));
    }
    assert(generation_of(m1, x) == generation_of(m, x));
    assert(generation_of(m2, x) == generation_of(m, x));
}

/// Keys of one table differ where their bodies differ.
pub proof fn lemma_key_injective_body(p: KeyPrefix, a: Seq<u8>, b: Seq<u8>)
    requires
        a != b,
    ensures
        key_of(p, a) != key_of(p, b),
{
    if key_of(p, a) == key_of(p, b) {
        assert(key_of(p, a).skip(1) =~= a);
        assert(key_of(p, b).skip(1) =~= b);
    }
}

pub fn address_key(prefix: KeyPrefix, a: &Address) -> (r: Vec<u8>)
    ensures
        r@ == key_of(prefix, a@),
{
    bytes_to_key(prefix, a)
}

/// The key of `slot` of account `a` in generation `g`.
pub fn storage_slot_key(a: &Address, g: u32, slot: &H256) -> (r: Vec<u8>)
    ensures
        r@ == storage_key(a@, g, slot@),
{
    let mut body: Vec<u8> = copy_bytes(a);
    let gen = u32_to_le_bytes(g);
    append_bytes(&mut body, gen.as_slice());
    append_bytes(&mut body, slot);
    bytes_to_key(KeyPrefix::Storage, body.as_slice())
}

fn read_amount(store: &Store, key: &[u8]) -> (r: Result<u128, AccountError>)
    ensures
        r == amount_result(stored_amount(store@, key@)),
{
    match store.read(key) {
        None => Ok(0),
        Some(v) => match be_word_to_u128(v.as_slice()) {
            Some(x) => Ok(x),
            None => Err(AccountError::InvalidEncoding),
        },
    }
}

fn write_amount(store: &mut Store, key: &[u8], v: u128)
    ensures
        final(store)@ == old(store)@.insert(key@, be_word_of(v)),
        stored_amount(final(store)@, key@) == Some(v),
{
    let w = u128_to_be_word(v);
    store.write(key, w.as_slice());
    proof {
        lemma_be_word_round_trip(v);
    }
}

pub fn get_nonce(store: &Store, a: &Address) -> (r: Result<u128, AccountError>)
    ensures
        r == amount_result(nonce_of(store@, a@)),
{
    read_amount(store, address_key(KeyPrefix::Nonce, a).as_slice())
}

pub fn set_nonce(store: &mut Store, a: &Address, v: u128)
    ensures
        final(store)@ == old(store)@.insert(nonce_key(a@), be_word_of(v)),
        nonce_of(final(store)@, a@) == Some(v),
{
    write_amount(store, address_key(KeyPrefix::Nonce, a).as_slice(), v)
}

pub fn get_balance(store: &Store, a: &Address) -> (r: Result<u128, AccountError>)
    ensures
        r == amount_result(balance_of(store@, a@)),
{
    read_amount(store, address_key(KeyPrefix::Balance, a).as_slice())
}

pub fn set_balance(store: &mut Store, a: &Address, v: u128)
    ensures
        final(store)@ == old(store)@.insert(balance_key(a@), be_word_of(v)),
        balance_of(final(store)@, a@) == Some(v),
{
    write_amount(store, address_key(KeyPrefix::Balance, a).as_slice(), v)
}

pub fn get_code(store: &Store, a: &Address) -> (r: Vec<u8>)
    ensures
        r@ == code_of(store@, a@),
{
    match store.read(address_key(KeyPrefix::Code, a).as_slice()) {
        Some(c) => c,
        None => Vec::new(),
    }
}

pub fn set_code(store: &mut Store, a: &Address, code: &[u8])
    ensures
        final(store)@ == old(store)@.insert(code_key(a@), code@),
        code_of(final(store)@, a@) == code@,
{
    store.write(address_key(KeyPrefix::Code, a).as_slice(), code)
}

pub fn get_generation(store: &Store, a: &Address) -> (r: Result<u32, AccountError>)
    ensures
        match generation_of(store@, a@) {
            Some(g) => r == Ok::<u32, AccountError>(g),
            None => r == Err::<u32, AccountError>(AccountError::InvalidEncoding),
        },
{
    match store.read(address_key(KeyPrefix::Generation, a).as_slice()) {
        None => Ok(0),
        Some(v) => {
            if v.len() == 4 {
                Ok(u32_from_le_bytes(v.as_slice()))
            } else {
                Err(AccountError::InvalidEncoding)
            }
        },
    }
}

/// Reads `slot` of account `a` in generation `g`.
pub fn get_storage(store: &Store, a: &Address, slot: &H256, g: u32) -> (r: Vec<u8>)
    ensures
        r@ == slot_value(store@, storage_key(a@, g, slot@)),
{
    match store.read(storage_slot_key(a, g, slot).as_slice()) {
        Some(v) => v,
        None => {
            let mut z: Vec<u8> = Vec::new();
            let mut i: usize = 0;
            while i < 32
                invariant
                    i <= 32,
                    z@ == Seq::new(i as nat, |j: int| 0u8),
                decreases 32 - i,
            {
                z.push(0u8);
                i = i + 1;
                assert(z@ =~= Seq::new(i as nat, |j: int| 0u8));
            }
            z
        },
    }
}

pub fn is_zero(v: &[u8]) -> (r: bool)
    ensures
        r == is_zero_word(v@),
{
    let mut i: usize = 0;
    while i < v.len()
        invariant
            i <= v@.len(),
            forall|j: int| 0 <= j < i ==> v@[j] == 0,
        decreases v@.len() - i,
    {
        if v[i] != 0 {
            return false;
        }
        i = i + 1;
    }
    true
}

/// Writes `value` to `slot` of account `a` in generation `g`; a zero value
/// removes the key instead, so that no zero word is ever stored.
pub fn set_storage(store: &mut Store, a: &Address, slot: &H256, g: u32, value: &H256)
    ensures
        is_zero_word(value@) ==> final(store)@ == old(store)@.remove(storage_key(a@, g, slot@)),
        !is_zero_word(value@) ==> final(store)@ == old(store)@.insert(
            storage_key(a@, g, slot@),
            value@,
        ),
        storage_wf(old(store)@) && generation_of(old(store)@, a@) == Some(g) ==> storage_wf(
            final(store)@,
        ) && generation_of(final(store)@, a@) == Some(g),
{
    proof {
        if storage_wf(old(store)@) && generation_of(old(store)@, a@) == Some(g) {
            lemma_storage_wf_slot(old(store)@, a@, g, slot@, value@);
        }
    }
    let key = storage_slot_key(a, g, slot);
    if is_zero(value) {
        store.remove(key.as_slice());
    } else {
        store.write(key.as_slice(), value);
    }
}

/// Reads `slot` of account `a` in its current generation.
pub fn get_storage_at(store: &Store, a: &Address, slot: &H256) -> (r: Result<Vec<u8>, AccountError>)
    ensures
        match generation_of(store@, a@) {
            Some(g) => r.is_ok() && r.unwrap()@ == slot_value(store@, storage_key(a@, g, slot@)),
            None => r == Err::<Vec<u8>, AccountError>(AccountError::InvalidEncoding),
        },
{
    let g = get_generation(store, a)?;
    Ok(get_storage(store, a, slot, g))
}

/// Moves account `a` to a fresh storage generation, so that no slot written
/// before is visible any more.
pub fn bump_generation(store: &mut Store, a: &Address) -> (r: Result<u32, AccountError>)
    ensures
        match generation_of(old(store)@, a@) {
            None => r == Err::<u32, AccountError>(AccountError::InvalidEncoding) && final(store)@
                == old(store)@,
            Some(g) => if g == u32::MAX {
                r == Err::<u32, AccountError>(AccountError::GenerationOverflow) && final(store)@
                    == old(store)@
            } else {
                r == Ok::<u32, AccountError>((g + 1) as u32) && final(store)@ == old(store)@.insert(
                    generation_key(a@),
                    spec_u32_to_le_bytes((g + 1) as u32),
                ) && generation_of(final(store)@, a@) == Some((g + 1) as u32)
            },
        },
{
    let g = get_generation(store, a)?;
    if g == u32::MAX {
        return Err(AccountError::GenerationOverflow);
    }
    let next: u32 = g + 1;
    let bytes = u32_to_le_bytes(next);
    store.write(address_key(KeyPrefix::Generation, a).as_slice(), bytes.as_slice());
    proof {
        lemma_auto_spec_u32_to_from_le_bytes();
    }
    Ok(next)
}

} // verus!
