use vstd::prelude::*;
use vstd::bytes::*;

verus! {

/// The logical tables of the flat key space; a key is the table's byte
/// followed by a body.
#[derive(Clone, Copy, Debug, PartialEq, Eq, Structural)]
pub enum KeyPrefix {
    Config,
    Nonce,
    Balance,
    Code,
    Storage,
    Generation,
    RelayerEvmAddressMap,
    Nep141Erc20Map,
    Erc20Nep141Map,
    Proof,
    Metadata,
    PausedMask,
}

pub open spec fn prefix_byte(p: KeyPrefix) -> u8 {
    match p {
        KeyPrefix::Config => 0,
        KeyPrefix::Nonce => 1,
        KeyPrefix::Balance => 2,
        KeyPrefix::Code => 3,
        KeyPrefix::Storage => 4,
        KeyPrefix::Generation => 5,
        KeyPrefix::RelayerEvmAddressMap => 6,
        KeyPrefix::Nep141Erc20Map => 7,
        KeyPrefix::Erc20Nep141Map => 8,
        KeyPrefix::Proof => 9,
        KeyPrefix::Metadata => 10,
        KeyPrefix::PausedMask => 11,
    }
}

pub open spec fn key_of(p: KeyPrefix, body: Seq<u8>) -> Seq<u8> {
    seq![prefix_byte(p)] + body
}

/// Keys of different tables differ.
pub proof fn lemma_prefix_distinct(p: KeyPrefix, q: KeyPrefix, a: Seq<u8>, b: Seq<u8>)
    requires
        p != q,
    ensures
        key_of(p, a) != key_of(q, b),
{
    assert(key_of(p, a)[0] == prefix_byte(p));
    assert(key_of(q, b)[0] == prefix_byte(q));
}

pub fn prefix_to_byte(p: KeyPrefix) -> (r: u8)
    ensures
        r == prefix_byte(p),
{
    match p {
        KeyPrefix::Config => 0,
        KeyPrefix::Nonce => 1,
        KeyPrefix::Balance => 2,
        KeyPrefix::Code => 3,
        KeyPrefix::Storage => 4,
        KeyPrefix::Generation => 5,
        KeyPrefix::RelayerEvmAddressMap => 6,
        KeyPrefix::Nep141Erc20Map => 7,
        KeyPrefix::Erc20Nep141Map => 8,
        KeyPrefix::Proof => 9,
        KeyPrefix::Metadata => 10,
        KeyPrefix::PausedMask => 11,
    }
}

/// Appends `src` to `dst`.
pub fn append_bytes(dst: &mut Vec<u8>, src: &[u8])
    ensures
        final(dst)@ == old(dst)@ + src@,
{
    let mut i: usize = 0;
    while i < src.len()
        invariant
            i <= src@.len(),
            dst@ == old(dst)@ + src@.take(i as int),
        decreases src@.len() - i,
    {
        dst.push(src[i]);
        i = i + 1;
        assert(src@.take(i as int) =~= src@.take(i - 1) + seq![src@[i - 1]]);
    }
    assert(src@.take(src@.len() as int) =~= src@);
}

/// A fresh copy of `src`.
pub fn copy_bytes(src: &[u8]) -> (r: Vec<u8>)
    ensures
        r@ == src@,
{
    let mut r: Vec<u8> = Vec::new();
    append_bytes(&mut r, src);
    assert(r@ =~= src@);
    r
}

/// The key of `body` in table `prefix`.
pub fn bytes_to_key(prefix: KeyPrefix, body: &[u8]) -> (r: Vec<u8>)
    ensures
        r@ == key_of(prefix, body@),
{
    let mut r: Vec<u8> = Vec::new();
    r.push(prefix_to_byte(prefix));
    append_bytes(&mut r, body);
    assert(r@ =~= key_of(prefix, body@));
    r
}

/// Byte-wise equality of two slices.
pub fn bytes_eq(a: &[u8], b: &[u8]) -> (r: bool)
    ensures
        r == (a@ == b@),
{
    if a.len() != b.len() {
        return false;
    }
    let mut i: usize = 0;
    while i < a.len()
        invariant
            a@.len() == b@.len(),
            i <= a@.len(),
            forall|j: int| 0 <= j < i ==> a@[j] == b@[j],
        decreases a@.len() - i,
    {
        if a[i] != b[i] {
            return false;
        }
        i = i + 1;
    }
    assert(a@ =~= b@);
    true
}

// ---------------------------------------------------------------------------
// Fixed-width encodings of stored integers
// ---------------------------------------------------------------------------

/// A 128-bit amount as a 32-byte big-endian word (the upper half is zero).
pub open spec fn be_word_of(v: u128) -> Seq<u8> {
    Seq::new(16, |i: int| 0u8) + Seq::new(16, |i: int| spec_u128_to_le_bytes(v)[15 - i])
}

/// The 128-bit amount held by a 32-byte big-endian word, if its upper half is zero.
pub open spec fn be_word_value(s: Seq<u8>) -> Option<u128> {
    if s.len() == 32 && (forall|i: int| 0 <= i < 16 ==> s[i] == 0) {
        Some(spec_u128_from_le_bytes(Seq::new(16, |i: int| s[31 - i])))
    } else {
        None
    }
}

pub proof fn lemma_be_word_round_trip(v: u128)
    ensures
        be_word_of(v).len() == 32,
        be_word_value(be_word_of(v)) == Some(v),
{
    lemma_auto_spec_u128_to_from_le_bytes();
    let s = be_word_of(v);
    let le = spec_u128_to_le_bytes(v);
    assert(Seq::new(16, |i: int| s[31 - i]) =~= le);
}

/// Encodes an amount as a 32-byte big-endian word.
pub fn u128_to_be_word(v: u128) -> (r: Vec<u8>)
    ensures
        r@ == be_word_of(v),
{
    proof {
        lemma_auto_spec_u128_to_from_le_bytes();
    }
    let le = u128_to_le_bytes(v);
    let mut r: Vec<u8> = Vec::new();
    let mut i: usize = 0;
    while i < 16
        invariant
            i <= 16,
            r@.len() == i,
            forall|j: int| 0 <= j < i ==> r@[j] == 0u8,
        decreases 16 - i,
    {
        r.push(0u8);
        i = i + 1;
    }
    let mut k: usize = 0;
    while k < 16
        invariant
            k <= 16,
            le@ == spec_u128_to_le_bytes(v),
            le@.len() == 16,
            r@.len() == 16 + k,
            forall|j: int| 0 <= j < 16 ==> r@[j] == 0u8,
            forall|j: int| 16 <= j < 16 + k ==> #[trigger] r@[j] == le@[31 - j],
        decreases 16 - k,
    {
        r.push(le[15 - k]);
        k = k + 1;
    }
    assert(r@ =~= be_word_of(v));
    r
}

/// Decodes a 32-byte big-endian word whose upper half is zero.
pub fn be_word_to_u128(s: &[u8]) -> (r: Option<u128>)
    ensures
        r == be_word_value(s@),
{
    if s.len() != 32 {
        return None;
    }
    let mut i: usize = 0;
    while i < 16
        invariant
            s@.len() == 32,
            i <= 16,
            forall|j: int| 0 <= j < i ==> s@[j] == 0,
        decreases 16 - i,
    {
        if s[i] != 0 {
            return None;
        }
        i = i + 1;
    }
    let mut le: Vec<u8> = Vec::new();
    let mut k: usize = 0;
    while k < 16
        invariant
            s@.len() == 32,
            k <= 16,
            le@.len() == k,
            forall|j: int| 0 <= j < k ==> le@[j] == s@[31 - j],
        decreases 16 - k,
    {
        le.push(s[31 - k]);
        k = k + 1;
    }
    assert(le@ =~= Seq::new(16, |i: int| s@[31 - i]));
    Some(u128_from_le_bytes(le.as_slice()))
}

// ---------------------------------------------------------------------------
// The key-value store
// ---------------------------------------------------------------------------

/// The value that a journal gives to `k`: that of the latest entry for `k`,
/// where an entry without a value records a removal.
pub open spec fn journal_lookup(j: Seq<(Vec<u8>, Option<Vec<u8>>)>, k: Seq<u8>) -> Option<Seq<u8>>
    decreases j.len(),
{
    if j.len() == 0 {
        None
    } else if j.last().0@ == k {
        match j.last().1 {
            Some(v) => Some(v@),
            None => None,
        }
    } else {
        journal_lookup(j.drop_last(), k)
    }
}

/// Errors of a fixed-width read.
#[derive(Clone, Copy, Debug, PartialEq, Eq, Structural)]
pub enum ReadU64Error {
    InvalidU64,
    MissingValue,
}

/// A byte-keyed key-value store, kept as a journal of writes and removals.
pub struct Store {
    journal: Vec<(Vec<u8>, Option<Vec<u8>>)>,
}

impl View for Store {
    type V = Map<Seq<u8>, Seq<u8>>;

    closed spec fn view(&self) -> Map<Seq<u8>, Seq<u8>> {
        Map::new(
            |k: Seq<u8>| journal_lookup(self.journal@, k).is_some(),
            |k: Seq<u8>| journal_lookup(self.journal@, k).unwrap(),
        )
    }
}

impl Store {
    proof fn lemma_push_view(&self, k: Seq<u8>, v: Option<Seq<u8>>, e: (Vec<u8>, Option<Vec<u8>>))
        requires
            e.0@ == k,
            match e.1 {
                Some(x) => v == Some(x@),
                None => v.is_none(),
            },
        ensures
            ({
                let m = Map::new(
                    |q: Seq<u8>| journal_lookup(self.journal@.push(e), q).is_some(),
                    |q: Seq<u8>| journal_lookup(self.journal@.push(e), q).unwrap(),
                );
                match v {
                    Some(x) => m == self@.insert(k, x),
                    None => m == self@.remove(k),
                }
            }),
    {
        let j2 = self.journal@.push(e);
        assert(j2.drop_last() =~= self.journal@);
        let m = Map::new(
            |q: Seq<u8>| journal_lookup(j2, q).is_some(),
            |q: Seq<u8>| journal_lookup(j2, q).unwrap(),
        );
        match v {
            Some(x) => {
                assert(m =~= self@.insert(k, x));
            },
            None => {
                assert(m =~= self@.remove(k));
            },
        }
    }

    /// An empty store.
    pub fn new() -> (r: Self)
        ensures
            r@ == Map::<Seq<u8>, Seq<u8>>::empty(),
    {
        let r = Store { journal: Vec::new() };
        assert(r@ =~= Map::<Seq<u8>, Seq<u8>>::empty());
        r
    }

    /// A copy of this store.
    pub fn snapshot(&self) -> (r: Store)
        ensures
            r@ == self@,
    {
        let mut journal: Vec<(Vec<u8>, Option<Vec<u8>>)> = Vec::new();
        let mut i: usize = 0;
        while i < self.journal.len()
            invariant
                i <= self.journal@.len(),
                forall|k: Seq<u8>|
                    #![trigger journal_lookup(journal@, k)]
                    journal_lookup(journal@, k) == journal_lookup(self.journal@.take(i as int), k),
            decreases self.journal@.len() - i,
        {
            let e = &self.journal[i];
            let v = match &e.1 {
                Some(x) => Some(copy_bytes(x.as_slice())),
                None => None,
            };
            let ghost before = journal@;
            journal.push((copy_bytes(e.0.as_slice()), v));
            proof {
                let t = self.journal@.take(i + 1);
                assert(t.drop_last() =~= self.journal@.take(i as int));
                assert(journal@.drop_last() =~= before);
                assert(t.last() == self.journal@[i as int]);
                assert forall|k: Seq<u8>|
                    #![trigger journal_lookup(journal@, k)]
                    journal_lookup(journal@, k) == journal_lookup(t, k) by {
                    assert(journal_lookup(before, k) == journal_lookup(self.journal@.take(i as int), k));
                }
            }
            i = i + 1;
        }
        assert(self.journal@.take(i as int) =~= self.journal@);
        let r = Store { journal };
        assert(r@ =~= self@) by {
            assert forall|k: Seq<u8>| #[trigger] r@.contains_key(k) == self@.contains_key(k) by {
                assert(journal_lookup(r.journal@, k) == journal_lookup(self.journal@, k));
            }
            assert forall|k: Seq<u8>| r@.contains_key(k) implies #[trigger] r@[k] == self@[k] by {
                assert(journal_lookup(r.journal@, k) == journal_lookup(self.journal@, k));
            }
        }
        r
    }

    /// The value under `key`, if any.
    pub fn read(&self, key: &[u8]) -> (r: Option<Vec<u8>>)
        ensures
            match r {
                Some(v) => self@.contains_key(key@) && self@[key@] == v@,
                None => !self@.contains_key(key@),
            },
    {
        let mut i: usize = self.journal.len();
        assert(self.journal@.take(i as int) =~= self.journal@);
        while i > 0
            invariant
                i <= self.journal@.len(),
                journal_lookup(self.journal@, key@) == journal_lookup(self.journal@.take(i as int), key@),
            decreases i,
        {
            let ghost t = self.journal@.take(i as int);
            assert(t.drop_last() =~= self.journal@.take(i - 1));
            assert(t.last() == self.journal@[i - 1]);
            if bytes_eq(self.journal[i - 1].0.as_slice(), key) {
                return match &self.journal[i - 1].1 {
                    Some(v) => Some(v.clone()),
                    None => None,
                };
            }
            i = i - 1;
        }
        None
    }

    /// Whether `key` holds a value.
    pub fn has_key(&self, key: &[u8]) -> (r: bool)
        ensures
            r == self@.contains_key(key@),
    {
        self.read(key).is_some()
    }

    /// Stores `value` under `key`.
    pub fn write(&mut self, key: &[u8], value: &[u8])
        ensures
            final(self)@ == old(self)@.insert(key@, value@),
    {
        let e = (copy_bytes(key), Some(copy_bytes(value)));
        proof {
            old(self).lemma_push_view(key@, Some(value@), e);
        }
        self.journal.push(e);
    }

    /// Removes whatever is stored under `key`.
    pub fn remove(&mut self, key: &[u8])
        ensures
            final(self)@ == old(self)@.remove(key@),
    {
        let e = (copy_bytes(key), None);
        proof {
            old(self).lemma_push_view(key@, None, e);
        }
        self.journal.push(e);
    }

    /// Reads a little-endian `u64`; a stored value that is not eight bytes long
    /// is an invalid encoding.
    pub fn read_u64(&self, key: &[u8]) -> (r: Result<u64, ReadU64Error>)
        ensures
            !self@.contains_key(key@) ==> r == Err::<u64, ReadU64Error>(ReadU64Error::MissingValue),
            self@.contains_key(key@) && self@[key@].len() != 8 ==> r == Err::<u64, ReadU64Error>(
                ReadU64Error::InvalidU64,
            ),
            self@.contains_key(key@) && self@[key@].len() == 8 ==> r == Ok::<u64, ReadU64Error>(
                spec_u64_from_le_bytes(self@[key@]),
            ),
    {
        match self.read(key) {
            None => Err(ReadU64Error::MissingValue),
            Some(v) => {
                if v.len() != 8 {
                    Err(ReadU64Error::InvalidU64)
                } else {
                    Ok(u64_from_le_bytes(v.as_slice()))
                }
            },
        }
    }
}

} // verus!
