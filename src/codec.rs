use vstd::prelude::*;
use vstd::slice::slice_subrange;

use crate::accounts::{Address, H256};
use crate::rlp::{
    decode_item, decode_items, decode_uint, be_min, be_val, dec_item, dec_items, enc_header, enc_items, enc_list, encode_items,
    encode_list, encode_uint, items_fit, items_view, lemma_be_min_len, lemma_be_min_val,
    lemma_dec_enc_items, lemma_dec_enc_list, lemma_pow256_values, pow256,
};
use crate::store::{append_bytes, copy_bytes};
use crate::transaction::{AccessTuple, NormalizedEthTransaction};

verus! {

/// The three envelopes of a signed transaction.
#[derive(Clone, Copy, Debug, PartialEq, Eq, Structural)]
pub enum TxKind {
    Legacy,
    Eip2930,
    Eip1559,
}

/// A signed transaction as carried on the wire, any kind. Legacy and
/// EIP-2930 transactions have one gas price, held in both fee fields.
pub struct SignedTransaction {
    pub kind: TxKind,
    pub chain_id: Option<u64>,
    pub nonce: u128,
    pub max_priority_fee_per_gas: u128,
    pub max_fee_per_gas: u128,
    pub gas_limit: u128,
    pub to: Option<Address>,
    pub value: u128,
    pub data: Vec<u8>,
    pub access_list: Vec<AccessTuple>,
    pub odd_y_parity: bool,
    pub r: Vec<u8>,
    pub s: Vec<u8>,
}

/// An access list as plain values: each address with its slots.
pub open spec fn access_list_view(l: Seq<AccessTuple>) -> Seq<(Seq<u8>, Seq<Seq<u8>>)> {
    Seq::new(
        l.len(),
        |i: int| (l[i].address@, Seq::new(l[i].storage_keys@.len(), |j: int| l[i].storage_keys@[j]@)),
    )
}

/// The fields of a signed transaction as plain values.
pub struct TxFields {
    pub kind: TxKind,
    pub chain_id: Option<u64>,
    pub nonce: u128,
    pub max_priority_fee_per_gas: u128,
    pub max_fee_per_gas: u128,
    pub gas_limit: u128,
    pub to: Option<Seq<u8>>,
    pub value: u128,
    pub data: Seq<u8>,
    pub access_list: Seq<(Seq<u8>, Seq<Seq<u8>>)>,
    pub odd_y_parity: bool,
    pub r: Seq<u8>,
    pub s: Seq<u8>,
}

impl SignedTransaction {
    pub open spec fn fields(&self) -> TxFields {
        TxFields {
            kind: self.kind,
            chain_id: self.chain_id,
            nonce: self.nonce,
            max_priority_fee_per_gas: self.max_priority_fee_per_gas,
            max_fee_per_gas: self.max_fee_per_gas,
            gas_limit: self.gas_limit,
            to: match self.to {
                Some(a) => Some(a@),
                None => None,
            },
            value: self.value,
            data: self.data@,
            access_list: access_list_view(self.access_list@),
            odd_y_parity: self.odd_y_parity,
            r: self.r@,
            s: self.s@,
        }
    }
}

// ---------------------------------------------------------------------------
// The items of a transaction
// ---------------------------------------------------------------------------

pub open spec fn uint_item(n: nat) -> (bool, Seq<u8>) {
    (false, be_min(n))
}

pub open spec fn str_item(b: Seq<u8>) -> (bool, Seq<u8>) {
    (false, b)
}

pub open spec fn to_item(to: Option<Seq<u8>>) -> (bool, Seq<u8>) {
    match to {
        Some(a) => (false, a),
        None => (false, Seq::empty()),
    }
}

pub open spec fn keys_items(keys: Seq<Seq<u8>>) -> Seq<(bool, Seq<u8>)> {
    Seq::new(keys.len(), |j: int| str_item(keys[j]))
}

pub open spec fn entry_item(e: (Seq<u8>, Seq<Seq<u8>>)) -> (bool, Seq<u8>) {
    (true, enc_items(seq![str_item(e.0), (true, enc_items(keys_items(e.1)))]))
}

pub open spec fn access_list_item(l: Seq<(Seq<u8>, Seq<Seq<u8>>)>) -> (bool, Seq<u8>) {
    (true, enc_items(Seq::new(l.len(), |i: int| entry_item(l[i]))))
}

/// The `v` of a legacy signature: EIP-155 where a chain id is signed.
pub open spec fn legacy_v(chain_id: Option<u64>, odd: bool) -> nat {
    let p: nat = if odd {
        1
    } else {
        0
    };
    match chain_id {
        Some(c) => (c * 2 + 35 + p) as nat,
        None => (27 + p) as nat,
    }
}

pub open spec fn parity_nat(odd: bool) -> nat {
    if odd {
        1
    } else {
        0
    }
}

/// The items of a transaction's list, in order.
pub open spec fn tx_items(f: TxFields) -> Seq<(bool, Seq<u8>)> {
    match f.kind {
        TxKind::Legacy => seq![
            uint_item(f.nonce as nat),
            uint_item(f.max_fee_per_gas as nat),
            uint_item(f.gas_limit as nat),
            to_item(f.to),
            uint_item(f.value as nat),
            str_item(f.data),
            uint_item(legacy_v(f.chain_id, f.odd_y_parity)),
            str_item(f.r),
            str_item(f.s),
        ],
        TxKind::Eip2930 => seq![
            uint_item(f.chain_id.unwrap() as nat),
            uint_item(f.nonce as nat),
            uint_item(f.max_fee_per_gas as nat),
            uint_item(f.gas_limit as nat),
            to_item(f.to),
            uint_item(f.value as nat),
            str_item(f.data),
            access_list_item(f.access_list),
            uint_item(parity_nat(f.odd_y_parity)),
            str_item(f.r),
            str_item(f.s),
        ],
        TxKind::Eip1559 => seq![
            uint_item(f.chain_id.unwrap() as nat),
            uint_item(f.nonce as nat),
            uint_item(f.max_priority_fee_per_gas as nat),
            uint_item(f.max_fee_per_gas as nat),
            uint_item(f.gas_limit as nat),
            to_item(f.to),
            uint_item(f.value as nat),
            str_item(f.data),
            access_list_item(f.access_list),
            uint_item(parity_nat(f.odd_y_parity)),
            str_item(f.r),
            str_item(f.s),
        ],
    }
}

/// The envelope's leading type byte, if any.
pub open spec fn type_prefix(k: TxKind) -> Seq<u8> {
    match k {
        TxKind::Legacy => Seq::empty(),
        TxKind::Eip2930 => seq![1u8],
        TxKind::Eip1559 => seq![2u8],
    }
}

/// The wire bytes of a transaction.
pub open spec fn enc_tx(f: TxFields) -> Seq<u8> {
    type_prefix(f.kind) + enc_list(enc_items(tx_items(f)))
}

fn uint_entry(n: u128) -> (r: (bool, Vec<u8>))
    ensures
        r.0 == false && r.1@ == be_min(n as nat),
{
    (false, encode_uint(n))
}

fn str_entry(b: &[u8]) -> (r: (bool, Vec<u8>))
    ensures
        r.0 == false && r.1@ == b@,
{
    (false, copy_bytes(b))
}

fn encode_access_list(l: &Vec<AccessTuple>) -> (r: (bool, Vec<u8>))
    ensures
        r.0 && (r.0, r.1@) == access_list_item(access_list_view(l@)),
{
    let ghost lv = access_list_view(l@);
    let mut entries: Vec<(bool, Vec<u8>)> = Vec::new();
    let mut i: usize = 0;
    while i < l.len()
        invariant
            i <= l@.len(),
            lv == access_list_view(l@),
            entries@.len() == i,
            forall|k: int|
                0 <= k < i ==> (#[trigger] entries@[k]).0 == entry_item(lv[k]).0
                    && entries@[k].1@ == entry_item(lv[k]).1,
        decreases l@.len() - i,
    {
        let e = &l[i];
        let mut keys: Vec<(bool, Vec<u8>)> = Vec::new();
        let mut j: usize = 0;
        while j < e.storage_keys.len()
            invariant
                j <= e.storage_keys@.len(),
                keys@.len() == j,
                forall|k: int|
                    0 <= k < j ==> !(#[trigger] keys@[k]).0 && keys@[k].1@
                        == e.storage_keys@[k]@,
            decreases e.storage_keys@.len() - j,
        {
            keys.push(str_entry(&e.storage_keys[j]));
            j = j + 1;
        }
        assert(items_view(keys@) =~= keys_items(lv[i as int].1));
        let keys_payload = encode_items(&keys);
        let mut pair: Vec<(bool, Vec<u8>)> = Vec::new();
        pair.push(str_entry(&e.address));
        pair.push((true, keys_payload));
        assert(items_view(pair@) =~= seq![str_item(lv[i as int].0), (true, enc_items(keys_items(lv[i as int].1)))]);
        let entry = encode_items(&pair);
        entries.push((true, entry));
        i = i + 1;
    }
    assert(items_view(entries@) =~= Seq::new(lv.len(), |k: int| entry_item(lv[k])));
    (true, encode_items(&entries))
}


// ---------------------------------------------------------------------------
// Decoding
// ---------------------------------------------------------------------------

pub open spec fn item_uint(it: (bool, Seq<u8>)) -> Option<u128> {
    if !it.0 && it.1.len() <= 16 {
        Some(be_val(it.1) as u128)
    } else {
        None
    }
}

pub open spec fn item_to(it: (bool, Seq<u8>)) -> Option<Option<Seq<u8>>> {
    if it.0 {
        None
    } else if it.1.len() == 0 {
        Some(None)
    } else if it.1.len() == 20 {
        Some(Some(it.1))
    } else {
        None
    }
}

pub open spec fn item_parity(it: (bool, Seq<u8>)) -> Option<bool> {
    match item_uint(it) {
        Some(v) => if v == 0 {
            Some(false)
        } else if v == 1 {
            Some(true)
        } else {
            None
        },
        None => None,
    }
}

pub open spec fn item_keys(it: (bool, Seq<u8>)) -> Option<Seq<Seq<u8>>> {
    if !it.0 {
        None
    } else {
        match dec_items(it.1) {
            None => None,
            Some(ks) => if forall|j: int| 0 <= j < ks.len() ==> !(#[trigger] ks[j]).0 && ks[j].1.len() == 32 {
                Some(Seq::new(ks.len(), |j: int| ks[j].1))
            } else {
                None
            },
        }
    }
}

pub open spec fn item_entry(it: (bool, Seq<u8>)) -> Option<(Seq<u8>, Seq<Seq<u8>>)> {
    if !it.0 {
        None
    } else {
        match dec_items(it.1) {
            None => None,
            Some(ps) => if ps.len() == 2 && !ps[0].0 && ps[0].1.len() == 20 && item_keys(ps[1]).is_some() {
                Some((ps[0].1, item_keys(ps[1]).unwrap()))
            } else {
                None
            },
        }
    }
}

pub open spec fn item_access_list(it: (bool, Seq<u8>)) -> Option<Seq<(Seq<u8>, Seq<Seq<u8>>)>> {
    if !it.0 {
        None
    } else {
        match dec_items(it.1) {
            None => None,
            Some(es) => if forall|i: int| 0 <= i < es.len() ==> (#[trigger] item_entry(es[i])).is_some() {
                Some(Seq::new(es.len(), |i: int| item_entry(es[i]).unwrap()))
            } else {
                None
            },
        }
    }
}

/// The chain id and parity that a legacy `v` stands for.
pub open spec fn v_fields(v: u128) -> Option<(Option<u64>, bool)> {
    if v == 27 || v == 28 {
        Some((None, v == 28))
    } else if v >= 35 && (v - 35) / 2 <= u64::MAX {
        Some((Some(((v - 35) / 2) as u64), (v - 35) % 2 == 1))
    } else {
        None
    }
}

/// The fields that the items of a transaction's list give, for its kind.
pub open spec fn fields_from_items(kind: TxKind, it: Seq<(bool, Seq<u8>)>) -> Option<TxFields> {
    match kind {
        TxKind::Legacy => if it.len() == 9 && item_uint(it[0]).is_some() && item_uint(it[1]).is_some()
            && item_uint(it[2]).is_some() && item_to(it[3]).is_some() && item_uint(it[4]).is_some()
            && !it[5].0 && item_uint(it[6]).is_some() && v_fields(item_uint(it[6]).unwrap()).is_some()
            && !it[7].0 && !it[8].0 {
            Some(TxFields {
                kind,
                chain_id: v_fields(item_uint(it[6]).unwrap()).unwrap().0,
                nonce: item_uint(it[0]).unwrap(),
                max_priority_fee_per_gas: item_uint(it[1]).unwrap(),
                max_fee_per_gas: item_uint(it[1]).unwrap(),
                gas_limit: item_uint(it[2]).unwrap(),
                to: item_to(it[3]).unwrap(),
                value: item_uint(it[4]).unwrap(),
                data: it[5].1,
                access_list: Seq::empty(),
                odd_y_parity: v_fields(item_uint(it[6]).unwrap()).unwrap().1,
                r: it[7].1,
                s: it[8].1,
            })
        } else {
            None
        },
        TxKind::Eip2930 => if it.len() == 11 && item_uint(it[0]).is_some() && item_uint(it[0]).unwrap()
            <= u64::MAX && item_uint(it[1]).is_some() && item_uint(it[2]).is_some() && item_uint(
            it[3],
        ).is_some() && item_to(it[4]).is_some() && item_uint(it[5]).is_some() && !it[6].0
            && item_access_list(it[7]).is_some() && item_parity(it[8]).is_some() && !it[9].0
            && !it[10].0 {
            Some(TxFields {
                kind,
                chain_id: Some(item_uint(it[0]).unwrap() as u64),
                nonce: item_uint(it[1]).unwrap(),
                max_priority_fee_per_gas: item_uint(it[2]).unwrap(),
                max_fee_per_gas: item_uint(it[2]).unwrap(),
                gas_limit: item_uint(it[3]).unwrap(),
                to: item_to(it[4]).unwrap(),
                value: item_uint(it[5]).unwrap(),
                data: it[6].1,
                access_list: item_access_list(it[7]).unwrap(),
                odd_y_parity: item_parity(it[8]).unwrap(),
                r: it[9].1,
                s: it[10].1,
            })
        } else {
            None
        },
        TxKind::Eip1559 => if it.len() == 12 && item_uint(it[0]).is_some() && item_uint(it[0]).unwrap()
            <= u64::MAX && item_uint(it[1]).is_some() && item_uint(it[2]).is_some() && item_uint(
            it[3],
        ).is_some() && item_uint(it[4]).is_some() && item_to(it[5]).is_some() && item_uint(
            it[6],
        ).is_some() && !it[7].0 && item_access_list(it[8]).is_some() && item_parity(
            it[9],
        ).is_some() && !it[10].0 && !it[11].0 {
            Some(TxFields {
                kind,
                chain_id: Some(item_uint(it[0]).unwrap() as u64),
                nonce: item_uint(it[1]).unwrap(),
                max_priority_fee_per_gas: item_uint(it[2]).unwrap(),
                max_fee_per_gas: item_uint(it[3]).unwrap(),
                gas_limit: item_uint(it[4]).unwrap(),
                to: item_to(it[5]).unwrap(),
                value: item_uint(it[6]).unwrap(),
                data: it[7].1,
                access_list: item_access_list(it[8]).unwrap(),
                odd_y_parity: item_parity(it[9]).unwrap(),
                r: it[10].1,
                s: it[11].1,
            })
        } else {
            None
        },
    }
}

pub open spec fn kind_of(bytes: Seq<u8>) -> TxKind {
    if bytes[0] == 1 {
        TxKind::Eip2930
    } else if bytes[0] == 2 {
        TxKind::Eip1559
    } else {
        TxKind::Legacy
    }
}

/// The fields of the transaction that `bytes` carry: a leading 0x01 marks
/// EIP-2930, 0x02 EIP-1559, anything else a legacy transaction.
pub open spec fn dec_tx(bytes: Seq<u8>) -> Option<TxFields> {
    if bytes.len() == 0 {
        None
    } else {
        let kind = kind_of(bytes);
        let body = if kind == TxKind::Legacy {
            bytes
        } else {
            bytes.skip(1)
        };
        match dec_item(body) {
            Some((l, p, rest)) => if l && rest.len() == 0 {
                match dec_items(p) {
                    Some(items) => fields_from_items(kind, items),
                    None => None,
                }
            } else {
                None
            },
            None => None,
        }
    }
}

/// The fields can be encoded: a typed transaction signs a chain id, a legacy
/// one has a single gas price and no access list, an EIP-2930 one a single
/// gas price; addresses are 20 bytes and slots 32; and every payload's length
/// fits in eight bytes.
pub open spec fn encodable(f: TxFields) -> bool {
    &&& f.kind != TxKind::Legacy ==> f.chain_id.is_some()
    &&& f.kind != TxKind::Eip1559 ==> f.max_priority_fee_per_gas == f.max_fee_per_gas
    &&& f.kind == TxKind::Legacy ==> f.access_list.len() == 0
    &&& f.to.is_some() ==> f.to.unwrap().len() == 20
    &&& forall|i: int| 0 <= i < f.access_list.len() ==> {
        &&& (#[trigger] f.access_list[i]).0.len() == 20
        &&& forall|j: int| 0 <= j < f.access_list[i].1.len() ==> (#[trigger] f.access_list[i].1[j]).len() == 32
        &&& enc_items(keys_items(f.access_list[i].1)).len() < pow256(8)
        &&& enc_items(seq![str_item(f.access_list[i].0), (true, enc_items(keys_items(f.access_list[i].1)))]).len() < pow256(8)
    }
    &&& access_list_item(f.access_list).1.len() < pow256(8)
    &&& f.data.len() < pow256(8)
    &&& f.r.len() < pow256(8)
    &&& f.s.len() < pow256(8)
    &&& enc_items(tx_items(f)).len() < pow256(8)
}

proof fn lemma_uint_item(n: u128)
    ensures
        item_uint(uint_item(n as nat)) == Some(n),
        uint_item(n as nat).1.len() <= 16,
        uint_item(n as nat).1.len() < pow256(8),
{
    lemma_pow256_values();
    lemma_be_min_len(n as nat, 16);
    lemma_be_min_val(n as nat);
}

proof fn lemma_keys_round(ks: Seq<Seq<u8>>)
    requires
        forall|j: int| 0 <= j < ks.len() ==> (#[trigger] ks[j]).len() == 32,
    ensures
        item_keys((true, enc_items(keys_items(ks)))) == Some(ks),
{
    lemma_pow256_values();
    let its = keys_items(ks);
    assert(items_fit(its));
    lemma_dec_enc_items(its);
    assert(Seq::new(its.len(), |j: int| its[j].1) =~= ks);
}

proof fn lemma_entry_round(e: (Seq<u8>, Seq<Seq<u8>>))
    requires
        e.0.len() == 20,
        forall|j: int| 0 <= j < e.1.len() ==> (#[trigger] e.1[j]).len() == 32,
        enc_items(keys_items(e.1)).len() < pow256(8),
    ensures
        item_entry(entry_item(e)) == Some(e),
{
    lemma_pow256_values();
    let pair = seq![str_item(e.0), (true, enc_items(keys_items(e.1)))];
    assert(items_fit(pair));
    lemma_dec_enc_items(pair);
    lemma_keys_round(e.1);
}

proof fn lemma_access_list_round(al: Seq<(Seq<u8>, Seq<Seq<u8>>)>)
    requires
        forall|i: int| 0 <= i < al.len() ==> {
            &&& (#[trigger] al[i]).0.len() == 20
            &&& forall|j: int| 0 <= j < al[i].1.len() ==> (#[trigger] al[i].1[j]).len() == 32
            &&& enc_items(keys_items(al[i].1)).len() < pow256(8)
            &&& enc_items(seq![str_item(al[i].0), (true, enc_items(keys_items(al[i].1)))]).len() < pow256(8)
        },
    ensures
        item_access_list(access_list_item(al)) == Some(al),
{
    let es = Seq::new(al.len(), |i: int| entry_item(al[i]));
    assert(items_fit(es));
    lemma_dec_enc_items(es);
    assert forall|i: int| 0 <= i < es.len() implies (#[trigger] item_entry(es[i])).is_some() && item_entry(es[i]).unwrap() == al[i] by {
        lemma_entry_round(al[i]);
    }
    assert(Seq::new(es.len(), |i: int| item_entry(es[i]).unwrap()) =~= al);
}

proof fn lemma_common_items(f: TxFields)
    requires
        encodable(f),
    ensures
        item_uint(uint_item(f.nonce as nat)) == Some(f.nonce),
        item_uint(uint_item(f.max_priority_fee_per_gas as nat)) == Some(f.max_priority_fee_per_gas),
        item_uint(uint_item(f.max_fee_per_gas as nat)) == Some(f.max_fee_per_gas),
        item_uint(uint_item(f.gas_limit as nat)) == Some(f.gas_limit),
        item_uint(uint_item(f.value as nat)) == Some(f.value),
        item_to(to_item(f.to)) == Some(f.to),
        items_fit(tx_items(f)),
        dec_items(enc_items(tx_items(f))) == Some(tx_items(f)),
{
    lemma_pow256_values();
    lemma_uint_item(f.nonce);
    lemma_uint_item(f.max_priority_fee_per_gas);
    lemma_uint_item(f.max_fee_per_gas);
    lemma_uint_item(f.gas_limit);
    lemma_uint_item(f.value);
    lemma_uint_item(if f.odd_y_parity { 1u128 } else { 0u128 });
    if f.kind != TxKind::Legacy {
        lemma_uint_item(f.chain_id.unwrap() as u128);
    } else {
        let v = legacy_v(f.chain_id, f.odd_y_parity);
        lemma_uint_item(v as u128);
    }
    assert(items_fit(tx_items(f)));
    lemma_dec_enc_items(tx_items(f));
}

#[verifier::rlimit(50)]
proof fn lemma_legacy_fields(f: TxFields)
    requires
        encodable(f),
        f.kind == TxKind::Legacy,
    ensures
        fields_from_items(f.kind, tx_items(f)) == Some(f),
{
    lemma_common_items(f);
    let v = legacy_v(f.chain_id, f.odd_y_parity);
    assert(v < 0x1_0000_0000_0000_0000_0000_0000_0000_0000);
    lemma_uint_item(v as u128);
    assert(v_fields(v as u128) == Some((f.chain_id, f.odd_y_parity)));
    assert(f.access_list =~= Seq::<(Seq<u8>, Seq<Seq<u8>>)>::empty());
    let it = tx_items(f);
    assert(it[6] == uint_item(v));
}

#[verifier::rlimit(50)]
proof fn lemma_typed_fields(f: TxFields)
    requires
        encodable(f),
        f.kind != TxKind::Legacy,
    ensures
        fields_from_items(f.kind, tx_items(f)) == Some(f),
{
    lemma_common_items(f);
    lemma_uint_item(f.chain_id.unwrap() as u128);
    lemma_uint_item(if f.odd_y_parity { 1u128 } else { 0u128 });
    lemma_access_list_round(f.access_list);
    assert(item_parity(uint_item(parity_nat(f.odd_y_parity))) == Some(f.odd_y_parity));
}

/// Decoding the encoding of a transaction gives its fields back, for every
/// kind of transaction.
pub proof fn lemma_transaction_round_trip(f: TxFields)
    requires
        encodable(f),
    ensures
        dec_tx(enc_tx(f)) == Some(f),
{
    let items = tx_items(f);
    let payload = enc_items(items);
    let body = enc_list(payload);
    lemma_dec_enc_list(payload, Seq::empty());
    assert(body + Seq::<u8>::empty() =~= body);
    lemma_common_items(f);
    if f.kind == TxKind::Legacy {
        lemma_legacy_fields(f);
    } else {
        lemma_typed_fields(f);
    }
    let bytes = enc_tx(f);
    match f.kind {
        TxKind::Legacy => {
            assert(bytes =~= body);
            assert(enc_header(0xc0nat, payload.len()).len() >= 1);
            assert(bytes[0] >= 0xc0);
        },
        _ => {
            assert(bytes.skip(1) =~= body);
        },
    }
}

// ---------------------------------------------------------------------------
// The executable decoder
// ---------------------------------------------------------------------------

pub open spec fn item_of(it: (bool, Vec<u8>)) -> (bool, Seq<u8>) {
    (it.0, it.1@)
}

fn read_uint(it: &(bool, Vec<u8>)) -> (r: Option<u128>)
    ensures
        r == item_uint(item_of(*it)),
{
    if it.0 || it.1.len() > 16 {
        None
    } else {
        decode_uint(it.1.as_slice())
    }
}

fn to_address(s: &[u8]) -> (r: Address)
    requires
        s@.len() == 20,
    ensures
        r@ == s@,
{
    let mut a: Address = [0u8; 20];
    let mut i: usize = 0;
    while i < 20
        invariant
            s@.len() == 20,
            i <= 20,
            forall|j: int| 0 <= j < i ==> a@[j] == s@[j],
        decreases 20 - i,
    {
        a.set(i, s[i]);
        i = i + 1;
    }
    assert(a@ =~= s@);
    a
}

fn to_word(s: &[u8]) -> (r: H256)
    requires
        s@.len() == 32,
    ensures
        r@ == s@,
{
    let mut a: H256 = [0u8; 32];
    let mut i: usize = 0;
    while i < 32
        invariant
            s@.len() == 32,
            i <= 32,
            forall|j: int| 0 <= j < i ==> a@[j] == s@[j],
        decreases 32 - i,
    {
        a.set(i, s[i]);
        i = i + 1;
    }
    assert(a@ =~= s@);
    a
}

fn read_to(it: &(bool, Vec<u8>)) -> (r: Option<Option<Address>>)
    ensures
        match item_to(item_of(*it)) {
            None => r.is_none(),
            Some(None) => r == Some(None::<Address>),
            Some(Some(a)) => r.is_some() && r.unwrap().is_some() && r.unwrap().unwrap()@ == a,
        },
{
    if it.0 {
        None
    } else if it.1.len() == 0 {
        Some(None)
    } else if it.1.len() == 20 {
        Some(Some(to_address(it.1.as_slice())))
    } else {
        None
    }
}

fn read_parity(it: &(bool, Vec<u8>)) -> (r: Option<bool>)
    ensures
        r == item_parity(item_of(*it)),
{
    match read_uint(it) {
        Some(v) => if v == 0 {
            Some(false)
        } else if v == 1 {
            Some(true)
        } else {
            None
        },
        None => None,
    }
}

fn read_keys(it: &(bool, Vec<u8>)) -> (r: Option<Vec<H256>>)
    ensures
        match item_keys(item_of(*it)) {
            None => r.is_none(),
            Some(ks) => r.is_some() && r.unwrap()@.len() == ks.len() && forall|j: int|
                0 <= j < ks.len() ==> (#[trigger] r.unwrap()@[j])@ == ks[j],
        },
{
    if !it.0 {
        return None;
    }
    let items = match decode_items(it.1.as_slice()) {
        Some(v) => v,
        None => {
            return None;
        },
    };
    let ghost ks = items_view(items@);
    assert(dec_items(it.1@) == Some(ks));
    let mut out: Vec<H256> = Vec::new();
    let mut j: usize = 0;
    while j < items.len()
        invariant
            ks == items_view(items@),
            dec_items(it.1@) == Some(ks),
            it.0,
            j <= items@.len(),
            out@.len() == j,
            forall|k: int| 0 <= k < j ==> !(#[trigger] ks[k]).0 && ks[k].1.len() == 32,
            forall|k: int| 0 <= k < j ==> (#[trigger] out@[k])@ == ks[k].1,
        decreases items@.len() - j,
    {
        if items[j].0 || items[j].1.len() != 32 {
            assert(ks[j as int] == item_of(items@[j as int]));
            assert(!(!ks[j as int].0 && ks[j as int].1.len() == 32));
            assert(dec_items(it.1@) == Some(ks));
            assert(item_keys(item_of(*it)).is_none());
            return None;
        }
        out.push(to_word(items[j].1.as_slice()));
        j = j + 1;
    }
    Some(out)
}

fn read_entry(it: &(bool, Vec<u8>)) -> (r: Option<AccessTuple>)
    ensures
        match item_entry(item_of(*it)) {
            None => r.is_none(),
            Some(e) => r.is_some() && r.unwrap().address@ == e.0 && Seq::new(
                r.unwrap().storage_keys@.len(),
                |j: int| r.unwrap().storage_keys@[j]@,
            ) == e.1,
        },
{
    if !it.0 {
        return None;
    }
    let ps = match decode_items(it.1.as_slice()) {
        Some(v) => v,
        None => {
            return None;
        },
    };
    if ps.len() != 2 || ps[0].0 || ps[0].1.len() != 20 {
        return None;
    }
    assert(items_view(ps@)[1] == item_of(ps@[1]));
    let keys = match read_keys(&ps[1]) {
        Some(k) => k,
        None => {
            return None;
        },
    };
    let t = AccessTuple { address: to_address(ps[0].1.as_slice()), storage_keys: keys };
    proof {
        let e = item_entry(item_of(*it)).unwrap();
        assert(Seq::new(t.storage_keys@.len(), |j: int| t.storage_keys@[j]@) =~= e.1);
    }
    Some(t)
}

fn read_access_list(it: &(bool, Vec<u8>)) -> (r: Option<Vec<AccessTuple>>)
    ensures
        match item_access_list(item_of(*it)) {
            None => r.is_none(),
            Some(al) => r.is_some() && access_list_view(r.unwrap()@) == al,
        },
{
    if !it.0 {
        return None;
    }
    let es = match decode_items(it.1.as_slice()) {
        Some(v) => v,
        None => {
            return None;
        },
    };
    let ghost ev = items_view(es@);
    assert(dec_items(it.1@) == Some(ev));
    let mut out: Vec<AccessTuple> = Vec::new();
    let mut i: usize = 0;
    while i < es.len()
        invariant
            ev == items_view(es@),
            dec_items(it.1@) == Some(ev),
            it.0,
            i <= es@.len(),
            out@.len() == i,
            forall|k: int| 0 <= k < i ==> (#[trigger] item_entry(ev[k])).is_some(),
            forall|k: int|
                0 <= k < i ==> access_list_view(out@)[k] == (#[trigger] item_entry(ev[k])).unwrap(),
        decreases es@.len() - i,
    {
        assert(ev[i as int] == item_of(es@[i as int]));
        match read_entry(&es[i]) {
            Some(t) => {
                let ghost before = out@;
                out.push(t);
                proof {
                    assert forall|k: int| 0 <= k < i + 1 implies access_list_view(out@)[k]
                        == (#[trigger] item_entry(ev[k])).unwrap() by {
                        if k < i {
                            assert(out@[k] == before[k]);
                            assert(access_list_view(out@)[k] == access_list_view(before)[k]);
                        }
                    }
                }
                i = i + 1;
            },
            None => {
                assert(item_entry(ev[i as int]).is_none());
                assert(dec_items(it.1@) == Some(ev));
                assert(item_access_list(item_of(*it)).is_none());
                return None;
            },
        }
    }
    proof {
        let al = item_access_list(item_of(*it)).unwrap();
        assert(access_list_view(out@) =~= al);
    }
    Some(out)
}

fn read_v(v: u128) -> (r: Option<(Option<u64>, bool)>)
    ensures
        r == v_fields(v),
{
    if v == 27 || v == 28 {
        Some((None, v == 28))
    } else if v >= 35 && (v - 35) / 2 <= u64::MAX as u128 {
        Some((Some(((v - 35) / 2) as u64), (v - 35) % 2 == 1))
    } else {
        None
    }
}

impl SignedTransaction {
    #[verifier::rlimit(60)]
    fn from_items(kind: TxKind, items: &Vec<(bool, Vec<u8>)>) -> (r: Option<SignedTransaction>)
        ensures
            match fields_from_items(kind, items_view(items@)) {
                None => r.is_none(),
                Some(f) => r.is_some() && r.unwrap().fields() == f,
            },
    {
        let ghost iv = items_view(items@);
        assert(forall|k: int| 0 <= k < items@.len() ==> #[trigger] iv[k] == item_of(items@[k]));
        match kind {
            TxKind::Legacy => {
                if items.len() != 9 {
                    return None;
                }
                let nonce = read_uint(&items[0])?;
                let price = read_uint(&items[1])?;
                let gas_limit = read_uint(&items[2])?;
                let to = read_to(&items[3])?;
                let value = read_uint(&items[4])?;
                if items[5].0 {
                    return None;
                }
                let v = read_uint(&items[6])?;
                let (chain_id, odd_y_parity) = read_v(v)?;
                if items[7].0 || items[8].0 {
                    return None;
                }
                let t = SignedTransaction {
                    kind,
                    chain_id,
                    nonce,
                    max_priority_fee_per_gas: price,
                    max_fee_per_gas: price,
                    gas_limit,
                    to,
                    value,
                    data: copy_bytes(items[5].1.as_slice()),
                    access_list: Vec::new(),
                    odd_y_parity,
                    r: copy_bytes(items[7].1.as_slice()),
                    s: copy_bytes(items[8].1.as_slice()),
                };
                assert(access_list_view(t.access_list@) =~= Seq::<(Seq<u8>, Seq<Seq<u8>>)>::empty());
                Some(t)
            },
            _ => {
                let n: usize = if kind == TxKind::Eip1559 {
                    12
                } else {
                    11
                };
                if items.len() != n {
                    return None;
                }
                let chain = read_uint(&items[0])?;
                if chain > u64::MAX as u128 {
                    return None;
                }
                let nonce = read_uint(&items[1])?;
                let k: usize = if kind == TxKind::Eip1559 {
                    1
                } else {
                    0
                };
                let priority = read_uint(&items[2])?;
                let max_fee = read_uint(&items[2 + k])?;
                let gas_limit = read_uint(&items[3 + k])?;
                let to = read_to(&items[4 + k])?;
                let value = read_uint(&items[5 + k])?;
                if items[6 + k].0 {
                    return None;
                }
                let access_list = read_access_list(&items[7 + k])?;
                let odd_y_parity = read_parity(&items[8 + k])?;
                if items[9 + k].0 || items[10 + k].0 {
                    return None;
                }
                Some(
                    SignedTransaction {
                        kind,
                        chain_id: Some(chain as u64),
                        nonce,
                        max_priority_fee_per_gas: priority,
                        max_fee_per_gas: max_fee,
                        gas_limit,
                        to,
                        value,
                        data: copy_bytes(items[6 + k].1.as_slice()),
                        access_list,
                        odd_y_parity,
                        r: copy_bytes(items[9 + k].1.as_slice()),
                        s: copy_bytes(items[10 + k].1.as_slice()),
                    },
                )
            },
        }
    }

    /// The normalised record of this transaction, with `signer` the address
    /// that recovery from its signature gave (`None` where it failed).
    pub fn normalize(self, signer: Option<Address>) -> (r: NormalizedEthTransaction)
        ensures
            r.address == signer,
            r.chain_id == self.chain_id,
            r.nonce == self.nonce,
            r.gas_limit == self.gas_limit,
            r.max_priority_fee_per_gas == self.max_priority_fee_per_gas,
            r.max_fee_per_gas == self.max_fee_per_gas,
            r.to == self.to,
            r.value == self.value,
            r.data == self.data,
            r.access_list == self.access_list,
    {
        NormalizedEthTransaction {
            address: signer,
            chain_id: self.chain_id,
            nonce: self.nonce,
            gas_limit: self.gas_limit,
            max_priority_fee_per_gas: self.max_priority_fee_per_gas,
            max_fee_per_gas: self.max_fee_per_gas,
            to: self.to,
            value: self.value,
            data: self.data,
            access_list: self.access_list,
        }
    }

    /// Decodes the wire bytes of a transaction of any kind.
    pub fn decode(bytes: &[u8]) -> (r: Option<SignedTransaction>)
        ensures
            match dec_tx(bytes@) {
                None => r.is_none(),
                Some(f) => r.is_some() && r.unwrap().fields() == f,
            },
    {
        if bytes.len() == 0 {
            return None;
        }
        let kind = if bytes[0] == 1 {
            TxKind::Eip2930
        } else if bytes[0] == 2 {
            TxKind::Eip1559
        } else {
            TxKind::Legacy
        };
        let body = if kind == TxKind::Legacy {
            bytes
        } else {
            slice_subrange(bytes, 1, bytes.len())
        };
        let (l, a, b) = decode_item(body)?;
        if !l || b != body.len() {
            return None;
        }
        let items = decode_items(slice_subrange(body, a, b))?;
        Self::from_items(kind, &items)
    }
}

/// The items that the signature covers, before the signature's own.
pub open spec fn unsigned_items(f: TxFields) -> Seq<(bool, Seq<u8>)> {
    match f.kind {
        TxKind::Legacy => seq![
            uint_item(f.nonce as nat),
            uint_item(f.max_fee_per_gas as nat),
            uint_item(f.gas_limit as nat),
            to_item(f.to),
            uint_item(f.value as nat),
            str_item(f.data),
        ],
        TxKind::Eip2930 => seq![
            uint_item(f.chain_id.unwrap() as nat),
            uint_item(f.nonce as nat),
            uint_item(f.max_fee_per_gas as nat),
            uint_item(f.gas_limit as nat),
            to_item(f.to),
            uint_item(f.value as nat),
            str_item(f.data),
            access_list_item(f.access_list),
        ],
        TxKind::Eip1559 => seq![
            uint_item(f.chain_id.unwrap() as nat),
            uint_item(f.nonce as nat),
            uint_item(f.max_priority_fee_per_gas as nat),
            uint_item(f.max_fee_per_gas as nat),
            uint_item(f.gas_limit as nat),
            to_item(f.to),
            uint_item(f.value as nat),
            str_item(f.data),
            access_list_item(f.access_list),
        ],
    }
}

/// The bytes whose hash a transaction's signature signs: the unsigned
/// fields, and for a legacy transaction with a chain id also that id and two
/// zeros.
pub open spec fn signing_payload_of(f: TxFields) -> Seq<u8> {
    let items = if f.kind == TxKind::Legacy && f.chain_id.is_some() {
        unsigned_items(f) + seq![
            uint_item(f.chain_id.unwrap() as nat),
            uint_item(0),
            uint_item(0),
        ]
    } else {
        unsigned_items(f)
    };
    type_prefix(f.kind) + enc_list(enc_items(items))
}

fn envelope(kind: TxKind, items: &Vec<(bool, Vec<u8>)>) -> (r: Vec<u8>)
    ensures
        r@ == type_prefix(kind) + enc_list(enc_items(items_view(items@))),
{
    let body = encode_list(encode_items(items).as_slice());
    let mut r: Vec<u8> = Vec::new();
    match kind {
        TxKind::Legacy => {},
        TxKind::Eip2930 => r.push(1u8),
        TxKind::Eip1559 => r.push(2u8),
    }
    append_bytes(&mut r, body.as_slice());
    assert(r@ =~= type_prefix(kind) + enc_list(enc_items(items_view(items@))));
    r
}

impl SignedTransaction {
    fn unsigned_entries(&self) -> (r: Vec<(bool, Vec<u8>)>)
        requires
            self.kind != TxKind::Legacy ==> self.chain_id.is_some(),
        ensures
            items_view(r@) == unsigned_items(self.fields()),
    {
        let mut items: Vec<(bool, Vec<u8>)> = Vec::new();
        let to_entry = match &self.to {
            Some(a) => str_entry(a),
            None => (false, Vec::new()),
        };
        if self.kind != TxKind::Legacy {
            let c = match self.chain_id {
                Some(c) => c,
                None => 0,
            };
            items.push(uint_entry(c as u128));
        }
        items.push(uint_entry(self.nonce));
        if self.kind == TxKind::Eip1559 {
            items.push(uint_entry(self.max_priority_fee_per_gas));
        }
        items.push(uint_entry(self.max_fee_per_gas));
        items.push(uint_entry(self.gas_limit));
        items.push(to_entry);
        items.push(uint_entry(self.value));
        items.push(str_entry(self.data.as_slice()));
        if self.kind != TxKind::Legacy {
            items.push(encode_access_list(&self.access_list));
        }
        assert(items_view(items@) =~= unsigned_items(self.fields()));
        items
    }

    /// The wire bytes of this transaction.
    pub fn encode(&self) -> (r: Vec<u8>)
        requires
            self.kind != TxKind::Legacy ==> self.chain_id.is_some(),
        ensures
            r@ == enc_tx(self.fields()),
    {
        let mut items = self.unsigned_entries();
        let parity: u128 = if self.odd_y_parity {
            1
        } else {
            0
        };
        let v: u128 = match self.kind {
            TxKind::Legacy => match self.chain_id {
                Some(c) => (c as u128) * 2 + 35 + parity,
                None => 27 + parity,
            },
            _ => parity,
        };
        let ghost f = self.fields();
        let ghost u = items_view(items@);
        items.push(uint_entry(v));
        items.push(str_entry(self.r.as_slice()));
        items.push(str_entry(self.s.as_slice()));
        proof {
            let sig = seq![uint_item(v as nat), str_item(f.r), str_item(f.s)];
            assert(items_view(items@) =~= u + sig);
            match f.kind {
                TxKind::Legacy => {
                    assert(v as nat == legacy_v(f.chain_id, f.odd_y_parity));
                },
                _ => {
                    assert(v as nat == parity_nat(f.odd_y_parity));
                },
            }
            assert(tx_items(f) =~= unsigned_items(f) + sig);
        }
        envelope(self.kind, &items)
    }

    /// The bytes whose hash this transaction's signature signs.
    pub fn signing_payload(&self) -> (r: Vec<u8>)
        requires
            self.kind != TxKind::Legacy ==> self.chain_id.is_some(),
        ensures
            r@ == signing_payload_of(self.fields()),
    {
        let mut items = self.unsigned_entries();
        if self.kind == TxKind::Legacy {
            match self.chain_id {
                Some(c) => {
                    items.push(uint_entry(c as u128));
                    items.push(uint_entry(0));
                    items.push(uint_entry(0));
                },
                None => {},
            }
        }
        proof {
            let f = self.fields();
            if f.kind == TxKind::Legacy && f.chain_id.is_some() {
                assert(items_view(items@) =~= unsigned_items(f) + seq![
                    uint_item(f.chain_id.unwrap() as nat),
                    uint_item(0),
                    uint_item(0),
                ]);
            }
        }
        envelope(self.kind, &items)
    }
}

} // verus!
