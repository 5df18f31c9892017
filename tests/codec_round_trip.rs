use aurora_engine::codec::{SignedTransaction, TxKind};
use aurora_engine::rlp::{decode_item, decode_items, decode_uint, encode_items, encode_list, encode_str, encode_uint};
use aurora_engine::transaction::AccessTuple;

fn sample(kind: TxKind) -> SignedTransaction {
    let typed = kind != TxKind::Legacy;
    SignedTransaction {
        kind,
        chain_id: Some(1313161554),
        nonce: 7,
        max_priority_fee_per_gas: if kind == TxKind::Eip1559 { 2 } else { 5 },
        max_fee_per_gas: 5,
        gas_limit: 21_000,
        to: Some([0x42; 20]),
        value: 1_000_000_000_000_000_000,
        data: vec![0xde, 0xad, 0xbe, 0xef],
        access_list: if typed {
            vec![
                AccessTuple { address: [0x01; 20], storage_keys: vec![[0x02; 32], [0x03; 32]] },
                AccessTuple { address: [0x04; 20], storage_keys: Vec::new() },
            ]
        } else {
            Vec::new()
        },
        odd_y_parity: true,
        r: vec![0x11; 32],
        s: vec![0x22; 32],
    }
}

fn same(a: &SignedTransaction, b: &SignedTransaction) -> bool {
    a.kind == b.kind
        && a.chain_id == b.chain_id
        && a.nonce == b.nonce
        && a.max_priority_fee_per_gas == b.max_priority_fee_per_gas
        && a.max_fee_per_gas == b.max_fee_per_gas
        && a.gas_limit == b.gas_limit
        && a.to == b.to
        && a.value == b.value
        && a.data == b.data
        && a.access_list.len() == b.access_list.len()
        && a.access_list.iter().zip(b.access_list.iter()).all(|(x, y)| x.address == y.address && x.storage_keys == y.storage_keys)
        && a.odd_y_parity == b.odd_y_parity
        && a.r == b.r
        && a.s == b.s
}

#[test]
fn rlp_integers_are_minimal_big_endian() {
    assert_eq!(encode_uint(0), Vec::<u8>::new());
    assert_eq!(encode_uint(0x0400), vec![0x04, 0x00]);
    assert_eq!(decode_uint(&[0x04, 0x00]), Some(0x0400));
    assert_eq!(decode_uint(&[1; 17]), None);
}

#[test]
fn rlp_items_follow_the_encoding_rules() {
    assert_eq!(encode_str(b"dog"), vec![0x83, b'd', b'o', b'g']);
    assert_eq!(encode_str(&[0x7f]), vec![0x7f]);
    assert_eq!(encode_str(&[]), vec![0x80]);
    let long = vec![0xaa; 56];
    let enc = encode_str(&long);
    assert_eq!(&enc[..2], &[0xb8, 56]);
    assert_eq!(enc.len(), 58);
    let cat_dog = encode_items(&vec![(false, b"cat".to_vec()), (false, b"dog".to_vec())]);
    assert_eq!(encode_list(&cat_dog), vec![0xc8, 0x83, b'c', b'a', b't', 0x83, b'd', b'o', b'g']);
    assert_eq!(decode_item(&[0xc0]), Some((true, 1, 1)));
    assert_eq!(decode_item(&[0x83, 1, 2]), None);
    assert_eq!(decode_items(&cat_dog), Some(vec![(false, b"cat".to_vec()), (false, b"dog".to_vec())]));
}

#[test]
fn legacy_round_trip() {
    let t = sample(TxKind::Legacy);
    let bytes = t.encode();
    assert!(bytes[0] >= 0xc0);
    let back = SignedTransaction::decode(&bytes).unwrap();
    assert!(same(&t, &back));
}

#[test]
fn legacy_without_chain_id_round_trip() {
    let mut t = sample(TxKind::Legacy);
    t.chain_id = None;
    t.odd_y_parity = false;
    let back = SignedTransaction::decode(&t.encode()).unwrap();
    assert!(same(&t, &back));
    assert_eq!(back.chain_id, None);
}

#[test]
fn eip2930_round_trip() {
    let t = sample(TxKind::Eip2930);
    let bytes = t.encode();
    assert_eq!(bytes[0], 0x01);
    let back = SignedTransaction::decode(&bytes).unwrap();
    assert!(same(&t, &back));
}

#[test]
fn eip1559_round_trip_and_normalize() {
    let mut t = sample(TxKind::Eip1559);
    t.to = None;
    let bytes = t.encode();
    assert_eq!(bytes[0], 0x02);
    let back = SignedTransaction::decode(&bytes).unwrap();
    assert!(same(&t, &back));
    let n = back.normalize(Some([0x99; 20]));
    assert_eq!(n.address, Some([0x99; 20]));
    assert_eq!(n.chain_id, Some(1313161554));
    assert_eq!(n.max_priority_fee_per_gas, 2);
    assert_eq!(n.to, None);
    assert_eq!(n.access_list.len(), 2);
    assert_eq!(n.intrinsic_gas(), Some(53_000 + 4 * 16 + 2 * 2_400 + 2 * 1_900));
}

#[test]
fn malformed_transactions_are_rejected() {
    assert!(SignedTransaction::decode(&[]).is_none());
    assert!(SignedTransaction::decode(&[0x02]).is_none());
    assert!(SignedTransaction::decode(&[0x80]).is_none());
    let mut bytes = sample(TxKind::Eip1559).encode();
    bytes.push(0);
    assert!(SignedTransaction::decode(&bytes).is_none());
    let bytes = sample(TxKind::Legacy).encode();
    assert!(SignedTransaction::decode(&bytes[..bytes.len() - 1]).is_none());
}

fn hex(s: &str) -> Vec<u8> {
    (0..s.len()).step_by(2).map(|i| u8::from_str_radix(&s[i..i + 2], 16).unwrap()).collect()
}

#[test]
fn eip155_signing_payload() {
    let t = SignedTransaction {
        kind: TxKind::Legacy,
        chain_id: Some(1),
        nonce: 9,
        max_priority_fee_per_gas: 20_000_000_000,
        max_fee_per_gas: 20_000_000_000,
        gas_limit: 21_000,
        to: Some([0x35; 20]),
        value: 1_000_000_000_000_000_000,
        data: Vec::new(),
        access_list: Vec::new(),
        odd_y_parity: false,
        r: Vec::new(),
        s: Vec::new(),
    };
    assert_eq!(
        t.signing_payload(),
        hex("ec098504a817c800825208943535353535353535353535353535353535353535880de0b6b3a764000080018080")
    );
}

#[test]
fn typed_signing_payload_drops_signature() {
    let t = sample(TxKind::Eip1559);
    let p = t.signing_payload();
    assert_eq!(p[0], 0x02);
    assert!(p.len() < t.encode().len());
}
