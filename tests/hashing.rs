use aurora_engine::keccak::{compute_block_hash, near_account_to_evm_address};

fn hex(s: &str) -> Vec<u8> {
    (0..s.len()).step_by(2).map(|i| u8::from_str_radix(&s[i..i + 2], 16).unwrap()).collect()
}

#[test]
fn account_address_is_digest_tail() {
    let a = near_account_to_evm_address(b"exitToNear");
    assert_eq!(a.to_vec(), hex("e9217bc70b7ed1f598ddd3199e80b093fa71124f"));
    let empty = near_account_to_evm_address(b"");
    assert_eq!(empty.to_vec(), hex("dcc703c0e500b653ca82273b7bfad8045d85a470"));
}

#[test]
fn block_hash_depends_on_each_input() {
    let h = compute_block_hash(1313161554, 10, b"aurora");
    assert_eq!(h.len(), 32);
    assert_ne!(h, compute_block_hash(1313161554, 11, b"aurora"));
    assert_ne!(h, compute_block_hash(1, 10, b"aurora"));
    assert_ne!(h, compute_block_hash(1313161554, 10, b"other"));
    assert_eq!(h, compute_block_hash(1313161554, 10, b"aurora"));
}
