use vstd::prelude::*;
use vstd::slice::slice_subrange;

use crate::store::{append_bytes, copy_bytes};

verus! {

// ---------------------------------------------------------------------------
// Big-endian integers without leading zeros
// ---------------------------------------------------------------------------

pub open spec fn pow256(k: nat) -> nat
    decreases k,
{
    if k == 0 {
        1
    } else {
        256 * pow256((k - 1) as nat)
    }
}

/// The number that big-endian bytes `s` hold.
pub open spec fn be_val(s: Seq<u8>) -> nat
    decreases s.len(),
{
    if s.len() == 0 {
        0
    } else {
        (be_val(s.drop_last()) * 256 + s.last()) as nat
    }
}

/// The shortest big-endian bytes of `n`: empty for zero.
pub open spec fn be_min(n: nat) -> Seq<u8>
    decreases n,
{
    if n == 0 {
        Seq::empty()
    } else {
        be_min(n / 256).push((n % 256) as u8)
    }
}

pub proof fn lemma_be_min_val(n: nat)
    ensures
        be_val(be_min(n)) == n,
    decreases n,
{
    if n > 0 {
        lemma_be_min_val(n / 256);
        assert(be_min(n).drop_last() =~= be_min(n / 256));
    }
}

pub proof fn lemma_be_min_len(n: nat, k: nat)
    requires
        n < pow256(k),
    ensures
        be_min(n).len() <= k,
    decreases k,
{
    if n > 0 {
        assert(k > 0);
        let p = pow256((k - 1) as nat);
        assert(n / 256 < p) by (nonlinear_arith)
            requires
                n < 256 * p,
        ;
        lemma_be_min_len(n / 256, (k - 1) as nat);
    }
}

pub proof fn lemma_be_val_bound(s: Seq<u8>)
    ensures
        be_val(s) < pow256(s.len()),
    decreases s.len(),
{
    if s.len() > 0 {
        lemma_be_val_bound(s.drop_last());
        let v = be_val(s.drop_last());
        let p = pow256((s.len() - 1) as nat);
        let b = s.last() as nat;
        assert(v * 256 + b < 256 * p) by (nonlinear_arith)
            requires
                v < p,
                b < 256,
        ;
    }
}

pub proof fn lemma_pow256_monotone(i: nat, j: nat)
    requires
        i <= j,
    ensures
        pow256(i) <= pow256(j),
    decreases j,
{
    if i < j {
        lemma_pow256_monotone(i, (j - 1) as nat);
    }
}

pub proof fn lemma_pow256_values()
    ensures
        pow256(8) == 0x1_0000_0000_0000_0000,
        pow256(16) == 0x1_0000_0000_0000_0000_0000_0000_0000_0000,
{
    reveal_with_fuel(pow256, 17);
}

/// The shortest big-endian bytes of `n`.
pub fn encode_uint(n: u128) -> (r: Vec<u8>)
    ensures
        r@ == be_min(n as nat),
    decreases n,
{
    if n == 0 {
        Vec::new()
    } else {
        let mut r = encode_uint(n / 256);
        r.push((n % 256) as u8);
        r
    }
}

/// The number held by at most sixteen big-endian bytes.
pub fn decode_uint(s: &[u8]) -> (r: Option<u128>)
    ensures
        s@.len() <= 16 ==> r == Some(be_val(s@) as u128) && be_val(s@) < pow256(16),
        s@.len() > 16 ==> r.is_none(),
{
    if s.len() > 16 {
        return None;
    }
    proof {
        lemma_pow256_values();
    }
    let mut acc: u128 = 0;
    let mut i: usize = 0;
    while i < s.len()
        invariant
            s@.len() <= 16,
            i <= s@.len(),
            acc == be_val(s@.take(i as int)),
            pow256(16) == 0x1_0000_0000_0000_0000_0000_0000_0000_0000,
        decreases s@.len() - i,
    {
        proof {
            let t = s@.take(i + 1);
            assert(t.drop_last() =~= s@.take(i as int));
            lemma_be_val_bound(t);
            lemma_pow256_monotone((i + 1) as nat, 16);
        }
        acc = acc * 256 + s[i] as u128;
        i = i + 1;
    }
    proof {
        assert(s@.take(i as int) =~= s@);
        lemma_be_val_bound(s@);
        lemma_pow256_monotone(s@.len(), 16);
    }
    Some(acc)
}

// ---------------------------------------------------------------------------
// Items
// ---------------------------------------------------------------------------

/// The header of an item whose payload is `len` bytes long; `base` is 0x80
/// for a string and 0xc0 for a list.
pub open spec fn enc_header(base: nat, len: nat) -> Seq<u8> {
    if len <= 55 {
        seq![(base + len) as u8]
    } else {
        seq![(base + 55 + be_min(len).len()) as u8] + be_min(len)
    }
}

/// A byte string as an item: one byte below 0x80 stands for itself.
pub open spec fn enc_str(b: Seq<u8>) -> Seq<u8> {
    if b.len() == 1 && b[0] < 0x80 {
        b
    } else {
        enc_header(0x80, b.len()) + b
    }
}

/// A list whose encoded items are `payload`.
pub open spec fn enc_list(payload: Seq<u8>) -> Seq<u8> {
    enc_header(0xc0, payload.len()) + payload
}

/// The first item of `s`: whether it is a list, its payload, and what follows it.
pub open spec fn dec_item(s: Seq<u8>) -> Option<(bool, Seq<u8>, Seq<u8>)> {
    if s.len() == 0 {
        None
    } else if s[0] < 0x80 {
        Some((false, s.take(1), s.skip(1)))
    } else {
        let is_list = s[0] >= 0xc0;
        let short: int = if is_list {
            s[0] - 0xc0
        } else {
            s[0] - 0x80
        };
        if short <= 55 {
            if s.len() < 1 + short {
                None
            } else {
                Some((is_list, s.subrange(1, 1 + short), s.skip(1 + short)))
            }
        } else {
            let ll: int = short - 55;
            if s.len() < 1 + ll {
                None
            } else {
                let len: int = be_val(s.subrange(1, 1 + ll)) as int;
                if s.len() < 1 + ll + len {
                    None
                } else {
                    Some((is_list, s.subrange(1 + ll, 1 + ll + len), s.skip(1 + ll + len)))
                }
            }
        }
    }
}

proof fn lemma_dec_header(base: nat, is_list: bool, p: Seq<u8>, rest: Seq<u8>)
    requires
        base == (if is_list {
            0xc0nat
        } else {
            0x80nat
        }),
        p.len() < pow256(8),
        !is_list ==> !(p.len() == 1 && p[0] < 0x80),
    ensures
        dec_item(enc_header(base, p.len()) + p + rest) == Some((is_list, p, rest)),
{
    let s = enc_header(base, p.len()) + p + rest;
    if p.len() <= 55 {
        assert(s.subrange(1, 1 + p.len() as int) =~= p);
        assert(s.skip(1 + p.len() as int) =~= rest);
    } else {
        let l = be_min(p.len());
        lemma_be_min_len(p.len(), 8);
        lemma_be_min_val(p.len());
        let ll: int = l.len() as int;
        let pl: int = p.len() as int;
        assert(ll >= 1) by {
            if ll == 0 {
                assert(be_val(l) == 0);
            }
        }
        assert(s.subrange(1, 1 + ll) =~= l);
        assert(s.subrange(1 + ll, 1 + ll + pl) =~= p);
        assert(s.skip(1 + ll + pl) =~= rest);
    }
}

/// Decoding the encoding of a byte string gives it back, followed by what
/// came after it.
pub proof fn lemma_dec_enc_str(b: Seq<u8>, rest: Seq<u8>)
    requires
        b.len() < pow256(8),
    ensures
        dec_item(enc_str(b) + rest) == Some((false, b, rest)),
{
    if b.len() == 1 && b[0] < 0x80 {
        let s = b + rest;
        assert(s.take(1) =~= b);
        assert(s.skip(1) =~= rest);
    } else {
        lemma_dec_header(0x80, false, b, rest);
    }
}

/// Decoding the encoding of a list gives its payload back, followed by what
/// came after it.
pub proof fn lemma_dec_enc_list(p: Seq<u8>, rest: Seq<u8>)
    requires
        p.len() < pow256(8),
    ensures
        dec_item(enc_list(p) + rest) == Some((true, p, rest)),
{
    lemma_dec_header(0xc0, true, p, rest);
}

fn encode_header(base: u8, len: usize) -> (r: Vec<u8>)
    requires
        base == 0x80 || base == 0xc0,
    ensures
        r@ == enc_header(base as nat, len as nat),
{
    if len <= 55 {
        let mut r: Vec<u8> = Vec::new();
        r.push(base + len as u8);
        r
    } else {
        let l = encode_uint(len as u128);
        proof {
            lemma_pow256_values();
            lemma_be_min_len(len as nat, 8);
        }
        let mut r: Vec<u8> = Vec::new();
        r.push(base + 55 + l.len() as u8);
        append_bytes(&mut r, l.as_slice());
        r
    }
}

/// Encodes a byte string as an item.
pub fn encode_str(b: &[u8]) -> (r: Vec<u8>)
    ensures
        r@ == enc_str(b@),
{
    if b.len() == 1 && b[0] < 0x80 {
        copy_bytes(b)
    } else {
        let mut r = encode_header(0x80, b.len());
        append_bytes(&mut r, b);
        r
    }
}

/// Encodes a list whose encoded items are `payload`.
pub fn encode_list(payload: &[u8]) -> (r: Vec<u8>)
    ensures
        r@ == enc_list(payload@),
{
    let mut r = encode_header(0xc0, payload.len());
    append_bytes(&mut r, payload);
    r
}

/// Decodes the first item of `s`: whether it is a list, and where its payload
/// starts and ends; what follows starts at the end of the payload.
pub fn decode_item(s: &[u8]) -> (r: Option<(bool, usize, usize)>)
    ensures
        match dec_item(s@) {
            None => r.is_none(),
            Some((l, p, rest)) => match r {
                Some((l2, a, b)) => l2 == l && a <= b <= s@.len() && s@.subrange(a as int, b as int)
                    == p && s@.skip(b as int) == rest,
                None => false,
            },
        },
{
    if s.len() == 0 {
        return None;
    }
    let h = s[0];
    if h < 0x80 {
        return Some((false, 0, 1));
    }
    let is_list = h >= 0xc0;
    let short: usize = if is_list {
        (h - 0xc0) as usize
    } else {
        (h - 0x80) as usize
    };
    if short <= 55 {
        if s.len() < 1 + short {
            return None;
        }
        return Some((is_list, 1, 1 + short));
    }
    let ll: usize = short - 55;
    if s.len() < 1 + ll {
        return None;
    }
    let len_bytes = slice_subrange(s, 1, 1 + ll);
    proof {
        lemma_pow256_values();
        lemma_be_val_bound(len_bytes@);
        lemma_pow256_monotone(len_bytes@.len(), 8);
    }
    let len = match decode_uint(len_bytes) {
        Some(v) => v,
        None => {
            return None;
        },
    };
    assert(len as int == be_val(s@.subrange(1, 1 + ll as int)));
    if (s.len() as u128) < 1 + (ll as u128) + len {
        return None;
    }
    let end: usize = 1 + ll + len as usize;
    Some((is_list, 1 + ll, end))
}

// ---------------------------------------------------------------------------
// Sequences of items
// ---------------------------------------------------------------------------

/// One item: a string or a list, with its payload.
pub open spec fn enc_item(it: (bool, Seq<u8>)) -> Seq<u8> {
    if it.0 {
        enc_list(it.1)
    } else {
        enc_str(it.1)
    }
}

/// Items one after the other.
pub open spec fn enc_items(items: Seq<(bool, Seq<u8>)>) -> Seq<u8>
    decreases items.len(),
{
    if items.len() == 0 {
        Seq::empty()
    } else {
        enc_item(items[0]) + enc_items(items.drop_first())
    }
}

/// The items that `s` holds, one after the other, to its end.
pub open spec fn dec_items(s: Seq<u8>) -> Option<Seq<(bool, Seq<u8>)>>
    decreases s.len(),
{
    if s.len() == 0 {
        Some(Seq::empty())
    } else {
        match dec_item(s) {
            None => None,
            Some((l, p, rest)) => if rest.len() < s.len() {
                match dec_items(rest) {
                    None => None,
                    Some(t) => Some(seq![(l, p)] + t),
                }
            } else {
                None
            },
        }
    }
}

/// Every payload is short enough for its length to take at most eight bytes.
pub open spec fn items_fit(items: Seq<(bool, Seq<u8>)>) -> bool {
    forall|i: int| 0 <= i < items.len() ==> (#[trigger] items[i]).1.len() < pow256(8)
}

proof fn lemma_enc_item_nonempty(it: (bool, Seq<u8>))
    ensures
        enc_item(it).len() >= 1,
{
    if !it.0 && it.1.len() == 1 && it.1[0] < 0x80 {
    } else {
        assert(enc_header(if it.0 { 0xc0nat } else { 0x80nat }, it.1.len()).len() >= 1);
    }
}

/// Decoding encoded items gives them back.
pub proof fn lemma_dec_enc_items(items: Seq<(bool, Seq<u8>)>)
    requires
        items_fit(items),
    ensures
        dec_items(enc_items(items)) == Some(items),
    decreases items.len(),
{
    if items.len() > 0 {
        let first = items[0];
        let tail = items.drop_first();
        assert(items_fit(tail)) by {
            assert forall|i: int| 0 <= i < tail.len() implies (#[trigger] tail[i]).1.len() < pow256(
                8,
            ) by {
                assert(tail[i] == items[i + 1]);
            }
        }
        lemma_dec_enc_items(tail);
        let rest = enc_items(tail);
        if first.0 {
            lemma_dec_enc_list(first.1, rest);
        } else {
            lemma_dec_enc_str(first.1, rest);
        }
        lemma_enc_item_nonempty(first);
        assert(seq![first] + tail =~= items);
    } else {
        assert(enc_items(items) =~= Seq::<u8>::empty());
    }
}

pub open spec fn items_view(v: Seq<(bool, Vec<u8>)>) -> Seq<(bool, Seq<u8>)> {
    Seq::new(v.len(), |i: int| (v[i].0, v[i].1@))
}

/// Encodes items one after the other.
pub fn encode_items(items: &Vec<(bool, Vec<u8>)>) -> (r: Vec<u8>)
    ensures
        r@ == enc_items(items_view(items@)),
{
    let ghost all = items_view(items@);
    let mut r: Vec<u8> = Vec::new();
    let mut i: usize = items.len();
    proof {
        assert(all.skip(i as int) =~= Seq::<(bool, Seq<u8>)>::empty());
    }
    while i > 0
        invariant
            i <= items@.len(),
            all == items_view(items@),
            r@ == enc_items(all.skip(i as int)),
        decreases i,
    {
        let e = if items[i - 1].0 {
            encode_list(items[i - 1].1.as_slice())
        } else {
            encode_str(items[i - 1].1.as_slice())
        };
        proof {
            let t = all.skip(i - 1);
            assert(t.drop_first() =~= all.skip(i as int));
            assert(t[0] == all[i - 1]);
        }
        let mut next = e;
        append_bytes(&mut next, r.as_slice());
        r = next;
        i = i - 1;
    }
    assert(all.skip(0) =~= all);
    r
}

/// Decodes the items that `s` holds, one after the other, to its end.
pub fn decode_items(s: &[u8]) -> (r: Option<Vec<(bool, Vec<u8>)>>)
    ensures
        match dec_items(s@) {
            None => r.is_none(),
            Some(items) => r.is_some() && items_view(r.unwrap()@) == items,
        },
{
    let mut out: Vec<(bool, Vec<u8>)> = Vec::new();
    let mut pos: usize = 0;
    proof {
        assert(s@.skip(0) =~= s@);
        match dec_items(s@) {
            None => {},
            Some(t) => {
                assert(items_view(out@) + t =~= t);
            },
        }
    }
    while pos < s.len()
        invariant
            pos <= s@.len(),
            dec_items(s@) == match dec_items(s@.skip(pos as int)) {
                None => None,
                Some(t) => Some(items_view(out@) + t),
            },
        decreases s@.len() - pos,
    {
        let rest = slice_subrange(s, pos, s.len());
        assert(rest@ == s@.skip(pos as int));
        match decode_item(rest) {
            None => {
                return None;
            },
            Some((l, a, b)) => {
                if b == 0 {
                    return None;
                }
                let payload = copy_bytes(slice_subrange(rest, a, b));
                let ghost before = items_view(out@);
                out.push((l, payload));
                proof {
                    assert(rest@.skip(b as int) =~= s@.skip(pos + b));
                    assert(items_view(out@) =~= before + seq![(l, payload@)]);
                    match dec_items(s@.skip(pos + b)) {
                        None => {},
                        Some(t) => {
                            assert(before + (seq![(l, payload@)] + t) =~= items_view(out@) + t);
                        },
                    }
                }
                pos = pos + b;
            },
        }
    }
    proof {
        assert(s@.skip(pos as int) =~= Seq::<u8>::empty());
        assert(items_view(out@) + Seq::<(bool, Seq<u8>)>::empty() =~= items_view(out@));
    }
    Some(out)
}

} // verus!
