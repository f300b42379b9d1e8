use crate::error::Error;
use crate::field::{limbs_value, scalar_modulus, values_of, FieldElement};
use ethers::abi::{encode, Token};
use ethers::types::{Address, U256};
use std::str::FromStr;
use vstd::prelude::*;

verus! {

/// A structured reference string in its textual form: the powers of the
/// secret in the first group, and the generator and first power in the second.
#[derive(Debug)]
pub struct PublicParameter {
    pub g1: Vec<String>,
    pub g2: Vec<String>,
}

/// One row of user data: an account address in hexadecimal and an amount in
/// decimal.
#[derive(Debug)]
pub struct Record {
    pub address: String,
    pub amount: String,
}

/// The integer that bytes stand for, most significant byte first.
pub open spec fn be_value(b: Seq<u8>) -> nat
    decreases b.len(),
{
    if b.len() == 0 {
        0
    } else {
        be_value(b.drop_last()) * 256 + b.last() as nat
    }
}

/// `256^k`.
pub open spec fn byte_power(k: nat) -> nat
    decreases k,
{
    if k == 0 {
        1
    } else {
        256 * byte_power((k - 1) as nat)
    }
}

/// The 32 bytes that stand for `v`, most significant byte first.
pub open spec fn be_bytes32(v: nat) -> Seq<u8> {
    Seq::new(32, |i: int| ((v / byte_power((31 - i) as nat)) % 256) as u8)
}

/// The ABI encoding of an address followed by an unsigned integer: the
/// address padded on the left to 32 bytes, then the integer in 32 bytes.
pub open spec fn abi_encoding(address: Seq<u8>, amount: nat) -> Seq<u8> {
    Seq::new(12, |i: int| 0u8) + address + be_bytes32(amount)
}

/// The value of a decimal numeral below `2^256`; `None` for any other text.
/// The empty text counts as zero.
pub open spec fn decimal_value(s: Seq<char>) -> Option<nat>
    decreases s.len(),
{
    if s.len() == 0 {
        Some(0nat)
    } else {
        let d = s.last() as nat;
        match decimal_value(s.drop_last()) {
            Some(v) => if 48 <= d <= 57 && v * 10 + (d - 48)
                < 0x1_0000_0000_0000_0000_0000_0000_0000_0000_0000_0000_0000_0000_0000_0000_0000_0000 {
                Some((v * 10 + (d - 48)) as nat)
            } else {
                None
            },
            None => None,
        }
    }
}

/// The 20 bytes that a hexadecimal address text stands for, if it is one.
pub uninterp spec fn address_value(s: Seq<char>) -> Option<Seq<u8>>;

/// The Keccak-256 digest of `data`.
pub uninterp spec fn keccak256_value(data: Seq<u8>) -> Seq<u8>;

/// The field element that a row stands for: the digest of its ABI encoding,
/// read as an integer and reduced. `None` where address or amount is
/// malformed.
pub open spec fn record_value(address: Seq<char>, amount: Seq<char>) -> Option<nat> {
    match (address_value(address), decimal_value(amount)) {
        (Some(a), Some(v)) => Some(
            be_value(keccak256_value(abi_encoding(a, v))) % scalar_modulus(),
        ),
        _ => None,
    }
}

proof fn lemma_byte_power_values()
    ensures
        byte_power(8) == 0x1_0000_0000_0000_0000,
        byte_power(16) == 0x1_0000_0000_0000_0000_0000_0000_0000_0000,
        byte_power(24) == 0x1_0000_0000_0000_0000_0000_0000_0000_0000_0000_0000_0000_0000,
{
    reveal_with_fuel(byte_power, 9);
    assert(byte_power(8) == 0x1_0000_0000_0000_0000);
    assert(byte_power(16) == byte_power(8) * byte_power(8)) by {
        lemma_byte_power_add(8, 8);
    }
    assert(byte_power(24) == byte_power(16) * byte_power(8)) by {
        lemma_byte_power_add(16, 8);
    }
    assert(0x1_0000_0000_0000_0000nat * 0x1_0000_0000_0000_0000nat
        == 0x1_0000_0000_0000_0000_0000_0000_0000_0000nat);
    assert(0x1_0000_0000_0000_0000_0000_0000_0000_0000nat * 0x1_0000_0000_0000_0000nat
        == 0x1_0000_0000_0000_0000_0000_0000_0000_0000_0000_0000_0000_0000nat);
}

proof fn lemma_byte_power_add(a: nat, b: nat)
    ensures
        byte_power(a + b) == byte_power(a) * byte_power(b),
    decreases b,
{
    if b == 0 {
        assert(byte_power(a) * 1 == byte_power(a));
    } else {
        lemma_byte_power_add(a, (b - 1) as nat);
        assert(byte_power(a + b) == 256 * byte_power((a + b - 1) as nat));
        assert(256 * (byte_power(a) * byte_power((b - 1) as nat)) == byte_power(a) * (256
            * byte_power((b - 1) as nat))) by (nonlinear_arith);
    }
}

/// Bytes of a given length stand for a value below the matching power.
proof fn lemma_be_value_bound(b: Seq<u8>)
    ensures
        be_value(b) < byte_power(b.len()),
    decreases b.len(),
{
    if b.len() > 0 {
        lemma_be_value_bound(b.drop_last());
    }
}

/// The value of a byte string splits at any position into the value of the
/// front, shifted, plus the value of the back.
proof fn lemma_be_value_split(b: Seq<u8>, k: int)
    requires
        0 <= k <= b.len(),
    ensures
        be_value(b) == be_value(b.subrange(0, k)) * byte_power((b.len() - k) as nat) + be_value(
            b.subrange(k, b.len() as int),
        ),
    decreases b.len() - k,
{
    let n = b.len() as int;
    if k == n {
        assert(b.subrange(0, k) =~= b);
        assert(b.subrange(k, n) =~= Seq::<u8>::empty());
        assert(be_value(b) * 1 == be_value(b));
    } else {
        let front = b.drop_last();
        lemma_be_value_split(front, k);
        assert(front.subrange(0, k) =~= b.subrange(0, k));
        assert(front.subrange(k, n - 1) =~= b.subrange(k, n).drop_last());
        assert(b.subrange(k, n).last() == b.last());
        let hi = be_value(b.subrange(0, k));
        let p = byte_power((n - 1 - k) as nat);
        assert((hi * p) * 256 == hi * (256 * p)) by (nonlinear_arith);
    }
}

/// Eight bytes from `start` on, read most significant byte first.
fn be_u64(bytes: &[u8; 32], start: usize) -> (r: u64)
    requires
        start + 8 <= 32,
    ensures
        r == be_value(bytes@.subrange(start as int, start + 8)),
{
    let mut acc: u64 = 0;
    let mut k: usize = 0;
    while k < 8
        invariant
            k <= 8,
            start + 8 <= 32,
            acc == be_value(bytes@.subrange(start as int, start + k)),
        decreases 8 - k,
    {
        proof {
            let cur = bytes@.subrange(start as int, start + k);
            let next = bytes@.subrange(start as int, start + k + 1);
            assert(next.drop_last() =~= cur);
            lemma_be_value_bound(cur);
            lemma_be_value_bound(next);
            lemma_byte_power_add((k + 1) as nat, (7 - k) as nat);
            lemma_byte_power_values();
            assert(byte_power((k + 1) as nat) <= byte_power(8)) by {
                lemma_byte_power_positive((7 - k) as nat);
                assert(byte_power((k + 1) as nat) * 1 <= byte_power((k + 1) as nat) * byte_power(
                    (7 - k) as nat,
                )) by (nonlinear_arith)
                    requires
                        1 <= byte_power((7 - k) as nat),
                ;
            }
        }
        acc = acc * 256 + bytes[start + k] as u64;
        k += 1;
    }
    acc
}

proof fn lemma_byte_power_positive(k: nat)
    ensures
        byte_power(k) >= 1,
    decreases k,
{
    if k > 0 {
        lemma_byte_power_positive((k - 1) as nat);
    }
}

/// The limbs of the integer that a 32-byte digest stands for.
pub fn hash_limbs(hash: &[u8; 32]) -> (r: [u64; 4])
    ensures
        limbs_value(r@) == be_value(hash@),
{
    let l3 = be_u64(hash, 0);
    let l2 = be_u64(hash, 8);
    let l1 = be_u64(hash, 16);
    let l0 = be_u64(hash, 24);
    proof {
        let b = hash@;
        lemma_byte_power_values();
        lemma_be_value_split(b, 24);
        let top = b.subrange(0, 24);
        lemma_be_value_split(top, 16);
        assert(top.subrange(16, 24) =~= b.subrange(16, 24));
        let upper = top.subrange(0, 16);
        assert(upper =~= b.subrange(0, 16));
        lemma_be_value_split(upper, 8);
        assert(upper.subrange(0, 8) =~= b.subrange(0, 8));
        assert(upper.subrange(8, 16) =~= b.subrange(8, 16));
        let (v3, v2, v1, v0) = (l3 as nat, l2 as nat, l1 as nat, l0 as nat);
        assert(be_value(upper) == v3 * byte_power(8) + v2);
        assert(be_value(top) == be_value(upper) * byte_power(8) + v1);
        assert(be_value(b) == be_value(top) * byte_power(8) + v0);
        let w = 0x1_0000_0000_0000_0000nat;
        assert(((v3 * w + v2) * w + v1) * w + v0 == v0 + v1 * w + v2 * (w * w) + v3 * (w * w * w))
            by (nonlinear_arith);
        assert(w * w == 0x1_0000_0000_0000_0000_0000_0000_0000_0000nat);
        assert(w * w * w == 0x1_0000_0000_0000_0000_0000_0000_0000_0000_0000_0000_0000_0000nat);
    }
    [l0, l1, l2, l3]
}

/// The field element that a 32-byte digest stands for: its integer, reduced.
pub fn hash_to_field(hash: &[u8; 32]) -> (r: FieldElement)
    ensures
        r@ == be_value(hash@) % scalar_modulus(),
{
    FieldElement::from_limbs_reduced(hash_limbs(hash))
}

/// The field element of one row, or a parse error where its address is not
/// 20 bytes of hexadecimal or its amount not a decimal numeral below `2^256`.
pub fn record_to_field(address: &str, amount: &str) -> (r: Result<FieldElement, Error>)
    ensures
        match r {
            Ok(e) => record_value(address@, amount@) == Some(e@),
            Err(e) => e == Error::Parse && record_value(address@, amount@) is None,
        },
{
    let a = match parse_address(address) {
        Some(a) => a,
        None => {
            return Err(Error::Parse);
        },
    };
    let v = match parse_amount(amount) {
        Some(v) => v,
        None => {
            return Err(Error::Parse);
        },
    };
    let encoded = abi_encode(&a, &v);
    let hash = keccak256(&encoded);
    Ok(hash_to_field(&hash))
}

/// The field elements of the rows, in their order, or a parse error if any
/// row is malformed.
pub fn records_to_field(records: &Vec<Record>) -> (r: Result<Vec<FieldElement>, Error>)
    ensures
        match r {
            Ok(v) => v@.len() == records@.len() && forall|i: int|
                0 <= i < records@.len() ==> record_value(
                    (#[trigger] records@[i]).address@,
                    records@[i].amount@,
                ) == Some(v@[i]@),
            Err(e) => e == Error::Parse && exists|i: int|
                0 <= i < records@.len() && record_value(
                    (#[trigger] records@[i]).address@,
                    records@[i].amount@,
                ) is None,
        },
{
    let mut out: Vec<FieldElement> = Vec::new();
    let mut k: usize = 0;
    while k < records.len()
        invariant
            k <= records@.len(),
            out@.len() == k,
            forall|i: int|
                0 <= i < k ==> record_value(
                    (#[trigger] records@[i]).address@,
                    records@[i].amount@,
                ) == Some(out@[i]@),
        decreases records@.len() - k,
    {
        match record_to_field(records[k].address.as_str(), records[k].amount.as_str()) {
            Ok(e) => {
                out.push(e);
            },
            Err(e) => {
                return Err(e);
            },
        }
        k += 1;
    }
    Ok(out)
}

/// Calls `FromStr::from_str` of `ethers`' `Address`. The contract names the
/// result and claims that an address has 20 bytes.
#[verifier::external_body]
fn parse_address(s: &str) -> (r: Option<Vec<u8>>)
    ensures
        match r {
            Some(a) => address_value(s@) == Some(a@) && a@.len() == 20,
            None => address_value(s@) is None,
        },
{
    Address::from_str(s).ok().map(|a| a.as_bytes().to_vec())
}

/// Calls `U256::from_dec_str` of `ethers`. The contract claims that it reads a
/// decimal numeral and refuses other text and values from `2^256` on.
#[verifier::external_body]
fn parse_amount(s: &str) -> (r: Option<[u64; 4]>)
    ensures
        match r {
            Some(l) => decimal_value(s@) == Some(limbs_value(l@)),
            None => decimal_value(s@) is None,
        },
{
    U256::from_dec_str(s).ok().map(|u| u.0)
}

/// Calls `ethers::abi::encode` on an address token and an unsigned integer
/// token. The contract claims that each becomes one 32-byte word: the
/// address padded with zeros on the left, the integer big-endian.
#[verifier::external_body]
fn abi_encode(address: &Vec<u8>, amount: &[u64; 4]) -> (r: Vec<u8>)
    requires
        address@.len() == 20,
    ensures
        r@ == abi_encoding(address@, limbs_value(amount@)),
{
    encode(&[Token::Address(Address::from_slice(address)), Token::Uint(U256(*amount))])
}

/// Calls `ethers::utils::keccak256`. The contract names the digest.
#[verifier::external_body]
fn keccak256(data: &Vec<u8>) -> (r: [u8; 32])
    ensures
        r@ == keccak256_value(data@),
{
    ethers::utils::keccak256(data)
}

} // verus!
