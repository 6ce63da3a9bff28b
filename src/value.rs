use vstd::prelude::*;
use vstd::utf8::{decode_utf8, valid_utf8};
use byteorder::{BigEndian, ByteOrder};
use crate::error::DecodeError;
use crate::header::{be_value, pow256};

verus! {

/// The signed big-endian two's complement number that `b` spells; zero for
/// no bytes.
pub open spec fn be_signed(b: Seq<u8>) -> int {
    if b.len() > 0 && b[0] >= 128 {
        be_value(b) - pow256(b.len())
    } else {
        be_value(b) as int
    }
}

/// Relies on byteorder's `BigEndian::read_i16`: the two bytes as a
/// big-endian two's complement number.
#[verifier::external_body]
fn read_be_i16(b: &[u8]) -> (r: i16)
    requires
        b@.len() == 2,
    ensures
        r as int == be_signed(b@),
{
    BigEndian::read_i16(b)
}

/// Relies on byteorder's `BigEndian::read_i32`: the four bytes as a
/// big-endian two's complement number.
#[verifier::external_body]
fn read_be_i32(b: &[u8]) -> (r: i32)
    requires
        b@.len() == 4,
    ensures
        r as int == be_signed(b@),
{
    BigEndian::read_i32(b)
}

/// Relies on byteorder's `BigEndian::read_i64`: the eight bytes as a
/// big-endian two's complement number.
#[verifier::external_body]
fn read_be_i64(b: &[u8]) -> (r: i64)
    requires
        b@.len() == 8,
    ensures
        r as int == be_signed(b@),
{
    BigEndian::read_i64(b)
}

/// The integer payload lengths this decoder supports.
pub open spec fn integer_len_supported(n: nat) -> bool {
    n == 0 || n == 2 || n == 4 || n == 8
}

/// Decodes an INTEGER payload of 0, 2, 4 or 8 bytes; an empty payload is 0.
pub fn decode_integer(s: &[u8]) -> (r: Result<i64, DecodeError>)
    ensures
        integer_len_supported(s@.len()) ==> r is Ok && r->Ok_0 as int == be_signed(s@),
        !integer_len_supported(s@.len()) ==> r == Err::<i64, DecodeError>(
            DecodeError::UnsupportedEncoding,
        ),
{
    let n = s.len();
    if n == 0 {
        Ok(0)
    } else if n == 2 {
        Ok(read_be_i16(s) as i64)
    } else if n == 4 {
        Ok(read_be_i32(s) as i64)
    } else if n == 8 {
        Ok(read_be_i64(s))
    } else {
        Err(DecodeError::UnsupportedEncoding)
    }
}

/// Copies an OCTET STRING or BIT STRING payload verbatim. A BIT STRING's
/// leading count of unused bits is kept as the first byte.
pub fn decode_bytes(s: &[u8]) -> (r: Vec<u8>)
    ensures
        r@ == s@,
{
    vstd::slice::slice_to_vec(s)
}

/// Base-128 groups of an object identifier after its first byte, read left
/// to right: the arcs completed so far and the value of the group still
/// open. A byte with its high bit set continues a group.
pub open spec fn oid_groups(b: Seq<u8>) -> (Seq<nat>, nat)
    decreases b.len(),
{
    if b.len() == 0 {
        (Seq::empty(), 0)
    } else {
        let (arcs, acc) = oid_groups(b.drop_last());
        let v = acc * 128 + b.last() % 128;
        if b.last() >= 128 {
            (arcs, v as nat)
        } else {
            (arcs.push(v as nat), 0)
        }
    }
}

/// Some group of `b` grows past what 64 bits hold.
pub open spec fn oid_overflows(b: Seq<u8>) -> bool
    decreases b.len(),
{
    b.len() > 0 && (oid_overflows(b.drop_last()) || oid_groups(b.drop_last()).1 * 128
        + b.last() % 128 > u64::MAX)
}

/// The arcs of an object identifier payload: none for an empty payload;
/// else the first byte gives two arcs (its quotient and remainder by 40)
/// and each completed base-128 group one more. An unfinished last group
/// gives none.
pub open spec fn oid_arcs(p: Seq<u8>) -> Seq<nat> {
    if p.len() == 0 {
        Seq::empty()
    } else {
        seq![(p[0] / 40) as nat, (p[0] % 40) as nat] + oid_groups(p.skip(1)).0
    }
}

/// The payload holds an arc too large for 64 bits.
pub open spec fn oid_too_large(p: Seq<u8>) -> bool {
    p.len() > 0 && oid_overflows(p.skip(1))
}

/// The arcs as numbers.
pub open spec fn arcs_view(v: Seq<u64>) -> Seq<nat> {
    v.map_values(|x: u64| x as nat)
}

proof fn lemma_overflow_extends(b: Seq<u8>, i: int)
    requires
        0 <= i <= b.len(),
        oid_overflows(b.take(i)),
    ensures
        oid_overflows(b),
    decreases b.len(),
{
    if i < b.len() {
        assert(b.drop_last().take(i) =~= b.take(i));
        lemma_overflow_extends(b.drop_last(), i);
    } else {
        assert(b.take(i) =~= b);
    }
}

/// Decodes an OBJECT IDENTIFIER payload into its arcs. Fails with
/// `UnsupportedEncoding` where an arc does not fit in 64 bits.
pub fn decode_object_identifier(s: &[u8]) -> (r: Result<Vec<u64>, DecodeError>)
    ensures
        oid_too_large(s@) ==> r == Err::<Vec<u64>, DecodeError>(DecodeError::UnsupportedEncoding),
        !oid_too_large(s@) ==> r is Ok && arcs_view(r->Ok_0@) == oid_arcs(s@),
{
    let mut arcs: Vec<u64> = Vec::new();
    if s.len() == 0 {
        assert(arcs_view(arcs@) =~= oid_arcs(s@));
        return Ok(arcs);
    }
    let first = s[0];
    arcs.push((first / 40) as u64);
    arcs.push((first % 40) as u64);
    let ghost tail = s@.skip(1);
    let mut acc: u64 = 0;
    let mut i: usize = 1;
    assert(tail.take(0) =~= Seq::<u8>::empty());
    assert(arcs_view(arcs@) =~= seq![(first / 40) as nat, (first % 40) as nat]);
    while i < s.len()
        invariant
            1 <= i <= s.len(),
            tail == s@.skip(1),
            first == s@[0],
            arcs_view(arcs@) == seq![(first / 40) as nat, (first % 40) as nat] + oid_groups(
                tail.take(i - 1),
            ).0,
            acc == oid_groups(tail.take(i - 1)).1,
            !oid_overflows(tail.take(i - 1)),
        decreases s.len() - i,
    {
        let b = s[i];
        let low: u64 = (b % 128) as u64;
        proof {
            assert(tail.take(i as int).drop_last() =~= tail.take(i - 1));
            assert(tail.take(i as int).last() == b);
        }
        if acc > (u64::MAX - low) / 128 {
            proof {
                assert(acc * 128 + low > u64::MAX) by (nonlinear_arith)
                    requires
                        acc > (u64::MAX - low) / 128,
                        low < 128,
                ;
                lemma_overflow_extends(tail, i as int);
            }
            return Err(DecodeError::UnsupportedEncoding);
        }
        assert(acc * 128 + low <= u64::MAX) by (nonlinear_arith)
            requires
                acc <= (u64::MAX - low) / 128,
                low < 128,
        ;
        let v: u64 = acc * 128 + low;
        let ghost prefix = seq![(first / 40) as nat, (first % 40) as nat];
        let ghost before = oid_groups(tail.take(i - 1));
        let ghost old_arcs = arcs@;
        proof {
            assert(oid_groups(tail.take(i as int)) == if b >= 128 {
                (before.0, v as nat)
            } else {
                (before.0.push(v as nat), 0nat)
            });
        }
        if b >= 128 {
            acc = v;
        } else {
            arcs.push(v);
            acc = 0;
        }
        proof {
            if b < 128 {
                assert(arcs@ =~= old_arcs.push(v));
                assert(arcs_view(arcs@) =~= arcs_view(old_arcs).push(v as nat));
                assert((prefix + before.0).push(v as nat) =~= prefix + before.0.push(v as nat));
            }
        }
        i = i + 1;
    }
    proof {
        assert(tail.take(i - 1) =~= tail);
    }
    Ok(arcs)
}

/// Relies on `std::str::from_utf8`: it accepts exactly the well-formed UTF-8
/// byte sequences, and the text it gives is what they encode.
#[verifier::external_body]
fn utf8_text(b: &[u8]) -> (r: Option<String>)
    ensures
        r is Some <==> valid_utf8(b@),
        r is Some ==> r->0@ == decode_utf8(b@),
{
    match std::str::from_utf8(b) {
        Ok(t) => Some(t.to_owned()),
        Err(_) => None,
    }
}

/// Decodes a text payload (UTF8String, PrintableString, UTCTime,
/// GeneralizedTime), which must be well-formed UTF-8. Times are kept as
/// text.
pub fn decode_text(s: &[u8]) -> (r: Result<String, DecodeError>)
    ensures
        valid_utf8(s@) ==> r is Ok && r->Ok_0@ == decode_utf8(s@),
        !valid_utf8(s@) ==> r == Err::<String, DecodeError>(DecodeError::InvalidEncoding),
{
    match utf8_text(s) {
        Some(t) => Ok(t),
        None => Err(DecodeError::InvalidEncoding),
    }
}

} // verus!
