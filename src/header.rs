use vstd::prelude::*;
use crate::error::DecodeError;
use crate::tag::{class_from_id, class_of, style_from_id, style_of, tag_of, Class, Style};

verus! {

/// What a header says, as numbers: its identifier byte, how many bytes the
/// header itself takes, and the declared payload length.
pub ghost struct HeaderSpec {
    pub id: u8,
    pub header_len: nat,
    pub length: nat,
}

/// The unsigned big-endian number that `b` spells: each byte multiplies what
/// came before by 256 and is added to it.
pub open spec fn be_value(b: Seq<u8>) -> nat
    decreases b.len(),
{
    if b.len() == 0 {
        0
    } else {
        (be_value(b.drop_last()) * 256 + b.last()) as nat
    }
}

/// The header at the start of `s`: one identifier byte, then a short-form
/// length byte (below 0x80) or 0x80 plus a count of big-endian length bytes.
pub open spec fn parse_header(s: Seq<u8>) -> Result<HeaderSpec, DecodeError> {
    if s.len() == 0 {
        Err(DecodeError::TruncatedInput)
    } else if tag_of(s[0]) == 31 {
        Err(DecodeError::UnsupportedEncoding)
    } else if s.len() < 2 {
        Err(DecodeError::TruncatedInput)
    } else if s[1] < 128 {
        Ok(HeaderSpec { id: s[0], header_len: 2, length: s[1] as nat })
    } else if s[1] == 128 {
        Err(DecodeError::UnsupportedEncoding)
    } else {
        let n = (s[1] - 128) as nat;
        if s.len() < 2 + n {
            Err(DecodeError::TruncatedInput)
        } else {
            Ok(HeaderSpec { id: s[0], header_len: 2 + n, length: be_value(s.subrange(2, 2 + n as int)) })
        }
    }
}

/// The header at the start of `s` when its payload fits in what follows it.
pub open spec fn fits(s: Seq<u8>, h: HeaderSpec) -> bool {
    h.header_len + h.length <= s.len()
}

/// A decoded header.
#[derive(Clone, Copy, Debug, PartialEq, Eq, Structural)]
pub struct Header {
    pub class: Class,
    pub style: Style,
    /// The tag number, below 31.
    pub tag: u8,
    /// Bytes taken by the identifier and length bytes.
    pub header_len: usize,
    /// Bytes taken by the payload that follows.
    pub length: usize,
}

impl Header {
    /// This header describes `h`.
    pub open spec fn describes(self, h: HeaderSpec) -> bool {
        &&& self.class == class_of(h.id)
        &&& self.style == style_of(h.id)
        &&& self.tag == tag_of(h.id)
        &&& self.header_len == h.header_len
        &&& self.length == h.length
    }
}

proof fn lemma_be_value_grows(b: Seq<u8>, i: int)
    requires
        0 <= i <= b.len(),
    ensures
        be_value(b.take(i)) <= be_value(b),
    decreases b.len(),
{
    if i < b.len() {
        assert(b.drop_last().take(i) =~= b.take(i));
        lemma_be_value_grows(b.drop_last(), i);
    } else {
        assert(b.take(i) =~= b);
    }
}

/// Reads the header at the start of `s`. Fails with what `parse_header`
/// gives, or with `TruncatedInput` where the declared payload runs past the
/// end of `s`.
pub fn read_header(s: &[u8]) -> (r: Result<Header, DecodeError>)
    ensures
        match parse_header(s@) {
            Err(e) => r == Err::<Header, DecodeError>(e),
            Ok(h) => if fits(s@, h) {
                r is Ok && r->Ok_0.describes(h)
            } else {
                r == Err::<Header, DecodeError>(DecodeError::TruncatedInput)
            },
        },
{
    if s.len() == 0 {
        return Err(DecodeError::TruncatedInput);
    }
    let id = s[0];
    let tag: u8 = id % 32;
    if tag == 31 {
        return Err(DecodeError::UnsupportedEncoding);
    }
    if s.len() < 2 {
        return Err(DecodeError::TruncatedInput);
    }
    let first = s[1];
    let header_len: usize;
    let length: usize;
    if first < 128 {
        header_len = 2;
        length = first as usize;
    } else if first == 128 {
        return Err(DecodeError::UnsupportedEncoding);
    } else {
        let n: usize = (first - 128) as usize;
        if s.len() < 2 + n {
            return Err(DecodeError::TruncatedInput);
        }
        let ghost bytes = s@.subrange(2, 2 + n as int);
        let rest: usize = s.len() - 2 - n;
        let mut acc: usize = 0;
        let mut i: usize = 0;
        while i < n
            invariant
                i <= n,
                id == s@[0],
                tag_of(id) != 31,
                first == s@[1],
                first > 128,
                n == first - 128,
                2 + n <= s.len(),
                rest == s.len() - 2 - n,
                bytes == s@.subrange(2, 2 + n as int),
                acc == be_value(bytes.take(i as int)),
                acc <= rest,
            decreases n - i,
        {
            proof {
                lemma_be_value_grows(bytes, i as int + 1);
                assert(bytes.take(i as int + 1).drop_last() =~= bytes.take(i as int));
            }
            if acc > rest / 256 {
                proof {
                    assert(acc * 256 > rest) by (nonlinear_arith)
                        requires
                            acc > rest / 256,
                    ;
                    assert(be_value(bytes.take(i as int + 1)) >= acc * 256);
                    assert(be_value(bytes) > rest);
                    assert(parse_header(s@) == Ok::<HeaderSpec, DecodeError>(
                        HeaderSpec { id, header_len: (2 + n) as nat, length: be_value(bytes) },
                    ));
                }
                return Err(DecodeError::TruncatedInput);
            }
            let b = s[2 + i];
            assert(acc * 256 + b <= usize::MAX) by (nonlinear_arith)
                requires
                    acc <= rest / 256,
                    b <= 255,
                    rest <= usize::MAX,
            ;
            acc = acc * 256 + b as usize;
            i = i + 1;
            if acc > rest {
                proof {
                    lemma_be_value_grows(bytes, i as int);
                    assert(be_value(bytes) > rest);
                    assert(parse_header(s@) == Ok::<HeaderSpec, DecodeError>(
                        HeaderSpec { id, header_len: (2 + n) as nat, length: be_value(bytes) },
                    ));
                }
                return Err(DecodeError::TruncatedInput);
            }
        }
        assert(bytes.take(n as int) =~= bytes);
        header_len = 2 + n;
        length = acc;
    }
    if length > s.len() - header_len {
        return Err(DecodeError::TruncatedInput);
    }
    Ok(Header { class: class_from_id(id), style: style_from_id(id), tag, header_len, length })
}

/// 256 to the power `n`.
pub open spec fn pow256(n: nat) -> nat
    decreases n,
{
    if n == 0 {
        1
    } else {
        256 * pow256((n - 1) as nat)
    }
}

/// The `n` bytes that spell `v` big-endian, most significant first.
pub open spec fn be_bytes(v: nat, n: nat) -> Seq<u8>
    decreases n,
{
    if n == 0 {
        Seq::empty()
    } else {
        be_bytes(v / 256, (n - 1) as nat).push((v % 256) as u8)
    }
}

proof fn lemma_be_bytes_value(v: nat, n: nat)
    requires
        v < pow256(n),
    ensures
        be_bytes(v, n).len() == n,
        be_value(be_bytes(v, n)) == v,
    decreases n,
{
    if n > 0 {
        let p = pow256((n - 1) as nat);
        assert(v / 256 < p) by (nonlinear_arith)
            requires
                v < 256 * p,
        ;
        lemma_be_bytes_value(v / 256, (n - 1) as nat);
        let b = be_bytes(v, n);
        assert(b.drop_last() =~= be_bytes(v / 256, (n - 1) as nat));
        assert((v / 256) * 256 + v % 256 == v) by (nonlinear_arith);
    }
}

/// A length below 128 is written in the single byte after the identifier:
/// the header takes two bytes and declares exactly that length.
pub proof fn lemma_short_form_length(id: u8, len: u8, rest: Seq<u8>)
    requires
        tag_of(id) != 31,
        len < 128,
    ensures
        parse_header(seq![id, len] + rest) == Ok::<HeaderSpec, DecodeError>(
            HeaderSpec { id, header_len: 2, length: len as nat },
        ),
{
    let s = seq![id, len] + rest;
    assert(s[0] == id && s[1] == len);
}

/// A length of 128 or more is written as 0x80 plus the count `n` of its
/// bytes, then its `n` big-endian bytes, `n` being the least count that
/// holds it: reading them back gives exactly that length.
pub proof fn lemma_long_form_length(id: u8, len: nat, n: nat, rest: Seq<u8>)
    requires
        tag_of(id) != 31,
        len >= 128,
        1 <= n <= 126,
        pow256((n - 1) as nat) <= len < pow256(n),
    ensures
        parse_header(seq![id, (128 + n) as u8] + be_bytes(len, n) + rest)
            == Ok::<HeaderSpec, DecodeError>(
            HeaderSpec { id, header_len: 2 + n, length: len },
        ),
{
    lemma_be_bytes_value(len, n);
    let s = seq![id, (128 + n) as u8] + be_bytes(len, n) + rest;
    assert(s[0] == id && s[1] == (128 + n) as u8);
    assert(s.subrange(2, 2 + n as int) =~= be_bytes(len, n));
}

} // verus!
