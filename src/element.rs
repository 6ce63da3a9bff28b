use vstd::prelude::*;
use vstd::utf8::{decode_utf8, valid_utf8};
use crate::error::DecodeError;
use crate::header::{fits, parse_header, read_header, Header};
use crate::tag::{class_of, style_of, tag_of, universal_type_of, Class, Style, UniversalType};
use crate::value::{
    arcs_view, be_signed, decode_bytes, decode_integer, decode_object_identifier, decode_text,
    integer_len_supported, oid_arcs, oid_too_large,
};

verus! {

/// How an element's payload is read, decided by its identifier byte.
#[derive(Clone, Copy, Debug, PartialEq, Eq, Structural)]
pub enum Rule {
    /// The payload is a run of nested elements.
    Nested,
    /// A context-specific tag 0: an explicit terminator with no value.
    Absent,
    Integer,
    OctetString,
    BitString,
    ObjectIdentifier,
    Utf8String,
    PrintableString,
    UtcTime,
    GeneralizedTime,
    /// No decoder: a universal type without one, or the Application or
    /// Private class.
    Unsupported,
}

/// The rule for an identifier byte. Universal SEQUENCE and SET nest, and so
/// does every context-specific tag but 0, as an explicit wrapper.
pub open spec fn rule_of(id: u8) -> Rule {
    match class_of(id) {
        Class::Universal => match universal_type_of(tag_of(id)) {
            UniversalType::Sequence => Rule::Nested,
            UniversalType::SetOf => Rule::Nested,
            UniversalType::Integer => Rule::Integer,
            UniversalType::OctetString => Rule::OctetString,
            UniversalType::BitString => Rule::BitString,
            UniversalType::ObjectIdentifier => Rule::ObjectIdentifier,
            UniversalType::Utf8String => Rule::Utf8String,
            UniversalType::PrintableString => Rule::PrintableString,
            UniversalType::UtcTime => Rule::UtcTime,
            UniversalType::GeneralizedTime => Rule::GeneralizedTime,
            _ => Rule::Unsupported,
        },
        Class::ContextSpecific => if tag_of(id) == 0 {
            Rule::Absent
        } else {
            Rule::Nested
        },
        _ => Rule::Unsupported,
    }
}

/// The rule for an element of class `class` and tag number `tag`.
pub fn rule_for(class: Class, tag: u8) -> (r: Rule)
    requires
        tag < 32,
    ensures
        forall|id: u8| class_of(id) == class && tag_of(id) == tag ==> r == rule_of(id),
{
    match class {
        Class::Universal => match UniversalType::from(tag) {
            UniversalType::Sequence => Rule::Nested,
            UniversalType::SetOf => Rule::Nested,
            UniversalType::Integer => Rule::Integer,
            UniversalType::OctetString => Rule::OctetString,
            UniversalType::BitString => Rule::BitString,
            UniversalType::ObjectIdentifier => Rule::ObjectIdentifier,
            UniversalType::Utf8String => Rule::Utf8String,
            UniversalType::PrintableString => Rule::PrintableString,
            UniversalType::UtcTime => Rule::UtcTime,
            UniversalType::GeneralizedTime => Rule::GeneralizedTime,
            _ => Rule::Unsupported,
        },
        Class::ContextSpecific => if tag == 0 {
            Rule::Absent
        } else {
            Rule::Nested
        },
        _ => Rule::Unsupported,
    }
}

/// A decoded primitive payload.
#[derive(Debug, PartialEq)]
pub enum Value {
    Absent,
    Integer(i64),
    OctetString(Vec<u8>),
    BitString(Vec<u8>),
    ObjectIdentifier(Vec<u64>),
    Utf8String(String),
    PrintableString(String),
    UtcTime(String),
    GeneralizedTime(String),
}

/// An element's decoded payload.
#[derive(Debug)]
pub enum Content {
    Value(Value),
    Children(Vec<Element>),
}

/// One decoded element.
#[derive(Debug)]
pub struct Element {
    pub class: Class,
    pub style: Style,
    /// The tag number, below 31.
    pub tag: u8,
    /// Bytes taken by the identifier and length bytes.
    pub header_len: usize,
    /// Bytes taken by the payload.
    pub length: usize,
    /// The payload, verbatim.
    pub payload: Vec<u8>,
    pub content: Content,
}

impl Element {
    /// The universal type of a Universal class element; none for the other
    /// classes, whose tag numbers carry no universal meaning.
    pub fn universal_type(&self) -> (r: Option<UniversalType>)
        ensures
            self.class == Class::Universal ==> r == Some(universal_type_of(self.tag)),
            self.class != Class::Universal ==> r is None,
    {
        match self.class {
            Class::Universal => Some(UniversalType::from(self.tag)),
            _ => None,
        }
    }
}

/// The error a value decoder gives on payload `p` under a rule that does not
/// nest, if any.
pub open spec fn value_error(rule: Rule, p: Seq<u8>) -> Option<DecodeError> {
    match rule {
        Rule::Integer => if integer_len_supported(p.len()) {
            None
        } else {
            Some(DecodeError::UnsupportedEncoding)
        },
        Rule::ObjectIdentifier => if oid_too_large(p) {
            Some(DecodeError::UnsupportedEncoding)
        } else {
            None
        },
        Rule::Utf8String | Rule::PrintableString | Rule::UtcTime | Rule::GeneralizedTime => if valid_utf8(p) {
            None
        } else {
            Some(DecodeError::InvalidEncoding)
        },
        Rule::Unsupported => Some(DecodeError::UnsupportedType),
        _ => None,
    }
}

/// `v` is what a value decoder makes of payload `p` under `rule`.
pub open spec fn value_matches(rule: Rule, p: Seq<u8>, v: Value) -> bool {
    match rule {
        Rule::Absent => v is Absent,
        Rule::Integer => v is Integer && v->Integer_0 as int == be_signed(p),
        Rule::OctetString => v is OctetString && v->OctetString_0@ == p,
        Rule::BitString => v is BitString && v->BitString_0@ == p,
        Rule::ObjectIdentifier => v is ObjectIdentifier && arcs_view(v->ObjectIdentifier_0@)
            == oid_arcs(p),
        Rule::Utf8String => v is Utf8String && v->Utf8String_0@ == decode_utf8(p),
        Rule::PrintableString => v is PrintableString && v->PrintableString_0@ == decode_utf8(p),
        Rule::UtcTime => v is UtcTime && v->UtcTime_0@ == decode_utf8(p),
        Rule::GeneralizedTime => v is GeneralizedTime && v->GeneralizedTime_0@ == decode_utf8(p),
        _ => false,
    }
}

/// The payload of the first element of `s`, after a header of `hl` bytes
/// that declares `len` payload bytes.
pub open spec fn payload_of(s: Seq<u8>, hl: nat, len: nat) -> Seq<u8> {
    s.subrange(hl as int, (hl + len) as int)
}

/// The first error met in decoding `s` as a run of elements, depth first,
/// left to right; `None` where it decodes.
pub open spec fn outcome(s: Seq<u8>) -> Option<DecodeError>
    decreases s.len(),
{
    if s.len() == 0 {
        None
    } else {
        match parse_header(s) {
            Err(e) => Some(e),
            Ok(h) => if !fits(s, h) {
                Some(DecodeError::TruncatedInput)
            } else {
                let p = payload_of(s, h.header_len, h.length);
                let here = if rule_of(h.id) == Rule::Nested {
                    outcome(p)
                } else {
                    value_error(rule_of(h.id), p)
                };
                if here is Some {
                    here
                } else {
                    outcome(s.skip((h.header_len + h.length) as int))
                }
            },
        }
    }
}

/// `es` is the decoding of `s`: one element per top-level element of `s`,
/// in order, each with its header's fields, its payload, and its value or
/// the decoding of its payload.
pub open spec fn decodes_as(s: Seq<u8>, es: Seq<Element>) -> bool
    decreases s.len(),
{
    if s.len() == 0 {
        es.len() == 0
    } else {
        match parse_header(s) {
            Err(_) => false,
            Ok(h) => {
                &&& fits(s, h)
                &&& es.len() > 0
                &&& es[0].class == class_of(h.id)
                &&& es[0].style == style_of(h.id)
                &&& es[0].tag == tag_of(h.id)
                &&& es[0].header_len == h.header_len
                &&& es[0].length == h.length
                &&& es[0].payload@ == payload_of(s, h.header_len, h.length)
                &&& if rule_of(h.id) == Rule::Nested {
                    es[0].content is Children && decodes_as(
                        payload_of(s, h.header_len, h.length),
                        es[0].content->Children_0@,
                    )
                } else {
                    es[0].content is Value && value_matches(
                        rule_of(h.id),
                        payload_of(s, h.header_len, h.length),
                        es[0].content->Value_0,
                    )
                }
                &&& decodes_as(s.skip((h.header_len + h.length) as int), es.drop_first())
            },
        }
    }
}

/// Decodes the payload `p` of an element with class `class` and tag
/// number `tag`: the nested elements for a nesting rule, else the value.
fn decode_content(class: Class, tag: u8, p: &[u8], Ghost(id): Ghost<u8>) -> (r: Result<
    Content,
    DecodeError,
>)
    requires
        class == class_of(id),
        tag == tag_of(id),
    ensures
        rule_of(id) == Rule::Nested ==> match r {
            Ok(c) => outcome(p@) is None && c is Children && decodes_as(p@, c->Children_0@),
            Err(e) => outcome(p@) == Some(e),
        },
        rule_of(id) != Rule::Nested ==> match r {
            Ok(c) => value_error(rule_of(id), p@) is None && c is Value && value_matches(
                rule_of(id),
                p@,
                c->Value_0,
            ),
            Err(e) => value_error(rule_of(id), p@) == Some(e),
        },
    decreases p@.len(), 1nat,
{
    let rule = rule_for(class, tag);
    let v = match rule {
        Rule::Nested => {
            return match decode(p) {
                Ok(children) => Ok(Content::Children(children)),
                Err(e) => Err(e),
            };
        },
        Rule::Absent => Value::Absent,
        Rule::Integer => match decode_integer(p) {
            Ok(n) => Value::Integer(n),
            Err(e) => return Err(e),
        },
        Rule::OctetString => Value::OctetString(decode_bytes(p)),
        Rule::BitString => Value::BitString(decode_bytes(p)),
        Rule::ObjectIdentifier => match decode_object_identifier(p) {
            Ok(arcs) => Value::ObjectIdentifier(arcs),
            Err(e) => return Err(e),
        },
        Rule::Utf8String => match decode_text(p) {
            Ok(s) => Value::Utf8String(s),
            Err(e) => return Err(e),
        },
        Rule::PrintableString => match decode_text(p) {
            Ok(s) => Value::PrintableString(s),
            Err(e) => return Err(e),
        },
        Rule::UtcTime => match decode_text(p) {
            Ok(s) => Value::UtcTime(s),
            Err(e) => return Err(e),
        },
        Rule::GeneralizedTime => match decode_text(p) {
            Ok(s) => Value::GeneralizedTime(s),
            Err(e) => return Err(e),
        },
        Rule::Unsupported => return Err(DecodeError::UnsupportedType),
    };
    Ok(Content::Value(v))
}

/// Decodes `s` as a run of zero or more elements, into a tree. Fails on the
/// first error, with no partial result.
pub fn decode(s: &[u8]) -> (r: Result<Vec<Element>, DecodeError>)
    ensures
        match r {
            Ok(es) => outcome(s@) is None && decodes_as(s@, es@),
            Err(e) => outcome(s@) == Some(e),
        },
    decreases s@.len(), 0nat,
{
    let mut out: Vec<Element> = Vec::new();
    let mut pos: usize = 0;
    assert(s@.skip(0) =~= s@);
    while pos < s.len()
        invariant
            pos <= s@.len(),
            outcome(s@) == outcome(s@.skip(pos as int)),
            forall|rest: Seq<Element>|
                decodes_as(s@.skip(pos as int), rest) ==> #[trigger] decodes_as(
                    s@,
                    out@ + rest,
                ),
        decreases s@.len() - pos,
    {
        let rest = vstd::slice::slice_subrange(s, pos, s.len());
        assert(rest@ =~= s@.skip(pos as int));
        let h: Header = match read_header(rest) {
            Ok(h) => h,
            Err(e) => return Err(e),
        };
        let ghost hs = parse_header(rest@)->Ok_0;
        let end = h.header_len + h.length;
        let p = vstd::slice::slice_subrange(rest, h.header_len, end);
        assert(p@ =~= payload_of(rest@, hs.header_len, hs.length));
        let content = match decode_content(h.class, h.tag, p, Ghost(hs.id)) {
            Ok(c) => c,
            Err(e) => return Err(e),
        };
        let e = Element {
            class: h.class,
            style: h.style,
            tag: h.tag,
            header_len: h.header_len,
            length: h.length,
            payload: decode_bytes(p),
            content,
        };
        let ghost old_out = out@;
        let ghost next = s@.skip(pos + end);
        proof {
            assert(rest@.skip(end as int) =~= next);
            assert forall|more: Seq<Element>| decodes_as(next, more) implies #[trigger] decodes_as(
                s@,
                old_out.push(e) + more,
            ) by {
                let with_e = seq![e] + more;
                assert(with_e[0] == e);
                assert(with_e.drop_first() =~= more);
                assert(decodes_as(rest@, with_e));
                assert(old_out.push(e) + more =~= old_out + with_e);
            }
        }
        out.push(e);
        pos = pos + end;
    }
    proof {
        assert(s@.skip(pos as int) =~= Seq::<u8>::empty());
        assert(decodes_as(s@.skip(pos as int), Seq::<Element>::empty()));
        assert(out@ + Seq::<Element>::empty() =~= out@);
    }
    Ok(out)
}

/// Bytes taken by the headers and payloads of `es`, together.
pub open spec fn encoded_len(es: Seq<Element>) -> int
    decreases es.len(),
{
    if es.len() == 0 {
        0
    } else {
        es[0].header_len + es[0].length + encoded_len(es.drop_first())
    }
}

/// The headers and payloads of the top-level elements of a decoding cover
/// the input exactly: no gaps, no overlaps.
pub proof fn lemma_decoding_covers_input(s: Seq<u8>, es: Seq<Element>)
    requires
        decodes_as(s, es),
    ensures
        encoded_len(es) == s.len(),
    decreases s.len(),
{
    if s.len() > 0 {
        let h = parse_header(s)->Ok_0;
        lemma_decoding_covers_input(s.skip((h.header_len + h.length) as int), es.drop_first());
    }
}

proof fn lemma_header_ignores_suffix(a: Seq<u8>, b: Seq<u8>)
    requires
        parse_header(a) is Ok,
    ensures
        parse_header(a + b) == parse_header(a),
{
    let h = parse_header(a)->Ok_0;
    let s = a + b;
    assert(s[0] == a[0] && s[1] == a[1]);
    if a[1] > 128 {
        assert(s.subrange(2, h.header_len as int) =~= a.subrange(2, h.header_len as int));
    }
}

proof fn lemma_outcome_after_decodable(a: Seq<u8>, b: Seq<u8>)
    requires
        outcome(a) is None,
    ensures
        outcome(a + b) == outcome(b),
    decreases a.len(),
{
    if a.len() == 0 {
        assert(a + b =~= b);
    } else {
        let h = parse_header(a)->Ok_0;
        let k = (h.header_len + h.length) as int;
        lemma_header_ignores_suffix(a, b);
        assert(payload_of(a + b, h.header_len, h.length) =~= payload_of(a, h.header_len, h.length));
        assert((a + b).skip(k) =~= a.skip(k) + b);
        lemma_outcome_after_decodable(a.skip(k), b);
    }
}

/// Input that decodes, followed by an element whose declared length runs
/// past the end of the input, fails with `TruncatedInput`.
pub proof fn lemma_overlong_final_element(a: Seq<u8>, b: Seq<u8>)
    requires
        outcome(a) is None,
        parse_header(b) is Ok,
        !fits(b, parse_header(b)->Ok_0),
    ensures
        outcome(a + b) == Some(DecodeError::TruncatedInput),
{
    lemma_outcome_after_decodable(a, b);
}

/// An element with a context-specific tag other than 0 that spans the whole
/// input fails exactly where its payload does, and decodes to one element
/// whose children are the decoding of its payload.
pub proof fn lemma_context_wrapper(s: Seq<u8>, es: Seq<Element>)
    requires
        parse_header(s) is Ok,
        class_of(parse_header(s)->Ok_0.id) == Class::ContextSpecific,
        tag_of(parse_header(s)->Ok_0.id) != 0,
        parse_header(s)->Ok_0.header_len + parse_header(s)->Ok_0.length == s.len(),
    ensures
        ({
            let h = parse_header(s)->Ok_0;
            let p = payload_of(s, h.header_len, h.length);
            &&& outcome(s) == outcome(p)
            &&& decodes_as(s, es) <==> {
                &&& es.len() == 1
                &&& es[0].class == Class::ContextSpecific
                &&& es[0].tag == tag_of(h.id)
                &&& es[0].style == style_of(h.id)
                &&& es[0].header_len == h.header_len
                &&& es[0].length == h.length
                &&& es[0].payload@ == p
                &&& es[0].content is Children
                &&& decodes_as(p, es[0].content->Children_0@)
            }
        }),
{
    let h = parse_header(s)->Ok_0;
    let k = (h.header_len + h.length) as int;
    assert(s.skip(k) =~= Seq::<u8>::empty());
    assert(outcome(s.skip(k)) is None);
    assert(rule_of(h.id) == Rule::Nested);
    assert(outcome(s) == outcome(payload_of(s, h.header_len, h.length)));
    assert(decodes_as(s.skip(k), es.drop_first()) <==> es.drop_first().len() == 0);
}

/// A UTF8String whose payload is not well-formed UTF-8 fails with
/// `InvalidEncoding`, never with text.
pub proof fn lemma_utf8_string_rejected(s: Seq<u8>)
    requires
        parse_header(s) is Ok,
        fits(s, parse_header(s)->Ok_0),
        class_of(parse_header(s)->Ok_0.id) == Class::Universal,
        universal_type_of(tag_of(parse_header(s)->Ok_0.id)) == UniversalType::Utf8String,
        !valid_utf8(
            payload_of(s, parse_header(s)->Ok_0.header_len, parse_header(s)->Ok_0.length),
        ),
    ensures
        outcome(s) == Some(DecodeError::InvalidEncoding),
{
}

} // verus!
