use vstd::prelude::*;

verus! {

/// The class of an element, from the top two bits of its identifier byte.
#[derive(Clone, Copy, Debug, PartialEq, Eq, Structural)]
pub enum Class {
    Universal,
    Application,
    ContextSpecific,
    Private,
}

/// Whether an element's payload holds nested elements (bit 5 of the
/// identifier byte).
#[derive(Clone, Copy, Debug, PartialEq, Eq, Structural)]
pub enum Style {
    Primitive,
    Constructed,
}

/// The standard tag numbers of the Universal class.
#[derive(Clone, Copy, Debug, PartialEq, Eq, Structural)]
pub enum UniversalType {
    EndOfContent,
    Boolean,
    Integer,
    BitString,
    OctetString,
    Null,
    ObjectIdentifier,
    ObjectDescriptor,
    External,
    Real,
    Enumerated,
    EmbeddedPdv,
    Utf8String,
    RelativeObjectIdentifier,
    Sequence,
    SetOf,
    NumericString,
    PrintableString,
    T61String,
    VideotexString,
    IA5String,
    UtcTime,
    GeneralizedTime,
    GraphicString,
    VisibleString,
    GeneralString,
    UniversalString,
    CharacterString,
    BmpString,
    Reserved,
    Unknown,
}

/// Class of an identifier byte: its value divided by 64.
pub open spec fn class_of(id: u8) -> Class {
    if id < 64 {
        Class::Universal
    } else if id < 128 {
        Class::Application
    } else if id < 192 {
        Class::ContextSpecific
    } else {
        Class::Private
    }
}

/// Style of an identifier byte: bit 5.
pub open spec fn style_of(id: u8) -> Style {
    if (id / 32) % 2 == 1 {
        Style::Constructed
    } else {
        Style::Primitive
    }
}

/// Tag number of an identifier byte: its low five bits.
pub open spec fn tag_of(id: u8) -> u8 {
    (id % 32) as u8
}

/// The fixed table from tag numbers to universal types; every number
/// outside it is `Unknown`.
pub open spec fn universal_type_of(n: u8) -> UniversalType {
    match n {
        0 => UniversalType::EndOfContent,
        1 => UniversalType::Boolean,
        2 => UniversalType::Integer,
        3 => UniversalType::BitString,
        4 => UniversalType::OctetString,
        5 => UniversalType::Null,
        6 => UniversalType::ObjectIdentifier,
        7 => UniversalType::ObjectDescriptor,
        8 => UniversalType::External,
        9 => UniversalType::Real,
        10 => UniversalType::Enumerated,
        11 => UniversalType::EmbeddedPdv,
        12 => UniversalType::Utf8String,
        13 => UniversalType::RelativeObjectIdentifier,
        14 => UniversalType::Reserved,
        15 => UniversalType::Reserved,
        16 => UniversalType::Sequence,
        17 => UniversalType::SetOf,
        18 => UniversalType::NumericString,
        19 => UniversalType::PrintableString,
        20 => UniversalType::T61String,
        21 => UniversalType::VideotexString,
        22 => UniversalType::IA5String,
        23 => UniversalType::UtcTime,
        24 => UniversalType::GeneralizedTime,
        25 => UniversalType::GraphicString,
        26 => UniversalType::VisibleString,
        27 => UniversalType::GeneralString,
        28 => UniversalType::UniversalString,
        29 => UniversalType::CharacterString,
        30 => UniversalType::BmpString,
        _ => UniversalType::Unknown,
    }
}

impl From<u8> for UniversalType {
    fn from(n: u8) -> Self {
        match n {
            0 => UniversalType::EndOfContent,
            1 => UniversalType::Boolean,
            2 => UniversalType::Integer,
            3 => UniversalType::BitString,
            4 => UniversalType::OctetString,
            5 => UniversalType::Null,
            6 => UniversalType::ObjectIdentifier,
            7 => UniversalType::ObjectDescriptor,
            8 => UniversalType::External,
            9 => UniversalType::Real,
            10 => UniversalType::Enumerated,
            11 => UniversalType::EmbeddedPdv,
            12 => UniversalType::Utf8String,
            13 => UniversalType::RelativeObjectIdentifier,
            14 => UniversalType::Reserved,
            15 => UniversalType::Reserved,
            16 => UniversalType::Sequence,
            17 => UniversalType::SetOf,
            18 => UniversalType::NumericString,
            19 => UniversalType::PrintableString,
            20 => UniversalType::T61String,
            21 => UniversalType::VideotexString,
            22 => UniversalType::IA5String,
            23 => UniversalType::UtcTime,
            24 => UniversalType::GeneralizedTime,
            25 => UniversalType::GraphicString,
            26 => UniversalType::VisibleString,
            27 => UniversalType::GeneralString,
            28 => UniversalType::UniversalString,
            29 => UniversalType::CharacterString,
            30 => UniversalType::BmpString,
            _ => UniversalType::Unknown,
        }
    }
}

impl vstd::std_specs::convert::FromSpecImpl<u8> for UniversalType {
    open spec fn obeys_from_spec() -> bool {
        true
    }

    open spec fn from_spec(n: u8) -> UniversalType {
        universal_type_of(n)
    }
}

/// The class encoded in an identifier byte.
pub fn class_from_id(id: u8) -> (r: Class)
    ensures
        r == class_of(id),
{
    if id < 64 {
        Class::Universal
    } else if id < 128 {
        Class::Application
    } else if id < 192 {
        Class::ContextSpecific
    } else {
        Class::Private
    }
}

/// The style encoded in an identifier byte.
pub fn style_from_id(id: u8) -> (r: Style)
    ensures
        r == style_of(id),
{
    if (id / 32) % 2 == 1 {
        Style::Constructed
    } else {
        Style::Primitive
    }
}

} // verus!
