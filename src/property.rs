//! Property values and their byte encoding inside a feature's property buffer.
//!
//! A property buffer is a run of entries `[column index: u16 LE][value bytes]`,
//! one per present property, in the order given. Absent properties have no entry.
use vstd::prelude::*;
use vstd::utf8::encode_utf8;
use crate::wire::{le_bytes, push_le, push_all};

verus! {

/// The declared type of a column.
#[derive(Clone, Copy, Debug, PartialEq, Eq, Structural)]
pub enum ColumnType {
    Byte,
    UByte,
    Bool,
    Short,
    UShort,
    Int,
    UInt,
    Long,
    ULong,
    Float,
    Double,
    String,
    Json,
    DateTime,
    Binary,
}

impl ColumnType {
    /// The tag that the format stores for this type.
    pub open spec fn spec_code(self) -> u8 {
        match self {
            ColumnType::Byte => 0,
            ColumnType::UByte => 1,
            ColumnType::Bool => 2,
            ColumnType::Short => 3,
            ColumnType::UShort => 4,
            ColumnType::Int => 5,
            ColumnType::UInt => 6,
            ColumnType::Long => 7,
            ColumnType::ULong => 8,
            ColumnType::Float => 9,
            ColumnType::Double => 10,
            ColumnType::String => 11,
            ColumnType::Json => 12,
            ColumnType::DateTime => 13,
            ColumnType::Binary => 14,
        }
    }

    pub fn code(&self) -> (r: u8)
        ensures
            r == self.spec_code(),
    {
        match self {
            ColumnType::Byte => 0,
            ColumnType::UByte => 1,
            ColumnType::Bool => 2,
            ColumnType::Short => 3,
            ColumnType::UShort => 4,
            ColumnType::Int => 5,
            ColumnType::UInt => 6,
            ColumnType::Long => 7,
            ColumnType::ULong => 8,
            ColumnType::Float => 9,
            ColumnType::Double => 10,
            ColumnType::String => 11,
            ColumnType::Json => 12,
            ColumnType::DateTime => 13,
            ColumnType::Binary => 14,
        }
    }
}

/// A column of a feature's own schema. Properties refer to it by position.
#[derive(Clone, Debug)]
pub struct Column {
    pub name: String,
    pub column_type: ColumnType,
}

/// A typed property value. Floating-point values are given by their IEEE-754
/// bit patterns (`f32::to_bits`, `f64::to_bits`). Text (plain, JSON or an
/// ISO 8601 date-time) and binary values are stored as a `u32` byte count
/// followed by the bytes.
#[derive(Clone, Debug)]
pub enum PropertyValue {
    Byte(i8),
    UByte(u8),
    Bool(bool),
    Short(i16),
    UShort(u16),
    Int(i32),
    UInt(u32),
    Long(i64),
    ULong(u64),
    Float(u32),
    Double(u64),
    String(String),
    Json(String),
    DateTime(String),
    Binary(Vec<u8>),
}

/// One present property: the position of its column and its value.
#[derive(Clone, Debug)]
pub struct Property {
    pub column_index: usize,
    pub value: PropertyValue,
}

impl PropertyValue {
    /// The column type this value belongs to.
    pub open spec fn spec_column_type(&self) -> ColumnType {
        match self {
            PropertyValue::Byte(_) => ColumnType::Byte,
            PropertyValue::UByte(_) => ColumnType::UByte,
            PropertyValue::Bool(_) => ColumnType::Bool,
            PropertyValue::Short(_) => ColumnType::Short,
            PropertyValue::UShort(_) => ColumnType::UShort,
            PropertyValue::Int(_) => ColumnType::Int,
            PropertyValue::UInt(_) => ColumnType::UInt,
            PropertyValue::Long(_) => ColumnType::Long,
            PropertyValue::ULong(_) => ColumnType::ULong,
            PropertyValue::Float(_) => ColumnType::Float,
            PropertyValue::Double(_) => ColumnType::Double,
            PropertyValue::String(_) => ColumnType::String,
            PropertyValue::Json(_) => ColumnType::Json,
            PropertyValue::DateTime(_) => ColumnType::DateTime,
            PropertyValue::Binary(_) => ColumnType::Binary,
        }
    }

    pub fn column_type(&self) -> (r: ColumnType)
        ensures
            r == self.spec_column_type(),
    {
        match self {
            PropertyValue::Byte(_) => ColumnType::Byte,
            PropertyValue::UByte(_) => ColumnType::UByte,
            PropertyValue::Bool(_) => ColumnType::Bool,
            PropertyValue::Short(_) => ColumnType::Short,
            PropertyValue::UShort(_) => ColumnType::UShort,
            PropertyValue::Int(_) => ColumnType::Int,
            PropertyValue::UInt(_) => ColumnType::UInt,
            PropertyValue::Long(_) => ColumnType::Long,
            PropertyValue::ULong(_) => ColumnType::ULong,
            PropertyValue::Float(_) => ColumnType::Float,
            PropertyValue::Double(_) => ColumnType::Double,
            PropertyValue::String(_) => ColumnType::String,
            PropertyValue::Json(_) => ColumnType::Json,
            PropertyValue::DateTime(_) => ColumnType::DateTime,
            PropertyValue::Binary(_) => ColumnType::Binary,
        }
    }

    /// The bytes of a variable-length value, if it is one.
    pub open spec fn spec_payload(&self) -> Seq<u8> {
        match self {
            PropertyValue::String(s) => encode_utf8(s@),
            PropertyValue::Json(s) => encode_utf8(s@),
            PropertyValue::DateTime(s) => encode_utf8(s@),
            PropertyValue::Binary(b) => b@,
            _ => Seq::empty(),
        }
    }

    /// A value small enough for its `u32` length field.
    pub open spec fn fits(&self) -> bool {
        self.spec_payload().len() <= u32::MAX
    }

    /// The value's bytes in a property buffer. A boolean is followed by one
    /// zero byte, which the paired reader consumes after every boolean.
    pub open spec fn spec_bytes(&self) -> Seq<u8> {
        match self {
            PropertyValue::Byte(x) => le_bytes((*x as u8) as nat, 1),
            PropertyValue::UByte(x) => le_bytes(*x as nat, 1),
            PropertyValue::Bool(b) => seq![if *b { 1u8 } else { 0u8 }, 0u8],
            PropertyValue::Short(x) => le_bytes((*x as u16) as nat, 2),
            PropertyValue::UShort(x) => le_bytes(*x as nat, 2),
            PropertyValue::Int(x) => le_bytes((*x as u32) as nat, 4),
            PropertyValue::UInt(x) => le_bytes(*x as nat, 4),
            PropertyValue::Long(x) => le_bytes((*x as u64) as nat, 8),
            PropertyValue::ULong(x) => le_bytes(*x as nat, 8),
            PropertyValue::Float(x) => le_bytes(*x as nat, 4),
            PropertyValue::Double(x) => le_bytes(*x as nat, 8),
            PropertyValue::String(_) | PropertyValue::Json(_) | PropertyValue::DateTime(_)
            | PropertyValue::Binary(_) => le_bytes(
                self.spec_payload().len(),
                4,
            ) + self.spec_payload(),
        }
    }
}

/// The entry of one property: its column index as two little-endian bytes,
/// then the value's bytes.
pub open spec fn entry_bytes(p: Property) -> Seq<u8> {
    le_bytes(p.column_index as nat, 2) + p.value.spec_bytes()
}

/// The property buffer of `props`: their entries in the order given.
pub open spec fn properties_bytes(props: Seq<Property>) -> Seq<u8>
    decreases props.len(),
{
    if props.len() == 0 {
        Seq::empty()
    } else {
        properties_bytes(props.drop_last()) + entry_bytes(props.last())
    }
}

/// A property that can be written: its index fits in 16 bits and, where the
/// feature carries its own schema, names a column of the value's type.
pub open spec fn property_ok(p: Property, columns: Option<Seq<Column>>) -> bool {
    &&& p.column_index < 0x1_0000
    &&& p.value.fits()
    &&& match columns {
        Some(cs) => p.column_index < cs.len() && cs[p.column_index as int].column_type
            == p.value.spec_column_type(),
        None => true,
    }
}

pub open spec fn properties_ok(props: Seq<Property>, columns: Option<Seq<Column>>) -> bool {
    forall|i: int| 0 <= i < props.len() ==> #[trigger] property_ok(props[i], columns)
}

/// Appends the entry of one property.
pub fn encode_property(out: &mut Vec<u8>, p: &Property)
    requires
        p.column_index < 0x1_0000,
        p.value.fits(),
    ensures
        final(out)@ == old(out)@ + entry_bytes(*p),
{
    push_le(out, p.column_index as u64, 2);
    let ghost mid = out@;
    match &p.value {
        PropertyValue::Byte(x) => push_le(out, (*x as u8) as u64, 1),
        PropertyValue::UByte(x) => push_le(out, *x as u64, 1),
        PropertyValue::Bool(b) => {
            out.push(if *b { 1u8 } else { 0u8 });
            out.push(0u8);
        },
        PropertyValue::Short(x) => push_le(out, (*x as u16) as u64, 2),
        PropertyValue::UShort(x) => push_le(out, *x as u64, 2),
        PropertyValue::Int(x) => push_le(out, (*x as u32) as u64, 4),
        PropertyValue::UInt(x) => push_le(out, *x as u64, 4),
        PropertyValue::Long(x) => push_le(out, *x as u64, 8),
        PropertyValue::ULong(x) => push_le(out, *x, 8),
        PropertyValue::Float(x) => push_le(out, *x as u64, 4),
        PropertyValue::Double(x) => push_le(out, *x, 8),
        PropertyValue::String(s) | PropertyValue::Json(s) | PropertyValue::DateTime(s) => {
            let b = s.as_str().as_bytes();
            push_le(out, b.len() as u64, 4);
            push_all(out, b);
        },
        PropertyValue::Binary(b) => {
            push_le(out, b.len() as u64, 4);
            push_all(out, b.as_slice());
        },
    }
    assert(out@ =~= old(out)@ + entry_bytes(*p));
}

/// Checks one property against the schema.
pub fn check_property(p: &Property, columns: Option<&Vec<Column>>) -> (r: bool)
    ensures
        r == property_ok(*p, match columns { Some(cs) => Some(cs@), None => None }),
{
    if p.column_index >= 0x1_0000 {
        return false;
    }
    let fits = match &p.value {
        PropertyValue::String(s) | PropertyValue::Json(s) | PropertyValue::DateTime(s) => s.as_str().as_bytes().len()
            <= 0xffff_ffffusize,
        PropertyValue::Binary(b) => b.len() <= 0xffff_ffffusize,
        _ => true,
    };
    if !fits {
        return false;
    }
    match columns {
        Some(cs) => p.column_index < cs.len() && cs[p.column_index].column_type == p.value.column_type(),
        None => true,
    }
}

/// The property buffer of `props`, or `None` when one of them cannot be written
/// (see `property_ok`).
pub fn encode_properties(props: &Vec<Property>, columns: Option<&Vec<Column>>) -> (r: Option<Vec<u8>>)
    ensures
        r is Some <==> properties_ok(props@, match columns { Some(cs) => Some(cs@), None => None }),
        r matches Some(b) ==> b@ == properties_bytes(props@),
{
    let ghost cols = match columns { Some(cs) => Some(cs@), None => None };
    let mut out: Vec<u8> = Vec::new();
    let mut i: usize = 0;
    while i < props.len()
        invariant
            i <= props@.len(),
            cols == match columns { Some(cs) => Some(cs@), None => None },
            forall|j: int| 0 <= j < i ==> #[trigger] property_ok(props@[j], cols),
            out@ == properties_bytes(props@.subrange(0, i as int)),
        decreases props@.len() - i,
    {
        if !check_property(&props[i], columns) {
            return None;
        }
        encode_property(&mut out, &props[i]);
        assert(props@.subrange(0, i + 1).drop_last() =~= props@.subrange(0, i as int));
        i = i + 1;
    }
    assert(props@.subrange(0, i as int) =~= props@);
    Some(out)
}

} // verus!
