//! The data model: scalar and record values, buffer cells, and the schema
//! description that the layout planner compiles.

use vstd::prelude::*;

verus! {

/// A numeric value carried through encoding untouched.
///
/// Floating-point inputs travel as IEEE-754 double bit patterns (`Bits`); the
/// caller converts on the way in and on the way out, so the planner and
/// filler stay exact and platform-independent.
#[derive(Clone, Copy, Debug, PartialEq, Eq, Structural)]
pub enum Scalar {
    /// A signed integer value.
    Int(i64),
    /// An unsigned integer value.
    UInt(u64),
    /// A floating-point value, as the bit pattern of an IEEE-754 double.
    Bits(u64),
}

/// One field's value inside a record.
#[derive(Debug)]
pub enum Value {
    /// A numeric field value.
    Number(Scalar),
    /// A boolean field value.
    Boolean(bool),
    /// A single text value, bucketed by the hashing trick.
    Text(String),
    /// A collection of text values, each bucketed independently.
    Texts(Vec<String>),
    /// A categorical value, given as the variant's declaration-order index.
    Variant(usize),
    /// A nested record, meant for a named sub-encoder.
    Nested(Record),
}

/// A record: one optional value per schema field, in declaration order.
///
/// A `None` entry stands for an absent optional field.
#[derive(Debug)]
pub struct Record {
    /// The field values, aligned with the schema's field list.
    pub values: Vec<Option<Value>>,
}

/// One cell of a feature buffer.
///
/// A cell records what was done to it, and stands for the floating-point
/// number the caller derives from it: `Zero` reads as 0.0, `Num(s)` as the
/// scalar's numeric value, and `Count(n)` as n.0. Encoders only set cells or
/// add to counts, so these three shapes describe every filled buffer.
#[derive(Clone, Copy, Debug, PartialEq, Eq, Structural)]
pub enum Cell {
    /// An untouched cell of a zero-initialized buffer.
    Zero,
    /// A cell set to a scalar value.
    Num(Scalar),
    /// A bucket holding an accumulated count.
    Count(u64),
}

/// The kind of a field, as the schema declares it.
#[derive(Clone, Copy, Debug, PartialEq, Eq, Structural)]
pub enum FieldKind {
    /// A signed or unsigned integer field.
    Integer,
    /// A floating-point field.
    Float,
    /// A boolean field.
    Boolean,
    /// A free-form text field, encoded with the hashing trick.
    Text,
    /// A collection of text values, each hashed into the same buckets.
    TextCollection,
    /// A closed enumeration with the given number of declared variants.
    Categorical(usize),
    /// A composite type that only a named sub-encoder can handle.
    Nested,
}

/// Per-field configuration.
#[derive(Clone, Debug)]
pub struct FieldAttributes {
    /// A disabled field consumes no slot and is invisible to the filler.
    pub disabled: bool,
    /// The declared hashing width for text fields; a fallback applies when absent.
    pub explicit_width: Option<usize>,
    /// The value written for an absent optional numeric or boolean field.
    pub default_value: Option<Scalar>,
    /// The name of a custom sub-encoder; its width is the number spelled in
    /// the name's digits.
    pub custom_encoder: Option<String>,
}

impl FieldAttributes {
    /// Attributes of a plain field: enabled, no width, no default, no encoder.
    pub fn none() -> (r: FieldAttributes)
        ensures
            !r.disabled,
            r.explicit_width is None,
            r.default_value is None,
            r.custom_encoder is None,
    {
        FieldAttributes { disabled: false, explicit_width: None, default_value: None, custom_encoder: None }
    }
}

/// One field declaration: name, kind, optionality and attributes.
#[derive(Clone, Debug)]
pub struct FieldDecl {
    /// The field's name, carried into its slot.
    pub name: String,
    /// The declared kind of the underlying type.
    pub kind: FieldKind,
    /// Whether the value may be absent. Absence only changes runtime
    /// handling, never the width.
    pub optional: bool,
    /// The field's attributes.
    pub attrs: FieldAttributes,
}

/// A schema: the ordered list of field declarations.
#[derive(Clone, Debug)]
pub struct Schema {
    /// The fields in declaration order.
    pub fields: Vec<FieldDecl>,
}

/// Why a schema cannot be planned. Each variant carries the index of the
/// field on which planning failed.
#[derive(Clone, Copy, Debug, PartialEq, Eq, Structural)]
pub enum SchemaError {
    /// The field's kind has no primitive encoding and names no custom encoder.
    UnresolvableType(usize),
    /// The custom encoder's name spells no width, or one too large.
    MissingWidth(usize),
    /// A declared hashing width of zero cannot bucket anything.
    ZeroWidth(usize),
    /// A categorical field with no variants cannot be one-hot encoded.
    EmptyCategorical(usize),
    /// The widths up to this field exceed the machine's addressable size.
    DimensionOverflow(usize),
}

} // verus!
