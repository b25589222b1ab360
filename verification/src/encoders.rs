//! Sub-encoders: the trait a custom encoder implements, and the built-in
//! primitive encoders offered as standalone values.

use vstd::prelude::*;

use crate::schema::Cell;
use crate::schema::Scalar;
use crate::schema::Value;

verus! {

/// A set of named custom sub-encoders.
///
/// The filler hands a delegated slot's sub-range to `fill_slice` (or, when an
/// optional value is absent, to `default`) together with the encoder name the
/// schema declared. An implementation dispatches on that name and writes what
/// it wants into the cells; the one obligation is to keep the sub-range's
/// length, so the surrounding layout stays intact.
pub trait Featurizer {
    /// Encodes `data` into the slot's cells.
    fn fill_slice(&self, encoder: &str, data: &Value, slice: &mut Vec<Cell>)
        ensures
            final(slice)@.len() == old(slice)@.len(),
    ;

    /// Fills the slot's cells for an absent optional value.
    fn default(&self, encoder: &str, slice: &mut Vec<Cell>)
        ensures
            final(slice)@.len() == old(slice)@.len(),
    ;
}

/// The empty encoder set: knows no names and leaves every cell as it was.
/// Fits any schema that names no custom encoder.
pub struct NoEncoders {}

impl Featurizer for NoEncoders {
    fn fill_slice(&self, encoder: &str, data: &Value, slice: &mut Vec<Cell>) {
    }

    fn default(&self, encoder: &str, slice: &mut Vec<Cell>) {
    }
}

/// The boolean primitive encoder as a standalone value: width one, writes
/// one for true, leaves zero for false, writes nothing for an absent value.
pub struct Defaultbool1 {}

impl Defaultbool1 {
    /// The encoder's width.
    pub fn dim() -> (d: usize)
        ensures
            d == 1,
    {
        1
    }

    /// Encodes one boolean into the first cell of `slice`.
    pub fn fill_slice(data: &bool, slice: &mut Vec<Cell>)
        requires
            old(slice)@.len() >= 1,
        ensures
            *data ==> final(slice)@ == old(slice)@.update(0, Cell::Num(Scalar::Int(1))),
            !*data ==> final(slice)@ == old(slice)@,
    {
        if *data {
            slice[0] = Cell::Num(Scalar::Int(1));
        }
    }

    /// Leaves the slice untouched: an absent boolean keeps its zeros.
    pub fn default(slice: &mut Vec<Cell>)
        ensures
            final(slice)@ == old(slice)@,
    {
    }
}

} // verus!
