//! The DWARF tags that the repair looks for.

use vstd::prelude::*;

verus! {

/// The tag of a pointer type.
pub const POINTER_TYPE: u16 = 0x0f;

/// The tag of a structure type.
pub const STRUCTURE_TYPE: u16 = 0x13;

/// The tag of the variant part of a structure: the encoding of an enum whose
/// variants carry data.
pub const VARIANT_PART: u16 = 0x33;

/// `gimli::DW_TAG_pointer_type`, a constant of type `DwTag`: the code in it
/// is 0x0f, the tag that the DWARF standard gives to pointer types.
#[verifier::external_body]
pub(crate) fn dw_tag_pointer_type() -> (code: u16)
    ensures
        code == POINTER_TYPE,
{
    gimli::DW_TAG_pointer_type.0
}

/// `gimli::DW_TAG_structure_type`, a constant of type `DwTag`: the code in
/// it is 0x13, the tag that the DWARF standard gives to structure types.
#[verifier::external_body]
pub(crate) fn dw_tag_structure_type() -> (code: u16)
    ensures
        code == STRUCTURE_TYPE,
{
    gimli::DW_TAG_structure_type.0
}

/// `gimli::DW_TAG_variant_part`, a constant of type `DwTag`: the code in it
/// is 0x33, the tag that the DWARF standard gives to variant parts.
#[verifier::external_body]
pub(crate) fn dw_tag_variant_part() -> (code: u16)
    ensures
        code == VARIANT_PART,
{
    gimli::DW_TAG_variant_part.0
}

} // verus!
