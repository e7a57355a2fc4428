use vstd::prelude::*;

verus! {

/// Reports whether the buffer opens with the class file magic bytes
/// `CA FE BA BE`. An advisory gate only: the structural decoder checks
/// the magic again as part of its header grammar.
pub fn is_java_class_format(binary: &[u8]) -> (r: bool)
    ensures
        r == (binary@.len() >= 4 && binary@[0] == 0xCAu8 && binary@[1] == 0xFEu8 && binary@[2]
            == 0xBAu8 && binary@[3] == 0xBEu8),
{
    binary.len() >= 4 && binary[0] == 0xCA && binary[1] == 0xFE && binary[2] == 0xBA && binary[3]
        == 0xBE
}

} // verus!
