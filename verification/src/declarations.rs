use vstd::prelude::*;

verus! {

/// The named bits of the access-flag bitset attached to a class or
/// member. No further semantics are attached at this layer.
pub const ACC_PUBLIC: u16 = 0x0001;

pub const ACC_FINAL: u16 = 0x0010;

pub const ACC_SUPER: u16 = 0x0020;

pub const ACC_INTERFACE: u16 = 0x0200;

pub const ACC_ABSTRACT: u16 = 0x0400;

} // verus!
