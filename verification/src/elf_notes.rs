//! Loader metadata records: fixed-layout notes carrying a package name, as
//! the loader convention stores beside each exported unit.

use vstd::prelude::*;

verus! {

/// One note record: the sizes, a type tag, and the package name bytes.
pub struct ElfNote<const N: usize> {
    pub name_size: u32,
    pub desc_size: u32,
    pub ty: u32,
    pub name: [u8; N],
}

impl<const N: usize> ElfNote<N> {
    /// A package-name note: the name fills the record, with no descriptor.
    pub fn new_package(name: [u8; N]) -> (r: ElfNote<N>)
        requires
            N <= u32::MAX,
        ensures
            r.name_size == N,
            r.desc_size == 0,
            r.ty == 0,
            r.name@ == name@,
    {
        ElfNote { name_size: N as u32, desc_size: 0, ty: 0, name }
    }
}

} // verus!
