//! Memory attributes: the per-area permission bits, fixed at area
//! creation. The default is kernel-only, read-write, no-execute.

use vstd::prelude::*;

verus! {

#[derive(Clone, Copy, Debug, PartialEq, Eq, Structural)]
pub struct MemoryAttr {
    pub user: bool,
    pub readonly: bool,
    pub execute: bool,
}

impl MemoryAttr {
    pub fn new() -> (a: MemoryAttr)
        ensures
            a == (MemoryAttr { user: false, readonly: false, execute: false }),
    {
        MemoryAttr { user: false, readonly: false, execute: false }
    }

    pub fn set_user(self) -> (a: MemoryAttr)
        ensures
            a == (MemoryAttr { user: true, ..self }),
    {
        MemoryAttr { user: true, ..self }
    }

    pub fn set_readonly(self) -> (a: MemoryAttr)
        ensures
            a == (MemoryAttr { readonly: true, ..self }),
    {
        MemoryAttr { readonly: true, ..self }
    }

    pub fn set_execute(self) -> (a: MemoryAttr)
        ensures
            a == (MemoryAttr { execute: true, ..self }),
    {
        MemoryAttr { execute: true, ..self }
    }
}

} // verus!
