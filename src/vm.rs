//! The virtual machine's native path: it builds the region that the host
//! program then maps and invokes.
use vstd::prelude::*;

use crate::jit::{
    load_immediate, spec_load_immediate, spec_prefilled, spec_spliced, ExecMemory,
};

verus! {

/// The number of pages of the region the machine builds.
pub const REGION_PAGES: usize = 10;

/// The value the machine's program returns.
pub const PROGRAM_RESULT: i32 = 3;

/// The virtual machine.
pub struct VM {}

impl VM {
    pub fn new() -> (r: VM) {
        VM {}
    }

    /// The region of the machine's program: `mov rax, 3` at offset 0, then
    /// the pre-filled `ret` that follows it.
    pub fn build(&self) -> (r: ExecMemory)
        ensures
            r.wf(),
            r.spec_num_pages() == REGION_PAGES,
            r@ == spec_spliced(
                spec_prefilled(REGION_PAGES as nat),
                0,
                spec_load_immediate(PROGRAM_RESULT),
            ),
    {
        let mut mem = ExecMemory::new(REGION_PAGES);
        let code = load_immediate(PROGRAM_RESULT);
        assert(code@.len() == 7);
        mem.write_code(0, code.as_slice());
        mem
    }
}

} // verus!
