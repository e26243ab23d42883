//! The byte image of an executable region, and the native x86-64 sequences
//! that the code generator writes into it.
//!
//! A region is a whole number of pages. Every byte starts out as the
//! encoding of `ret`, so a region invoked before anything is written into it
//! returns at once instead of running whatever the memory held. Mapping the
//! image into executable memory and calling it is left to the host program.
use vstd::prelude::*;

verus! {

/// The page size that regions are measured in.
pub const PAGE_SIZE: usize = 4096;

/// The x86-64 `ret` instruction, which every byte of a new region holds.
pub const RET_INSTRUCTION: u8 = 0xc3;

/// The bytes of a region of `num_pages` pages that nothing was written into.
pub open spec fn spec_prefilled(num_pages: nat) -> Seq<u8> {
    Seq::new(num_pages * PAGE_SIZE as nat, |i: int| RET_INSTRUCTION)
}

/// `image` with `code` written over it from `offset` on.
pub open spec fn spec_spliced(image: Seq<u8>, offset: int, code: Seq<u8>) -> Seq<u8> {
    image.subrange(0, offset) + code + image.subrange(offset + code.len(), image.len() as int)
}

/// The four little-endian bytes of a `u32`.
pub open spec fn le_bytes(v: u32) -> Seq<u8> {
    seq![v as u8, (v >> 8u32) as u8, (v >> 16u32) as u8, (v >> 24u32) as u8]
}

/// `mov rax, imm32`: the REX.W prefix, opcode `c7`, ModRM `c0` for `rax`,
/// then the immediate little-endian. The CPU sign-extends it to 64 bits.
pub open spec fn spec_load_immediate(imm: i32) -> Seq<u8> {
    seq![0x48u8, 0xc7u8, 0xc0u8] + le_bytes(imm as u32)
}

/// The native sequence that loads `imm` into the return register.
pub fn load_immediate(imm: i32) -> (r: Vec<u8>)
    ensures
        r@ == spec_load_immediate(imm),
{
    let v = imm as u32;
    let r = vec![0x48u8, 0xc7u8, 0xc0u8, v as u8, (v >> 8u32) as u8, (v >> 16u32) as u8, (v >> 24u32) as u8];
    assert(r@ =~= spec_load_immediate(imm));
    r
}

/// The image of an executable region: its bytes, a whole number of pages.
pub struct ExecMemory {
    contents: Vec<u8>,
    num_pages: usize,
}

impl View for ExecMemory {
    type V = Seq<u8>;

    closed spec fn view(&self) -> Seq<u8> {
        self.contents@
    }
}

impl ExecMemory {
    /// The number of pages the region was made with.
    pub closed spec fn spec_num_pages(&self) -> nat {
        self.num_pages as nat
    }

    /// The region is a whole number of pages.
    pub closed spec fn wf(&self) -> bool {
        self.contents@.len() == self.num_pages * PAGE_SIZE
    }

    /// A region of `num_pages` pages, every byte of it `ret`.
    pub fn new(num_pages: usize) -> (r: ExecMemory)
        requires
            num_pages * PAGE_SIZE <= usize::MAX,
        ensures
            r.wf(),
            r.spec_num_pages() == num_pages,
            r@ == spec_prefilled(num_pages as nat),
    {
        let size: usize = num_pages * PAGE_SIZE;
        let mut contents: Vec<u8> = Vec::with_capacity(size);
        let mut i: usize = 0;
        while i < size
            invariant
                0 <= i <= size,
                contents@.len() == i,
                forall|j: int| 0 <= j < i ==> contents@[j] == RET_INSTRUCTION,
            decreases size - i,
        {
            contents.push(RET_INSTRUCTION);
            i = i + 1;
        }
        let r = ExecMemory { contents, num_pages };
        assert(r@ =~= spec_prefilled(num_pages as nat));
        r
    }

    /// The number of pages the region was made with.
    pub fn num_pages(&self) -> (r: usize)
        ensures
            r == self.spec_num_pages(),
    {
        self.num_pages
    }

    /// The size of the region in bytes.
    pub fn len(&self) -> (r: usize)
        requires
            self.wf(),
        ensures
            r == self@.len(),
            r == self.spec_num_pages() * PAGE_SIZE,
    {
        self.contents.len()
    }

    /// The byte at `index`, which must lie inside the region.
    pub fn read(&self, index: usize) -> (r: u8)
        requires
            index < self@.len(),
        ensures
            r == self@[index as int],
    {
        self.contents[index]
    }

    /// Writes `byte` at `index`, which must lie inside the region.
    pub fn write(&mut self, index: usize, byte: u8)
        requires
            old(self).wf(),
            index < old(self)@.len(),
        ensures
            final(self).wf(),
            final(self).spec_num_pages() == old(self).spec_num_pages(),
            final(self)@ == old(self)@.update(index as int, byte),
    {
        self.contents.set(index, byte);
    }

    /// Writes `code` into the region from `offset` on; the whole of it must
    /// fit inside the region.
    pub fn write_code(&mut self, offset: usize, code: &[u8])
        requires
            old(self).wf(),
            offset + code@.len() <= old(self)@.len(),
        ensures
            final(self).wf(),
            final(self).spec_num_pages() == old(self).spec_num_pages(),
            final(self)@ == spec_spliced(old(self)@, offset as int, code@),
    {
        let ghost image = self@;
        let size = self.len();
        let mut i: usize = 0;
        while i < code.len()
            invariant
                self.wf(),
                self.spec_num_pages() == old(self).spec_num_pages(),
                image == old(self)@,
                offset + code@.len() <= image.len(),
                image.len() == size,
                0 <= i <= code@.len(),
                self@.len() == image.len(),
                forall|j: int| 0 <= j < offset ==> self@[j] == image[j],
                forall|j: int| 0 <= j < i ==> self@[offset + j] == code@[j],
                forall|j: int| offset + i <= j < image.len() ==> self@[j] == image[j],
            decreases code@.len() - i,
        {
            self.write(offset + i, code[i]);
            i = i + 1;
        }
        assert(self@ =~= spec_spliced(image, offset as int, code@));
    }

    /// The bytes of the region, in order.
    pub fn as_bytes(&self) -> (r: &[u8])
        ensures
            r@ == self@,
    {
        self.contents.as_slice()
    }
}

/// A region that nothing was written into holds `ret` from its first byte
/// on, whatever its size, so invoking it returns immediately.
pub proof fn lemma_fresh_region_returns(num_pages: nat)
    requires
        num_pages >= 1,
    ensures
        spec_prefilled(num_pages).len() >= PAGE_SIZE,
        spec_prefilled(num_pages)[0] == RET_INSTRUCTION,
        forall|i: int| 0 <= i < spec_prefilled(num_pages).len() ==> #[trigger] spec_prefilled(num_pages)[i] == RET_INSTRUCTION,
{
    assert(num_pages * PAGE_SIZE as nat >= PAGE_SIZE) by (nonlinear_arith)
        requires num_pages >= 1;
}

} // verus!
