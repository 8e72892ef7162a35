//! Blocks and the arithmetic that places them in the arena.
use crate::align::round_up;
use vstd::prelude::*;

verus! {

/// The fixed parameters of an arena: where it starts, how many bytes a block header takes,
/// and the alignment that every header (and so every block end) keeps.
#[derive(Clone, Copy, Debug, PartialEq, Eq, Structural)]
pub struct ArenaConfig {
    pub base: usize,
    pub header_size: usize,
    pub header_align: usize,
}

/// One live allocation: its header starts at `header`, its data region of `size` bytes at
/// `data`, the first multiple of `align` at or after the end of the header.
#[derive(Clone, Copy, Debug, PartialEq, Eq, Structural)]
pub struct Block {
    pub header: usize,
    pub data: usize,
    pub size: usize,
    pub align: usize,
}

impl ArenaConfig {
    /// A header takes at least one byte and its alignment is a power of two.
    pub open spec fn valid(self) -> bool {
        self.header_size >= 1 && crate::align::is_pow2(self.header_align as int)
    }

    /// Where the data of a block whose header starts at `header` begins.
    pub open spec fn data_for(self, header: int, align: int) -> int {
        crate::align::align_up(header + self.header_size, align)
    }

    /// Where a block ends: its data end rounded up to the header alignment, which is where a
    /// following header may start.
    pub open spec fn end_of(self, b: Block) -> int {
        crate::align::align_up(b.data + b.size, self.header_align as int)
    }

    /// Every address of a block of `size` bytes aligned to `align` with its header at `header`
    /// lies in the address space: the header end, the data start, the data end and the block end.
    pub open spec fn fits(self, header: int, size: int, align: int) -> bool {
        &&& header + self.header_size <= usize::MAX
        &&& self.data_for(header, align) + size <= usize::MAX
        &&& crate::align::align_up(self.data_for(header, align) + size, self.header_align as int)
            <= usize::MAX
    }

    /// The block of `size` bytes aligned to `align` whose header starts at `header`.
    pub open spec fn block_at(self, header: int, size: int, align: int) -> Block {
        Block {
            header: header as usize,
            data: self.data_for(header, align) as usize,
            size: size as usize,
            align: align as usize,
        }
    }

    /// `b` is a block that this arena could have placed.
    pub open spec fn block_wf(self, b: Block) -> bool {
        &&& crate::align::is_pow2(b.align as int)
        &&& self.fits(b.header as int, b.size as int, b.align as int)
        &&& b == self.block_at(b.header as int, b.size as int, b.align as int)
    }

    /// Places a block of `size` bytes aligned to `align` with its header at `header`;
    /// `None` where one of its addresses would lie past the end of the address space.
    pub fn place_block(&self, header: usize, size: usize, align: usize) -> (r: Option<Block>)
        requires
            self.valid(),
            crate::align::is_pow2(align as int),
        ensures
            r == (if self.fits(header as int, size as int, align as int) {
                Some(self.block_at(header as int, size as int, align as int))
            } else {
                None
            }),
    {
        proof {
            crate::align::lemma_pow2_positive(self.header_align as int);
            crate::align::lemma_pow2_positive(align as int);
        }
        let header_end = match header.checked_add(self.header_size) {
            Some(e) => e,
            None => return None,
        };
        let data = match round_up(header_end, align) {
            Some(d) => d,
            None => return None,
        };
        let data_end = match data.checked_add(size) {
            Some(e) => e,
            None => return None,
        };
        if round_up(data_end, self.header_align).is_none() {
            return None;
        }
        proof {
            crate::align::lemma_align_up(header_end as int, align as int);
        }
        Some(Block { header, data, size, align })
    }

    /// Where block `b` ends, rounded up to the header alignment.
    pub fn aligned_end(&self, b: &Block) -> (r: usize)
        requires
            self.valid(),
            self.block_wf(*b),
        ensures
            r == self.end_of(*b),
    {
        proof {
            lemma_block_layout(*self, *b);
        }
        let e = b.data + b.size;
        match round_up(e, self.header_align) {
            Some(r) => r,
            None => 0,
        }
    }
}

/// What every well-formed block satisfies: its data starts past its header and is aligned, and
/// it ends aligned for a header, past its data, inside the address space.
pub proof fn lemma_block_layout(cfg: ArenaConfig, b: Block)
    requires
        cfg.valid(),
        cfg.block_wf(b),
    ensures
        b.header + cfg.header_size <= b.data,
        b.header < b.data,
        (b.data as int) % (b.align as int) == 0,
        b.data + b.size <= cfg.end_of(b) <= usize::MAX,
        cfg.end_of(b) % (cfg.header_align as int) == 0,
{
    crate::align::lemma_pow2_positive(b.align as int);
    crate::align::lemma_pow2_positive(cfg.header_align as int);
    crate::align::lemma_align_up(b.header + cfg.header_size, b.align as int);
    crate::align::lemma_align_up(b.data + b.size, cfg.header_align as int);
}

} // verus!
