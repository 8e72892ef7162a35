//! The block list and the first-fit allocation and deallocation over it.
use crate::align::is_power_of_two;
use crate::block::{ArenaConfig, Block};
use vstd::prelude::*;

verus! {

/// Why an allocation request was turned down.
#[derive(Clone, Copy, Debug, PartialEq, Eq, Structural)]
pub enum AllocError {
    /// The requested alignment is not a power of two.
    InvalidAlignment,
    /// No gap holds the block and the arena cannot grow past the last block.
    ArenaExhausted,
}

/// A free of an address that no live block has as its data address: the list is empty, the
/// address was never handed out, or it was freed already.
#[derive(Clone, Copy, Debug, PartialEq, Eq, Structural)]
pub struct InvalidFree {
    pub address: usize,
}

/// The block list of an arena is well formed: every block is one that the arena could have
/// placed, and each block ends at or before the header of every later block, so the blocks
/// lie in increasing address order and their `[header, end)` ranges do not meet.
pub open spec fn blocks_wf(cfg: ArenaConfig, bs: Seq<Block>) -> bool {
    &&& forall|i: int| 0 <= i < bs.len() ==> cfg.block_wf(#[trigger] bs[i])
    &&& forall|i: int, j: int|
        0 <= i < j < bs.len() ==> cfg.end_of(#[trigger] bs[i]) <= (#[trigger] bs[j]).header
}

/// A block of `size` bytes aligned to `align` can follow block `i`: placing it at the end of
/// block `i` wraps no arithmetic, and either block `i` is the last one, or the new data
/// address lies before the next header and the whole new block ends by that header.
pub open spec fn fits_after(cfg: ArenaConfig, bs: Seq<Block>, i: int, size: int, align: int) -> bool {
    let h = cfg.end_of(bs[i]);
    let nb = cfg.block_at(h, size, align);
    &&& cfg.fits(h, size, align)
    &&& (i + 1 == bs.len() || (nb.data < bs[i + 1].header && cfg.end_of(nb) <= bs[i + 1].header))
}

/// The first index from `from` on after which the block can go; `bs.len()` if there is none.
pub open spec fn first_fit(cfg: ArenaConfig, bs: Seq<Block>, size: int, align: int, from: int) -> int
    decreases bs.len() - from,
{
    if from >= bs.len() {
        bs.len() as int
    } else if fits_after(cfg, bs, from, size, align) {
        from
    } else {
        first_fit(cfg, bs, size, align, from + 1)
    }
}

/// A block of `size` bytes aligned to `align` can go at the arena base: placing it there wraps
/// no arithmetic, and either no block is live, or the new data address lies before the first
/// header and the whole new block ends by that header.
pub open spec fn fits_at_base(cfg: ArenaConfig, bs: Seq<Block>, size: int, align: int) -> bool {
    let nb = cfg.block_at(cfg.base as int, size, align);
    &&& cfg.fits(cfg.base as int, size, align)
    &&& (bs.len() == 0 || (nb.data < bs[0].header && cfg.end_of(nb) <= bs[0].header))
}

/// Where a request for `size` bytes aligned to `align` puts its block: the position in the
/// list and the block; `None` where no place holds it. The arena base comes first, where the
/// block fits before the first live block; then the gap after each live block in address order.
pub open spec fn placement(cfg: ArenaConfig, bs: Seq<Block>, size: int, align: int) -> Option<(int, Block)> {
    if fits_at_base(cfg, bs, size, align) {
        Some((0, cfg.block_at(cfg.base as int, size, align)))
    } else {
        let i = first_fit(cfg, bs, size, align, 0);
        if i < bs.len() {
            Some((i + 1, cfg.block_at(cfg.end_of(bs[i]), size, align)))
        } else {
            None
        }
    }
}

/// Some live block has `ptr` as its data address.
pub open spec fn owns(bs: Seq<Block>, ptr: int) -> bool {
    exists|i: int| 0 <= i < bs.len() && bs[i].data == ptr
}

/// The list without the block whose data address is `ptr`.
pub open spec fn freed(bs: Seq<Block>, ptr: int) -> Seq<Block> {
    bs.remove(choose|i: int| 0 <= i < bs.len() && bs[i].data == ptr)
}

/// An allocator over one arena. It keeps its blocks in a list ordered by address; the arena's
/// bytes themselves are not touched.
pub struct ArenaAllocator {
    config: ArenaConfig,
    blocks: Vec<Block>,
}

impl View for ArenaAllocator {
    type V = Seq<Block>;

    /// The live blocks, from the lowest address up.
    closed spec fn view(&self) -> Seq<Block> {
        self.blocks@
    }
}

impl ArenaAllocator {
    /// The arena this allocator manages.
    pub closed spec fn spec_config(&self) -> ArenaConfig {
        self.config
    }

    /// The configuration is valid and the block list well formed.
    pub open spec fn wf(&self) -> bool {
        self.spec_config().valid() && blocks_wf(self.spec_config(), self@)
    }

    /// An allocator with no blocks over the arena `config`; `None` where the header size is
    /// zero or the header alignment is not a power of two.
    pub fn new(config: ArenaConfig) -> (r: Option<ArenaAllocator>)
        ensures
            r is Some <==> config.valid(),
            r matches Some(a) ==> a.wf() && a.spec_config() == config && a@.len() == 0,
    {
        if config.header_size == 0 || !is_power_of_two(config.header_align) {
            return None;
        }
        Some(ArenaAllocator { config, blocks: Vec::new() })
    }

    /// The arena this allocator manages.
    pub fn config(&self) -> (r: ArenaConfig)
        ensures
            r == self.spec_config(),
    {
        self.config
    }

    /// How many blocks are live.
    pub fn count_allocations(&self) -> (r: usize)
        ensures
            r == self@.len(),
    {
        self.blocks.len()
    }

    /// A fresh walk over the live blocks from the lowest address up.
    pub fn iter(&self) -> (r: BlockIter<'_>)
        ensures
            r.remaining() == self@,
    {
        BlockIter { list: &self.blocks, pos: 0 }
    }
}

impl ArenaAllocator {
    /// Allocates `size` bytes aligned to `align` and returns the data address. The block goes
    /// at the arena base where it fits before the first live block (or no block is live);
    /// otherwise into the first gap, in address order, that holds it after some block, or else
    /// right after the last block.
    pub fn allocate(&mut self, size: usize, align: usize) -> (r: Result<usize, AllocError>)
        requires
            old(self).wf(),
        ensures
            final(self).wf(),
            final(self).spec_config() == old(self).spec_config(),
            !crate::align::is_pow2(align as int) ==> r == Err::<usize, AllocError>(AllocError::InvalidAlignment)
                && final(self)@ == old(self)@,
            crate::align::is_pow2(align as int) ==> match placement(
                old(self).spec_config(),
                old(self)@,
                size as int,
                align as int,
            ) {
                Some((k, b)) => r == Ok::<usize, AllocError>(b.data) && final(self)@ == old(self)@.insert(k, b),
                None => r == Err::<usize, AllocError>(AllocError::ArenaExhausted) && final(self)@ == old(self)@,
            },
            r matches Ok(p) ==> p as int % align as int == 0,
    {
        if !is_power_of_two(align) {
            return Err(AllocError::InvalidAlignment);
        }
        let ghost cfg = self.config;
        let ghost bs = self.blocks@;
        let n = self.blocks.len();
        if let Some(b) = self.config.place_block(self.config.base, size, align) {
            if n == 0 || (b.data < self.blocks[0].header && self.config.aligned_end(&b)
                <= self.blocks[0].header) {
                self.blocks.insert(0, b);
                proof {
                    lemma_insert_front_keeps_wf(cfg, bs, size as int, align as int);
                    crate::block::lemma_block_layout(cfg, b);
                }
                return Ok(b.data);
            }
        }
        if n == 0 {
            return Err(AllocError::ArenaExhausted);
        }
        let mut i: usize = 0;
        while i < n
            invariant
                self.config == cfg,
                self.blocks@ == bs,
                cfg == old(self).spec_config(),
                bs == old(self)@,
                n == bs.len(),
                0 <= i <= n,
                cfg.valid(),
                blocks_wf(cfg, bs),
                crate::align::is_pow2(align as int),
                !fits_at_base(cfg, bs, size as int, align as int),
                first_fit(cfg, bs, size as int, align as int, 0) == first_fit(
                    cfg,
                    bs,
                    size as int,
                    align as int,
                    i as int,
                ),
            decreases n - i,
        {
            let h = self.config.aligned_end(&self.blocks[i]);
            if let Some(nb) = self.config.place_block(h, size, align) {
                proof {
                    crate::block::lemma_block_layout(cfg, bs[i as int]);
                }
                if i + 1 == n || (nb.data < self.blocks[i + 1].header && self.config.aligned_end(&nb)
                    <= self.blocks[i + 1].header) {
                    self.blocks.insert(i + 1, nb);
                    proof {
                        lemma_insert_keeps_wf(cfg, bs, i as int, size as int, align as int);
                        crate::block::lemma_block_layout(cfg, nb);
                    }
                    return Ok(nb.data);
                }
            }
            i += 1;
        }
        Err(AllocError::ArenaExhausted)
    }

    /// Frees the block whose data address is `ptr`, leaving its space as a gap. An address that
    /// no live block has is refused with `InvalidFree`, and nothing changes.
    pub fn deallocate(&mut self, ptr: usize) -> (r: Result<(), InvalidFree>)
        requires
            old(self).wf(),
        ensures
            final(self).wf(),
            final(self).spec_config() == old(self).spec_config(),
            r is Ok <==> owns(old(self)@, ptr as int),
            r is Ok ==> final(self)@ == freed(old(self)@, ptr as int),
            r is Err ==> r == Err::<(), InvalidFree>(InvalidFree { address: ptr }) && final(self)@
                == old(self)@,
    {
        let ghost cfg = self.config;
        let ghost bs = self.blocks@;
        let n = self.blocks.len();
        let mut i: usize = 0;
        while i < n
            invariant
                self.config == cfg,
                self.blocks@ == bs,
                cfg == old(self).spec_config(),
                bs == old(self)@,
                n == bs.len(),
                0 <= i <= n,
                cfg.valid(),
                blocks_wf(cfg, bs),
                forall|j: int| 0 <= j < i ==> bs[j].data != ptr,
            decreases n - i,
        {
            if self.blocks[i].data == ptr {
                self.blocks.remove(i);
                proof {
                    lemma_data_unique(cfg, bs, i as int);
                    lemma_remove_keeps_wf(cfg, bs, i as int);
                }
                return Ok(());
            }
            i += 1;
        }
        Err(InvalidFree { address: ptr })
    }

    /// The free bytes after block `i`: up to the next header, or, after the last block, up to
    /// the top of the address space counted from the end of its data. `None` where there is no
    /// block `i`.
    pub fn free_space_after(&self, i: usize) -> (r: Option<usize>)
        requires
            self.wf(),
        ensures
            i >= self@.len() ==> r is None,
            i + 1 < self@.len() ==> r == Some(
                (self@[i + 1].header - self.spec_config().end_of(self@[i as int])) as usize,
            ),
            i + 1 == self@.len() ==> r == Some(
                (usize::MAX - (self@[i as int].data + self@[i as int].size)) as usize,
            ),
    {
        let n = self.blocks.len();
        if i >= n {
            return None;
        }
        let b = self.blocks[i];
        proof {
            crate::block::lemma_block_layout(self.config, b);
        }
        if i + 1 < n {
            Some(self.blocks[i + 1].header - self.config.aligned_end(&b))
        } else {
            Some(usize::MAX - (b.data + b.size))
        }
    }
}

/// Headers, and data addresses, strictly increase along a well-formed list.
pub proof fn lemma_list_ordered(cfg: ArenaConfig, bs: Seq<Block>)
    requires
        cfg.valid(),
        blocks_wf(cfg, bs),
    ensures
        forall|i: int, j: int|
            0 <= i < j < bs.len() ==> (#[trigger] bs[i]).header < (#[trigger] bs[j]).header && bs[i].data
                < bs[j].data,
{
    assert forall|i: int, j: int| 0 <= i < j < bs.len() implies (#[trigger] bs[i]).header < (
    #[trigger] bs[j]).header && bs[i].data < bs[j].data by {
        crate::block::lemma_block_layout(cfg, bs[i]);
        crate::block::lemma_block_layout(cfg, bs[j]);
    }
}

/// In a well-formed list only block `i` has the data address of block `i`.
proof fn lemma_data_unique(cfg: ArenaConfig, bs: Seq<Block>, i: int)
    requires
        cfg.valid(),
        blocks_wf(cfg, bs),
        0 <= i < bs.len(),
    ensures
        (choose|j: int| 0 <= j < bs.len() && bs[j].data == bs[i].data) == i,
{
    lemma_list_ordered(cfg, bs);
    let j = choose|j: int| 0 <= j < bs.len() && bs[j].data == bs[i].data;
    if j < i {
        assert(bs[j].data < bs[i].data);
    } else if j > i {
        assert(bs[i].data < bs[j].data);
    }
}

/// Removing a block keeps a list well formed.
proof fn lemma_remove_keeps_wf(cfg: ArenaConfig, bs: Seq<Block>, i: int)
    requires
        cfg.valid(),
        blocks_wf(cfg, bs),
        0 <= i < bs.len(),
    ensures
        blocks_wf(cfg, bs.remove(i)),
{
    let s = bs.remove(i);
    assert forall|x: int| 0 <= x < s.len() implies cfg.block_wf(#[trigger] s[x]) by {
        if x < i {
            assert(s[x] == bs[x]);
        } else {
            assert(s[x] == bs[x + 1]);
        }
    }
    assert forall|x: int, y: int| 0 <= x < y < s.len() implies cfg.end_of(#[trigger] s[x]) <= (
    #[trigger] s[y]).header by {
        let ox = if x < i { x } else { x + 1 };
        let oy = if y < i { y } else { y + 1 };
        assert(s[x] == bs[ox] && s[y] == bs[oy]);
        assert(cfg.end_of(bs[ox]) <= bs[oy].header);
    }
}

/// What `first_fit` finds from `from` on: an index with room after it, with none before it
/// from `from` on; or the list length when there is no such index.
proof fn lemma_first_fit(cfg: ArenaConfig, bs: Seq<Block>, size: int, align: int, from: int)
    requires
        0 <= from <= bs.len(),
    ensures
        from <= first_fit(cfg, bs, size, align, from) <= bs.len(),
        first_fit(cfg, bs, size, align, from) < bs.len() ==> fits_after(
            cfg,
            bs,
            first_fit(cfg, bs, size, align, from),
            size,
            align,
        ),
        forall|j: int|
            from <= j < first_fit(cfg, bs, size, align, from) ==> !fits_after(cfg, bs, j, size, align),
    decreases bs.len() - from,
{
    if from < bs.len() && !fits_after(cfg, bs, from, size, align) {
        lemma_first_fit(cfg, bs, size, align, from + 1);
    }
}

/// Putting a new block at the arena base, where it fits, keeps a list well formed.
proof fn lemma_insert_front_keeps_wf(cfg: ArenaConfig, bs: Seq<Block>, size: int, align: int)
    requires
        cfg.valid(),
        blocks_wf(cfg, bs),
        crate::align::is_pow2(align),
        align <= usize::MAX,
        0 <= size,
        fits_at_base(cfg, bs, size, align),
    ensures
        blocks_wf(cfg, bs.insert(0, cfg.block_at(cfg.base as int, size, align))),
{
    let nb = cfg.block_at(cfg.base as int, size, align);
    let s = bs.insert(0, nb);
    crate::align::lemma_pow2_positive(align);
    crate::align::lemma_align_up(cfg.base + cfg.header_size, align);
    assert(cfg.block_wf(nb));
    crate::block::lemma_block_layout(cfg, nb);
    assert forall|x: int| 0 <= x < s.len() implies cfg.block_wf(#[trigger] s[x]) by {
        if x > 0 {
            assert(s[x] == bs[x - 1]);
        }
    }
    assert forall|x: int, y: int| 0 <= x < y < s.len() implies cfg.end_of(#[trigger] s[x]) <= (
    #[trigger] s[y]).header by {
        assert(s[y] == bs[y - 1]);
        if x == 0 {
            if y > 1 {
                crate::block::lemma_block_layout(cfg, bs[0]);
                assert(cfg.end_of(bs[0]) <= bs[y - 1].header);
            }
        } else {
            assert(s[x] == bs[x - 1]);
            assert(cfg.end_of(bs[x - 1]) <= bs[y - 1].header);
        }
    }
}

/// Putting a new block right after block `i`, where it fits, keeps a list well formed.
proof fn lemma_insert_keeps_wf(cfg: ArenaConfig, bs: Seq<Block>, i: int, size: int, align: int)
    requires
        cfg.valid(),
        blocks_wf(cfg, bs),
        crate::align::is_pow2(align),
        align <= usize::MAX,
        0 <= size,
        0 <= i < bs.len(),
        fits_after(cfg, bs, i, size, align),
    ensures
        blocks_wf(cfg, bs.insert(i + 1, cfg.block_at(cfg.end_of(bs[i]), size, align))),
{
    let h = cfg.end_of(bs[i]);
    let nb = cfg.block_at(h, size, align);
    let s = bs.insert(i + 1, nb);
    crate::block::lemma_block_layout(cfg, bs[i]);
    crate::align::lemma_pow2_positive(align);
    crate::align::lemma_align_up(h + cfg.header_size, align);
    assert(cfg.block_wf(nb));
    crate::block::lemma_block_layout(cfg, nb);
    assert forall|x: int| 0 <= x < s.len() implies cfg.block_wf(#[trigger] s[x]) by {
        if x <= i {
            assert(s[x] == bs[x]);
        } else if x > i + 1 {
            assert(s[x] == bs[x - 1]);
        }
    }
    assert forall|x: int, y: int| 0 <= x < y < s.len() implies cfg.end_of(#[trigger] s[x]) <= (
    #[trigger] s[y]).header by {
        if y <= i {
            assert(s[x] == bs[x] && s[y] == bs[y]);
        } else if y == i + 1 {
            assert(s[x] == bs[x]);
            if x < i {
                assert(cfg.end_of(bs[x]) <= bs[i].header);
            }
        } else {
            assert(s[y] == bs[y - 1]);
            if x <= i {
                assert(s[x] == bs[x]);
                assert(cfg.end_of(bs[x]) <= bs[y - 1].header);
            } else if x == i + 1 {
                crate::block::lemma_block_layout(cfg, bs[i + 1]);
                if y - 1 > i + 1 {
                    assert(cfg.end_of(bs[i + 1]) <= bs[y - 1].header);
                }
            } else {
                assert(s[x] == bs[x - 1]);
                assert(cfg.end_of(bs[x - 1]) <= bs[y - 1].header);
            }
        }
    }
}

/// Every allocator state keeps its blocks in address order: walking the live blocks from the
/// first, both header and data addresses strictly increase.
pub proof fn lemma_addresses_increase(a: &ArenaAllocator)
    requires
        a.wf(),
    ensures
        forall|i: int, j: int|
            0 <= i < j < a@.len() ==> (#[trigger] a@[i]).header < (#[trigger] a@[j]).header
                && a@[i].data < a@[j].data,
{
    lemma_list_ordered(a.spec_config(), a@);
}

/// No two live blocks overlap: the `[header, end)` ranges of two different blocks are disjoint.
pub proof fn lemma_blocks_disjoint(a: &ArenaAllocator, i: int, j: int)
    requires
        a.wf(),
        0 <= i < a@.len(),
        0 <= j < a@.len(),
        i != j,
    ensures
        a.spec_config().end_of(a@[i]) <= a@[j].header || a.spec_config().end_of(a@[j])
            <= a@[i].header,
{
}

/// Allocating and then freeing the address that the allocation returned gives back the block
/// list exactly as it was.
pub proof fn lemma_round_trip(a: &ArenaAllocator, size: usize, align: usize)
    requires
        a.wf(),
        crate::align::is_pow2(align as int),
        placement(a.spec_config(), a@, size as int, align as int) is Some,
    ensures
        ({
            let (k, b) = placement(a.spec_config(), a@, size as int, align as int)->0;
            &&& owns(a@.insert(k, b), b.data as int)
            &&& freed(a@.insert(k, b), b.data as int) == a@
        }),
{
    let cfg = a.spec_config();
    let bs = a@;
    let (k, b) = placement(cfg, bs, size as int, align as int)->0;
    let after = bs.insert(k, b);
    if fits_at_base(cfg, bs, size as int, align as int) {
        lemma_insert_front_keeps_wf(cfg, bs, size as int, align as int);
    } else {
        lemma_first_fit(cfg, bs, size as int, align as int, 0);
        lemma_insert_keeps_wf(cfg, bs, k - 1, size as int, align as int);
    }
    assert(after[k] == b);
    lemma_data_unique(cfg, after, k);
    assert(after.remove(k) =~= bs);
}

/// A walk over the blocks of an allocator, in address order. The allocator cannot change while
/// a walk over it is alive.
pub struct BlockIter<'a> {
    list: &'a Vec<Block>,
    pos: usize,
}

impl<'a> BlockIter<'a> {
    #[verifier::type_invariant]
    spec fn inv(&self) -> bool {
        self.pos <= self.list.len()
    }

    /// The blocks that the walk has yet to hand out.
    pub closed spec fn remaining(&self) -> Seq<Block> {
        self.list@.skip(self.pos as int)
    }

    /// The next block of the walk, or `None` once all have been handed out.
    pub fn next(&mut self) -> (r: Option<Block>)
        ensures
            old(self).remaining().len() == 0 ==> r is None && final(self).remaining() == old(self).remaining(),
            old(self).remaining().len() > 0 ==> r == Some(old(self).remaining()[0])
                && final(self).remaining() == old(self).remaining().drop_first(),
    {
        proof {
            use_type_invariant(&*self);
        }
        if self.pos < self.list.len() {
            let b = self.list[self.pos];
            self.pos = self.pos + 1;
            proof {
                assert(self.remaining() =~= old(self).remaining().drop_first());
            }
            Some(b)
        } else {
            None
        }
    }
}

} // verus!
