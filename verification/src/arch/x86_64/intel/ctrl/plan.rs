//! Covering a range of pages with page-selective invalidations.

use vstd::arithmetic::power2;
use vstd::prelude::*;

use crate::error::Error;

verus! {

/// One page-selective invalidation: `2^address_mask` pages from `page`.
#[derive(Clone, Copy, Debug, PartialEq, Eq, Structural)]
pub struct VtdIotlbRangeBlock {
    pub page: usize,
    pub address_mask: u8,
}

impl VtdIotlbRangeBlock {
    /// The number of pages that the block invalidates.
    pub open spec fn pages(self) -> nat {
        power2::pow2(self.address_mask as nat)
    }

    /// Whether the block invalidates a page.
    pub open spec fn has(self, page: int) -> bool {
        self.page <= page < self.page + self.pages()
    }
}

/// The largest mask up to `limit` whose block at `page` is aligned to its size
/// and has no more than `pages` pages.
pub open spec fn fitting_mask(page: int, pages: int, limit: nat) -> nat
    decreases limit,
{
    if limit == 0 || (power2::pow2(limit) <= pages && page % (power2::pow2(limit) as int) == 0) {
        limit
    } else {
        fitting_mask(page, pages, (limit - 1) as nat)
    }
}

/// The mask of the next block of a range: the largest fitting one between the
/// two bounds.
pub open spec fn block_mask(page: int, pages: int, min_mask: nat, max_mask: nat) -> nat {
    let limit = if max_mask < usize::BITS {
        max_mask
    } else {
        (usize::BITS - 1) as nat
    };
    let fitting = fitting_mask(page, pages, limit);
    if fitting < min_mask {
        min_mask
    } else {
        fitting
    }
}

/// The page behind a block, which stops at the last page number.
pub open spec fn page_behind(page: int, pages: nat) -> int {
    if page + pages <= usize::MAX {
        page + pages
    } else {
        usize::MAX as int
    }
}

/// The blocks that cover `pages` pages from `page`.
pub open spec fn range_blocks(page: int, pages: int, min_mask: nat, max_mask: nat) -> Seq<
    VtdIotlbRangeBlock,
>
    decreases
            if pages > 0 {
                pages
            } else {
                0
            },
{
    let mask = block_mask(page, pages, min_mask, max_mask);
    if pages <= 0 {
        Seq::empty()
    } else {
        proof {
            power2::lemma_pow2_pos(mask);
        }
        seq![VtdIotlbRangeBlock { page: page as usize, address_mask: mask as u8 }] + range_blocks(
            page_behind(page, power2::pow2(mask)),
            pages - power2::pow2(mask),
            min_mask,
            max_mask,
        )
    }
}

/// Blocks that are still to be handed out for one range.
#[derive(Clone, Copy, Debug, PartialEq, Eq, Structural)]
pub struct VtdIotlbRangePlan {
    next_page: usize,
    remaining_pages: usize,
    min_mask: u8,
    max_mask: u8,
}

/// What is wrong with a range, if anything.
pub open spec fn range_fault(
    start_page: usize,
    page_count: usize,
    min_mask: u8,
    max_mask: u8,
) -> Option<Error> {
    if page_count == 0 {
        None
    } else if max_mask < min_mask {
        Some(Error::FeatureUnavailable)
    } else if min_mask >= usize::BITS {
        Some(Error::AddressOverflow)
    } else if start_page as int % power2::pow2(min_mask as nat) as int != 0 || page_count as int
        % power2::pow2(min_mask as nat) as int != 0 {
        Some(Error::InvalidRange)
    } else {
        None
    }
}

/// Powers of two below the word size fit in a word, and shifts compute them.
proof fn lemma_shift(mask: u8)
    requires
        mask < usize::BITS,
    ensures
        1usize << mask == power2::pow2(mask as nat),
        0 < power2::pow2(mask as nat) <= usize::MAX,
{
    vstd::bits::lemma_usize_pow2_no_overflow(mask as nat);
    vstd::bits::lemma_usize_shl_is_mul(1, mask as usize);
    power2::lemma_pow2_pos(mask as nat);
}

impl VtdIotlbRangePlan {
    pub closed spec fn spec_next_page(self) -> usize {
        self.next_page
    }

    pub closed spec fn spec_remaining(self) -> usize {
        self.remaining_pages
    }

    pub closed spec fn spec_min_mask(self) -> u8 {
        self.min_mask
    }

    pub closed spec fn spec_max_mask(self) -> u8 {
        self.max_mask
    }

    /// What is left is made of blocks of the smallest size.
    pub open spec fn wf(self) -> bool {
        self.spec_remaining() > 0 ==> {
            &&& self.spec_min_mask() <= self.spec_max_mask()
            &&& self.spec_min_mask() < usize::BITS
            &&& self.spec_remaining() as int % power2::pow2(self.spec_min_mask() as nat) as int == 0
        }
    }

    /// The blocks that are still to come.
    pub open spec fn blocks(self) -> Seq<VtdIotlbRangeBlock> {
        range_blocks(
            self.spec_next_page() as int,
            self.spec_remaining() as int,
            self.spec_min_mask() as nat,
            self.spec_max_mask() as nat,
        )
    }

    pub fn new(start_page: usize, page_count: usize, min_mask: u8, max_mask: u8) -> (r: Result<
        Self,
        Error,
    >)
        ensures
            match r {
                Ok(plan) => {
                    &&& range_fault(start_page, page_count, min_mask, max_mask) is None
                    &&& plan.wf()
                    &&& plan.spec_next_page() == start_page
                    &&& plan.spec_remaining() == page_count
                    &&& plan.spec_min_mask() == min_mask
                    &&& plan.spec_max_mask() == max_mask
                    &&& plan.blocks() == range_blocks(
                        start_page as int,
                        page_count as int,
                        min_mask as nat,
                        max_mask as nat,
                    )
                },
                Err(error) => range_fault(start_page, page_count, min_mask, max_mask) == Some(
                    error,
                ),
            },
    {
        let plan = VtdIotlbRangePlan {
            next_page: start_page,
            remaining_pages: page_count,
            min_mask,
            max_mask,
        };
        if page_count == 0 {
            return Ok(plan);
        }
        if max_mask < min_mask {
            return Err(Error::FeatureUnavailable);
        }
        if min_mask as u32 >= usize::BITS {
            return Err(Error::AddressOverflow);
        }
        proof {
            lemma_shift(min_mask);
        }
        let min_pages: usize = 1usize << min_mask;
        if start_page % min_pages != 0 || page_count % min_pages != 0 {
            return Err(Error::InvalidRange);
        }
        Ok(plan)
    }

    /// The number of blocks that are still to come.
    pub fn descriptor_count(self) -> (r: usize)
        requires
            self.wf(),
        ensures
            r == self.blocks().len(),
    {
        let mut cursor = self;
        let mut count: usize = 0;
        while cursor.remaining_pages > 0
            invariant
                cursor.wf(),
                count + cursor.blocks().len() == self.blocks().len(),
                count + cursor.remaining_pages <= self.remaining_pages,
            decreases cursor.remaining_pages,
        {
            cursor.next_block();
            count = count + 1;
        }
        count
    }

    /// Hands out the next block.
    pub fn next_block(&mut self) -> (r: Option<VtdIotlbRangeBlock>)
        requires
            old(self).wf(),
        ensures
            final(self).wf(),
            final(self).spec_min_mask() == old(self).spec_min_mask(),
            final(self).spec_max_mask() == old(self).spec_max_mask(),
            match r {
                Some(block) => {
                    &&& old(self).blocks() == seq![block] + final(self).blocks()
                    &&& final(self).spec_remaining() < old(self).spec_remaining()
                    &&& old(self).spec_min_mask() <= block.address_mask
                        <= old(self).spec_max_mask()
                },
                None => old(self).blocks().len() == 0 && *final(self) == *old(self),
            },
            r is None <==> old(self).spec_remaining() == 0,
    {
        if self.remaining_pages == 0 {
            return None;
        }
        let ghost before = *self;
        let mask: u8 = self.next_address_mask();
        proof {
            lemma_shift(mask);
            lemma_block_step(
                before.next_page as int,
                before.remaining_pages as int,
                before.min_mask as nat,
                mask as nat,
            );
        }
        let pages: usize = 1usize << mask;
        let block = VtdIotlbRangeBlock { page: self.next_page, address_mask: mask };
        self.next_page = self.next_page.saturating_add(pages);
        self.remaining_pages = self.remaining_pages - pages;
        Some(block)
    }

    fn next_address_mask(self) -> (r: u8)
        requires
            self.wf(),
            self.spec_remaining() > 0,
        ensures
            r == block_mask(
                self.next_page as int,
                self.remaining_pages as int,
                self.min_mask as nat,
                self.max_mask as nat,
            ),
            self.min_mask <= r <= self.max_mask,
            r < usize::BITS,
            power2::pow2(r as nat) <= self.remaining_pages,
    {
        let mut mask: u8 = if (self.max_mask as u32) < usize::BITS {
            self.max_mask
        } else {
            (usize::BITS - 1) as u8
        };
        let ghost limit = mask as nat;
        while mask > 0
            invariant_except_break
                mask <= limit < usize::BITS,
                limit <= self.max_mask,
                fitting_mask(self.next_page as int, self.remaining_pages as int, mask as nat)
                    == fitting_mask(self.next_page as int, self.remaining_pages as int, limit),
            ensures
                mask <= limit,
                mask == fitting_mask(self.next_page as int, self.remaining_pages as int, limit),
                mask > 0 ==> power2::pow2(mask as nat) <= self.remaining_pages,
            decreases mask,
        {
            proof {
                lemma_shift(mask);
            }
            let pages: usize = 1usize << mask;
            if pages <= self.remaining_pages && self.next_page % pages == 0 {
                break ;
            }
            mask = mask - 1;
        }
        proof {
            power2::lemma2_to64();
            vstd::bits::lemma_usize_pow2_no_overflow(self.min_mask as nat);
            power2::lemma_pow2_pos(self.min_mask as nat);
            lemma_positive_multiple(
                self.remaining_pages as int,
                power2::pow2(self.min_mask as nat) as int,
            );
        }
        if mask < self.min_mask {
            self.min_mask
        } else {
            mask
        }
    }
}

/// A positive multiple is at least its divisor.
proof fn lemma_positive_multiple(value: int, divisor: int)
    requires
        value > 0,
        divisor > 0,
        value % divisor == 0,
    ensures
        value >= divisor,
{
    if value < divisor {
        vstd::arithmetic::div_mod::lemma_small_mod(value as nat, divisor as nat);
    }
}

/// Taking a block of at least the smallest size leaves a multiple of it.
pub(crate) proof fn lemma_block_step(page: int, pages: int, min_mask: nat, mask: nat)
    requires
        min_mask <= mask,
        pages % (power2::pow2(min_mask) as int) == 0,
    ensures
        (pages - power2::pow2(mask)) % (power2::pow2(min_mask) as int) == 0,
        power2::pow2(mask) as int % (power2::pow2(min_mask) as int) == 0,
{
    let unit = power2::pow2(min_mask) as int;
    power2::lemma_pow2_pos(min_mask);
    power2::lemma_pow2_adds(min_mask, (mask - min_mask) as nat);
    let factor = power2::pow2((mask - min_mask) as nat) as int;
    assert(power2::pow2(mask) == factor * unit) by (nonlinear_arith)
        requires
            power2::pow2(mask) == unit * factor,
    ;
    vstd::arithmetic::div_mod::lemma_mod_multiples_basic(factor, unit);
    vstd::arithmetic::div_mod::lemma_fundamental_div_mod(pages, unit);
    let q = pages / unit;
    assert(pages - power2::pow2(mask) == (q - factor) * unit) by (nonlinear_arith)
        requires
            pages == unit * q,
            power2::pow2(mask) == factor * unit,
    ;
    vstd::arithmetic::div_mod::lemma_mod_multiples_basic(q - factor, unit);
}

/// Whether one of the blocks invalidates a page.
pub open spec fn covers(blocks: Seq<VtdIotlbRangeBlock>, page: int) -> bool {
    exists|i: int| 0 <= i < blocks.len() && #[trigger] blocks[i].has(page)
}

/// The blocks of a range that does not run past the last page number cover
/// exactly its pages: each page of the range lies in one of them, and no other
/// page lies in any.
pub proof fn law_blocks_cover_exactly_the_range(
    page: int,
    pages: int,
    min_mask: nat,
    max_mask: nat,
    p: int,
)
    requires
        0 <= page,
        0 <= pages,
        page + pages <= usize::MAX,
        min_mask <= max_mask,
        min_mask < usize::BITS,
        pages % (power2::pow2(min_mask) as int) == 0,
    ensures
        covers(range_blocks(page, pages, min_mask, max_mask), p) <==> page <= p < page + pages,
    decreases pages,
{
    let blocks = range_blocks(page, pages, min_mask, max_mask);
    if pages > 0 {
        let mask = block_mask(page, pages, min_mask, max_mask);
        lemma_mask_fits(page, pages, min_mask, max_mask);
        lemma_block_step(page, pages, min_mask, mask);
        power2::lemma_pow2_pos(mask);
        let size = power2::pow2(mask);
        let rest = range_blocks(page + size, pages - size, min_mask, max_mask);
        law_blocks_cover_exactly_the_range(page + size, pages - size, min_mask, max_mask, p);
        assert(blocks == seq![VtdIotlbRangeBlock { page: page as usize, address_mask: mask as u8 }]
            + rest);
        if page <= p < page + size {
            assert(blocks[0].has(p));
        } else if covers(rest, p) {
            let i = choose|i: int| 0 <= i < rest.len() && #[trigger] rest[i].has(p);
            assert(blocks[i + 1] == rest[i]);
            assert(blocks[i + 1].has(p));
        }
        if covers(blocks, p) {
            let i = choose|i: int| 0 <= i < blocks.len() && #[trigger] blocks[i].has(p);
            if i > 0 {
                assert(blocks[i] == rest[i - 1]);
                assert(rest[i - 1].has(p));
            }
        }
    }
}

/// The chosen mask is between its bounds, fits in a byte and in the word size,
/// and its block does not run past the range.
pub(crate) proof fn lemma_mask_fits(page: int, pages: int, min_mask: nat, max_mask: nat)
    requires
        pages > 0,
        min_mask <= max_mask,
        min_mask < usize::BITS,
        pages % (power2::pow2(min_mask) as int) == 0,
    ensures
        min_mask <= block_mask(page, pages, min_mask, max_mask) <= max_mask,
        block_mask(page, pages, min_mask, max_mask) < usize::BITS,
        power2::pow2(block_mask(page, pages, min_mask, max_mask)) <= pages,
{
    let limit = if max_mask < usize::BITS {
        max_mask
    } else {
        (usize::BITS - 1) as nat
    };
    lemma_fitting_mask(page, pages, limit);
    power2::lemma_pow2_pos(min_mask);
    lemma_positive_multiple(pages, power2::pow2(min_mask) as int);
}

proof fn lemma_fitting_mask(page: int, pages: int, limit: nat)
    requires
        pages > 0,
    ensures
        fitting_mask(page, pages, limit) <= limit,
        power2::pow2(fitting_mask(page, pages, limit)) <= pages,
        page % (power2::pow2(fitting_mask(page, pages, limit)) as int) == 0,
    decreases limit,
{
    power2::lemma2_to64();
    if limit == 0 {
    } else if power2::pow2(limit) <= pages && page % (power2::pow2(limit) as int) == 0 {
    } else {
        lemma_fitting_mask(page, pages, (limit - 1) as nat);
    }
}

/// Blocks follow each other without a gap or an overlap, each is aligned to its
/// own size, and their masks stay between the bounds, for a range that starts
/// at a block of the smallest size and does not run past the last page number.
pub proof fn law_blocks_are_aligned_and_adjacent(
    page: int,
    pages: int,
    min_mask: nat,
    max_mask: nat,
    i: int,
)
    requires
        0 <= page,
        0 <= pages,
        page + pages <= usize::MAX,
        min_mask <= max_mask,
        min_mask < usize::BITS,
        page % (power2::pow2(min_mask) as int) == 0,
        pages % (power2::pow2(min_mask) as int) == 0,
        0 <= i < range_blocks(page, pages, min_mask, max_mask).len(),
    ensures
        ({
            let blocks = range_blocks(page, pages, min_mask, max_mask);
            &&& min_mask <= blocks[i].address_mask <= max_mask
            &&& blocks[i].page as int % blocks[i].pages() as int == 0
            &&& i == 0 ==> blocks[i].page == page
            &&& i + 1 < blocks.len() ==> blocks[i + 1].page == blocks[i].page + blocks[i].pages()
            &&& i + 1 == blocks.len() ==> page + pages == blocks[i].page + blocks[i].pages()
        }),
    decreases pages,
{
    let blocks = range_blocks(page, pages, min_mask, max_mask);
    let mask = block_mask(page, pages, min_mask, max_mask);
    lemma_mask_fits(page, pages, min_mask, max_mask);
    lemma_block_step(page, pages, min_mask, mask);
    power2::lemma_pow2_pos(mask);
    power2::lemma_pow2_pos(min_mask);
    let size = power2::pow2(mask);
    let rest = range_blocks(page + size, pages - size, min_mask, max_mask);
    let first = VtdIotlbRangeBlock { page: page as usize, address_mask: mask as u8 };
    assert(blocks == seq![first] + rest);
    let limit = if max_mask < usize::BITS {
        max_mask
    } else {
        (usize::BITS - 1) as nat
    };
    lemma_fitting_mask(page, pages, limit);
    assert((page + size) % (power2::pow2(min_mask) as int) == 0) by {
        lemma_sum_of_multiples(page, size as int, power2::pow2(min_mask) as int);
    }
    if rest.len() > 0 {
        if pages - size > 0 {
            law_blocks_are_aligned_and_adjacent(
                page + size,
                pages - size,
                min_mask,
                max_mask,
                if i == 0 {
                    0
                } else {
                    i - 1
                },
            );
        }
    }
}

/// The blocks tile the pages from `page` on: they follow each other without a
/// gap or an overlap, each is aligned to its own size, and their masks are
/// between the bounds.
pub open spec fn tiles(
    blocks: Seq<VtdIotlbRangeBlock>,
    page: int,
    pages: int,
    min_mask: nat,
    max_mask: nat,
) -> bool
    decreases blocks.len(),
{
    if blocks.len() == 0 {
        pages == 0
    } else {
        let first = blocks[0];
        &&& first.page == page
        &&& min_mask <= first.address_mask <= max_mask
        &&& page % first.pages() as int == 0
        &&& first.pages() <= pages
        &&& tiles(
            blocks.drop_first(),
            page + first.pages(),
            pages - first.pages(),
            min_mask,
            max_mask,
        )
    }
}

/// A multiple of a power of two is a multiple of the smaller ones.
proof fn lemma_multiple_of_smaller(value: int, small: nat, large: nat)
    requires
        small <= large,
        value % (power2::pow2(large) as int) == 0,
    ensures
        value % (power2::pow2(small) as int) == 0,
{
    power2::lemma_pow2_pos(small);
    power2::lemma_pow2_pos(large);
    power2::lemma_pow2_adds(small, (large - small) as nat);
    let unit = power2::pow2(small) as int;
    let factor = power2::pow2((large - small) as nat) as int;
    let q = value / (power2::pow2(large) as int);
    vstd::arithmetic::div_mod::lemma_fundamental_div_mod(value, power2::pow2(large) as int);
    assert(value == (q * factor) * unit) by (nonlinear_arith)
        requires
            value == power2::pow2(large) * q,
            power2::pow2(large) == unit * factor,
    ;
    vstd::arithmetic::div_mod::lemma_mod_multiples_basic(q * factor, unit);
}

/// Two different multiples are at least one unit apart.
proof fn lemma_multiples_are_apart(low: int, high: int, unit: int)
    requires
        unit > 0,
        low < high,
        low % unit == 0,
        high % unit == 0,
    ensures
        low + unit <= high,
{
    vstd::arithmetic::div_mod::lemma_fundamental_div_mod(low, unit);
    vstd::arithmetic::div_mod::lemma_fundamental_div_mod(high, unit);
    let (a, b) = (low / unit, high / unit);
    assert(low + unit <= high) by (nonlinear_arith)
        requires
            unit > 0,
            low == unit * a,
            high == unit * b,
            low < high,
    ;
}

/// No mask up to the limit that fits is larger than the fitting one.
proof fn lemma_fitting_mask_is_largest(page: int, pages: int, limit: nat, mask: nat)
    requires
        mask <= limit,
        power2::pow2(mask) <= pages,
        page % (power2::pow2(mask) as int) == 0,
    ensures
        mask <= fitting_mask(page, pages, limit),
    decreases limit,
{
    if limit > mask {
        lemma_fitting_mask_is_largest(page, pages, (limit - 1) as nat, mask);
    }
}

/// A block that fits at the start of a range is no larger than the chosen one.
proof fn lemma_chosen_mask_is_largest(
    page: int,
    pages: int,
    min_mask: nat,
    max_mask: nat,
    mask: nat,
)
    requires
        pages <= usize::MAX,
        mask <= max_mask,
        power2::pow2(mask) <= pages,
        page % (power2::pow2(mask) as int) == 0,
    ensures
        mask <= block_mask(page, pages, min_mask, max_mask),
{
    let limit = if max_mask < usize::BITS {
        max_mask
    } else {
        (usize::BITS - 1) as nat
    };
    if mask >= usize::BITS {
        power2::lemma2_to64();
        if usize::BITS < mask {
            power2::lemma_pow2_strictly_increases(usize::BITS as nat, mask);
        }
        assert(power2::pow2(usize::BITS as nat) > usize::MAX) by {
            power2::lemma2_to64_rest();
        }
    }
    lemma_fitting_mask_is_largest(page, pages, limit, mask);
}

/// The blocks of a tiling that start before the end of an aligned block of
/// `2^mask` pages also end there: the number of these blocks.
proof fn lemma_tiling_splits(
    blocks: Seq<VtdIotlbRangeBlock>,
    page: int,
    pages: int,
    min_mask: nat,
    max_mask: nat,
    start: int,
    mask: nat,
) -> (count: nat)
    requires
        tiles(blocks, page, pages, min_mask, max_mask),
        start % (power2::pow2(mask) as int) == 0,
        start <= page <= start + power2::pow2(mask) <= page + pages,
        page == start ==> blocks.len() > 0 && blocks[0].address_mask <= mask,
    ensures
        count <= blocks.len(),
        page < start + power2::pow2(mask) ==> count > 0,
        tiles(
            blocks.skip(count as int),
            start + power2::pow2(mask),
            page + pages - start - power2::pow2(mask),
            min_mask,
            max_mask,
        ),
    decreases blocks.len(),
{
    let size = power2::pow2(mask) as int;
    let end = start + size;
    power2::lemma_pow2_pos(mask);
    if page == end {
        assert(blocks.skip(0) =~= blocks);
        0
    } else {
        let first = blocks[0];
        let own = first.address_mask as nat;
        power2::lemma_pow2_pos(own);
        lemma_sum_of_multiples(start, size, size);
        vstd::arithmetic::div_mod::lemma_mod_self_0(size);
        if own > mask {
            lemma_multiple_of_smaller(page, mask, own);
            lemma_multiples_are_apart(start, page, size);
        }
        lemma_multiple_of_smaller(end, own, mask);
        lemma_multiples_are_apart(page, end, power2::pow2(own) as int);
        let rest = blocks.drop_first();
        let count = lemma_tiling_splits(
            rest,
            page + first.pages(),
            pages - first.pages(),
            min_mask,
            max_mask,
            start,
            mask,
        );
        assert(rest.skip(count as int) =~= blocks.skip((count + 1) as int));
        count + 1
    }
}

/// The blocks of a range tile it, and no tiling of the range has fewer blocks.
pub proof fn law_no_tiling_has_fewer_blocks(
    page: int,
    pages: int,
    min_mask: nat,
    max_mask: nat,
    other: Seq<VtdIotlbRangeBlock>,
)
    requires
        0 <= page,
        0 <= pages,
        page + pages <= usize::MAX,
        min_mask <= max_mask,
        min_mask < usize::BITS,
        page % (power2::pow2(min_mask) as int) == 0,
        pages % (power2::pow2(min_mask) as int) == 0,
    ensures
        tiles(range_blocks(page, pages, min_mask, max_mask), page, pages, min_mask, max_mask),
        tiles(other, page, pages, min_mask, max_mask) ==> range_blocks(
            page,
            pages,
            min_mask,
            max_mask,
        ).len() <= other.len(),
    decreases pages,
{
    if pages > 0 {
        let mask = block_mask(page, pages, min_mask, max_mask);
        lemma_mask_fits(page, pages, min_mask, max_mask);
        lemma_block_step(page, pages, min_mask, mask);
        power2::lemma_pow2_pos(mask);
        power2::lemma_pow2_pos(min_mask);
        let size = power2::pow2(mask);
        let limit = if max_mask < usize::BITS {
            max_mask
        } else {
            (usize::BITS - 1) as nat
        };
        lemma_fitting_mask(page, pages, limit);
        lemma_sum_of_multiples(page, size as int, power2::pow2(min_mask) as int);
        let rest = range_blocks(page + size, pages - size, min_mask, max_mask);
        let first = VtdIotlbRangeBlock { page: page as usize, address_mask: mask as u8 };
        let blocks = range_blocks(page, pages, min_mask, max_mask);
        assert(blocks == seq![first] + rest);
        assert(blocks.drop_first() =~= rest);
        if tiles(other, page, pages, min_mask, max_mask) {
            lemma_chosen_mask_is_largest(
                page,
                pages,
                min_mask,
                max_mask,
                other[0].address_mask as nat,
            );
            let count = lemma_tiling_splits(other, page, pages, min_mask, max_mask, page, mask);
            law_no_tiling_has_fewer_blocks(
                page + size,
                pages - size,
                min_mask,
                max_mask,
                other.skip(count as int),
            );
        } else {
            law_no_tiling_has_fewer_blocks(
                page + size,
                pages - size,
                min_mask,
                max_mask,
                Seq::empty(),
            );
        }
    }
}

proof fn lemma_sum_of_multiples(a: int, b: int, unit: int)
    requires
        unit > 0,
        a % unit == 0,
        b % unit == 0,
    ensures
        (a + b) % unit == 0,
{
    vstd::arithmetic::div_mod::lemma_fundamental_div_mod(a, unit);
    vstd::arithmetic::div_mod::lemma_fundamental_div_mod(b, unit);
    let (p, q) = (a / unit, b / unit);
    assert(a + b == (p + q) * unit) by (nonlinear_arith)
        requires
            a == unit * p,
            b == unit * q,
    ;
    vstd::arithmetic::div_mod::lemma_mod_multiples_basic(p + q, unit);
}

} // verus!
