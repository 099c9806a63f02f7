use vstd::prelude::*;
use vstd::arithmetic::power2::{lemma_pow2_pos, lemma_pow2_strictly_increases, pow2};
use vstd::bits::{lemma_usize_pow2_no_overflow, lemma_usize_shl_is_mul};
use vstd::layout::unsigned_int_max_values;
use crate::lemmas::{
    lemma_grant_wf, lemma_install_wf, lemma_sum_none, lemma_sum_nonneg, lemma_sum_update,
    lemma_unservable, lemma_used_le_total,
};
use crate::model::{
    align_up, fits, fresh_region, region_wf, AllocatorModel, RegionModel, MAX_REGIONS,
};

verus! {

/// Failure of an allocator operation.
#[derive(Debug, Clone, Copy, PartialEq, Eq, Structural)]
pub enum AllocError {
    /// Every slot of the region table already holds a region.
    OutOfCapacity,
    /// No active region has room for the request at the requested alignment.
    OutOfMemory,
}

/// One memory span `[start, end)` with its bump cursor `next`.
#[derive(Debug, Clone, Copy)]
struct Region {
    start: usize,
    end: usize,
    next: usize,
}

impl Region {
    spec fn view(&self) -> RegionModel {
        RegionModel { start: self.start as int, end: self.end as int, next: self.next as int }
    }

    fn empty() -> (r: Self)
        ensures
            r.start == 0 && r.end == 0 && r.next == 0,
    {
        Region { start: 0, end: 0, next: 0 }
    }
}

/// Whether bit `i` of `mask` is set.
spec fn bit_set(mask: u64, i: u64) -> bool {
    mask & (1u64 << i) != 0
}

/// Setting bit `k` sets that bit and leaves the others as they were.
proof fn lemma_bit_or(b: u64, k: u64, j: u64)
    requires
        k < 64,
        j < 64,
    ensures
        bit_set(b | (1u64 << k), j) == (bit_set(b, j) || j == k),
{
    assert((b | (1u64 << k)) & (1u64 << j) != 0 <==> (b & (1u64 << j) != 0 || j == k))
        by (bit_vector)
        requires
            k < 64,
            j < 64,
    ;
}

/// The bits of the masks `1` and `0`.
proof fn lemma_bit_const(j: u64)
    requires
        j < 64,
    ensures
        bit_set(1u64, j) == (j == 0),
        !bit_set(0u64, j),
{
    assert(1u64 & (1u64 << j) != 0 <==> j == 0) by (bit_vector)
        requires
            j < 64,
    ;
    assert(0u64 & (1u64 << j) == 0) by (bit_vector);
}

/// A bump allocator over up to `MAX_REGIONS` memory regions, for pages of
/// `PAGE_SIZE` bytes.
///
/// Bit `i` of `bitmap` marks slot `i` of `regions` as active; a search
/// begins at slot `current_region`. Bytes and pages are both served forward
/// from the region cursors, and memory is never given back.
pub struct EarlyAllocator<const PAGE_SIZE: usize> {
    bitmap: u64,
    regions: [Region; MAX_REGIONS],
    current_region: usize,
    total_size: usize,
    used_size: usize,
}

impl<const PAGE_SIZE: usize> View for EarlyAllocator<PAGE_SIZE> {
    type V = AllocatorModel;

    closed spec fn view(&self) -> AllocatorModel {
        AllocatorModel {
            slots: Seq::new(
                MAX_REGIONS as nat,
                |i: int|
                    if bit_set(self.bitmap, i as u64) {
                        Some(self.regions@[i].view())
                    } else {
                        None
                    },
            ),
            hint: self.current_region as int,
            total: self.total_size as int,
            used: self.used_size as int,
        }
    }
}

impl<const PAGE_SIZE: usize> EarlyAllocator<PAGE_SIZE> {
    /// An allocator with no regions and zeroed counters.
    pub fn new() -> (r: Self)
        ensures
            r@ == AllocatorModel::empty(),
            r@.wf(),
    {
        let r = Self {
            bitmap: 0,
            regions: [Region::empty();64],
            current_region: 0,
            total_size: 0,
            used_size: 0,
        };
        proof {
            assert forall|i: int| 0 <= i < MAX_REGIONS implies !#[trigger] bit_set(0u64, i as u64) by {
                lemma_bit_const(i as u64);
            }
            assert(r@.slots =~= AllocatorModel::empty().slots);
            lemma_sum_none(r@.slots, false);
            lemma_sum_none(r@.slots, true);
        }
        r
    }

    /// Discards all state and holds the single region `[start, start + size)`.
    pub fn init(&mut self, start: usize, size: usize)
        requires
            start + size <= usize::MAX,
        ensures
            final(self)@ == AllocatorModel::single(start as int, size as int),
            final(self)@.wf(),
            final(self)@.total == size,
            final(self)@.used == 0,
    {
        self.regions[0] = Region { start, end: start + size, next: start };
        self.bitmap = 1;
        self.current_region = 0;
        self.total_size = size;
        self.used_size = 0;
        proof {
            let m = AllocatorModel::single(start as int, size as int);
            assert forall|i: int| 0 <= i < MAX_REGIONS implies #[trigger] bit_set(1u64, i as u64) == (i == 0) by {
                lemma_bit_const(i as u64);
            }
            assert(self@.slots =~= m.slots);
            let e = AllocatorModel::empty();
            lemma_sum_none(e.slots, false);
            lemma_sum_none(e.slots, true);
            assert(m.slots =~= e.slots.update(0, Some(fresh_region(start as int, size as int))));
            lemma_sum_update(e.slots, 0, Some(fresh_region(start as int, size as int)), false);
            lemma_sum_update(e.slots, 0, Some(fresh_region(start as int, size as int)), true);
        }
    }

    /// Adds the region `[start, start + size)` in the first free slot of the
    /// table; fails with `OutOfCapacity`, changing nothing, when every slot is
    /// taken.
    pub fn add_memory(&mut self, start: usize, size: usize) -> (r: Result<(), AllocError>)
        requires
            old(self)@.wf(),
            start + size <= usize::MAX,
            old(self)@.total + size <= usize::MAX,
        ensures
            final(self)@ == old(self)@.after_add(start as int, size as int).0,
            r is Ok <==> old(self)@.after_add(start as int, size as int).1,
            r is Err ==> r == Err::<(), AllocError>(AllocError::OutOfCapacity),
            final(self)@.wf(),
    {
        let ghost m = self@;
        let mut idx: usize = 0;
        while idx < MAX_REGIONS
            invariant
                self@ == m,
                m == old(self)@,
                m.wf(),
                idx <= MAX_REGIONS,
                m.free_from(0) == m.free_from(idx as int),
                start + size <= usize::MAX,
                m.total + size <= usize::MAX,
            decreases MAX_REGIONS - idx,
        {
            if self.bitmap & (1u64 << (idx as u64)) == 0 {
                assert(m.slots[idx as int] is None);
                assert(m.free_from(idx as int) == Some(idx as int));
                self.regions[idx] = Region { start, end: start + size, next: start };
                let ghost b = self.bitmap;
                self.bitmap = self.bitmap | (1u64 << (idx as u64));
                self.total_size = self.total_size + size;
                proof {
                    let n = m.install(idx as int, start as int, size as int);
                    assert forall|j: int| 0 <= j < MAX_REGIONS implies #[trigger] bit_set(self.bitmap, j as u64)
                        == (bit_set(b, j as u64) || j == idx) by {
                        lemma_bit_or(b, idx as u64, j as u64);
                    }
                    assert(self@.slots =~= n.slots);
                    lemma_install_wf(m, idx as int, start as int, size as int);
                }
                return Ok(());
            }
            idx += 1;
        }
        Err(AllocError::OutOfCapacity)
    }

    /// Serves `size` bytes aligned to `align` from the first active region,
    /// in search order from the hint, that has room; fails with
    /// `OutOfMemory`, changing nothing, when none has. Address zero is never
    /// handed out: a region whose cursor rounds up to zero cannot serve the
    /// request.
    pub fn alloc_bytes(&mut self, size: usize, align: usize) -> (r: Result<usize, AllocError>)
        requires
            old(self)@.wf(),
            align > 0,
        ensures
            final(self)@ == old(self)@.after_alloc(size as int, align as int).0,
            match old(self)@.after_alloc(size as int, align as int).1 {
                Some((a, _)) => r == Ok::<usize, AllocError>(a as usize),
                None => r == Err::<usize, AllocError>(AllocError::OutOfMemory),
            },
            final(self)@.wf(),
            r matches Ok(a) ==> a != 0 && a % align == 0 && final(self)@.used == old(self)@.used
                + size,
    {
        let ghost m = self@;
        let mut probe: usize = 0;
        while probe < MAX_REGIONS
            invariant
                self@ == m,
                m == old(self)@,
                m.wf(),
                align > 0,
                probe <= MAX_REGIONS,
                m.first_fit(size as int, align as int) == m.scan(size as int, align as int, probe as int),
            decreases MAX_REGIONS - probe,
        {
            let idx = (self.current_region + probe) % MAX_REGIONS;
            if self.bitmap & (1u64 << (idx as u64)) != 0 {
                let region = self.regions[idx];
                assert(m.slots[idx as int] == Some(region.view()));
                proof {
                    assert(region_wf(region.view()));
                }
                let rem = region.next % align;
                let aligned = if rem == 0 {
                    Some(region.next)
                } else {
                    region.next.checked_add(align - rem)
                };
                if let Some(p) = aligned {
                    if p != 0 {
                        if let Some(e) = p.checked_add(size) {
                            if e <= region.end {
                                assert(p == align_up(region.next as int, align as int));
                                assert(fits(region.view(), size as int, align as int));
                                assert(m.probe_slot(probe as int) == idx);
                                assert(m.scan(size as int, align as int, probe as int) == Some(idx as int));
                                proof {
                                    lemma_grant_wf(m, idx as int, size as int, align as int);
                                    lemma_sum_nonneg(m.grant(idx as int, size as int, align as int).slots, true);
                                }
                                self.regions[idx] = Region { start: region.start, end: region.end, next: e };
                                self.current_region = idx;
                                self.used_size = self.used_size + size;
                                proof {
                                    let n = m.grant(idx as int, size as int, align as int);
                                    assert(self@.slots =~= n.slots);
                                }
                                return Ok(p);
                            }
                        }
                    }
                }
            }
            probe += 1;
        }
        Err(AllocError::OutOfMemory)
    }

    /// Serves `num_pages` pages aligned to `2^align_pow2` bytes, through the
    /// same search as `alloc_bytes`; fails with `OutOfMemory`, changing
    /// nothing, when no active region has room.
    pub fn alloc_pages(&mut self, num_pages: usize, align_pow2: usize) -> (r: Result<usize, AllocError>)
        requires
            old(self)@.wf(),
        ensures
            final(self)@ == old(self)@.after_alloc(
                num_pages * PAGE_SIZE,
                pow2(align_pow2 as nat) as int,
            ).0,
            match old(self)@.after_alloc(num_pages * PAGE_SIZE, pow2(align_pow2 as nat) as int).1 {
                Some((a, _)) => r == Ok::<usize, AllocError>(a as usize),
                None => r == Err::<usize, AllocError>(AllocError::OutOfMemory),
            },
            final(self)@.wf(),
            r matches Ok(a) ==> a != 0 && a as int % pow2(align_pow2 as nat) as int == 0 && final(self)@.used
                == old(self)@.used + num_pages * PAGE_SIZE,
    {
        proof {
            lemma_pow2_pos(align_pow2 as nat);
            assert(0 <= num_pages * PAGE_SIZE) by (nonlinear_arith);
        }
        if align_pow2 >= usize::BITS as usize {
            proof {
                unsigned_int_max_values();
                if align_pow2 > usize::BITS {
                    lemma_pow2_strictly_increases(usize::BITS as nat, align_pow2 as nat);
                }
                lemma_unservable(self@, num_pages * PAGE_SIZE, pow2(align_pow2 as nat) as int);
            }
            return Err(AllocError::OutOfMemory);
        }
        let size = match num_pages.checked_mul(PAGE_SIZE) {
            Some(s) => s,
            None => {
                proof {
                    lemma_unservable(self@, num_pages * PAGE_SIZE, pow2(align_pow2 as nat) as int);
                }
                return Err(AllocError::OutOfMemory);
            },
        };
        proof {
            lemma_usize_pow2_no_overflow(align_pow2 as nat);
            lemma_usize_shl_is_mul(1, align_pow2);
        }
        let align = 1usize << align_pow2;
        self.alloc_bytes(size, align)
    }

    /// Gives nothing back: memory handed out is never reclaimed.
    pub fn dealloc(&mut self, pos: usize, size: usize, align: usize)
        ensures
            final(self)@ == old(self)@,
    {
    }

    /// Gives nothing back: pages handed out are never reclaimed.
    pub fn dealloc_pages(&mut self, pos: usize, num_pages: usize)
        ensures
            final(self)@ == old(self)@,
    {
    }

    /// The summed size of the active regions.
    pub fn total_bytes(&self) -> (r: usize)
        ensures
            r == self@.total,
    {
        self.total_size
    }

    /// The summed size of the blocks handed out; alignment padding is not
    /// counted.
    pub fn used_bytes(&self) -> (r: usize)
        ensures
            r == self@.used,
    {
        self.used_size
    }

    /// `total_bytes() - used_bytes()`.
    pub fn available_bytes(&self) -> (r: usize)
        requires
            self@.wf(),
        ensures
            r == self@.total - self@.used,
    {
        proof {
            lemma_used_le_total(self@);
        }
        self.total_size - self.used_size
    }

    /// `total_bytes()` in whole pages.
    pub fn total_pages(&self) -> (r: usize)
        requires
            PAGE_SIZE > 0,
        ensures
            r == self@.total / PAGE_SIZE as int,
    {
        self.total_bytes() / PAGE_SIZE
    }

    /// `used_bytes()` in whole pages.
    pub fn used_pages(&self) -> (r: usize)
        requires
            PAGE_SIZE > 0,
        ensures
            r == self@.used / PAGE_SIZE as int,
    {
        self.used_bytes() / PAGE_SIZE
    }

    /// `available_bytes()` in whole pages.
    pub fn available_pages(&self) -> (r: usize)
        requires
            self@.wf(),
            PAGE_SIZE > 0,
        ensures
            r == (self@.total - self@.used) / PAGE_SIZE as int,
    {
        self.available_bytes() / PAGE_SIZE
    }
}

} // verus!
