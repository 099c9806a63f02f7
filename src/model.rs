use vstd::prelude::*;

verus! {

/// Number of slots in the region table; one bit of the active mask each.
pub const MAX_REGIONS: usize = 64;

/// The abstract view of one region: a span `[start, end)` and its bump cursor.
pub ghost struct RegionModel {
    pub start: int,
    pub end: int,
    pub next: int,
}

/// The abstract view of the allocator: one optional region per table slot
/// (`None` for an inactive slot), the slot where the next search begins, and
/// the two aggregate counters.
pub ghost struct AllocatorModel {
    pub slots: Seq<Option<RegionModel>>,
    pub hint: int,
    pub total: int,
    pub used: int,
}

/// A region is an address span inside the machine's address range whose
/// cursor lies between its bounds.
pub open spec fn region_wf(r: RegionModel) -> bool {
    0 <= r.start <= r.next <= r.end <= usize::MAX
}

/// The size of a region (`free == false`) or the part of it past the cursor
/// (`free == true`); an inactive slot counts zero.
pub open spec fn slot_measure(o: Option<RegionModel>, free: bool) -> int {
    match o {
        Some(r) => if free { r.end - r.next } else { r.end - r.start },
        None => 0,
    }
}

/// The sum of `slot_measure` over a sequence of slots.
pub open spec fn slot_sum(s: Seq<Option<RegionModel>>, free: bool) -> int
    decreases s.len(),
{
    if s.len() == 0 {
        0
    } else {
        slot_sum(s.drop_last(), free) + slot_measure(s.last(), free)
    }
}

/// The smallest multiple of `a` that is at least `x` (for `x >= 0`, `a > 0`).
pub open spec fn align_up(x: int, a: int) -> int {
    if x % a == 0 {
        x
    } else {
        x + (a - x % a)
    }
}

/// Whether `r` can serve `size` bytes at alignment `align`: the aligned
/// cursor is a non-null address and the block ends inside the region.
pub open spec fn fits(r: RegionModel, size: int, align: int) -> bool {
    let p = align_up(r.next, align);
    p != 0 && p + size <= r.end
}

/// A fresh region covering `[start, start + size)`.
pub open spec fn fresh_region(start: int, size: int) -> RegionModel {
    RegionModel { start, end: start + size, next: start }
}

impl AllocatorModel {
    /// The allocator's invariant: a full table of well-formed regions, a hint
    /// inside the table, `total` the summed size of the active regions, and
    /// `used` plus the space left past the cursors bounded by `total`.
    pub open spec fn wf(self) -> bool {
        &&& self.slots.len() == MAX_REGIONS
        &&& 0 <= self.hint < MAX_REGIONS
        &&& forall|i: int|
            0 <= i < MAX_REGIONS && #[trigger] self.slots[i] is Some ==> region_wf(
                self.slots[i]->0,
            )
        &&& self.total == slot_sum(self.slots, false)
        &&& self.total <= usize::MAX
        &&& 0 <= self.used
        &&& self.used + slot_sum(self.slots, true) <= self.total
    }

    /// The allocator with no active region.
    pub open spec fn empty() -> AllocatorModel {
        AllocatorModel {
            slots: Seq::new(MAX_REGIONS as nat, |i: int| None),
            hint: 0,
            total: 0,
            used: 0,
        }
    }

    /// The allocator holding exactly one region, in slot 0.
    pub open spec fn single(start: int, size: int) -> AllocatorModel {
        AllocatorModel {
            slots: Seq::new(
                MAX_REGIONS as nat,
                |i: int|
                    if i == 0 {
                        Some(fresh_region(start, size))
                    } else {
                        None
                    },
            ),
            hint: 0,
            total: size,
            used: 0,
        }
    }

    /// The first inactive slot at index `k` or later.
    pub open spec fn free_from(self, k: int) -> Option<int>
        decreases MAX_REGIONS - k,
    {
        if k < 0 || k >= MAX_REGIONS {
            None
        } else if self.slots[k] is None {
            Some(k)
        } else {
            self.free_from(k + 1)
        }
    }

    /// The first inactive slot of the table, if any.
    pub open spec fn first_free(self) -> Option<int> {
        self.free_from(0)
    }

    /// The allocator after a fresh region is installed in slot `i`.
    pub open spec fn install(self, i: int, start: int, size: int) -> AllocatorModel {
        AllocatorModel {
            slots: self.slots.update(i, Some(fresh_region(start, size))),
            total: self.total + size,
            ..self
        }
    }

    /// The result of adding the region `[start, start + size)`: the new
    /// allocator and whether a slot was found for it.
    pub open spec fn after_add(self, start: int, size: int) -> (AllocatorModel, bool) {
        match self.first_free() {
            Some(i) => (self.install(i, start, size), true),
            None => (self, false),
        }
    }

    /// The slot visited at probe `p` of a search: the table is walked from
    /// the hint, wrapping around.
    pub open spec fn probe_slot(self, p: int) -> int {
        (self.hint + p) % (MAX_REGIONS as int)
    }

    /// The first slot, from probe `p` on, that is active and can serve the
    /// request.
    pub open spec fn scan(self, size: int, align: int, p: int) -> Option<int>
        decreases MAX_REGIONS - p,
    {
        if p < 0 || p >= MAX_REGIONS {
            None
        } else {
            let i = self.probe_slot(p);
            if self.slots[i] is Some && fits(self.slots[i]->0, size, align) {
                Some(i)
            } else {
                self.scan(size, align, p + 1)
            }
        }
    }

    /// The slot a request is served from: the first one in search order that
    /// can serve it.
    pub open spec fn first_fit(self, size: int, align: int) -> Option<int> {
        self.scan(size, align, 0)
    }

    /// The address a request served from slot `i` receives.
    pub open spec fn grant_addr(self, i: int, align: int) -> int {
        align_up(self.slots[i]->0.next, align)
    }

    /// The allocator after slot `i` serves `size` bytes at alignment `align`:
    /// its cursor moves past the block, the search hint moves to it, and
    /// `used` grows by the requested size.
    pub open spec fn grant(self, i: int, size: int, align: int) -> AllocatorModel {
        let r = self.slots[i]->0;
        AllocatorModel {
            slots: self.slots.update(
                i,
                Some(RegionModel { next: self.grant_addr(i, align) + size, ..r }),
            ),
            hint: i,
            used: self.used + size,
            ..self
        }
    }

    /// The result of a request: the new allocator and, on success, the
    /// returned address and the slot it came from.
    pub open spec fn after_alloc(self, size: int, align: int) -> (AllocatorModel, Option<(int, int)>) {
        match self.first_fit(size, align) {
            Some(i) => (self.grant(i, size, align), Some((self.grant_addr(i, align), i))),
            None => (self, None),
        }
    }
}

} // verus!
