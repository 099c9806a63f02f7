//! An early-boot bump allocator that serves byte and page allocations from a
//! fixed table of raw memory regions.
mod early;
mod laws;
mod lemmas;
mod model;

pub use early::{AllocError, EarlyAllocator};
pub use model::{
    align_up, fits, fresh_region, region_wf, slot_measure, slot_sum, AllocatorModel, RegionModel,
    MAX_REGIONS,
};
pub use laws::{
    add_run, added_sum, alloc_run, free_slots, granted_sum, lemma_add_run, lemma_alloc_run,
    lemma_oversized_request_fails, result_addr, result_slot, valid_requests,
};
