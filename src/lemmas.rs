use vstd::prelude::*;
use vstd::arithmetic::div_mod::{lemma_fundamental_div_mod, lemma_mod_multiples_basic, lemma_small_mod};
use crate::model::{align_up, fits, fresh_region, region_wf, slot_measure, slot_sum, AllocatorModel, RegionModel, MAX_REGIONS};

verus! {

/// Replacing one slot changes a sum by the difference of the two measures.
pub proof fn lemma_sum_update(s: Seq<Option<RegionModel>>, i: int, v: Option<RegionModel>, free: bool)
    requires
        0 <= i < s.len(),
    ensures
        slot_sum(s.update(i, v), free) == slot_sum(s, free) - slot_measure(s[i], free)
            + slot_measure(v, free),
    decreases s.len(),
{
    let t = s.update(i, v);
    if i == s.len() - 1 {
        assert(t.drop_last() =~= s.drop_last());
    } else {
        lemma_sum_update(s.drop_last(), i, v, free);
        assert(t.drop_last() =~= s.drop_last().update(i, v));
    }
}

/// A sum over well-formed regions is at least each of its terms, and each
/// term is non-negative.
pub proof fn lemma_sum_bounds(s: Seq<Option<RegionModel>>, i: int, free: bool)
    requires
        0 <= i < s.len(),
        forall|j: int| 0 <= j < s.len() && #[trigger] s[j] is Some ==> region_wf(s[j]->0),
    ensures
        0 <= slot_measure(s[i], free) <= slot_sum(s, free),
    decreases s.len(),
{
    lemma_sum_nonneg(s.drop_last(), free);
    if i < s.len() - 1 {
        lemma_sum_bounds(s.drop_last(), i, free);
        let k = s.len() - 1;
        assert(s[k] is Some ==> region_wf(s[k]->0));
    }
}

/// A sum over well-formed regions is non-negative.
pub proof fn lemma_sum_nonneg(s: Seq<Option<RegionModel>>, free: bool)
    requires
        forall|j: int| 0 <= j < s.len() && #[trigger] s[j] is Some ==> region_wf(s[j]->0),
    ensures
        0 <= slot_sum(s, free),
    decreases s.len(),
{
    if s.len() > 0 {
        lemma_sum_nonneg(s.drop_last(), free);
        let k = s.len() - 1;
        assert(s[k] is Some ==> region_wf(s[k]->0));
    }
}

/// A sum over slots that are all inactive is zero.
pub proof fn lemma_sum_none(s: Seq<Option<RegionModel>>, free: bool)
    requires
        forall|j: int| 0 <= j < s.len() ==> #[trigger] s[j] is None,
    ensures
        slot_sum(s, free) == 0,
    decreases s.len(),
{
    if s.len() > 0 {
        lemma_sum_none(s.drop_last(), free);
    }
}

/// `align_up` rounds up to a multiple of the alignment, by less than the
/// alignment.
pub proof fn lemma_align_up(x: int, a: int)
    requires
        0 <= x,
        0 < a,
    ensures
        align_up(x, a) % a == 0,
        x <= align_up(x, a) < x + a,
{
    lemma_fundamental_div_mod(x, a);
    if x % a != 0 {
        let q = x / a;
        assert(align_up(x, a) == (q + 1) * a) by (nonlinear_arith)
            requires
                x == a * q + x % a,
                align_up(x, a) == x + (a - x % a),
        ;
        lemma_mod_multiples_basic(q + 1, a);
    }
}

/// In a well-formed allocator the used bytes never exceed the total.
pub proof fn lemma_used_le_total(m: AllocatorModel)
    requires
        m.wf(),
    ensures
        0 <= m.used <= m.total,
{
    lemma_sum_nonneg(m.slots, true);
}

/// A slot found by the search is active, inside the table, and can serve the
/// request.
pub proof fn lemma_scan_found(m: AllocatorModel, size: int, align: int, p: int)
    requires
        m.wf(),
    ensures
        m.scan(size, align, p) matches Some(i) ==> 0 <= i < MAX_REGIONS && m.slots[i] is Some
            && fits(m.slots[i]->0, size, align),
    decreases MAX_REGIONS - p,
{
    if 0 <= p < MAX_REGIONS {
        lemma_scan_found(m, size, align, p + 1);
    }
}

/// Where no active slot can serve a request, the search finds none.
pub proof fn lemma_scan_none(m: AllocatorModel, size: int, align: int, p: int)
    requires
        m.wf(),
        forall|i: int|
            0 <= i < MAX_REGIONS && #[trigger] m.slots[i] is Some ==> !fits(
                m.slots[i]->0,
                size,
                align,
            ),
    ensures
        m.scan(size, align, p) is None,
    decreases MAX_REGIONS - p,
{
    if 0 <= p < MAX_REGIONS {
        let i = m.probe_slot(p);
        assert(m.slots[i] is Some ==> !fits(m.slots[i]->0, size, align));
        lemma_scan_none(m, size, align, p + 1);
    }
}

/// A slot found by `free_from` is inactive; where none is found, every slot
/// from `k` on is active.
pub proof fn lemma_free_from(m: AllocatorModel, k: int)
    requires
        0 <= k,
    ensures
        m.free_from(k) matches Some(i) ==> k <= i < MAX_REGIONS && m.slots[i] is None,
        m.free_from(k) is None ==> forall|j: int| k <= j < MAX_REGIONS ==> #[trigger] m.slots[j] is Some,
    decreases MAX_REGIONS - k,
{
    if k < MAX_REGIONS {
        lemma_free_from(m, k + 1);
    }
}

/// Installing a region that fits the address range in an inactive slot keeps
/// the invariant, as long as the total still fits.
pub proof fn lemma_install_wf(m: AllocatorModel, i: int, start: int, size: int)
    requires
        m.wf(),
        0 <= i < MAX_REGIONS,
        m.slots[i] is None,
        0 <= start,
        0 <= size,
        start + size <= usize::MAX,
        m.total + size <= usize::MAX,
    ensures
        m.install(i, start, size).wf(),
{
    let v = Some(fresh_region(start, size));
    lemma_sum_update(m.slots, i, v, false);
    lemma_sum_update(m.slots, i, v, true);
    let n = m.install(i, start, size);
    assert forall|j: int| 0 <= j < MAX_REGIONS && #[trigger] n.slots[j] is Some implies region_wf(
        n.slots[j]->0,
    ) by {
        if j != i {
            assert(m.slots[j] is Some);
        }
    }
}

/// Serving a request from a slot that can serve it keeps the invariant.
pub proof fn lemma_grant_wf(m: AllocatorModel, i: int, size: int, align: int)
    requires
        m.wf(),
        0 <= i < MAX_REGIONS,
        m.slots[i] is Some,
        fits(m.slots[i]->0, size, align),
        0 <= size,
        0 < align,
    ensures
        m.grant(i, size, align).wf(),
        m.grant_addr(i, align) % align == 0,
        m.grant_addr(i, align) != 0,
{
    let r = m.slots[i]->0;
    assert(region_wf(r));
    lemma_align_up(r.next, align);
    let v = Some(RegionModel { next: m.grant_addr(i, align) + size, ..r });
    lemma_sum_update(m.slots, i, v, false);
    lemma_sum_update(m.slots, i, v, true);
    let n = m.grant(i, size, align);
    assert forall|j: int| 0 <= j < MAX_REGIONS && #[trigger] n.slots[j] is Some implies region_wf(
        n.slots[j]->0,
    ) by {
        if j != i {
            assert(m.slots[j] is Some);
        }
    }
}

/// No region inside the address range can serve a block longer than the
/// address range, nor one aligned beyond it.
pub proof fn lemma_unservable(m: AllocatorModel, size: int, align: int)
    requires
        m.wf(),
        0 <= size,
        0 < align,
        size > usize::MAX || align > usize::MAX,
    ensures
        m.first_fit(size, align) is None,
{
    assert forall|i: int|
        0 <= i < MAX_REGIONS && #[trigger] m.slots[i] is Some implies !fits(
            m.slots[i]->0,
            size,
            align,
        ) by {
        let r = m.slots[i]->0;
        lemma_align_up(r.next, align);
        if align > usize::MAX {
            lemma_small_mod(r.next as nat, align as nat);
        }
    }
    lemma_scan_none(m, size, align, 0);
}

} // verus!
