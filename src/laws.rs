use vstd::prelude::*;
use crate::lemmas::{
    lemma_align_up, lemma_free_from, lemma_grant_wf, lemma_scan_found, lemma_scan_none,
    lemma_sum_bounds,
};
use crate::model::{fits, fresh_region, AllocatorModel, RegionModel, MAX_REGIONS};

verus! {

/// The allocator and the results after serving the byte requests `reqs`
/// (each a `(size, align)` pair) in order, from `m`: one entry per request,
/// `Some((address, slot))` or `None`.
pub open spec fn alloc_run(m: AllocatorModel, reqs: Seq<(int, int)>) -> (
    AllocatorModel,
    Seq<Option<(int, int)>>,
)
    decreases reqs.len(),
{
    if reqs.len() == 0 {
        (m, Seq::empty())
    } else {
        let (m1, rs) = alloc_run(m, reqs.drop_last());
        let (m2, o) = m1.after_alloc(reqs.last().0, reqs.last().1);
        (m2, rs.push(o))
    }
}

/// The summed sizes of the requests that succeeded.
pub open spec fn granted_sum(reqs: Seq<(int, int)>, rs: Seq<Option<(int, int)>>) -> int
    decreases reqs.len(),
{
    if reqs.len() == 0 {
        0
    } else {
        granted_sum(reqs.drop_last(), rs.drop_last()) + if rs.last() is Some {
            reqs.last().0
        } else {
            0
        }
    }
}

/// The address of a successful result.
pub open spec fn result_addr(o: Option<(int, int)>) -> int {
    match o {
        Some((a, _)) => a,
        None => 0,
    }
}

/// The slot a successful result was served from.
pub open spec fn result_slot(o: Option<(int, int)>) -> int {
    match o {
        Some((_, s)) => s,
        None => -1,
    }
}

/// Requests with a non-negative size and a positive alignment.
pub open spec fn valid_requests(reqs: Seq<(int, int)>) -> bool {
    forall|k: int| 0 <= k < reqs.len() ==> 0 <= (#[trigger] reqs[k]).0 && 0 < reqs[k].1
}

/// Over any run of byte requests, every returned address is non-null and
/// aligned as requested; two blocks served from the same region never
/// overlap, the earlier one ending at or before the later one's start; the
/// allocator stays well-formed; and the used bytes grow by exactly the sizes
/// of the requests that succeeded.
pub proof fn lemma_alloc_run(m: AllocatorModel, reqs: Seq<(int, int)>)
    requires
        m.wf(),
        valid_requests(reqs),
    ensures
        ({
            let (n, rs) = alloc_run(m, reqs);
            &&& n.wf()
            &&& rs.len() == reqs.len()
            &&& n.used == m.used + granted_sum(reqs, rs)
            &&& forall|k: int|
                0 <= k < rs.len() && #[trigger] rs[k] is Some ==> {
                    let (a, s) = rs[k]->0;
                    &&& 0 <= s < MAX_REGIONS
                    &&& a != 0
                    &&& a % reqs[k].1 == 0
                    &&& n.slots[s] is Some
                    &&& a + reqs[k].0 <= n.slots[s]->0.next
                }
            &&& forall|j: int, k: int|
                0 <= j < k < rs.len() && #[trigger] rs[j] is Some && #[trigger] rs[k] is Some
                    && result_slot(rs[j]) == result_slot(rs[k]) ==> result_addr(rs[j]) + reqs[j].0 <= result_addr(rs[k])
            &&& forall|s: int|
                0 <= s < MAX_REGIONS ==> ((#[trigger] n.slots[s]) is Some == m.slots[s] is Some)
        }),
    decreases reqs.len(),
{
    if reqs.len() > 0 {
        let pre = reqs.drop_last();
        assert forall|k: int| 0 <= k < pre.len() implies 0 <= (#[trigger] pre[k]).0 && 0 < pre[k].1 by {
            assert(pre[k] == reqs[k]);
        }
        lemma_alloc_run(m, pre);
        let (m1, rs) = alloc_run(m, pre);
        let (size, align) = reqs.last();
        assert(reqs[reqs.len() - 1] == reqs.last());
        let (m2, o) = m1.after_alloc(size, align);
        let rs2 = rs.push(o);
        assert(rs2.drop_last() =~= rs);
        assert(reqs.drop_last() == pre);
        lemma_scan_found(m1, size, align, 0);
        if let Some(i) = m1.first_fit(size, align) {
            lemma_grant_wf(m1, i, size, align);
            let r = m1.slots[i]->0;
            lemma_align_up(r.next, align);
            assert forall|k: int| 0 <= k < rs2.len() && #[trigger] rs2[k] is Some implies {
                let (a, s) = rs2[k]->0;
                &&& 0 <= s < MAX_REGIONS
                &&& a != 0
                &&& a % reqs[k].1 == 0
                &&& m2.slots[s] is Some
                &&& a + reqs[k].0 <= m2.slots[s]->0.next
            } by {
                if k < rs.len() {
                    assert(rs2[k] == rs[k]);
                    assert(reqs[k] == pre[k]);
                }
            }
            assert forall|j: int, k: int|
                0 <= j < k < rs2.len() && #[trigger] rs2[j] is Some && #[trigger] rs2[k] is Some
                    && result_slot(rs2[j]) == result_slot(rs2[k]) implies result_addr(rs2[j]) + reqs[j].0 <= result_addr(rs2[k]) by {
                assert(rs2[j] == rs[j]);
                assert(reqs[j] == pre[j]);
                if k < rs.len() {
                    assert(rs2[k] == rs[k]);
                    assert(rs[j] is Some && rs[k] is Some);
                } else {
                    assert(rs[j] is Some);
                }
            }
            assert forall|s: int| 0 <= s < MAX_REGIONS implies ((#[trigger] m2.slots[s]) is Some
                == m.slots[s] is Some) by {
                assert(m1.slots[s] is Some == m.slots[s] is Some);
            }
        } else {
            assert forall|k: int| 0 <= k < rs2.len() && #[trigger] rs2[k] is Some implies {
                let (a, s) = rs2[k]->0;
                &&& 0 <= s < MAX_REGIONS
                &&& a != 0
                &&& a % reqs[k].1 == 0
                &&& m2.slots[s] is Some
                &&& a + reqs[k].0 <= m2.slots[s]->0.next
            } by {
                assert(rs2[k] == rs[k]);
                assert(reqs[k] == pre[k]);
            }
            assert forall|j: int, k: int|
                0 <= j < k < rs2.len() && #[trigger] rs2[j] is Some && #[trigger] rs2[k] is Some
                    && result_slot(rs2[j]) == result_slot(rs2[k]) implies result_addr(rs2[j]) + reqs[j].0 <= result_addr(rs2[k]) by {
                assert(rs2[j] == rs[j]);
                assert(rs2[k] == rs[k]);
                assert(reqs[j] == pre[j]);
                assert(rs[j] is Some && rs[k] is Some);
            }
        }
    }
}

/// A request for more bytes than are available fails and changes nothing,
/// whatever the alignment.
pub proof fn lemma_oversized_request_fails(m: AllocatorModel, size: int, align: int)
    requires
        m.wf(),
        0 < align,
        size > m.total - m.used,
    ensures
        m.after_alloc(size, align) == (m, None::<(int, int)>),
{
    assert forall|i: int|
        0 <= i < MAX_REGIONS && #[trigger] m.slots[i] is Some implies !fits(
            m.slots[i]->0,
            size,
            align,
        ) by {
        let r = m.slots[i]->0;
        lemma_align_up(r.next, align);
        lemma_sum_bounds(m.slots, i, true);
    }
    lemma_scan_none(m, size, align, 0);
}

/// The number of inactive slots.
pub open spec fn free_slots(s: Seq<Option<RegionModel>>) -> int
    decreases s.len(),
{
    if s.len() == 0 {
        0
    } else {
        free_slots(s.drop_last()) + if s.last() is None {
            1int
        } else {
            0
        }
    }
}

/// The allocator and the outcomes after adding the regions `adds` (each a
/// `(start, size)` pair) in order, from `m`.
pub open spec fn add_run(m: AllocatorModel, adds: Seq<(int, int)>) -> (AllocatorModel, Seq<bool>)
    decreases adds.len(),
{
    if adds.len() == 0 {
        (m, Seq::empty())
    } else {
        let (m1, oks) = add_run(m, adds.drop_last());
        let (m2, ok) = m1.after_add(adds.last().0, adds.last().1);
        (m2, oks.push(ok))
    }
}

/// The summed sizes of the regions that were added.
pub open spec fn added_sum(adds: Seq<(int, int)>, oks: Seq<bool>) -> int
    decreases adds.len(),
{
    if adds.len() == 0 {
        0
    } else {
        added_sum(adds.drop_last(), oks.drop_last()) + if oks.last() {
            adds.last().1
        } else {
            0
        }
    }
}

proof fn lemma_free_slots_update(s: Seq<Option<RegionModel>>, i: int, v: RegionModel)
    requires
        0 <= i < s.len(),
        s[i] is None,
    ensures
        free_slots(s.update(i, Some(v))) == free_slots(s) - 1,
    decreases s.len(),
{
    let t = s.update(i, Some(v));
    if i == s.len() - 1 {
        assert(t.drop_last() =~= s.drop_last());
    } else {
        lemma_free_slots_update(s.drop_last(), i, v);
        assert(t.drop_last() =~= s.drop_last().update(i, Some(v)));
    }
}

proof fn lemma_free_slots_range(s: Seq<Option<RegionModel>>)
    ensures
        0 <= free_slots(s),
        free_slots(s) == 0 <==> forall|j: int| 0 <= j < s.len() ==> #[trigger] s[j] is Some,
    decreases s.len(),
{
    if s.len() > 0 {
        lemma_free_slots_range(s.drop_last());
        if free_slots(s) == 0 {
            assert forall|j: int| 0 <= j < s.len() implies #[trigger] s[j] is Some by {
                if j < s.len() - 1 {
                    assert(s.drop_last()[j] == s[j]);
                }
            }
        }
        if forall|j: int| 0 <= j < s.len() ==> #[trigger] s[j] is Some {
            assert forall|j: int| 0 <= j < s.drop_last().len() implies #[trigger] s.drop_last()[j] is Some by {
                assert(s.drop_last()[j] == s[j]);
            }
            assert(s[s.len() - 1] is Some);
        }
    }
}

/// Adding regions one after another succeeds exactly as many times as the
/// table has free slots, and fails after that; each region added contributes
/// its size to the total. From an empty allocator, the first `MAX_REGIONS`
/// additions succeed and every later one fails.
pub proof fn lemma_add_run(m: AllocatorModel, adds: Seq<(int, int)>)
    requires
        m.wf(),
        forall|k: int|
            0 <= k < adds.len() ==> 0 <= (#[trigger] adds[k]).0 && 0 <= adds[k].1 && adds[k].0
                + adds[k].1 <= usize::MAX,
    ensures
        ({
            let (n, oks) = add_run(m, adds);
            &&& oks.len() == adds.len()
            &&& forall|k: int| 0 <= k < oks.len() ==> #[trigger] oks[k] == (k < free_slots(m.slots))
            &&& n.total == m.total + added_sum(adds, oks)
            &&& n.slots.len() == MAX_REGIONS
            &&& free_slots(n.slots) == if adds.len() <= free_slots(m.slots) {
                free_slots(m.slots) - adds.len()
            } else {
                0
            }
        }),
        free_slots(AllocatorModel::empty().slots) == MAX_REGIONS,
    decreases adds.len(),
{
    let e = AllocatorModel::empty().slots;
    lemma_free_slots_all(e);
    lemma_free_slots_range(m.slots);
    if adds.len() > 0 {
        let pre = adds.drop_last();
        assert forall|k: int| 0 <= k < pre.len() implies 0 <= (#[trigger] pre[k]).0 && 0 <= pre[k].1
            && pre[k].0 + pre[k].1 <= usize::MAX by {
            assert(pre[k] == adds[k]);
        }
        lemma_add_run(m, pre);
        let (m1, oks) = add_run(m, pre);
        let (start, size) = adds.last();
        let (m2, ok) = m1.after_add(start, size);
        let oks2 = oks.push(ok);
        assert(oks2.drop_last() =~= oks);
        assert(adds.drop_last() == pre);
        lemma_free_slots_range(m1.slots);
        lemma_free_from(m1, 0);
        if let Some(i) = m1.first_free() {
            lemma_free_slots_update(m1.slots, i, fresh_region(start, size));
        } else {
            assert(forall|j: int| 0 <= j < m1.slots.len() ==> #[trigger] m1.slots[j] is Some);
        }
        assert forall|k: int| 0 <= k < oks2.len() implies #[trigger] oks2[k] == (k < free_slots(m.slots)) by {
            if k < oks.len() {
                assert(oks2[k] == oks[k]);
            }
        }
        assert(m2.total == m.total + added_sum(adds, oks2));
        assert(m2.slots.len() == MAX_REGIONS);
        assert(free_slots(m2.slots) == if adds.len() <= free_slots(m.slots) {
                free_slots(m.slots) - adds.len()
            } else {
                0
            });
    }
}

proof fn lemma_free_slots_all(s: Seq<Option<RegionModel>>)
    requires
        forall|j: int| 0 <= j < s.len() ==> #[trigger] s[j] is None,
    ensures
        free_slots(s) == s.len(),
    decreases s.len(),
{
    if s.len() > 0 {
        lemma_free_slots_all(s.drop_last());
    }
}

} // verus!
