//! Ordered stack of named boolean flags. Lookup by name finds the most
//! recently declared entry with that name (shadowing); entries are removed
//! by the id handed out when they were declared.

use vstd::prelude::*;
use crate::utils::str_eq;

verus! {

/// A marker as it appears in specifications: (name, id, value).
pub type MarkerView = (Seq<char>, u64, bool);

#[derive(Clone, Copy)]
struct Marker {
    name: &'static str,
    id: u64,
    value: bool,
}

pub struct MarkerList {
    markers: Vec<Marker>,
    counter: u64,
}

/// The value of the most recently declared marker with this name, or `false`
/// when none exists.
pub open spec fn marker_get(ms: Seq<MarkerView>, name: Seq<char>) -> bool
    decreases ms.len(),
{
    if ms.len() == 0 {
        false
    } else if ms.last().0 == name {
        ms.last().2
    } else {
        marker_get(ms.drop_last(), name)
    }
}

/// The index of the most recently declared marker with this name, or -1.
pub open spec fn marker_top_index(ms: Seq<MarkerView>, name: Seq<char>) -> int
    decreases ms.len(),
{
    if ms.len() == 0 {
        -1
    } else if ms.last().0 == name {
        ms.len() - 1
    } else {
        marker_top_index(ms.drop_last(), name)
    }
}

/// The index of the marker carrying this id, or -1.
pub open spec fn marker_find_id(ms: Seq<MarkerView>, id: u64) -> int
    decreases ms.len(),
{
    if ms.len() == 0 {
        -1
    } else if ms[0].1 == id {
        0
    } else {
        let rest = marker_find_id(ms.skip(1), id);
        if rest < 0 {
            -1
        } else {
            rest + 1
        }
    }
}

/// Removing a declared marker by its id.
pub open spec fn marker_remove(ms: Seq<MarkerView>, id: u64) -> Seq<MarkerView> {
    ms.remove(marker_find_id(ms, id))
}

impl View for MarkerList {
    type V = Seq<MarkerView>;

    closed spec fn view(&self) -> Seq<MarkerView> {
        self.markers@.map(|_i: int, m: Marker| (m.name@, m.id, m.value))
    }
}

impl MarkerList {
    /// Every id on the stack was handed out by an earlier `declare`, so all
    /// are distinct and below the counter.
    pub closed spec fn wf(&self) -> bool {
        &&& forall|i: int| 0 <= i < self@.len() ==> (#[trigger] self@[i]).1 < self.counter
        &&& forall|i: int, j: int|
            0 <= i < j < self@.len() ==> (#[trigger] self@[i]).1 != (#[trigger] self@[j]).1
    }

    /// The id the next `declare` will hand out.
    pub closed spec fn next_id(&self) -> u64 {
        self.counter
    }

    pub fn new() -> (r: Self)
        ensures
            r.wf(),
            r@ == Seq::<MarkerView>::empty(),
            r.next_id() == 1u64,
    {
        let r = Self { markers: Vec::new(), counter: 1 };
        proof {
            assert(r@ =~= Seq::<MarkerView>::empty());
        }
        r
    }

    /// Push a new marker with value `true`; its fresh id is returned.
    pub fn declare(&mut self, name: &'static str) -> (id: u64)
        requires
            old(self).wf(),
            old(self).next_id() < u64::MAX,
        ensures
            final(self).wf(),
            id == old(self).next_id(),
            final(self)@ == old(self)@.push((name@, id, true)),
            final(self).next_id() == old(self).next_id() + 1,
    {
        let id = self.counter;
        let value = true;
        let marker = Marker { name, id, value };

        self.counter = self.counter + 1;
        self.markers.push(marker);

        proof {
            assert(self@ =~= old(self)@.push((name@, id, true)));
        }
        id
    }

    /// Delete the marker that `declare` handed this id out for.
    pub fn remove(&mut self, id: u64)
        requires
            old(self).wf(),
            marker_find_id(old(self)@, id) >= 0,
        ensures
            final(self).wf(),
            final(self)@ == marker_remove(old(self)@, id),
            final(self).next_id() == old(self).next_id(),
    {
        let ghost target = marker_find_id(old(self)@, id);
        let mut i: usize = 0;

        proof {
            lemma_marker_find_id_properties(self@, id);
        }
        while i < self.markers.len()
            invariant
                old(self).wf(),
                self.markers.len() == self@.len(),
                0 <= target < self@.len(),
                self@ == old(self)@,
                self.next_id() == old(self).next_id(),
                target == marker_find_id(old(self)@, id),
                i <= target,
            decreases self.markers.len() - i,
        {
            proof {
                lemma_marker_find_id_properties(self@, id);
            }
            if self.markers[i].id == id {
                proof {
                    assert(self@[i as int].1 == id);
                    assert(i == target);
                }
                self.markers.remove(i);
                proof {
                    let pre = old(self)@;
                    let post = self@;
                    assert(post =~= pre.remove(target));
                    assert forall|j: int| 0 <= j < post.len() implies (#[trigger] post[j]).1
                        < old(self).next_id() by {
                        if j < target {
                            assert(post[j] == pre[j]);
                        } else {
                            assert(post[j] == pre[j + 1]);
                        }
                    }
                    assert forall|a: int, b: int|
                        0 <= a < b < post.len() implies (#[trigger] post[a]).1 != (
                    #[trigger] post[b]).1 by {
                        let a0 = if a < target { a } else { a + 1 };
                        let b0 = if b < target { b } else { b + 1 };
                        assert(post[a] == pre[a0]);
                        assert(post[b] == pre[b0]);
                    }
                }
                return;
            }
            proof {
                assert(self@[target].1 == id);
            }
            i = i + 1;
        }
        proof {
            lemma_marker_find_id_properties(self@, id);
            assert(false);
        }
    }

    /// The value of the most recent marker with this name, `false` if none.
    pub fn get(&self, name: &'static str) -> (r: bool)
        ensures
            r == marker_get(self@, name@),
    {
        let mut i: usize = self.markers.len();

        proof {
            assert(self@.subrange(0, i as int) =~= self@);
        }
        while i > 0
            invariant
                i <= self.markers.len(),
                self.markers.len() == self@.len(),
                marker_get(self@, name@) == marker_get(self@.subrange(0, i as int), name@),
            decreases i,
        {
            proof {
                assert(self@.subrange(0, i as int).drop_last() =~= self@.subrange(0, i - 1));
                assert(self@.subrange(0, i as int).last() == self@[i - 1]);
            }
            if str_eq(self.markers[i - 1].name, name) {
                return self.markers[i - 1].value;
            }
            i = i - 1;
        }
        false
    }

    /// Overwrite the most recent marker with this name in place and return
    /// its previous value; when none exists, change nothing and return
    /// `false`.
    pub fn set(&mut self, name: &'static str, value: bool) -> (r: bool)
        requires
            old(self).wf(),
        ensures
            final(self).wf(),
            final(self).next_id() == old(self).next_id(),
            ({
                let k = marker_top_index(old(self)@, name@);
                if k >= 0 {
                    &&& r == old(self)@[k].2
                    &&& final(self)@ == old(self)@.update(
                        k,
                        (old(self)@[k].0, old(self)@[k].1, value),
                    )
                } else {
                    &&& r == false
                    &&& final(self)@ == old(self)@
                }
            }),
    {
        let ghost k = marker_top_index(old(self)@, name@);
        let mut i: usize = self.markers.len();

        proof {
            assert(self@.subrange(0, i as int) =~= self@);
            lemma_marker_top_index_properties(self@, name@);
        }
        while i > 0
            invariant
                old(self).wf(),
                i <= self.markers.len(),
                self.markers.len() == self@.len(),
                self@ == old(self)@,
                self.next_id() == old(self).next_id(),
                k == marker_top_index(old(self)@, name@),
                marker_top_index(self@.subrange(0, i as int), name@) == k,
            decreases i,
        {
            proof {
                assert(self@.subrange(0, i as int).drop_last() =~= self@.subrange(0, i - 1));
                assert(self@.subrange(0, i as int).last() == self@[i - 1]);
                lemma_marker_top_index_properties(self@.subrange(0, i as int), name@);
            }
            if str_eq(self.markers[i - 1].name, name) {
                let prev = self.markers[i - 1];
                let updated = Marker { name: prev.name, id: prev.id, value };
                self.markers.remove(i - 1);
                self.markers.insert(i - 1, updated);
                proof {
                    let pre = old(self)@;
                    let post = self@;
                    assert(k == i - 1);
                    assert(post =~= pre.update(k, (pre[k].0, pre[k].1, value)));
                    assert(prev.name@ == pre[k].0);
                    assert forall|j: int| 0 <= j < post.len() implies (#[trigger] post[j]).1
                        < old(self).next_id() by {
                        if j != k {
                            assert(post[j] == pre[j]);
                        }
                    }
                    assert forall|a: int, b: int|
                        0 <= a < b < post.len() implies (#[trigger] post[a]).1 != (
                    #[trigger] post[b]).1 by {
                        if a != k {
                            assert(post[a] == pre[a]);
                        }
                        if b != k {
                            assert(post[b] == pre[b]);
                        }
                    }
                }
                return prev.value;
            }
            i = i - 1;
        }
        proof {
            assert(self@.subrange(0, 0) =~= Seq::<MarkerView>::empty());
            assert(k == marker_top_index(self@.subrange(0, 0), name@));
        }
        false
    }
}

proof fn lemma_marker_find_id_properties(ms: Seq<MarkerView>, id: u64)
    ensures
        marker_find_id(ms, id) >= 0 ==> {
            let k = marker_find_id(ms, id);
            &&& k < ms.len()
            &&& ms[k].1 == id
            &&& forall|j: int| 0 <= j < k ==> (#[trigger] ms[j]).1 != id
        },
    decreases ms.len(),
{
    if ms.len() > 0 && ms[0].1 != id {
        lemma_marker_find_id_properties(ms.skip(1), id);
        assert forall|j: int|
            0 <= j < marker_find_id(ms, id) implies (#[trigger] ms[j]).1 != id by {
            if j > 0 {
                assert(ms.skip(1)[j - 1] == ms[j]);
            }
        }
        if marker_find_id(ms, id) >= 0 {
            assert(ms.skip(1)[marker_find_id(ms.skip(1), id)] == ms[marker_find_id(ms, id)]);
        }
    }
}

proof fn lemma_marker_top_index_properties(ms: Seq<MarkerView>, name: Seq<char>)
    ensures
        marker_top_index(ms, name) < ms.len(),
        marker_top_index(ms, name) >= 0 ==> ms[marker_top_index(ms, name)].0 == name,
        marker_top_index(ms, name) >= -1,
    decreases ms.len(),
{
    if ms.len() > 0 && ms.last().0 != name {
        lemma_marker_top_index_properties(ms.drop_last(), name);
        if marker_top_index(ms, name) >= 0 {
            assert(ms.drop_last()[marker_top_index(ms, name)] == ms[marker_top_index(ms, name)]);
        }
    }
}

/// How a marker with this id lands at the top of the stack when no older
/// entry carries the id.
proof fn lemma_marker_find_id_fresh(ms: Seq<MarkerView>, entry: MarkerView)
    requires
        forall|i: int| 0 <= i < ms.len() ==> (#[trigger] ms[i]).1 != entry.1,
    ensures
        marker_find_id(ms.push(entry), entry.1) == ms.len(),
    decreases ms.len(),
{
    let pushed = ms.push(entry);
    if ms.len() == 0 {
        assert(pushed[0] == entry);
    } else {
        assert(pushed[0] == ms[0]);
        assert(pushed.skip(1) =~= ms.skip(1).push(entry));
        assert forall|i: int|
            0 <= i < ms.skip(1).len() implies (#[trigger] ms.skip(1)[i]).1 != entry.1 by {
            assert(ms.skip(1)[i] == ms[i + 1]);
        }
        lemma_marker_find_id_fresh(ms.skip(1), entry);
    }
}

/// Shadowing: after declaring the same name twice, lookup reflects the
/// second declaration; removing the second by its id restores the first,
/// exactly as the stack stood before.
pub proof fn lemma_marker_shadowing(
    ms: Seq<MarkerView>,
    name: Seq<char>,
    id1: u64,
    id2: u64,
    a: bool,
    b: bool,
)
    requires
        forall|i: int| 0 <= i < ms.len() ==> (#[trigger] ms[i]).1 != id2,
    ensures
        ({
            let first = ms.push((name, id1, a));
            let second = first.push((name, id2, b));
            &&& marker_get(second, name) == b
            &&& marker_top_index(second, name) == second.len() - 1
            &&& id1 != id2 ==> marker_remove(second, id2) == first
            &&& marker_get(first, name) == a
        }),
{
    let first = ms.push((name, id1, a));
    let second = first.push((name, id2, b));
    assert(second.last() == (name, id2, b));
    assert(first.last() == (name, id1, a));
    if id1 != id2 {
        assert forall|i: int|
            0 <= i < first.len() implies (#[trigger] first[i]).1 != id2 by {
            if i < ms.len() {
                assert(first[i] == ms[i]);
            }
        }
        lemma_marker_find_id_fresh(first, (name, id2, b));
        assert(second.remove(first.len() as int) =~= first);
    }
}

} // verus!
