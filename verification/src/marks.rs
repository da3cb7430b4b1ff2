//! Lists of indices without repetition, kept together with a mark for each index.

use vstd::prelude::*;

verus! {

/// Puts an index on a list unless it is marked, and marks it.
pub open spec fn marked_once(
    changed: Seq<usize>,
    marks: Seq<bool>,
    index: usize,
) -> (Seq<usize>, Seq<bool>) {
    if marks[index as int] {
        (changed, marks)
    } else {
        (changed.push(index), marks.update(index as int, true))
    }
}

/// Puts the first `upto` indices on a list, each unless it is marked, and marks them.
pub open spec fn accumulated(
    changed: Seq<usize>,
    marks: Seq<bool>,
    indices: Seq<usize>,
    upto: int,
) -> (Seq<usize>, Seq<bool>)
    decreases upto,
{
    if upto <= 0 {
        (changed, marks)
    } else {
        let (c, m) = accumulated(changed, marks, indices, upto - 1);
        marked_once(c, m, indices[upto - 1])
    }
}

/// No index is marked.
pub open spec fn unmarked(capacity: int) -> Seq<bool> {
    Seq::new(capacity as nat, |i: int| false)
}

/// List and marks agree: what is on the list is marked, what is marked is on the list, and
/// nothing is on it twice.
pub open spec fn agree(changed: Seq<usize>, marks: Seq<bool>) -> bool {
    &&& changed.no_duplicates()
    &&& forall|i: int| 0 <= i < changed.len() ==> (#[trigger] changed[i]) < marks.len()
    &&& forall|x: usize| x < marks.len() ==> (#[trigger] marks[x as int] <==> changed.contains(x))
}

/// Puts an index on the list of changes unless it is marked, and marks it.
pub fn mark_changed(index: usize, marks: &mut Vec<bool>, changed: &mut Vec<usize>)
    requires
        index < old(marks).len(),
    ensures
        (final(changed)@, final(marks)@) == marked_once(old(changed)@, old(marks)@, index),
{
    if !marks[index] {
        marks.set(index, true);
        changed.push(index);
    }
}

/// Puts indices on the list of changes, each unless it is marked, and marks them.
pub fn accumulate_indices(indices: &Vec<usize>, marks: &mut Vec<bool>, changed: &mut Vec<usize>)
    requires
        forall|i: int| 0 <= i < indices.len() ==> (#[trigger] indices[i]) < old(marks).len(),
    ensures
        (final(changed)@, final(marks)@) == accumulated(
            old(changed)@,
            old(marks)@,
            indices@,
            indices.len() as int,
        ),
{
    let mut i: usize = 0;
    while i < indices.len()
        invariant
            i <= indices.len(),
            marks.len() == old(marks).len(),
            forall|k: int| 0 <= k < indices.len() ==> (#[trigger] indices[k]) < marks.len(),
            (changed@, marks@) == accumulated(
                old(changed)@,
                old(marks)@,
                indices@,
                i as int,
            ),
        decreases indices.len() - i,
    {
        mark_changed(indices[i], marks, changed);
        i = i + 1;
    }
}

/// Marking keeps list and marks in agreement, keeps what was on the list, and puts the
/// index on it.
pub proof fn law_marking_keeps_agreement(changed: Seq<usize>, marks: Seq<bool>, index: usize)
    requires
        agree(changed, marks),
        index < marks.len(),
    ensures
        ({
            let (c, m) = marked_once(changed, marks, index);
            &&& agree(c, m)
            &&& m.len() == marks.len()
            &&& c.contains(index)
            &&& changed.len() <= c.len()
            &&& c.take(changed.len() as int) == changed
        }),
{
    let (c, m) = marked_once(changed, marks, index);
    if !marks[index as int] {
        assert(c.last() == index);
        assert(c.contains(index));
        assert forall|x: usize| x < m.len() implies (#[trigger] m[x as int] <==> c.contains(x)) by {
            assert(marks[x as int] <==> changed.contains(x));
            if changed.contains(x) {
                let k = choose|k: int| 0 <= k < changed.len() && changed[k] == x;
                assert(c[k] == x);
            }
            if c.contains(x) && x != index {
                let k = choose|k: int| 0 <= k < c.len() && c[k] == x;
                assert(changed[k] == x);
            }
        }
        assert(!changed.contains(index));
        assert(c.no_duplicates());
        assert(c.take(changed.len() as int) =~= changed);
    } else {
        assert(changed.take(changed.len() as int) =~= changed);
    }
}

/// Gathering any indices keeps list and marks in agreement, and each index is then on the
/// list, once.
pub proof fn law_accumulation_is_a_union(
    changed: Seq<usize>,
    marks: Seq<bool>,
    indices: Seq<usize>,
    upto: int,
)
    requires
        agree(changed, marks),
        0 <= upto <= indices.len(),
        forall|i: int| 0 <= i < indices.len() ==> (#[trigger] indices[i]) < marks.len(),
    ensures
        ({
            let (c, m) = accumulated(changed, marks, indices, upto);
            &&& agree(c, m)
            &&& m.len() == marks.len()
            &&& forall|x: usize| #[trigger]
                c.contains(x) <==> changed.contains(x) || indices.take(upto).contains(x)
        }),
    decreases upto,
{
    if upto > 0 {
        let (c0, m0) = accumulated(changed, marks, indices, upto - 1);
        let (c, m) = accumulated(changed, marks, indices, upto);
        let index = indices[upto - 1];
        law_accumulation_is_a_union(changed, marks, indices, upto - 1);
        law_marking_keeps_agreement(c0, m0, index);
        assert(indices.take(upto) =~= indices.take(upto - 1).push(index));
        assert forall|x: usize| #[trigger]
            c.contains(x) <==> changed.contains(x) || indices.take(upto).contains(x) by {
            assert(c0.contains(x) <==> changed.contains(x) || indices.take(upto - 1).contains(x));
            if c.contains(x) && x != index {
                let k = choose|k: int| 0 <= k < c.len() && c[k] == x;
                if c != c0 {
                    assert(c == c0.push(index));
                }
                assert(c0[k] == x);
            }
            if c0.contains(x) {
                let k = choose|k: int| 0 <= k < c0.len() && c0[k] == x;
                assert(c[k] == x);
            }
            if indices.take(upto).contains(x) && x != index {
                let longer = indices.take(upto);
                let k = choose|k: int| 0 <= k < longer.len() && longer[k] == x;
                assert(indices.take(upto - 1)[k] == x);
            }
            if indices.take(upto - 1).contains(x) {
                let shorter = indices.take(upto - 1);
                let k = choose|k: int| 0 <= k < shorter.len() && shorter[k] == x;
                assert(indices.take(upto)[k] == x);
            }
            assert(indices.take(upto)[upto - 1] == index);
        }
    } else {
        assert(indices.take(0) =~= Seq::<usize>::empty());
    }
}

/// A list of indices and a mark for each index.
#[derive(Debug, Clone)]
pub struct MarkList {
    pub list: Vec<usize>,
    pub mark: Vec<bool>,
}

impl MarkList {
    /// List and marks agree.
    pub open spec fn wf(self) -> bool {
        agree(self.list@, self.mark@)
    }

    /// The number of indices that can be marked.
    pub open spec fn capacity(self) -> int {
        self.mark.len() as int
    }

    /// An empty list for the indices below `capacity`.
    pub fn new(capacity: usize) -> (r: Self)
        ensures
            r.wf(),
            r.list@ == Seq::<usize>::empty(),
            r.mark@ == unmarked(capacity as int),
            r.capacity() == capacity,
    {
        let r = MarkList { list: Vec::new(), mark: vec![false; capacity] };
        assert(r.mark@ =~= unmarked(capacity as int));
        r
    }

    /// Puts an index on the list unless it is there, and says whether it was new.
    pub fn add(&mut self, index: usize) -> (r: bool)
        requires
            old(self).wf(),
            index < old(self).capacity(),
        ensures
            final(self).wf(),
            final(self).capacity() == old(self).capacity(),
            (final(self).list@, final(self).mark@) == marked_once(
                old(self).list@,
                old(self).mark@,
                index,
            ),
            r == !old(self).mark[index as int],
    {
        proof {
            law_marking_keeps_agreement(self.list@, self.mark@, index);
        }
        let new: bool = !self.mark[index];
        mark_changed(index, &mut self.mark, &mut self.list);
        new
    }

    /// Takes everything off the list.
    pub fn clear(&mut self)
        requires
            old(self).wf(),
        ensures
            final(self).wf(),
            final(self).capacity() == old(self).capacity(),
            final(self).list@ == Seq::<usize>::empty(),
            final(self).mark@ == unmarked(old(self).capacity()),
    {
        let ghost before = *self;
        let mut i: usize = 0;
        while i < self.list.len()
            invariant
                i <= self.list.len(),
                self.list == before.list,
                before.wf(),
                self.mark.len() == before.mark.len(),
                forall|x: usize|
                    x < self.mark.len() ==> (#[trigger] self.mark[x as int] ==> exists|k: int|
                        i <= k < self.list.len() && #[trigger] self.list[k] == x),
            decreases self.list.len() - i,
        {
            let index: usize = self.list[i];
            let ghost marked = self.mark@;
            self.mark.set(index, false);
            proof {
                assert forall|x: usize| x < self.mark.len() && #[trigger] self.mark[x as int] implies exists|
                    k: int,
                |
                    i + 1 <= k < self.list.len() && #[trigger] self.list[k] == x by {
                    assert(marked[x as int]);
                    let k = choose|k: int|
                        i <= k < self.list.len() && #[trigger] self.list[k] == x;
                    assert(self.list[k] == x && i + 1 <= k);
                }
            }
            i = i + 1;
        }
        self.list.clear();
        assert forall|x: usize| x < self.mark.len() implies !(#[trigger] self.mark[x as int]) by {}
        assert forall|i: int| 0 <= i < self.mark.len() implies self.mark@[i] == unmarked(
            before.capacity(),
        )[i] by {
            assert(!self.mark[(i as usize) as int]);
        }
        assert(self.mark@ =~= unmarked(before.capacity()));
    }

    /// Puts indices on the list, each unless it is there.
    pub fn add_all(&mut self, indices: &Vec<usize>)
        requires
            old(self).wf(),
            forall|i: int|
                0 <= i < indices.len() ==> (#[trigger] indices[i]) < old(self).capacity(),
        ensures
            final(self).wf(),
            final(self).capacity() == old(self).capacity(),
            (final(self).list@, final(self).mark@) == accumulated(
                old(self).list@,
                old(self).mark@,
                indices@,
                indices.len() as int,
            ),
    {
        proof {
            law_accumulation_is_a_union(
                self.list@,
                self.mark@,
                indices@,
                indices.len() as int,
            );
        }
        accumulate_indices(indices, &mut self.mark, &mut self.list);
    }

    /// Takes the index at a place of the list off it; the last one takes that place.
    pub fn remove_at(&mut self, place: usize) -> (r: usize)
        requires
            old(self).wf(),
            place < old(self).list.len(),
        ensures
            final(self).wf(),
            final(self).capacity() == old(self).capacity(),
            r == old(self).list[place as int],
            final(self).list@ == old(self).list@.update(
                place as int,
                old(self).list@.last(),
            ).drop_last(),
            final(self).mark@ == old(self).mark@.update(r as int, false),
    {
        let ghost before = *self;
        let index: usize = self.list[place];
        self.mark.set(index, false);
        let r: usize = self.list.swap_remove(place);
        proof {
            let c = self.list@;
            let m = self.mark@;
            let old_c = before.list@;
            assert forall|x: usize| x < m.len() implies (#[trigger] m[x as int] <==> c.contains(
                x,
            )) by {
                assert(before.mark@[x as int] <==> old_c.contains(x));
                if c.contains(x) {
                    let k = choose|k: int| 0 <= k < c.len() && c[k] == x;
                    if k == place {
                        assert(old_c[old_c.len() - 1] == x);
                    } else {
                        assert(old_c[k] == x);
                    }
                }
                if old_c.contains(x) && x != index {
                    let k = choose|k: int| 0 <= k < old_c.len() && old_c[k] == x;
                    if k == old_c.len() - 1 {
                        assert(c[place as int] == x);
                    } else {
                        assert(c[k] == x);
                    }
                }
            }
        }
        r
    }
}

} // verus!
