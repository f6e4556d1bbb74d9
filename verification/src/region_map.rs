//! The sparse contents of one region: a finite map from cells to what
//! occupies them.
//!
//! The entries are kept in a vector, strictly ascending by cell, so that a
//! map has exactly one representation and two maps with the same contents
//! are the same value.

use vstd::prelude::*;
use crate::types::{MapElement, Point};

verus! {

/// The order of cells: by `x`, then by `y`.
pub open spec fn point_lt(a: Point, b: Point) -> bool {
    a.x < b.x || (a.x == b.x && a.y < b.y)
}

/// Whether the cells of the entries ascend strictly; no cell then occurs twice.
pub open spec fn strictly_ascending(s: Seq<(Point, MapElement)>) -> bool {
    forall|i: int, j: int| 0 <= i < j < s.len() ==> point_lt(#[trigger] s[i].0, #[trigger] s[j].0)
}

/// Whether some entry of `s` is for the cell `p`.
pub open spec fn has_cell(s: Seq<(Point, MapElement)>, p: Point) -> bool {
    exists|i: int| 0 <= i < s.len() && #[trigger] s[i].0 == p
}

/// The map that a list of entries stands for.
pub open spec fn entries_map(s: Seq<(Point, MapElement)>) -> Map<Point, MapElement> {
    Map::new(
        |p: Point| has_cell(s, p),
        |p: Point| s[choose|i: int| 0 <= i < s.len() && #[trigger] s[i].0 == p].1,
    )
}

/// An ascending list maps the cell of each of its entries to that entry's
/// element.
pub proof fn lemma_entries_map_at(s: Seq<(Point, MapElement)>, i: int)
    requires
        strictly_ascending(s),
        0 <= i < s.len(),
    ensures
        entries_map(s).contains_key(s[i].0),
        entries_map(s)[s[i].0] == s[i].1,
{
    let p = s[i].0;
    let j = choose|j: int| 0 <= j < s.len() && #[trigger] s[j].0 == p;
    if j < i {
        assert(point_lt(s[j].0, s[i].0));
    } else if i < j {
        assert(point_lt(s[i].0, s[j].0));
    }
}

/// The cells of an ascending list are as many as its entries.
pub proof fn lemma_entries_map_len(s: Seq<(Point, MapElement)>)
    requires
        strictly_ascending(s),
    ensures
        entries_map(s).dom().finite(),
        entries_map(s).dom().len() == s.len(),
    decreases s.len(),
{
    if s.len() == 0 {
        assert(entries_map(s).dom() =~= Set::<Point>::empty());
    } else {
        let t = s.drop_last();
        let last = s.last();
        assert(strictly_ascending(t)) by {
            assert forall|i: int, j: int| 0 <= i < j < t.len() implies point_lt(
                #[trigger] t[i].0,
                #[trigger] t[j].0,
            ) by {
                assert(point_lt(s[i].0, s[j].0));
            }
        }
        lemma_entries_map_len(t);
        assert(!entries_map(t).dom().contains(last.0)) by {
            if has_cell(t, last.0) {
                let i = choose|i: int| 0 <= i < t.len() && #[trigger] t[i].0 == last.0;
                assert(point_lt(s[i].0, s[s.len() - 1].0));
            }
        }
        assert(entries_map(s).dom() =~= entries_map(t).dom().insert(last.0)) by {
            assert forall|p: Point| entries_map(s).dom().contains(p) implies entries_map(
                t,
            ).dom().insert(last.0).contains(p) by {
                let i = choose|i: int| 0 <= i < s.len() && #[trigger] s[i].0 == p;
                if i < t.len() {
                    assert(t[i].0 == p);
                }
            }
            assert forall|p: Point|
                entries_map(t).dom().insert(last.0).contains(p) implies entries_map(
                s,
            ).dom().contains(p) by {
                if p == last.0 {
                    assert(s[s.len() - 1].0 == p);
                } else {
                    let i = choose|i: int| 0 <= i < t.len() && #[trigger] t[i].0 == p;
                    assert(s[i].0 == p);
                }
            }
        }
    }
}

/// Ascending lists that stand for the same map are the same list.
pub proof fn lemma_entries_canonical(a: Seq<(Point, MapElement)>, b: Seq<(Point, MapElement)>)
    requires
        strictly_ascending(a),
        strictly_ascending(b),
        entries_map(a) == entries_map(b),
    ensures
        a == b,
{
    lemma_entries_map_len(a);
    lemma_entries_map_len(b);
    assert(a.len() == b.len());
    lemma_same_cells_same_places(a, b, a.len() as int);
    assert forall|i: int| 0 <= i < a.len() implies a[i] == b[i] by {
        lemma_entries_map_at(a, i);
        lemma_entries_map_at(b, i);
    }
    assert(a =~= b);
}

/// In two ascending lists of one length over the same cells, the cells stand
/// at the same places. Shown for the places below `n`.
proof fn lemma_same_cells_same_places(
    a: Seq<(Point, MapElement)>,
    b: Seq<(Point, MapElement)>,
    n: int,
)
    requires
        strictly_ascending(a),
        strictly_ascending(b),
        a.len() == b.len(),
        entries_map(a).dom() == entries_map(b).dom(),
        0 <= n <= a.len(),
    ensures
        forall|i: int| 0 <= i < n ==> (#[trigger] a[i]).0 == (#[trigger] b[i]).0,
    decreases n,
{
    if n > 0 {
        lemma_same_cells_same_places(a, b, n - 1);
        let k = n - 1;
        // The cell at place k of one list occurs in the other, and it cannot
        // occur below k there, where the cells are those of the first k places.
        lemma_entries_map_at(a, k);
        lemma_entries_map_at(b, k);
        assert(has_cell(b, a[k].0));
        assert(has_cell(a, b[k].0));
        let jb = choose|j: int| 0 <= j < b.len() && #[trigger] b[j].0 == a[k].0;
        let ja = choose|j: int| 0 <= j < a.len() && #[trigger] a[j].0 == b[k].0;
        if jb < k {
            assert(a[jb].0 == b[jb].0);
            assert(point_lt(a[jb].0, a[k].0));
        }
        if ja < k {
            assert(a[ja].0 == b[ja].0);
            assert(point_lt(b[ja].0, b[k].0));
        }
        if jb > k {
            assert(point_lt(b[k].0, b[jb].0));
        }
        if ja > k {
            assert(point_lt(a[k].0, a[ja].0));
        }
    }
}

/// The contents of a region.
#[derive(Debug, PartialEq, Eq)]
pub struct RegionMap {
    entries: Vec<(Point, MapElement)>,
}

impl View for RegionMap {
    type V = Map<Point, MapElement>;

    /// The map from each occupied cell to its element.
    open spec fn view(&self) -> Map<Point, MapElement> {
        entries_map(self.entries())
    }
}

impl Clone for RegionMap {
    /// A map with the same entries.
    fn clone(&self) -> (m: RegionMap)
        ensures
            m.entries() == self.entries(),
    {
        RegionMap { entries: self.to_vec() }
    }
}

/// Whether `a` comes before `b` in the order of cells.
fn precedes(a: Point, b: Point) -> (r: bool)
    ensures
        r == point_lt(a, b),
{
    a.x < b.x || (a.x == b.x && a.y < b.y)
}

impl RegionMap {
    /// The entries of the map, ascending by cell.
    pub closed spec fn entries(&self) -> Seq<(Point, MapElement)> {
        self.entries@
    }

    /// The invariant of the type: the entries ascend strictly by cell.
    pub open spec fn wf(&self) -> bool {
        strictly_ascending(self.entries())
    }

    /// The empty map.
    pub fn new() -> (m: RegionMap)
        ensures
            m.wf(),
            m.entries() == Seq::<(Point, MapElement)>::empty(),
            m@ == Map::<Point, MapElement>::empty(),
    {
        let m = RegionMap { entries: Vec::new() };
        assert(m@ =~= Map::<Point, MapElement>::empty());
        m
    }

    /// The number of occupied cells.
    pub fn len(&self) -> (n: usize)
        requires
            self.wf(),
        ensures
            self@.dom().finite(),
            n == self@.dom().len(),
            n == self.entries().len(),
    {
        proof {
            lemma_entries_map_len(self.entries());
        }
        self.entries.len()
    }

    /// The first place at which the cell is not below `p`: every entry
    /// before it is for a cell below `p`, and no entry from it on is.
    fn lower_bound(&self, p: Point) -> (i: usize)
        requires
            self.wf(),
        ensures
            i <= self.entries().len(),
            forall|j: int| 0 <= j < i ==> point_lt((#[trigger] self.entries()[j]).0, p),
            forall|j: int|
                i <= j < self.entries().len() ==> !point_lt((#[trigger] self.entries()[j]).0, p),
    {
        let mut lo: usize = 0;
        let mut hi: usize = self.entries.len();
        while lo < hi
            invariant
                self.wf(),
                lo <= hi <= self.entries@.len(),
                forall|j: int| 0 <= j < lo ==> point_lt((#[trigger] self.entries@[j]).0, p),
                forall|j: int|
                    hi <= j < self.entries@.len() ==> !point_lt((#[trigger] self.entries@[j]).0, p),
            decreases hi - lo,
        {
            let mid: usize = lo + (hi - lo) / 2;
            if precedes(self.entries[mid].0, p) {
                assert forall|j: int| 0 <= j < mid + 1 implies point_lt(
                    (#[trigger] self.entries@[j]).0,
                    p,
                ) by {
                    if j < mid {
                        assert(point_lt(self.entries@[j].0, self.entries@[mid as int].0));
                    }
                }
                lo = mid + 1;
            } else {
                assert forall|j: int| mid <= j < self.entries@.len() implies !point_lt(
                    (#[trigger] self.entries@[j]).0,
                    p,
                ) by {
                    if mid < j {
                        assert(point_lt(self.entries@[mid as int].0, self.entries@[j].0));
                    }
                }
                hi = mid;
            }
        }
        lo
    }

    /// The element at cell `p`, if the cell is occupied.
    pub fn get(&self, p: Point) -> (r: Option<MapElement>)
        requires
            self.wf(),
        ensures
            r == if self@.contains_key(p) {
                Some(self@[p])
            } else {
                None
            },
    {
        let i: usize = self.lower_bound(p);
        if i < self.entries.len() && self.entries[i].0 == p {
            proof {
                lemma_entries_map_at(self.entries(), i as int);
            }
            Some(self.entries[i].1)
        } else {
            proof {
                if has_cell(self.entries(), p) {
                    let j = choose|j: int|
                        0 <= j < self.entries().len() && #[trigger] self.entries()[j].0 == p;
                    if j < i {
                        assert(point_lt(self.entries()[j].0, p));
                    } else if j > i {
                        assert(point_lt(self.entries()[i as int].0, self.entries()[j].0));
                        assert(!point_lt(self.entries()[i as int].0, p));
                    }
                }
            }
            None
        }
    }

    /// Whether cell `p` is occupied.
    pub fn contains_key(&self, p: Point) -> (r: bool)
        requires
            self.wf(),
        ensures
            r == self@.contains_key(p),
    {
        self.get(p).is_some()
    }

    /// Puts `element` at cell `p`, in place of whatever was there.
    pub fn set(&mut self, p: Point, element: MapElement)
        requires
            old(self).wf(),
        ensures
            final(self).wf(),
            final(self)@ == old(self)@.insert(p, element),
    {
        let i: usize = self.lower_bound(p);
        let ghost before = self.entries();
        if i < self.entries.len() && self.entries[i].0 == p {
            self.entries.set(i, (p, element));
            proof {
                lemma_replaced(before, i as int, element);
            }
        } else {
            self.entries.insert(i, (p, element));
            proof {
                lemma_inserted(before, i as int, p, element);
            }
        }
    }

    /// The entries, ascending by cell.
    pub fn to_vec(&self) -> (v: Vec<(Point, MapElement)>)
        ensures
            v@ == self.entries(),
    {
        let mut v: Vec<(Point, MapElement)> = Vec::new();
        let mut i: usize = 0;
        while i < self.entries.len()
            invariant
                i <= self.entries@.len(),
                v@ == self.entries@.take(i as int),
            decreases self.entries@.len() - i,
        {
            v.push(self.entries[i]);
            i = i + 1;
            assert(v@ =~= self.entries@.take(i as int));
        }
        assert(v@ =~= self.entries@);
        v
    }
}

/// Replacing the element of entry `i` keeps the list ascending and updates
/// the map at that entry's cell.
proof fn lemma_replaced(s: Seq<(Point, MapElement)>, i: int, element: MapElement)
    requires
        strictly_ascending(s),
        0 <= i < s.len(),
    ensures
        strictly_ascending(s.update(i, (s[i].0, element))),
        entries_map(s.update(i, (s[i].0, element))) == entries_map(s).insert(s[i].0, element),
{
    let p = s[i].0;
    let t = s.update(i, (p, element));
    assert forall|a: int, b: int| 0 <= a < b < t.len() implies point_lt(
        #[trigger] t[a].0,
        #[trigger] t[b].0,
    ) by {
        assert(point_lt(s[a].0, s[b].0));
    }
    assert forall|q: Point| entries_map(t).contains_key(q) <==> entries_map(s).insert(
        p,
        element,
    ).contains_key(q) by {
        if has_cell(t, q) {
            let j = choose|j: int| 0 <= j < t.len() && #[trigger] t[j].0 == q;
            assert(s[j].0 == q);
        }
        if has_cell(s, q) {
            let j = choose|j: int| 0 <= j < s.len() && #[trigger] s[j].0 == q;
            assert(t[j].0 == q);
        }
        if q == p {
            assert(t[i].0 == q);
        }
    }
    assert forall|q: Point| entries_map(t).contains_key(q) implies entries_map(t)[q]
        == entries_map(s).insert(p, element)[q] by {
        let j = choose|j: int| 0 <= j < t.len() && #[trigger] t[j].0 == q;
        lemma_entries_map_at(t, j);
        if j != i {
            assert(s[j].0 == q);
            lemma_entries_map_at(s, j);
            if j < i {
                assert(point_lt(s[j].0, s[i].0));
            } else {
                assert(point_lt(s[i].0, s[j].0));
            }
        }
    }
    assert(entries_map(t) =~= entries_map(s).insert(p, element));
}

/// Inserting an entry for a new cell at its place in the order keeps the
/// list ascending and adds the entry to the map.
proof fn lemma_inserted(s: Seq<(Point, MapElement)>, i: int, p: Point, element: MapElement)
    requires
        strictly_ascending(s),
        0 <= i <= s.len(),
        forall|j: int| 0 <= j < i ==> point_lt((#[trigger] s[j]).0, p),
        forall|j: int| i <= j < s.len() ==> !point_lt((#[trigger] s[j]).0, p),
        i < s.len() ==> s[i].0 != p,
    ensures
        strictly_ascending(s.insert(i, (p, element))),
        entries_map(s.insert(i, (p, element))) == entries_map(s).insert(p, element),
{
    let t = s.insert(i, (p, element));
    assert forall|j: int| i <= j < s.len() implies point_lt(p, (#[trigger] s[j]).0) by {
        if j > i {
            assert(point_lt(s[i].0, s[j].0));
        }
        assert(!point_lt(s[j].0, p));
        assert(!point_lt(s[i].0, p));
    }
    assert forall|a: int, b: int| 0 <= a < b < t.len() implies point_lt(
        #[trigger] t[a].0,
        #[trigger] t[b].0,
    ) by {
        if b < i {
            assert(point_lt(s[a].0, s[b].0));
        } else if b == i {
            assert(point_lt(s[a].0, p));
        } else if a < i {
            assert(point_lt(s[a].0, p));
            assert(point_lt(p, s[b - 1].0));
        } else if a == i {
            assert(point_lt(p, s[b - 1].0));
        } else {
            assert(point_lt(s[a - 1].0, s[b - 1].0));
        }
    }
    assert forall|q: Point| entries_map(t).contains_key(q) <==> entries_map(s).insert(
        p,
        element,
    ).contains_key(q) by {
        if has_cell(t, q) {
            let j = choose|j: int| 0 <= j < t.len() && #[trigger] t[j].0 == q;
            if j < i {
                assert(s[j].0 == q);
            } else if j > i {
                assert(s[j - 1].0 == q);
            }
        }
        if has_cell(s, q) {
            let j = choose|j: int| 0 <= j < s.len() && #[trigger] s[j].0 == q;
            if j < i {
                assert(t[j].0 == q);
            } else {
                assert(t[j + 1].0 == q);
            }
        }
        if q == p {
            assert(t[i].0 == q);
        }
    }
    assert forall|q: Point| entries_map(t).contains_key(q) implies entries_map(t)[q]
        == entries_map(s).insert(p, element)[q] by {
        let j = choose|j: int| 0 <= j < t.len() && #[trigger] t[j].0 == q;
        lemma_entries_map_at(t, j);
        if j < i {
            assert(s[j].0 == q);
            lemma_entries_map_at(s, j);
        } else if j > i {
            assert(s[j - 1].0 == q);
            lemma_entries_map_at(s, j - 1);
        }
    }
    assert(entries_map(t) =~= entries_map(s).insert(p, element));
}

} // verus!
