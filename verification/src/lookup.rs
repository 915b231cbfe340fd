//! The master node's lookup table: which zone node owns which region of the
//! grid, and the ports at which each zone node is reached.
use vstd::prelude::*;
use crate::geometry::{BoundingBox, Coordinate};

verus! {

/// A zone node and the region it owns.
#[derive(Clone, Copy, Debug, PartialEq, Eq)]
pub struct Entry {
    pub bounds: BoundingBox,
    pub udp_port: u16,
    pub tcp_port: u16,
    pub master_port: u16,
}

impl Entry {
    pub fn new(bounds: BoundingBox, udp_port: u16, tcp_port: u16, master_port: u16) -> (r: Self)
        ensures
            r.bounds == bounds,
            r.udp_port == udp_port,
            r.tcp_port == tcp_port,
            r.master_port == master_port,
    {
        Self { bounds, udp_port, tcp_port, master_port }
    }
}

/// A zone node's master port and the real-time (UDP) ports of the nodes whose
/// regions lie just past each of its edges.
#[derive(Clone, Copy, Debug, PartialEq, Eq)]
pub struct AdjacentNodeInfo {
    pub master_port: u16,
    pub north_port: Option<u16>,
    pub south_port: Option<u16>,
    pub east_port: Option<u16>,
    pub west_port: Option<u16>,
}

/// The connection details handed out for a point: the owner's ports.
#[derive(Clone, Copy, Debug, PartialEq, Eq)]
pub struct EntryView {
    pub udp_port: u16,
    pub tcp_port: u16,
}

pub open spec fn entry_view_of(e: Entry) -> EntryView {
    EntryView { udp_port: e.udp_port, tcp_port: e.tcp_port }
}

impl EntryView {
    pub fn new(entry: &Entry) -> (r: Self)
        ensures
            r == entry_view_of(*entry),
    {
        Self { udp_port: entry.udp_port, tcp_port: entry.tcp_port }
    }
}

/// The first entry, from position `i` on, whose region holds `p`.
pub open spec fn find_from(s: Seq<Entry>, p: Coordinate, i: int) -> Option<Entry>
    decreases s.len() - i,
{
    if i < 0 || i >= s.len() {
        None
    } else if s[i].bounds.spec_contains(p) {
        Some(s[i])
    } else {
        find_from(s, p, i + 1)
    }
}

/// What a lookup of `p` answers: nothing for a point outside the table's
/// bounds, otherwise the ports of the first entry whose region holds it.
pub open spec fn lookup(entries: Seq<Entry>, bounds: BoundingBox, p: Coordinate) -> Option<EntryView> {
    if !bounds.spec_contains(p) {
        None
    } else {
        match find_from(entries, p, 0) {
            Some(e) => Some(entry_view_of(e)),
            None => None,
        }
    }
}

/// Whether some entry's region intersects `b`.
pub open spec fn conflicts(entries: Seq<Entry>, b: BoundingBox) -> bool {
    exists|i: int| 0 <= i < entries.len() && (#[trigger] entries[i]).bounds.spec_intersects(b)
}

/// The table's bounds once a region `b` is added: `b` itself while the bounds
/// are still the zero box, otherwise the smallest box around both.
pub open spec fn extended_bounds(bounds: BoundingBox, b: BoundingBox) -> BoundingBox {
    if bounds.spec_is_zero() {
        b
    } else {
        bounds.spec_union(b)
    }
}

/// No two entries' regions intersect.
pub open spec fn regions_disjoint(entries: Seq<Entry>) -> bool {
    forall|i: int, j: int|
        0 <= i < entries.len() && 0 <= j < entries.len() && i != j ==> !(#[trigger] entries[i]).bounds.spec_intersects(
            (#[trigger] entries[j]).bounds,
        )
}

pub open spec fn udp_of(v: Option<EntryView>) -> Option<u16> {
    match v {
        Some(view) => Some(view.udp_port),
        None => None,
    }
}

/// The neighbours of `e`: past each edge of `e` that lies inside the table's
/// bounds, the owner of the point one step beyond that edge's corner.
pub open spec fn adjacent_info(entries: Seq<Entry>, bounds: BoundingBox, e: Entry) -> AdjacentNodeInfo {
    AdjacentNodeInfo {
        master_port: e.master_port,
        north_port: if e.bounds.min.x > bounds.min.x {
            udp_of(lookup(entries, bounds, Coordinate { x: (e.bounds.min.x - 1) as i64, y: e.bounds.min.y }))
        } else {
            None
        },
        south_port: if e.bounds.max.x < bounds.max.x {
            udp_of(lookup(entries, bounds, Coordinate { x: (e.bounds.max.x + 1) as i64, y: e.bounds.max.y }))
        } else {
            None
        },
        west_port: if e.bounds.min.y > bounds.min.y {
            udp_of(lookup(entries, bounds, Coordinate { x: e.bounds.min.x, y: (e.bounds.min.y - 1) as i64 }))
        } else {
            None
        },
        east_port: if e.bounds.max.y < bounds.max.y {
            udp_of(lookup(entries, bounds, Coordinate { x: e.bounds.max.x, y: (e.bounds.max.y + 1) as i64 }))
        } else {
            None
        },
    }
}


proof fn lemma_find_skips(s: Seq<Entry>, p: Coordinate, i: int, k: int)
    requires
        0 <= i <= k <= s.len(),
        forall|j: int| i <= j < k ==> !(#[trigger] s[j]).bounds.spec_contains(p),
    ensures
        find_from(s, p, i) == find_from(s, p, k),
    decreases k - i,
{
    if i < k {
        lemma_find_skips(s, p, i + 1, k);
    }
}

proof fn lemma_find_prefix(s: Seq<Entry>, e: Entry, p: Coordinate, i: int)
    requires
        0 <= i <= s.len(),
    ensures
        find_from(s, p, i) is Some ==> find_from(s.push(e), p, i) == find_from(s, p, i),
    decreases s.len() - i,
{
    if i < s.len() {
        assert(s.push(e)[i] == s[i]);
        lemma_find_prefix(s, e, p, i + 1);
    }
}

/// A point of a region just added is answered with that region's entry: a
/// lookup gives back what `set` stored.
pub proof fn law_lookup_after_set(entries: Seq<Entry>, bounds: BoundingBox, e: Entry, p: Coordinate)
    requires
        !conflicts(entries, e.bounds),
        e.bounds.spec_contains(p),
    ensures
        lookup(entries.push(e), extended_bounds(bounds, e.bounds), p) == Some(entry_view_of(e)),
{
    let s = entries.push(e);
    assert forall|j: int| 0 <= j < entries.len() implies !(#[trigger] s[j]).bounds.spec_contains(p) by {
        assert(s[j] == entries[j]);
        if s[j].bounds.spec_contains(p) {
            crate::geometry::lemma_common_point_intersects(entries[j].bounds, e.bounds, p);
        }
    }
    lemma_find_skips(s, p, 0, entries.len() as int);
}

/// Adding a region only when it meets no other region keeps all regions apart.
pub proof fn law_set_keeps_regions_disjoint(entries: Seq<Entry>, e: Entry)
    requires
        regions_disjoint(entries),
        !conflicts(entries, e.bounds),
    ensures
        regions_disjoint(entries.push(e)),
{
    let s = entries.push(e);
    assert forall|i: int, j: int|
        0 <= i < s.len() && 0 <= j < s.len() && i != j implies !(#[trigger] s[i]).bounds.spec_intersects(
        (#[trigger] s[j]).bounds) by {
        if i < entries.len() && j < entries.len() {
            assert(s[i] == entries[i] && s[j] == entries[j]);
        } else if i < entries.len() {
            assert(s[i] == entries[i]);
            assert(!entries[i].bounds.spec_intersects(e.bounds));
        } else {
            assert(s[j] == entries[j]);
            assert(!entries[j].bounds.spec_intersects(e.bounds));
        }
    }
}

/// When regions are disjoint, a point inside the table's bounds is answered
/// with the one entry whose region holds it.
pub proof fn law_lookup_finds_owner(entries: Seq<Entry>, bounds: BoundingBox, k: int, p: Coordinate)
    requires
        regions_disjoint(entries),
        0 <= k < entries.len(),
        entries[k].bounds.spec_contains(p),
        bounds.spec_contains(p),
    ensures
        lookup(entries, bounds, p) == Some(entry_view_of(entries[k])),
{
    assert forall|j: int| 0 <= j < k implies !(#[trigger] entries[j]).bounds.spec_contains(p) by {
        if entries[j].bounds.spec_contains(p) {
            crate::geometry::lemma_common_point_intersects(entries[j].bounds, entries[k].bounds, p);
        }
    }
    lemma_find_skips(entries, p, 0, k);
}

/// Adding a region never loses an answer: every point answered before is
/// answered with the same entry after a successful `set`, once the table's
/// bounds have grown past the zero box.
pub proof fn law_set_keeps_answers(entries: Seq<Entry>, bounds: BoundingBox, e: Entry, p: Coordinate)
    requires
        !conflicts(entries, e.bounds),
        !bounds.spec_is_zero(),
        lookup(entries, bounds, p) is Some,
    ensures
        lookup(entries.push(e), extended_bounds(bounds, e.bounds), p) == lookup(entries, bounds, p),
{
    lemma_find_prefix(entries, e, p, 0);
}

/// A point outside the table's bounds is never answered.
pub proof fn law_outside_bounds_unanswered(entries: Seq<Entry>, bounds: BoundingBox, p: Coordinate)
    requires
        !bounds.spec_contains(p),
    ensures
        lookup(entries, bounds, p) is None,
{
}

/// An emptied table answers no point.
pub proof fn law_cleared_table_answers_nothing(p: Coordinate)
    ensures
        lookup(Seq::<Entry>::empty(), BoundingBox::spec_zero(), p) is None,
{
}

/// The zone nodes that the master node runs, in the order they were added, and
/// the bounds of the area they cover.
pub struct LookupTable {
    entries: Vec<Entry>,
    bounds: BoundingBox,
}

impl LookupTable {
    pub closed spec fn spec_entries(&self) -> Seq<Entry> {
        self.entries@
    }

    pub closed spec fn spec_bounds(&self) -> BoundingBox {
        self.bounds
    }

    pub fn new() -> (r: Self)
        ensures
            r.spec_entries() == Seq::<Entry>::empty(),
            r.spec_bounds() == BoundingBox::spec_zero(),
    {
        Self { entries: Vec::new(), bounds: BoundingBox::zero() }
    }

    /// For each entry, in order, its neighbours (see `adjacent_info`).
    pub fn adjacent_list(&self) -> (r: Vec<AdjacentNodeInfo>)
        ensures
            r.len() == self.spec_entries().len(),
            forall|i: int|
                0 <= i < r.len() ==> #[trigger] r[i] == adjacent_info(
                    self.spec_entries(),
                    self.spec_bounds(),
                    self.spec_entries()[i],
                ),
    {
        let mut adjacent: Vec<AdjacentNodeInfo> = Vec::new();
        let bounds = self.bounds;
        let mut i: usize = 0;
        while i < self.entries.len()
            invariant
                bounds == self.bounds,
                i <= self.entries.len(),
                adjacent.len() == i,
                forall|j: int|
                    0 <= j < i ==> #[trigger] adjacent[j] == adjacent_info(
                        self.spec_entries(),
                        self.spec_bounds(),
                        self.spec_entries()[j],
                    ),
            decreases self.entries.len() - i,
        {
            let e = self.entries[i];
            let mut info = AdjacentNodeInfo {
                master_port: e.master_port,
                north_port: None,
                south_port: None,
                east_port: None,
                west_port: None,
            };
            if e.bounds.min.x > bounds.min.x {
                if let Some(v) = self.get(Coordinate { x: e.bounds.min.x - 1, y: e.bounds.min.y }) {
                    info.north_port = Some(v.udp_port);
                }
            }
            if e.bounds.max.x < bounds.max.x {
                if let Some(v) = self.get(Coordinate { x: e.bounds.max.x + 1, y: e.bounds.max.y }) {
                    info.south_port = Some(v.udp_port);
                }
            }
            if e.bounds.min.y > bounds.min.y {
                if let Some(v) = self.get(Coordinate { x: e.bounds.min.x, y: e.bounds.min.y - 1 }) {
                    info.west_port = Some(v.udp_port);
                }
            }
            if e.bounds.max.y < bounds.max.y {
                if let Some(v) = self.get(Coordinate { x: e.bounds.max.x, y: e.bounds.max.y + 1 }) {
                    info.east_port = Some(v.udp_port);
                }
            }
            adjacent.push(info);
            i = i + 1;
        }
        adjacent
    }

    /// Forgets every entry and resets the bounds to the zero box.
    pub fn delete_all(&mut self)
        ensures
            final(self).spec_entries() == Seq::<Entry>::empty(),
            final(self).spec_bounds() == BoundingBox::spec_zero(),
    {
        self.entries.clear();
        self.bounds = BoundingBox::zero();
    }

    /// Adds an entry unless its region intersects the region of an entry
    /// already there; says whether it was added.
    pub fn set(&mut self, new_entry: &Entry) -> (added: bool)
        ensures
            added == !conflicts(old(self).spec_entries(), new_entry.bounds),
            added ==> final(self).spec_entries() == old(self).spec_entries().push(*new_entry),
            added ==> final(self).spec_bounds() == extended_bounds(old(self).spec_bounds(), new_entry.bounds),
            !added ==> final(self).spec_entries() == old(self).spec_entries(),
            !added ==> final(self).spec_bounds() == old(self).spec_bounds(),
    {
        let mut i: usize = 0;
        while i < self.entries.len()
            invariant
                i <= self.entries.len(),
                self.entries@ == old(self).entries@,
                self.bounds == old(self).bounds,
                forall|j: int| 0 <= j < i ==> !(#[trigger] self.entries@[j]).bounds.spec_intersects(new_entry.bounds),
            decreases self.entries.len() - i,
        {
            if self.entries[i].bounds.intersects(&new_entry.bounds) {
                assert(self.entries@[i as int].bounds.spec_intersects(new_entry.bounds));
                return false;
            }
            i = i + 1;
        }
        self.entries.push(*new_entry);
        if self.bounds.is_zero() {
            self.bounds = new_entry.bounds;
        } else {
            let min = self.bounds.min.min(&new_entry.bounds.min);
            let max = self.bounds.max.max(&new_entry.bounds.max);
            self.bounds = BoundingBox::new(min, max);
        }
        true
    }

    /// The ports of the entry that owns `coordinate` (see `lookup`).
    pub fn get(&self, coordinate: Coordinate) -> (r: Option<EntryView>)
        ensures
            r == lookup(self.spec_entries(), self.spec_bounds(), coordinate),
    {
        if !self.bounds.contains(&coordinate) {
            return None;
        }
        let mut i: usize = 0;
        while i < self.entries.len()
            invariant
                i <= self.entries.len(),
                self.bounds.spec_contains(coordinate),
                find_from(self.entries@, coordinate, 0) == find_from(self.entries@, coordinate, i as int),
            decreases self.entries.len() - i,
        {
            if self.entries[i].bounds.contains(&coordinate) {
                return Some(EntryView::new(&self.entries[i]));
            }
            i = i + 1;
        }
        None
    }

    /// The master port of every entry, in order.
    pub fn get_all_master_port(&self) -> (r: Vec<u16>)
        ensures
            r.len() == self.spec_entries().len(),
            forall|i: int| 0 <= i < r.len() ==> #[trigger] r[i] == self.spec_entries()[i].master_port,
    {
        let mut ports: Vec<u16> = Vec::new();
        let mut i: usize = 0;
        while i < self.entries.len()
            invariant
                i <= self.entries.len(),
                ports.len() == i,
                forall|j: int| 0 <= j < i ==> #[trigger] ports[j] == self.entries@[j].master_port,
            decreases self.entries.len() - i,
        {
            ports.push(self.entries[i].master_port);
            i = i + 1;
        }
        ports
    }
}

} // verus!
