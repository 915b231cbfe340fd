//! A point quad tree: each node owns a rectangle of the grid and holds up to
//! `capacity` entries; a full node splits into four quadrants.
use vstd::prelude::*;
use crate::geometry::Coordinate;

verus! {

broadcast use {vstd::seq_lib::group_seq_properties, vstd::seq_lib::group_filter_ensures, vstd::seq::group_seq_axioms};

/// The largest coordinate that a tree's range may reach: halving a range and
/// stepping one past the middle stay within `i64` below it.
pub const COORD_LIMIT: i64 = 0x3fff_ffff_ffff_ffff;

/// A closed rectangle: `min` is its top-left corner, `max` its bottom-right.
#[derive(Clone, Copy, Debug, PartialEq, Eq)]
pub struct Range {
    pub min: Coordinate,
    pub max: Coordinate,
}

impl Range {
    pub open spec fn spec_contains(self, p: Coordinate) -> bool {
        &&& self.min.x <= p.x <= self.max.x
        &&& self.min.y <= p.y <= self.max.y
    }

    pub open spec fn spec_intersects(self, other: Range) -> bool {
        !(self.max.x < other.min.x || self.min.x > other.max.x || self.max.y < other.min.y
            || self.min.y > other.max.y)
    }

    /// Width plus height, in steps of the grid.
    pub open spec fn size(self) -> int {
        (self.max.x - self.min.x) + (self.max.y - self.min.y)
    }

    /// Corners between 0 and `COORD_LIMIT` (a minimum may pass it by one when
    /// the range is empty).
    pub open spec fn in_limits(self) -> bool {
        &&& 0 <= self.min.x <= COORD_LIMIT + 1
        &&& 0 <= self.min.y <= COORD_LIMIT + 1
        &&& 0 <= self.max.x <= COORD_LIMIT
        &&& 0 <= self.max.y <= COORD_LIMIT
    }

    /// Holds at least two points.
    pub open spec fn more_than_a_point(self) -> bool {
        &&& self.min.x <= self.max.x
        &&& self.min.y <= self.max.y
        &&& (self.min.x < self.max.x || self.min.y < self.max.y)
    }

    pub fn contains(&self, point: &Coordinate) -> (r: bool)
        ensures
            r == self.spec_contains(*point),
    {
        point.x >= self.min.x && point.x <= self.max.x && point.y >= self.min.y && point.y
            <= self.max.y
    }

    pub fn intersects(&self, other: &Range) -> (r: bool)
        ensures
            r == self.spec_intersects(*other),
    {
        !(self.max.x < other.min.x || self.min.x > other.max.x || self.max.y < other.min.y
            || self.min.y > other.max.y)
    }
}

pub open spec fn mid(a: i64, b: i64) -> i64 {
    ((a + b) / 2) as i64
}

/// The top-left quadrant of `r`.
pub open spec fn nw_of(r: Range) -> Range {
    Range { min: r.min, max: Coordinate { x: mid(r.min.x, r.max.x), y: mid(r.min.y, r.max.y) } }
}

/// The top-right quadrant of `r`.
pub open spec fn ne_of(r: Range) -> Range {
    Range {
        min: Coordinate { x: (mid(r.min.x, r.max.x) + 1) as i64, y: r.min.y },
        max: Coordinate { x: r.max.x, y: mid(r.min.y, r.max.y) },
    }
}

/// The bottom-left quadrant of `r`.
pub open spec fn sw_of(r: Range) -> Range {
    Range {
        min: Coordinate { x: r.min.x, y: (mid(r.min.y, r.max.y) + 1) as i64 },
        max: Coordinate { x: mid(r.min.x, r.max.x), y: r.max.y },
    }
}

/// The bottom-right quadrant of `r`.
pub open spec fn se_of(r: Range) -> Range {
    Range {
        min: Coordinate {
            x: (mid(r.min.x, r.max.x) + 1) as i64,
            y: (mid(r.min.y, r.max.y) + 1) as i64,
        },
        max: r.max,
    }
}

/// A point of the tree and what is stored at it.
#[derive(Clone)]
pub struct Entry<T> {
    pub coordinate: Coordinate,
    pub data: T,
}

/// Whether `r` holds copies of the entries of `s`, in the same order: the same
/// coordinates, and data that `clone` gave for the data of `s`.
pub open spec fn clones_of<T: Clone>(r: Seq<Entry<T>>, s: Seq<Entry<T>>) -> bool {
    &&& r.len() == s.len()
    &&& forall|i: int|
        0 <= i < s.len() ==> (#[trigger] r[i]).coordinate == s[i].coordinate && cloned(
            s[i].data,
            r[i].data,
        )
}

pub open spec fn at_point<T>(p: Coordinate) -> spec_fn(Entry<T>) -> bool {
    |e: Entry<T>| e.coordinate == p
}

pub open spec fn in_range<T>(q: Range) -> spec_fn(Entry<T>) -> bool {
    |e: Entry<T>| q.spec_contains(e.coordinate)
}

/// How many entries of `s` lie at `p`.
pub open spec fn count_at<T>(s: Seq<Entry<T>>, p: Coordinate) -> nat {
    s.filter(at_point(p)).len()
}

/// The position of the first entry of `s`, from `i` on, that lies at `p`
/// (`s.len()` when there is none).
pub open spec fn first_at<T>(s: Seq<Entry<T>>, p: Coordinate, i: int) -> int
    decreases s.len() - i,
{
    if i < 0 || i >= s.len() {
        s.len() as int
    } else if s[i].coordinate == p {
        i
    } else {
        first_at(s, p, i + 1)
    }
}

/// The four quadrants of a split node.
pub struct Children<T> {
    pub nw: Node<T>,
    pub ne: Node<T>,
    pub sw: Node<T>,
    pub se: Node<T>,
}

impl<T> Children<T> {
    pub open spec fn contents(self) -> Seq<Entry<T>> {
        self.nw.contents() + self.ne.contents() + self.sw.contents() + self.se.contents()
    }
}

/// A node of the tree.  A leaf holds entries; a split node holds none and
/// passes them to its four quadrants.
pub struct Node<T> {
    range: Range,
    capacity: u64,
    entries: Vec<Entry<T>>,
    children: Option<Box<Children<T>>>,
}

impl<T> Node<T> {
    pub closed spec fn spec_range(self) -> Range {
        self.range
    }

    pub closed spec fn spec_capacity(self) -> u64 {
        self.capacity
    }

    pub closed spec fn is_leaf(self) -> bool {
        self.children is None
    }

    /// Every entry of the tree: a node's own entries, then those of its
    /// quadrants in the order top-left, top-right, bottom-left, bottom-right.
    pub closed spec fn contents(self) -> Seq<Entry<T>>
        decreases self,
    {
        match self.children {
            None => self.entries@,
            Some(ch) => self.entries@ + (ch.nw.contents() + ch.ne.contents() + ch.sw.contents()
                + ch.se.contents()),
        }
    }

    /// What a query for the rectangle `q` finds: nothing in a node whose range
    /// misses `q`; in a leaf, its entries inside `q`; in a split node, what its
    /// quadrants find, in order.
    pub closed spec fn found(self, q: Range) -> Seq<Entry<T>>
        decreases self,
    {
        if !self.range.spec_intersects(q) {
            Seq::empty()
        } else {
            match self.children {
                None => self.entries@.filter(in_range(q)),
                Some(ch) => ch.nw.found(q) + ch.ne.found(q) + ch.sw.found(q) + ch.se.found(q),
            }
        }
    }

    /// The tree's shape: a positive capacity shared by every node, ranges
    /// within limits, leaves holding at most `capacity` entries inside their
    /// range, and split nodes of more than one point whose quadrants are the
    /// four quarters of their range.
    pub closed spec fn wf(self) -> bool
        decreases self,
    {
        &&& self.capacity > 0
        &&& self.range.in_limits()
        &&& match self.children {
            None => {
                &&& self.entries.len() <= self.capacity
                &&& forall|i: int|
                    0 <= i < self.entries.len() ==> self.range.spec_contains(
                        (#[trigger] self.entries@[i]).coordinate,
                    )
            },
            Some(ch) => {
                &&& self.entries.len() == 0
                &&& self.range.more_than_a_point()
                &&& ch.nw.range == nw_of(self.range)
                &&& ch.ne.range == ne_of(self.range)
                &&& ch.sw.range == sw_of(self.range)
                &&& ch.se.range == se_of(self.range)
                &&& ch.nw.capacity == self.capacity
                &&& ch.ne.capacity == self.capacity
                &&& ch.sw.capacity == self.capacity
                &&& ch.se.capacity == self.capacity
                &&& ch.nw.wf()
                &&& ch.ne.wf()
                &&& ch.sw.wf()
                &&& ch.se.wf()
            },
        }
    }
}

/// A tree as a value: a leaf's entries in order, or the four quadrants of a
/// split node (top-left, top-right, bottom-left, bottom-right).
pub enum Shape<T> {
    Leaf(Seq<Entry<T>>),
    Split(Box<Shape<T>>, Box<Shape<T>>, Box<Shape<T>>, Box<Shape<T>>),
}

impl<T> Node<T> {
    /// The tree's shape: which nodes are split, and each leaf's entries.
    pub closed spec fn shape(self) -> Shape<T>
        decreases self,
    {
        match self.children {
            None => Shape::Leaf(self.entries@),
            Some(ch) => Shape::Split(
                Box::new(ch.nw.shape()),
                Box::new(ch.ne.shape()),
                Box::new(ch.sw.shape()),
                Box::new(ch.se.shape()),
            ),
        }
    }
}

/// The quadrants of a shape over `r`: a split node's four children, or, for a
/// leaf, four leaves that hold its entries of each quadrant, in order.
pub open spec fn quarters<T>(s: Shape<T>, r: Range) -> (Shape<T>, Shape<T>, Shape<T>, Shape<T>) {
    match s {
        Shape::Leaf(es) => (
            Shape::Leaf(es.filter(in_range(nw_of(r)))),
            Shape::Leaf(es.filter(in_range(ne_of(r)))),
            Shape::Leaf(es.filter(in_range(sw_of(r)))),
            Shape::Leaf(es.filter(in_range(se_of(r)))),
        ),
        Shape::Split(a, b, c, d) => (*a, *b, *c, *d),
    }
}

/// Where an entry goes in a tree of shape `s` over `r` whose leaves hold up to
/// `cap` entries: a leaf with room appends it to its list; a full leaf first
/// splits into its quadrants; a split node passes it to the first quadrant
/// whose range holds its point.
pub open spec fn placed<T>(s: Shape<T>, r: Range, cap: u64, e: Entry<T>) -> Shape<T>
    decreases r.size(),
    when r.in_limits() && r.spec_contains(e.coordinate)
{
    if s is Leaf && s->Leaf_0.len() < cap {
        Shape::Leaf(s->Leaf_0.push(e))
    } else if !r.more_than_a_point() {
        s
    } else {
        proof {
            lemma_quadrants(r, e.coordinate);
        }
        let (a, b, c, d) = quarters(s, r);
        if nw_of(r).spec_contains(e.coordinate) {
            Shape::Split(Box::new(placed(a, nw_of(r), cap, e)), Box::new(b), Box::new(c), Box::new(d))
        } else if ne_of(r).spec_contains(e.coordinate) {
            Shape::Split(Box::new(a), Box::new(placed(b, ne_of(r), cap, e)), Box::new(c), Box::new(d))
        } else if sw_of(r).spec_contains(e.coordinate) {
            Shape::Split(Box::new(a), Box::new(b), Box::new(placed(c, sw_of(r), cap, e)), Box::new(d))
        } else {
            Shape::Split(Box::new(a), Box::new(b), Box::new(c), Box::new(placed(d, se_of(r), cap, e)))
        }
    }
}

/// What a query for `q` finds in a tree of shape `s` over `r`: nothing where
/// `r` misses `q`; a leaf's entries inside `q`; the quadrants' finds in order.
pub open spec fn shape_found<T>(s: Shape<T>, r: Range, q: Range) -> Seq<Entry<T>>
    decreases s,
{
    if !r.spec_intersects(q) {
        Seq::empty()
    } else {
        match s {
            Shape::Leaf(es) => es.filter(in_range(q)),
            Shape::Split(a, b, c, d) => shape_found(*a, nw_of(r), q) + shape_found(*b, ne_of(r), q)
                + shape_found(*c, sw_of(r), q) + shape_found(*d, se_of(r), q),
        }
    }
}

/// A query of a well-formed tree finds what its shape and range say it finds.
pub proof fn law_query_follows_shape<T>(n: Node<T>, q: Range)
    requires
        n.wf(),
    ensures
        n.found(q) == shape_found(n.shape(), n.spec_range(), q),
    decreases n,
{
    match n.children {
        None => {},
        Some(ch) => {
            law_query_follows_shape(ch.nw, q);
            law_query_follows_shape(ch.ne, q);
            law_query_follows_shape(ch.sw, q);
            law_query_follows_shape(ch.se, q);
        },
    }
}

/// How many levels a tree of shape `s` has.
pub open spec fn shape_depth<T>(s: Shape<T>) -> nat
    decreases s,
{
    match s {
        Shape::Leaf(_) => 1,
        Shape::Split(a, b, c, d) => {
            let da = shape_depth(*a);
            let db = shape_depth(*b);
            let dc = shape_depth(*c);
            let dd = shape_depth(*d);
            let m1 = if da >= db { da } else { db };
            let m2 = if dc >= dd { dc } else { dd };
            1 + if m1 >= m2 { m1 } else { m2 }
        },
    }
}

/// How many times `n` must be halved, rounding up, to reach 1: the ceiling
/// of its base-2 logarithm (0 for 1 and below).
pub open spec fn halvings(n: int) -> nat
    decreases n,
{
    if n <= 1 {
        0
    } else {
        1 + halvings((n + 1) / 2)
    }
}

/// The number of grid points along the longer side of `r`.
pub open spec fn extent(r: Range) -> int {
    let w = r.max.x - r.min.x + 1;
    let h = r.max.y - r.min.y + 1;
    if w >= h { w } else { h }
}

proof fn lemma_halvings_monotone(m: int, n: int)
    requires
        m <= n,
    ensures
        halvings(m) <= halvings(n),
    decreases n,
{
    if m > 1 {
        lemma_halvings_monotone((m + 1) / 2, (n + 1) / 2);
    }
}

/// Each quadrant of a range of more than one point has at most half of its
/// extent, rounded up.
proof fn lemma_quadrant_extents(r: Range)
    requires
        r.in_limits(),
        r.more_than_a_point(),
    ensures
        extent(nw_of(r)) <= (extent(r) + 1) / 2,
        extent(ne_of(r)) <= (extent(r) + 1) / 2,
        extent(sw_of(r)) <= (extent(r) + 1) / 2,
        extent(se_of(r)) <= (extent(r) + 1) / 2,
{
}

/// A well-formed tree has at most one level more than the number of times
/// the longer side of its range can be halved: each split halves the range.
pub proof fn law_depth_bounded<T>(n: Node<T>)
    requires
        n.wf(),
    ensures
        shape_depth(n.shape()) <= halvings(extent(n.spec_range())) + 1,
    decreases n,
{
    match n.children {
        None => {},
        Some(ch) => {
            law_depth_bounded(ch.nw);
            law_depth_bounded(ch.ne);
            law_depth_bounded(ch.sw);
            law_depth_bounded(ch.se);
            let half = (extent(n.range) + 1) / 2;
            lemma_quadrant_extents(n.range);
            lemma_halvings_monotone(extent(ch.nw.range), half);
            lemma_halvings_monotone(extent(ch.ne.range), half);
            lemma_halvings_monotone(extent(ch.sw.range), half);
            lemma_halvings_monotone(extent(ch.se.range), half);
            assert(extent(n.range) >= 2);
            assert(halvings(extent(n.range)) == 1 + halvings(half));
        },
    }
}

/// Facts about how a range of more than one point splits into quadrants.
pub proof fn lemma_quadrants(r: Range, p: Coordinate)
    requires
        r.in_limits(),
        r.more_than_a_point(),
    ensures
        nw_of(r).in_limits() && ne_of(r).in_limits() && sw_of(r).in_limits() && se_of(r).in_limits(),
        r.spec_contains(p) ==> nw_of(r).spec_contains(p) || ne_of(r).spec_contains(p) || sw_of(
            r,
        ).spec_contains(p) || se_of(r).spec_contains(p),
        nw_of(r).spec_contains(p) ==> r.spec_contains(p) && 0 <= nw_of(r).size() < r.size(),
        ne_of(r).spec_contains(p) ==> r.spec_contains(p) && 0 <= ne_of(r).size() < r.size(),
        sw_of(r).spec_contains(p) ==> r.spec_contains(p) && 0 <= sw_of(r).size() < r.size(),
        se_of(r).spec_contains(p) ==> r.spec_contains(p) && 0 <= se_of(r).size() < r.size(),
        nw_of(r).spec_contains(p) ==> !ne_of(r).spec_contains(p) && !sw_of(r).spec_contains(p)
            && !se_of(r).spec_contains(p),
        ne_of(r).spec_contains(p) ==> !sw_of(r).spec_contains(p) && !se_of(r).spec_contains(p),
        sw_of(r).spec_contains(p) ==> !se_of(r).spec_contains(p),
{
}

/// The entries of a well-formed tree lie inside its range.
proof fn lemma_contents_in_range<T>(n: Node<T>)
    requires
        n.wf(),
    ensures
        forall|i: int|
            0 <= i < n.contents().len() ==> n.range.spec_contains((#[trigger] n.contents()[i]).coordinate),
    decreases n,
{
    match n.children {
        None => {},
        Some(ch) => {
            lemma_contents_in_range(ch.nw);
            lemma_contents_in_range(ch.ne);
            lemma_contents_in_range(ch.sw);
            lemma_contents_in_range(ch.se);
            let a = ch.nw.contents();
            let b = ch.ne.contents();
            let c = ch.sw.contents();
            let d = ch.se.contents();
            assert(n.contents() =~= a + b + c + d);
            assert forall|i: int| 0 <= i < n.contents().len() implies n.range.spec_contains(
                (#[trigger] n.contents()[i]).coordinate,
            ) by {
                let pt = n.contents()[i].coordinate;
                lemma_quadrants(n.range, pt);
                if i < a.len() {
                    assert(n.contents()[i] == a[i]);
                } else if i < a.len() + b.len() {
                    assert(n.contents()[i] == b[i - a.len()]);
                } else if i < a.len() + b.len() + c.len() {
                    assert(n.contents()[i] == c[i - a.len() - b.len()]);
                } else {
                    assert(n.contents()[i] == d[i - a.len() - b.len() - c.len()]);
                }
            }
        },
    }
}

proof fn lemma_count_add<T>(a: Seq<Entry<T>>, b: Seq<Entry<T>>, p: Coordinate)
    ensures
        count_at(a + b, p) == count_at(a, p) + count_at(b, p),
{
    Seq::filter_distributes_over_add(a, b, at_point(p));
}

proof fn lemma_count_all_at<T>(s: Seq<Entry<T>>, p: Coordinate)
    requires
        forall|i: int| 0 <= i < s.len() ==> (#[trigger] s[i]).coordinate == p,
    ensures
        count_at(s, p) == s.len(),
    decreases s.len(),
{
    if s.len() > 0 {
        lemma_count_all_at(s.drop_last(), p);
        assert(s.drop_last().push(s.last()) =~= s);
        s.drop_last().lemma_filter_push(s.last(), at_point(p));
    }
}

proof fn lemma_first_at_concat<T>(a: Seq<Entry<T>>, b: Seq<Entry<T>>, p: Coordinate, i: int)
    requires
        0 <= i <= a.len(),
    ensures
        first_at(a, p, i) < a.len() ==> first_at(a + b, p, i) == first_at(a, p, i),
        first_at(a, p, i) == a.len() ==> first_at(a + b, p, i) == a.len() + first_at(b, p, 0),
    decreases a.len() - i,
{
    if i < a.len() {
        assert((a + b)[i] == a[i]);
        lemma_first_at_concat(a, b, p, i + 1);
    } else {
        lemma_first_at_shift(a, b, p, 0);
    }
}

proof fn lemma_first_at_shift<T>(a: Seq<Entry<T>>, b: Seq<Entry<T>>, p: Coordinate, j: int)
    requires
        0 <= j <= b.len(),
    ensures
        first_at(a + b, p, a.len() + j) == a.len() + first_at(b, p, j),
    decreases b.len() - j,
{
    if j < b.len() {
        assert((a + b)[a.len() + j] == b[j]);
        lemma_first_at_shift(a, b, p, j + 1);
    }
}

proof fn lemma_first_at_bounds<T>(s: Seq<Entry<T>>, p: Coordinate, i: int)
    requires
        0 <= i <= s.len(),
    ensures
        i <= first_at(s, p, i) <= s.len(),
        first_at(s, p, i) < s.len() ==> s[first_at(s, p, i)].coordinate == p,
        first_at(s, p, i) == s.len() ==> forall|j: int| i <= j < s.len() ==> (#[trigger] s[j]).coordinate != p,
    decreases s.len() - i,
{
    if i < s.len() {
        lemma_first_at_bounds(s, p, i + 1);
    }
}

/// A sequence with no entry at `p` has no first entry at `p`.
proof fn lemma_first_at_none<T>(s: Seq<Entry<T>>, p: Coordinate, i: int)
    requires
        0 <= i <= s.len(),
        forall|j: int| i <= j < s.len() ==> (#[trigger] s[j]).coordinate != p,
    ensures
        first_at(s, p, i) == s.len(),
    decreases s.len() - i,
{
    if i < s.len() {
        lemma_first_at_none(s, p, i + 1);
    }
}


/// Where the entries at `p` all lie in a middle part of a sequence, the first
/// of them is found there, and replacing it replaces it in that part.
proof fn lemma_first_at_middle<T>(pre: Seq<Entry<T>>, mid: Seq<Entry<T>>, post: Seq<Entry<T>>, p: Coordinate, v: Entry<T>)
    requires
        forall|j: int| 0 <= j < pre.len() ==> (#[trigger] pre[j]).coordinate != p,
        forall|j: int| 0 <= j < post.len() ==> (#[trigger] post[j]).coordinate != p,
    ensures
        0 <= first_at(mid, p, 0) <= mid.len(),
        first_at(mid, p, 0) < mid.len() ==> first_at(pre + mid + post, p, 0) == pre.len() + first_at(mid, p, 0),
        first_at(mid, p, 0) < mid.len() ==> (pre + mid + post).update(pre.len() + first_at(mid, p, 0), v)
            == pre + mid.update(first_at(mid, p, 0), v) + post,
        first_at(mid, p, 0) == mid.len() ==> first_at(pre + mid + post, p, 0) == (pre + mid + post).len(),
{
    lemma_first_at_none(pre, p, 0);
    lemma_first_at_none(post, p, 0);
    lemma_first_at_bounds(mid, p, 0);
    lemma_first_at_concat(pre, mid, p, 0);
    lemma_first_at_concat(pre + mid, post, p, 0);
    if first_at(mid, p, 0) < mid.len() {
        lemma_first_at_concat(mid, post, p, 0);
        let k = first_at(mid, p, 0);
        assert((pre + mid + post).update(pre.len() + k, v) =~= pre + mid.update(k, v) + post);
    }
}


/// Entries inside a range that misses `p` are not at `p`.
proof fn lemma_outside<T>(s: Seq<Entry<T>>, r: Range, p: Coordinate)
    requires
        forall|i: int| 0 <= i < s.len() ==> r.spec_contains((#[trigger] s[i]).coordinate),
        !r.spec_contains(p),
    ensures
        forall|i: int| 0 <= i < s.len() ==> (#[trigger] s[i]).coordinate != p,
{
}

/// The four children are leaves over the four quadrants of `r`, with room for
/// `cap` entries between them.
spec fn leaf_quadrants<T>(ch: Children<T>, r: Range, cap: u64) -> bool {
    &&& ch.nw.children is None && ch.ne.children is None && ch.sw.children is None && ch.se.children is None
    &&& ch.nw.range == nw_of(r) && ch.ne.range == ne_of(r) && ch.sw.range == sw_of(r) && ch.se.range == se_of(r)
    &&& ch.nw.capacity == cap && ch.ne.capacity == cap && ch.sw.capacity == cap && ch.se.capacity == cap
    &&& ch.nw.entries.len() + ch.ne.entries.len() + ch.sw.entries.len() + ch.se.entries.len() <= cap
    &&& forall|i: int| 0 <= i < ch.nw.entries.len() ==> ch.nw.range.spec_contains((#[trigger] ch.nw.entries@[i]).coordinate)
    &&& forall|i: int| 0 <= i < ch.ne.entries.len() ==> ch.ne.range.spec_contains((#[trigger] ch.ne.entries@[i]).coordinate)
    &&& forall|i: int| 0 <= i < ch.sw.entries.len() ==> ch.sw.range.spec_contains((#[trigger] ch.sw.entries@[i]).coordinate)
    &&& forall|i: int| 0 <= i < ch.se.entries.len() ==> ch.se.range.spec_contains((#[trigger] ch.se.entries@[i]).coordinate)
}

proof fn lemma_mset4<T>(a: Seq<Entry<T>>, b: Seq<Entry<T>>, c: Seq<Entry<T>>, d: Seq<Entry<T>>)
    ensures
        (a + b + c + d).to_multiset() == a.to_multiset().add(b.to_multiset()).add(c.to_multiset()).add(d.to_multiset()),
{
    vstd::seq_lib::lemma_multiset_commutative(a, b);
    vstd::seq_lib::lemma_multiset_commutative(a + b, c);
    vstd::seq_lib::lemma_multiset_commutative(a + b + c, d);
}

proof fn lemma_count4<T>(a: Seq<Entry<T>>, b: Seq<Entry<T>>, c: Seq<Entry<T>>, d: Seq<Entry<T>>, p: Coordinate)
    ensures
        count_at(a + b + c + d, p) == count_at(a, p) + count_at(b, p) + count_at(c, p) + count_at(d, p),
{
    lemma_count_add(a, b, p);
    lemma_count_add(a + b, c, p);
    lemma_count_add(a + b + c, d, p);
}

proof fn lemma_push_mset_count<T>(s: Seq<Entry<T>>, e: Entry<T>)
    ensures
        s.push(e).to_multiset() == s.to_multiset().insert(e),
        forall|p: Coordinate| #[trigger] count_at(s.push(e), p) == count_at(s, p) + (if e.coordinate == p { 1nat } else { 0nat }),
{
    vstd::seq_lib::to_multiset_build(s, e);
    assert forall|p: Coordinate| #[trigger] count_at(s.push(e), p) == count_at(s, p) + (if e.coordinate == p { 1nat } else { 0nat }) by {
        s.lemma_filter_push(e, at_point(p));
    }
}


/// No entry of a sequence lying inside `r` is inside a rectangle that misses `r`.
proof fn lemma_filter_empty_outside<T>(s: Seq<Entry<T>>, r: Range, q: Range)
    requires
        forall|i: int| 0 <= i < s.len() ==> r.spec_contains((#[trigger] s[i]).coordinate),
        !r.spec_intersects(q),
    ensures
        s.filter(in_range(q)) == Seq::<Entry<T>>::empty(),
{
    let f = s.filter(in_range(q));
    if f.len() > 0 {
        s.lemma_filter_pred(in_range(q), 0);
        assert(f.contains(f[0]));
        s.lemma_filter_contains_rev(in_range(q), f[0]);
        let i = choose|i: int| 0 <= i < s.len() && s[i] == f[0];
        assert(r.spec_contains(s[i].coordinate));
    }
    assert(f =~= Seq::<Entry<T>>::empty());
}

/// Every entry of a well-formed tree lies inside the tree's range.
pub proof fn law_entries_within_range<T>(n: Node<T>)
    requires
        n.wf(),
    ensures
        forall|i: int|
            0 <= i < n.contents().len() ==> n.spec_range().spec_contains((#[trigger] n.contents()[i]).coordinate),
{
    lemma_contents_in_range(n);
}

/// A query of a well-formed tree finds exactly the stored entries that lie in
/// the queried rectangle, in the tree's order.
pub proof fn law_query_finds_entries_inside<T>(n: Node<T>, q: Range)
    requires
        n.wf(),
    ensures
        n.found(q) == n.contents().filter(in_range(q)),
    decreases n,
{
    lemma_contents_in_range(n);
    if !n.range.spec_intersects(q) {
        lemma_filter_empty_outside(n.contents(), n.range, q);
    } else {
        match n.children {
            None => {},
            Some(ch) => {
                law_query_finds_entries_inside(ch.nw, q);
                law_query_finds_entries_inside(ch.ne, q);
                law_query_finds_entries_inside(ch.sw, q);
                law_query_finds_entries_inside(ch.se, q);
                let a = ch.nw.contents();
                let b = ch.ne.contents();
                let c = ch.sw.contents();
                let d = ch.se.contents();
                assert(n.contents() =~= a + b + c + d);
                Seq::filter_distributes_over_add(a, b, in_range(q));
                Seq::filter_distributes_over_add(a + b, c, in_range(q));
                Seq::filter_distributes_over_add(a + b + c, d, in_range(q));
            },
        }
    }
}

/// An entry stored in a well-formed tree is found by every query whose
/// rectangle holds its point.
pub proof fn law_stored_entry_is_found<T>(n: Node<T>, q: Range, e: Entry<T>)
    requires
        n.wf(),
        n.contents().contains(e),
        q.spec_contains(e.coordinate),
    ensures
        n.found(q).contains(e),
{
    law_query_finds_entries_inside(n, q);
    let i = choose|i: int| 0 <= i < n.contents().len() && n.contents()[i] == e;
    n.contents().lemma_filter_contains(in_range(q), i);
}

/// A successful insert adds one entry at the inserted point and changes no
/// other point's entries.
pub proof fn law_insert_adds_one_at_point<T>(before: Seq<Entry<T>>, after: Seq<Entry<T>>, c: Entry<T>)
    requires
        after.to_multiset() == before.to_multiset().insert(c),
    ensures
        after.to_multiset().count(c) == before.to_multiset().count(c) + 1,
        after.len() == before.len() + 1,
        after.contains(c),
{
    broadcast use vstd::multiset::group_multiset_axioms, vstd::seq_lib::group_to_multiset_ensures;
    assert(after.to_multiset().count(c) > 0);
    assert(after.to_multiset().len() == after.len());
    assert(before.to_multiset().len() == before.len());
}

impl<T: Clone> Node<T> {
    /// An empty leaf over `range`.
    pub fn new(capacity: u64, range: Range) -> (r: Self)
        ensures
            r.spec_range() == range,
            r.spec_capacity() == capacity,
            r.is_leaf(),
            r.contents() == Seq::<Entry<T>>::empty(),
            capacity > 0 && range.in_limits() ==> r.wf(),
    {
        Self { range, capacity, entries: Vec::new(), children: None }
    }


    /// Puts `entry` into the first quadrant whose range holds it.  The
    /// quadrants are fresh leaves with room for it.
    fn insert_into_correct_child(children: &mut Children<T>, entry: Entry<T>, r: Ghost<Range>)
        requires
            r@.in_limits(),
            r@.more_than_a_point(),
            r@.spec_contains(entry.coordinate),
            leaf_quadrants(*old(children), r@, old(children).nw.capacity),
            old(children).nw.entries.len() + old(children).ne.entries.len() + old(children).sw.entries.len()
                + old(children).se.entries.len() < old(children).nw.capacity,
        ensures
            leaf_quadrants(*final(children), r@, old(children).nw.capacity),
            final(children).nw.entries.len() + final(children).ne.entries.len() + final(children).sw.entries.len()
                + final(children).se.entries.len() == old(children).nw.entries.len() + old(children).ne.entries.len()
                + old(children).sw.entries.len() + old(children).se.entries.len() + 1,
            final(children).contents().to_multiset() == old(children).contents().to_multiset().insert(entry),
            forall|p: Coordinate| #[trigger] count_at(final(children).contents(), p) == count_at(old(children).contents(), p)
                + (if entry.coordinate == p { 1nat } else { 0nat }),
            final(children).nw.entries@ == if nw_of(r@).spec_contains(entry.coordinate) {
                old(children).nw.entries@.push(entry)
            } else {
                old(children).nw.entries@
            },
            final(children).ne.entries@ == if ne_of(r@).spec_contains(entry.coordinate) {
                old(children).ne.entries@.push(entry)
            } else {
                old(children).ne.entries@
            },
            final(children).sw.entries@ == if sw_of(r@).spec_contains(entry.coordinate) {
                old(children).sw.entries@.push(entry)
            } else {
                old(children).sw.entries@
            },
            final(children).se.entries@ == if se_of(r@).spec_contains(entry.coordinate) {
                old(children).se.entries@.push(entry)
            } else {
                old(children).se.entries@
            },
    {
        let ghost a = children.nw.entries@;
        let ghost b = children.ne.entries@;
        let ghost c = children.sw.entries@;
        let ghost d = children.se.entries@;
        proof {
            lemma_quadrants(r@, entry.coordinate);
            lemma_push_mset_count(a, entry);
            lemma_push_mset_count(b, entry);
            lemma_push_mset_count(c, entry);
            lemma_push_mset_count(d, entry);
            lemma_mset4(a, b, c, d);
            lemma_mset4(a.push(entry), b, c, d);
            lemma_mset4(a, b.push(entry), c, d);
            lemma_mset4(a, b, c.push(entry), d);
            lemma_mset4(a, b, c, d.push(entry));
            assert forall|p: Coordinate| #[trigger] count_at(a + b + c + d, p) == count_at(a, p) + count_at(b, p) + count_at(c, p) + count_at(d, p) by {
                lemma_count4(a, b, c, d, p);
            }
            assert forall|p: Coordinate| #[trigger] count_at(a.push(entry) + b + c + d, p) == count_at(a.push(entry), p) + count_at(b, p) + count_at(c, p) + count_at(d, p) by {
                lemma_count4(a.push(entry), b, c, d, p);
            }
            assert forall|p: Coordinate| #[trigger] count_at(a + b.push(entry) + c + d, p) == count_at(a, p) + count_at(b.push(entry), p) + count_at(c, p) + count_at(d, p) by {
                lemma_count4(a, b.push(entry), c, d, p);
            }
            assert forall|p: Coordinate| #[trigger] count_at(a + b + c.push(entry) + d, p) == count_at(a, p) + count_at(b, p) + count_at(c.push(entry), p) + count_at(d, p) by {
                lemma_count4(a, b, c.push(entry), d, p);
            }
            assert forall|p: Coordinate| #[trigger] count_at(a + b + c + d.push(entry), p) == count_at(a, p) + count_at(b, p) + count_at(c, p) + count_at(d.push(entry), p) by {
                lemma_count4(a, b, c, d.push(entry), p);
            }
        }
        if children.nw.range.contains(&entry.coordinate) {
            children.nw.entries.push(entry);
        } else if children.ne.range.contains(&entry.coordinate) {
            children.ne.entries.push(entry);
        } else if children.sw.range.contains(&entry.coordinate) {
            children.sw.entries.push(entry);
        } else {
            children.se.entries.push(entry);
        }
        proof {
            let m = a.to_multiset().add(b.to_multiset()).add(c.to_multiset()).add(d.to_multiset());
            broadcast use vstd::multiset::group_multiset_axioms;
            assert(children.contents().to_multiset() =~= m.insert(entry));
        }
    }

    /// Splits a full leaf into four quadrant leaves and hands its entries down.
    fn subdivide(&mut self)
        requires
            old(self).wf(),
            old(self).children is None,
            old(self).range.more_than_a_point(),
        ensures
            final(self).wf(),
            final(self).children is Some,
            final(self).range == old(self).range,
            final(self).capacity == old(self).capacity,
            final(self).contents().to_multiset() == old(self).contents().to_multiset(),
            forall|p: Coordinate| #[trigger] count_at(final(self).contents(), p) == count_at(old(self).contents(), p),
            final(self).entries@.len() == 0,
            final(self).children matches Some(ch) && leaf_quadrants(*ch, old(self).range, old(self).capacity)
                && ch.nw.entries@ == old(self).entries@.filter(in_range(nw_of(old(self).range)))
                && ch.ne.entries@ == old(self).entries@.filter(in_range(ne_of(old(self).range)))
                && ch.sw.entries@ == old(self).entries@.filter(in_range(sw_of(old(self).range)))
                && ch.se.entries@ == old(self).entries@.filter(in_range(se_of(old(self).range))),
    {
        let mid_x = (self.range.min.x + self.range.max.x) / 2;
        let mid_y = (self.range.min.y + self.range.max.y) / 2;
        let nw = Node::new(self.capacity, Range { min: self.range.min, max: Coordinate { x: mid_x, y: mid_y } });
        let ne = Node::new(
            self.capacity,
            Range { min: Coordinate { x: mid_x + 1, y: self.range.min.y }, max: Coordinate { x: self.range.max.x, y: mid_y } },
        );
        let sw = Node::new(
            self.capacity,
            Range { min: Coordinate { x: self.range.min.x, y: mid_y + 1 }, max: Coordinate { x: mid_x, y: self.range.max.y } },
        );
        let se = Node::new(
            self.capacity,
            Range { min: Coordinate { x: mid_x + 1, y: mid_y + 1 }, max: self.range.max },
        );
        let mut children = Children { nw, ne, sw, se };
        let mut old_entries: Vec<Entry<T>> = Vec::new();
        std::mem::swap(&mut old_entries, &mut self.entries);
        let ghost orig = old_entries@;
        let ghost r = self.range;
        proof {
            assert(children.contents() =~= Seq::<Entry<T>>::empty());
            assert(orig.take(0) =~= Seq::<Entry<T>>::empty());
            assert(orig.take(0).filter(in_range(nw_of(r))) =~= Seq::<Entry<T>>::empty());
            assert(orig.take(0).filter(in_range(ne_of(r))) =~= Seq::<Entry<T>>::empty());
            assert(orig.take(0).filter(in_range(sw_of(r))) =~= Seq::<Entry<T>>::empty());
            assert(orig.take(0).filter(in_range(se_of(r))) =~= Seq::<Entry<T>>::empty());
            assert(orig.skip(0) =~= orig);
        }
        let mut k: usize = 0;
        while old_entries.len() > 0
            invariant
                r == old(self).range,
                r.in_limits(),
                r.more_than_a_point(),
                orig == old(self).entries@,
                orig.len() <= old(self).capacity,
                forall|i: int| 0 <= i < orig.len() ==> r.spec_contains((#[trigger] orig[i]).coordinate),
                k <= orig.len(),
                old_entries@ == orig.skip(k as int),
                old_entries.len() + k == orig.len(),
                orig.len() <= usize::MAX,
                leaf_quadrants(children, r, old(self).capacity),
                children.nw.entries.len() + children.ne.entries.len() + children.sw.entries.len() + children.se.entries.len() == k,
                children.contents().to_multiset() == orig.take(k as int).to_multiset(),
                forall|p: Coordinate| #[trigger] count_at(children.contents(), p) == count_at(orig.take(k as int), p),
                children.nw.entries@ == orig.take(k as int).filter(in_range(nw_of(r))),
                children.ne.entries@ == orig.take(k as int).filter(in_range(ne_of(r))),
                children.sw.entries@ == orig.take(k as int).filter(in_range(sw_of(r))),
                children.se.entries@ == orig.take(k as int).filter(in_range(se_of(r))),
            decreases old_entries.len(),
        {
            let e = old_entries.remove(0);
            proof {
                assert(e == orig[k as int]);
                assert(orig.take(k + 1) =~= orig.take(k as int).push(e));
                lemma_push_mset_count(orig.take(k as int), e);
                orig.take(k as int).lemma_filter_push(e, in_range(nw_of(r)));
                orig.take(k as int).lemma_filter_push(e, in_range(ne_of(r)));
                orig.take(k as int).lemma_filter_push(e, in_range(sw_of(r)));
                orig.take(k as int).lemma_filter_push(e, in_range(se_of(r)));
                assert(old_entries@ =~= orig.skip(k + 1));
            }
            Self::insert_into_correct_child(&mut children, e, Ghost(r));
            k = k + 1;
        }
        proof {
            assert(orig.take(k as int) =~= orig);
            assert(self.entries@ =~= Seq::<Entry<T>>::empty());
            lemma_quadrants(r, r.min);
        }
        proof {
            lemma_quadrants(r, r.min);
            assert(children.nw.wf());
            assert(children.ne.wf());
            assert(children.sw.wf());
            assert(children.se.wf());
        }
        self.children = Some(Box::new(children));
        proof {
            assert(self.contents() =~= children.contents());
        }
    }

    /// Stores a copy of `entry` in the leaf whose range holds it, splitting
    /// full leaves on the way.
    fn insert_owned(&mut self, e: Entry<T>)
        requires
            old(self).wf(),
            old(self).range.spec_contains(e.coordinate),
            count_at(old(self).contents(), e.coordinate) < old(self).capacity,
        ensures
            final(self).wf(),
            final(self).range == old(self).range,
            final(self).capacity == old(self).capacity,
            final(self).contents().to_multiset() == old(self).contents().to_multiset().insert(e),
            forall|p: Coordinate| #[trigger] count_at(final(self).contents(), p) == count_at(old(self).contents(), p)
                + (if e.coordinate == p { 1nat } else { 0nat }),
            final(self).shape() == placed(old(self).shape(), old(self).range, old(self).capacity, e),
        decreases old(self).range.size(),
    {
        let ghost before = *self;
        if self.children.is_none() {
            if (self.entries.len() as u64) < self.capacity {
                proof {
                    lemma_push_mset_count(self.entries@, e);
                }
                self.entries.push(e);
                return;
            }
            proof {
                if !self.range.more_than_a_point() {
                    assert(forall|i: int| 0 <= i < self.entries@.len() ==> (#[trigger] self.entries@[i]).coordinate == e.coordinate);
                    lemma_count_all_at(self.entries@, e.coordinate);
                }
            }
            self.subdivide();
        }
        let ghost pre = *self;
        let mut ch = match self.children.take() {
            Some(c) => c,
            None => {
                proof {
                    assert(false);
                }
                return;
            },
        };
        let ghost a = ch.nw.contents();
        let ghost b = ch.ne.contents();
        let ghost c = ch.sw.contents();
        let ghost d = ch.se.contents();
        proof {
            lemma_quadrants(pre.range, e.coordinate);
            assert(pre.contents() =~= a + b + c + d);
            lemma_count4(a, b, c, d, e.coordinate);
            assert forall|p: Coordinate| #[trigger] count_at(a + b + c + d, p) == count_at(a, p) + count_at(b, p) + count_at(c, p) + count_at(d, p) by {
                lemma_count4(a, b, c, d, p);
            }
            lemma_mset4(a, b, c, d);
        }
        if ch.nw.range.contains(&e.coordinate) {
            ch.nw.insert_owned(e);
        } else if ch.ne.range.contains(&e.coordinate) {
            ch.ne.insert_owned(e);
        } else if ch.sw.range.contains(&e.coordinate) {
            ch.sw.insert_owned(e);
        } else {
            ch.se.insert_owned(e);
        }
        let ghost a2 = ch.nw.contents();
        let ghost b2 = ch.ne.contents();
        let ghost c2 = ch.sw.contents();
        let ghost d2 = ch.se.contents();
        self.children = Some(ch);
        proof {
            assert(before.range.more_than_a_point());
            if before.children is None {
                let ch0 = pre.children->0;
                assert(ch0.nw.shape() == Shape::Leaf(ch0.nw.entries@));
                assert(ch0.ne.shape() == Shape::Leaf(ch0.ne.entries@));
                assert(ch0.sw.shape() == Shape::Leaf(ch0.sw.entries@));
                assert(ch0.se.shape() == Shape::Leaf(ch0.se.entries@));
                assert(before.shape() == Shape::Leaf(before.entries@));
            }
            assert(quarters(before.shape(), before.range) == quarters(pre.shape(), pre.range));
            assert(self.shape() == placed(before.shape(), before.range, before.capacity, e));
            assert(self.contents() =~= a2 + b2 + c2 + d2);
            lemma_mset4(a2, b2, c2, d2);
            assert forall|p: Coordinate| #[trigger] count_at(self.contents(), p) == count_at(pre.contents(), p)
                + (if e.coordinate == p { 1nat } else { 0nat }) by {
                lemma_count4(a2, b2, c2, d2, p);
            }
            broadcast use vstd::multiset::group_multiset_axioms;
            assert(self.contents().to_multiset() =~= pre.contents().to_multiset().insert(e));
        }
    }

    /// Stores a copy of `entry` in the tree; says whether the tree's range
    /// holds its point (an entry outside it is not stored).
    pub fn insert(&mut self, entry: &Entry<T>) -> (r: bool)
        requires
            old(self).wf(),
            count_at(old(self).contents(), entry.coordinate) < old(self).spec_capacity(),
        ensures
            final(self).wf(),
            final(self).spec_range() == old(self).spec_range(),
            final(self).spec_capacity() == old(self).spec_capacity(),
            r == old(self).spec_range().spec_contains(entry.coordinate),
            !r ==> final(self).contents() == old(self).contents(),
            r ==> exists|c: Entry<T>|
                c.coordinate == entry.coordinate && cloned(entry.data, c.data)
                    && #[trigger] final(self).contents().to_multiset() == old(self).contents().to_multiset().insert(c)
                    && final(self).shape() == placed(old(self).shape(), old(self).spec_range(), old(self).spec_capacity(), c),
            !r ==> final(self).shape() == old(self).shape(),
            forall|p: Coordinate| #[trigger] count_at(final(self).contents(), p) == count_at(old(self).contents(), p)
                + (if r && entry.coordinate == p { 1nat } else { 0nat }),
    {
        if !self.range.contains(&entry.coordinate) {
            return false;
        }
        let e = Entry { coordinate: entry.coordinate, data: entry.data.clone() };
        self.insert_owned(e);
        true
    }

    /// Replaces the data of the first entry at `entry`'s point with a copy of
    /// `entry`'s data; says whether there was such an entry.
    pub fn update(&mut self, entry: &Entry<T>) -> (r: bool)
        requires
            old(self).wf(),
        ensures
            final(self).wf(),
            final(self).spec_range() == old(self).spec_range(),
            final(self).spec_capacity() == old(self).spec_capacity(),
            r == (first_at(old(self).contents(), entry.coordinate, 0) < old(self).contents().len()),
            !r ==> final(self).contents() == old(self).contents(),
            r ==> exists|d: T|
                cloned(entry.data, d) && #[trigger] final(self).contents() == old(self).contents().update(
                    first_at(old(self).contents(), entry.coordinate, 0),
                    Entry { coordinate: entry.coordinate, data: d },
                ),
        decreases old(self).spec_range().size(),
    {
        let ghost p = entry.coordinate;
        if !self.range.contains(&entry.coordinate) {
            proof {
                lemma_contents_in_range(*self);
                lemma_first_at_none(self.contents(), p, 0);
            }
            return false;
        }
        if self.children.is_none() {
            let mut i: usize = 0;
            while i < self.entries.len()
                invariant
                    i <= self.entries.len(),
                    *self == *old(self),
                    self.wf(),
                    self.range.spec_contains(entry.coordinate),
                    self.children is None,
                    first_at(self.entries@, p, 0) == first_at(self.entries@, p, i as int),
                    p == entry.coordinate,
                decreases self.entries.len() - i,
            {
                if self.entries[i].coordinate.x == entry.coordinate.x && self.entries[i].coordinate.y == entry.coordinate.y {
                    let d = entry.data.clone();
                    let ne = Entry { coordinate: entry.coordinate, data: d };
                    proof {
                        lemma_first_at_bounds(self.entries@, p, i as int);
                        assert(self.entries@[i as int].coordinate == p);
                        assert(first_at(self.entries@, p, i as int) == i);
                    }
                    self.entries.set(i, ne);
                    proof {
                        assert(cloned(entry.data, d));
                        assert(self.contents() == self.entries@);
                        assert(self.entries@ =~= old(self).contents().update(i as int, ne));
                        assert(forall|j: int| 0 <= j < self.entries@.len() ==> self.range.spec_contains((#[trigger] self.entries@[j]).coordinate));
                    }
                    return true;
                }
                i = i + 1;
            }
            proof {
                lemma_first_at_bounds(self.entries@, p, i as int);
            }
            return false;
        }
        let ghost pre = *self;
        let mut ch = match self.children.take() {
            Some(c) => c,
            None => {
                proof {
                    assert(false);
                }
                return false;
            },
        };
        let ghost a = ch.nw.contents();
        let ghost b = ch.ne.contents();
        let ghost c = ch.sw.contents();
        let ghost d = ch.se.contents();
        proof {
            lemma_quadrants(pre.range, p);
            assert(pre.contents() =~= a + b + c + d);
            lemma_contents_in_range(ch.nw);
            lemma_contents_in_range(ch.ne);
            lemma_contents_in_range(ch.sw);
            lemma_contents_in_range(ch.se);
        }
        let found: bool;
        if ch.nw.range.contains(&entry.coordinate) {
            found = ch.nw.update(entry);
            proof {
                lemma_outside(b, ch.ne.range, p);
                lemma_outside(c, ch.sw.range, p);
                lemma_outside(d, ch.se.range, p);
                let v = if found {
                    let dd = choose|dd: T| cloned(entry.data, dd) && #[trigger] ch.nw.contents() == a.update(first_at(a, p, 0), Entry { coordinate: p, data: dd });
                    Entry { coordinate: p, data: dd }
                } else {
                    Entry { coordinate: p, data: arbitrary() }
                };
                lemma_first_at_middle(Seq::<Entry<T>>::empty(), a, b + c + d, p, v);
                assert(Seq::<Entry<T>>::empty() + a + (b + c + d) =~= a + b + c + d);
                assert(Seq::<Entry<T>>::empty() + ch.nw.contents() + (b + c + d) =~= ch.nw.contents() + b + c + d);
            }
        } else if ch.ne.range.contains(&entry.coordinate) {
            found = ch.ne.update(entry);
            proof {
                lemma_outside(a, ch.nw.range, p);
                lemma_outside(c, ch.sw.range, p);
                lemma_outside(d, ch.se.range, p);
                let v = if found {
                    let dd = choose|dd: T| cloned(entry.data, dd) && #[trigger] ch.ne.contents() == b.update(first_at(b, p, 0), Entry { coordinate: p, data: dd });
                    Entry { coordinate: p, data: dd }
                } else {
                    Entry { coordinate: p, data: arbitrary() }
                };
                lemma_first_at_middle(a, b, c + d, p, v);
                assert(a + b + (c + d) =~= a + b + c + d);
                assert(a + ch.ne.contents() + (c + d) =~= a + ch.ne.contents() + c + d);
            }
        } else if ch.sw.range.contains(&entry.coordinate) {
            found = ch.sw.update(entry);
            proof {
                lemma_outside(a, ch.nw.range, p);
                lemma_outside(b, ch.ne.range, p);
                lemma_outside(d, ch.se.range, p);
                let v = if found {
                    let dd = choose|dd: T| cloned(entry.data, dd) && #[trigger] ch.sw.contents() == c.update(first_at(c, p, 0), Entry { coordinate: p, data: dd });
                    Entry { coordinate: p, data: dd }
                } else {
                    Entry { coordinate: p, data: arbitrary() }
                };
                lemma_first_at_middle(a + b, c, d, p, v);
            }
        } else {
            found = ch.se.update(entry);
            proof {
                lemma_outside(a, ch.nw.range, p);
                lemma_outside(b, ch.ne.range, p);
                lemma_outside(c, ch.sw.range, p);
                let v = if found {
                    let dd = choose|dd: T| cloned(entry.data, dd) && #[trigger] ch.se.contents() == d.update(first_at(d, p, 0), Entry { coordinate: p, data: dd });
                    Entry { coordinate: p, data: dd }
                } else {
                    Entry { coordinate: p, data: arbitrary() }
                };
                lemma_first_at_middle(a + b + c, d, Seq::<Entry<T>>::empty(), p, v);
                assert(a + b + c + d + Seq::<Entry<T>>::empty() =~= a + b + c + d);
                assert(a + b + c + ch.se.contents() + Seq::<Entry<T>>::empty() =~= a + b + c + ch.se.contents());
            }
        }
        let ghost a2 = ch.nw.contents();
        let ghost b2 = ch.ne.contents();
        let ghost c2 = ch.sw.contents();
        let ghost d2 = ch.se.contents();
        self.children = Some(ch);
        proof {
            assert(self.contents() =~= a2 + b2 + c2 + d2);
        }
        found
    }

    /// Copies of the entries inside `query` (see `found`), or `None` when
    /// there are none.
    pub fn get(&self, query: &Range) -> (r: Option<Vec<Entry<T>>>)
        ensures
            match r {
                None => self.found(*query).len() == 0,
                Some(v) => v@.len() > 0 && clones_of(v@, self.found(*query)),
            },
        decreases self,
    {
        if !self.range.intersects(query) {
            return None;
        }
        match &self.children {
            None => {
                let mut filtered: Vec<Entry<T>> = Vec::new();
                let mut i: usize = 0;
                while i < self.entries.len()
                    invariant
                        i <= self.entries.len(),
                        clones_of(filtered@, self.entries@.take(i as int).filter(in_range(*query))),
                    decreases self.entries.len() - i,
                {
                    proof {
                        let before = self.entries@.take(i as int);
                        assert(self.entries@.take(i + 1) =~= before.push(self.entries@[i as int]));
                        before.lemma_filter_push(self.entries@[i as int], in_range(*query));
                    }
                    if query.contains(&self.entries[i].coordinate) {
                        let e = Entry {
                            coordinate: self.entries[i].coordinate,
                            data: self.entries[i].data.clone(),
                        };
                        filtered.push(e);
                    }
                    i = i + 1;
                }
                assert(self.entries@.take(self.entries.len() as int) =~= self.entries@);
                if filtered.len() == 0 {
                    None
                } else {
                    Some(filtered)
                }
            },
            Some(ch) => {
                let mut result: Vec<Entry<T>> = Vec::new();
                let ghost fnw = ch.nw.found(*query);
                let ghost fne = ch.ne.found(*query);
                let ghost fsw = ch.sw.found(*query);
                let ghost fse = ch.se.found(*query);
                let r1 = ch.nw.get(query);
                if let Some(mut v) = r1 {
                    result.append(&mut v);
                }
                assert(clones_of(result@, fnw));
                let r2 = ch.ne.get(query);
                if let Some(mut v) = r2 {
                    result.append(&mut v);
                }
                assert(clones_of(result@, fnw + fne)) by {
                    assert forall|i: int| 0 <= i < fnw.len() + fne.len() implies (#[trigger] result@[i]).coordinate == (fnw + fne)[i].coordinate && cloned((fnw + fne)[i].data, result@[i].data) by {
                        if i < fnw.len() {
                        } else {
                        }
                    }
                }
                let r3 = ch.sw.get(query);
                if let Some(mut v) = r3 {
                    result.append(&mut v);
                }
                assert(clones_of(result@, fnw + fne + fsw)) by {
                    assert forall|i: int| 0 <= i < fnw.len() + fne.len() + fsw.len() implies (#[trigger] result@[i]).coordinate == (fnw + fne + fsw)[i].coordinate && cloned((fnw + fne + fsw)[i].data, result@[i].data) by {
                        if i < fnw.len() + fne.len() {
                        } else {
                        }
                    }
                }
                let r4 = ch.se.get(query);
                if let Some(mut v) = r4 {
                    result.append(&mut v);
                }
                assert(clones_of(result@, fnw + fne + fsw + fse)) by {
                    assert forall|i: int| 0 <= i < fnw.len() + fne.len() + fsw.len() + fse.len() implies (#[trigger] result@[i]).coordinate == (fnw + fne + fsw + fse)[i].coordinate && cloned((fnw + fne + fsw + fse)[i].data, result@[i].data) by {
                        if i < fnw.len() + fne.len() + fsw.len() {
                        } else {
                        }
                    }
                }
                if result.len() == 0 {
                    None
                } else {
                    Some(result)
                }
            },
        }
    }
}

} // verus!
