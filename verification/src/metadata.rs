//! A zone node's own ports and its neighbours on the grid.
use vstd::prelude::*;

verus! {

/// The four sides of a zone node's region.
#[derive(Clone, Copy, Debug, PartialEq, Eq, Hash)]
pub enum Direction {
    North,
    South,
    West,
    East,
}

pub open spec fn spec_inverse(d: Direction) -> Direction {
    match d {
        Direction::North => Direction::South,
        Direction::South => Direction::North,
        Direction::East => Direction::West,
        Direction::West => Direction::East,
    }
}

/// The name of a direction as it is reported to clients.
pub open spec fn direction_name(d: Direction) -> Seq<char> {
    match d {
        Direction::North => "North"@,
        Direction::South => "South"@,
        Direction::West => "West"@,
        Direction::East => "East"@,
    }
}

impl Direction {
    /// The opposite side.
    pub fn inverse(&self) -> (r: Direction)
        ensures
            r == spec_inverse(*self),
    {
        match self {
            Direction::North => Direction::South,
            Direction::South => Direction::North,
            Direction::East => Direction::West,
            Direction::West => Direction::East,
        }
    }

    /// The name of the direction, as `{:?}` prints it.
    pub fn name(&self) -> (r: String)
        ensures
            r@ == direction_name(*self),
    {
        match self {
            Direction::North => String::from_str("North"),
            Direction::South => String::from_str("South"),
            Direction::West => String::from_str("West"),
            Direction::East => String::from_str("East"),
        }
    }
}

/// The opposite of the opposite side is the side itself, and no side is its
/// own opposite.
pub proof fn law_inverse_is_involution(d: Direction)
    ensures
        spec_inverse(spec_inverse(d)) == d,
        spec_inverse(d) != d,
{
}

/// A neighbouring zone node: its identity, its replication port, and the DER
/// bytes of the certificate it presents.
#[derive(Clone, Debug, PartialEq, Eq)]
pub struct NeighborInfo {
    pub id: u128,
    pub port: u16,
    pub cert: Vec<u8>,
}

/// A neighbour as a value: identity, port and certificate bytes.
pub type NeighborView = (u128, u16, Seq<u8>);

impl View for NeighborInfo {
    type V = NeighborView;

    open spec fn view(&self) -> NeighborView {
        (self.id, self.port, self.cert@)
    }
}

/// A copy of a byte vector.
pub fn copy_bytes(v: &Vec<u8>) -> (r: Vec<u8>)
    ensures
        r@ == v@,
{
    let mut r: Vec<u8> = Vec::new();
    let mut i: usize = 0;
    while i < v.len()
        invariant
            i <= v.len(),
            r@ == v@.take(i as int),
        decreases v.len() - i,
    {
        r.push(v[i]);
        i = i + 1;
        proof {
            assert(r@ =~= v@.take(i as int));
        }
    }
    proof {
        assert(v@.take(v.len() as int) =~= v@);
    }
    r
}

impl NeighborInfo {
    /// A copy of this neighbour.
    pub fn copied(&self) -> (r: Self)
        ensures
            r@ == self@,
    {
        NeighborInfo { id: self.id, port: self.port, cert: copy_bytes(&self.cert) }
    }
}

/// The neighbour, if any, on each side.
pub struct Neighbors {
    north: Option<NeighborInfo>,
    south: Option<NeighborInfo>,
    west: Option<NeighborInfo>,
    east: Option<NeighborInfo>,
}

pub open spec fn view_of_pair(e: (Direction, NeighborInfo)) -> (Direction, NeighborView) {
    (e.0, e.1@)
}

/// The neighbours that a list of (side, neighbour) pairs describes: a later
/// pair for a side replaces an earlier one.
pub open spec fn neighbors_of(entries: Seq<(Direction, NeighborInfo)>) -> Map<Direction, NeighborView>
    decreases entries.len(),
{
    if entries.len() == 0 {
        Map::empty()
    } else {
        neighbors_of(entries.drop_last()).insert(entries.last().0, entries.last().1@)
    }
}

pub open spec fn slot(m: Map<Direction, NeighborView>, d: Direction) -> Option<NeighborView> {
    if m.contains_key(d) {
        Some(m[d])
    } else {
        None
    }
}

pub open spec fn listed_at(m: Map<Direction, NeighborView>, d: Direction) -> Seq<(Direction, NeighborView)> {
    if m.contains_key(d) {
        seq![(d, m[d])]
    } else {
        Seq::empty()
    }
}

/// The neighbours of `m`, listed north, south, west, east.
pub open spec fn neighbor_list(m: Map<Direction, NeighborView>) -> Seq<(Direction, NeighborView)> {
    listed_at(m, Direction::North) + listed_at(m, Direction::South) + listed_at(m, Direction::West)
        + listed_at(m, Direction::East)
}

/// The side of the first listed neighbour whose identity is `id`.
pub open spec fn direction_of_id(list: Seq<(Direction, NeighborView)>, id: u128) -> Option<Direction>
    decreases list.len(),
{
    if list.len() == 0 {
        None
    } else if list[0].1.0 == id {
        Some(list[0].0)
    } else {
        direction_of_id(list.drop_first(), id)
    }
}

pub open spec fn id_below(id: u128) -> spec_fn((Direction, NeighborView)) -> bool {
    |e: (Direction, NeighborView)| e.1.0 < id
}

/// The listed neighbours whose identity is below `id`, in order.
pub open spec fn below_id(list: Seq<(Direction, NeighborView)>, id: u128) -> Seq<(Direction, NeighborView)> {
    list.filter(id_below(id))
}

impl Neighbors {
    pub closed spec fn spec_slot(&self, d: Direction) -> Option<NeighborInfo> {
        match d {
            Direction::North => self.north,
            Direction::South => self.south,
            Direction::West => self.west,
            Direction::East => self.east,
        }
    }

    pub closed spec fn view(&self) -> Map<Direction, NeighborView> {
        Map::new(|d: Direction| self.spec_slot(d) is Some, |d: Direction| self.spec_slot(d)->0@)
    }

    /// Neighbours from (side, neighbour) pairs; a later pair for a side
    /// replaces an earlier one.
    pub fn new(entries: Vec<(Direction, NeighborInfo)>) -> (r: Self)
        ensures
            r.view() == neighbors_of(entries@),
    {
        let mut r = Neighbors { north: None, south: None, west: None, east: None };
        let mut i: usize = 0;
        let ghost all = entries@;
        proof {
            assert(all.len() == entries.len());
            assert(all.take(0) =~= Seq::<(Direction, NeighborInfo)>::empty());
            assert(r.view() =~= Map::<Direction, NeighborView>::empty());
        }
        let mut rest = entries;
        while rest.len() > 0
            invariant
                i <= all.len(),
                all.len() <= usize::MAX,
                rest@ == all.skip(i as int),
                rest.len() + i == all.len(),
                r.view() == neighbors_of(all.take(i as int)),
            decreases rest.len(),
        {
            let (d, info) = rest.remove(0);
            proof {
                assert(all.take(i + 1).drop_last() =~= all.take(i as int));
                assert(all.take(i + 1).last() == (d, info));
                assert(rest@ =~= all.skip(i + 1));
            }
            match d {
                Direction::North => r.north = Some(info),
                Direction::South => r.south = Some(info),
                Direction::West => r.west = Some(info),
                Direction::East => r.east = Some(info),
            }
            i = i + 1;
            proof {
                assert(r.view() =~= neighbors_of(all.take(i as int)));
            }
        }
        proof {
            assert(all.take(i as int) =~= all);
        }
        r
    }

    /// The neighbour on side `d`, if any.
    pub fn get(&self, d: Direction) -> (r: Option<NeighborInfo>)
        ensures
            match r {
                Some(info) => slot(self.view(), d) == Some(info@),
                None => slot(self.view(), d) is None,
            },
    {
        let s = match d {
            Direction::North => &self.north,
            Direction::South => &self.south,
            Direction::West => &self.west,
            Direction::East => &self.east,
        };
        match s {
            Some(info) => Some(info.copied()),
            None => None,
        }
    }

    /// Each neighbour's replication port, listed north, south, west, east.
    pub fn get_all_ports(&self) -> (r: Vec<(Direction, u16)>)
        ensures
            r@ == neighbor_list(self.view()).map_values(|e: (Direction, NeighborView)| (e.0, e.1.1)),
    {
        let all = self.get_all_neighbors();
        let ghost list = neighbor_list(self.view());
        let mut r: Vec<(Direction, u16)> = Vec::new();
        let mut i: usize = 0;
        while i < all.len()
            invariant
                i <= all.len(),
                all@.map_values(|e: (Direction, NeighborInfo)| view_of_pair(e)) == list,
                r@ == list.take(i as int).map_values(|e: (Direction, NeighborView)| (e.0, e.1.1)),
            decreases all.len() - i,
        {
            proof {
                assert(list[i as int] == view_of_pair(all@[i as int]));
            }
            r.push((all[i].0, all[i].1.port));
            i = i + 1;
            proof {
                assert(r@ =~= list.take(i as int).map_values(|e: (Direction, NeighborView)| (e.0, e.1.1)));
            }
        }
        proof {
            assert(list.take(all.len() as int) =~= list);
        }
        r
    }

    /// Every neighbour, listed north, south, west, east.
    pub fn get_all_neighbors(&self) -> (r: Vec<(Direction, NeighborInfo)>)
        ensures
            r@.map_values(|e: (Direction, NeighborInfo)| view_of_pair(e)) == neighbor_list(self.view()),
    {
        let mut r: Vec<(Direction, NeighborInfo)> = Vec::new();
        let ghost m = self.view();
        if let Some(n) = &self.north {
            r.push((Direction::North, n.copied()));
        }
        let ghost r1 = r@;
        assert(r1.map_values(|e: (Direction, NeighborInfo)| view_of_pair(e)) =~= listed_at(m, Direction::North));
        if let Some(n) = &self.south {
            r.push((Direction::South, n.copied()));
        }
        let ghost r2 = r@;
        assert(r2.map_values(|e: (Direction, NeighborInfo)| view_of_pair(e)) =~= listed_at(m, Direction::North)
            + listed_at(m, Direction::South));
        if let Some(n) = &self.west {
            r.push((Direction::West, n.copied()));
        }
        let ghost r3 = r@;
        assert(r3.map_values(|e: (Direction, NeighborInfo)| view_of_pair(e)) =~= listed_at(m, Direction::North)
            + listed_at(m, Direction::South) + listed_at(m, Direction::West));
        if let Some(n) = &self.east {
            r.push((Direction::East, n.copied()));
        }
        assert(r@.map_values(|e: (Direction, NeighborInfo)| view_of_pair(e)) =~= neighbor_list(m));
        r
    }

    /// The side of the first listed neighbour with identity `id`.
    pub fn find_direction_by_id(&self, id: u128) -> (r: Option<Direction>)
        ensures
            r == direction_of_id(neighbor_list(self.view()), id),
    {
        let all = self.get_all_neighbors();
        let ghost list = neighbor_list(self.view());
        let mut i: usize = 0;
        proof {
            assert(list.skip(0) =~= list);
        }
        while i < all.len()
            invariant
                i <= all.len(),
                all@.map_values(|e: (Direction, NeighborInfo)| view_of_pair(e)) == list,
                list == neighbor_list(self.view()),
                direction_of_id(list, id) == direction_of_id(list.skip(i as int), id),
            decreases all.len() - i,
        {
            proof {
                assert(list.skip(i as int).drop_first() =~= list.skip(i + 1));
                assert(list[i as int] == view_of_pair(all@[i as int]));
                assert(list.skip(i as int)[0] == list[i as int]);
            }
            if all[i].1.id == id {
                proof {
                    assert(list.len() == all@.len());
                    assert(list.skip(i as int).len() > 0);
                    assert(list.skip(i as int)[0].1.0 == id);
                    assert(direction_of_id(list.skip(i as int), id) == Some(list[i as int].0));
                }
                return Some(all[i].0);
            }
            i = i + 1;
        }
        None
    }
}

/// What a zone node reports about itself.
#[derive(Clone, Debug, PartialEq, Eq)]
pub struct MetadataResponse {
    pub client_port: u16,
    pub realtime_port: u16,
    pub control_port: u16,
    pub quic_port: u16,
    pub neighbors: Vec<(String, u16)>,
}

/// A zone node's identity, its ports and its neighbours.
pub struct Metadata {
    id: u128,
    client_port: u16,
    realtime_port: u16,
    control_port: u16,
    replication_port: u16,
    neighbors: Neighbors,
}

impl Metadata {
    pub closed spec fn spec_id(&self) -> u128 {
        self.id
    }

    pub closed spec fn spec_ports(&self) -> (u16, u16, u16, u16) {
        (self.client_port, self.realtime_port, self.control_port, self.replication_port)
    }

    pub closed spec fn spec_neighbors(&self) -> Map<Direction, NeighborView> {
        self.neighbors.view()
    }

    pub fn new(
        id: u128,
        client_port: u16,
        realtime_port: u16,
        control_port: u16,
        replication_port: u16,
        neighbors: Neighbors,
    ) -> (r: Self)
        ensures
            r.spec_id() == id,
            r.spec_ports() == (client_port, realtime_port, control_port, replication_port),
            r.spec_neighbors() == neighbors.view(),
    {
        Self { id, client_port, realtime_port, control_port, replication_port, neighbors }
    }

    /// The node's ports, and the replication port of each neighbour under the
    /// neighbour's side name, listed north, south, west, east.
    pub fn get_metadata(&self) -> (r: MetadataResponse)
        ensures
            (r.client_port, r.realtime_port, r.control_port, r.quic_port) == self.spec_ports(),
            r.neighbors@.len() == neighbor_list(self.spec_neighbors()).len(),
            forall|i: int|
                0 <= i < r.neighbors@.len() ==> (#[trigger] r.neighbors@[i]).0@ == direction_name(
                    neighbor_list(self.spec_neighbors())[i].0,
                ) && r.neighbors@[i].1 == neighbor_list(self.spec_neighbors())[i].1.1,
    {
        let ports = self.neighbors.get_all_ports();
        let ghost list = neighbor_list(self.spec_neighbors());
        let mut named: Vec<(String, u16)> = Vec::new();
        let mut i: usize = 0;
        while i < ports.len()
            invariant
                i <= ports.len(),
                ports@ == list.map_values(|e: (Direction, NeighborView)| (e.0, e.1.1)),
                named@.len() == i,
                forall|j: int|
                    0 <= j < i ==> (#[trigger] named@[j]).0@ == direction_name(list[j].0) && named@[j].1
                        == list[j].1.1,
            decreases ports.len() - i,
        {
            let (d, port) = ports[i];
            named.push((d.name(), port));
            i = i + 1;
        }
        MetadataResponse {
            client_port: self.client_port,
            realtime_port: self.realtime_port,
            control_port: self.control_port,
            quic_port: self.replication_port,
            neighbors: named,
        }
    }

    /// The node's own identity.
    pub fn id(&self) -> (r: u128)
        ensures
            r == self.spec_id(),
    {
        self.id
    }

    /// Every neighbour, listed north, south, west, east.
    pub fn get_all_neighbors(&self) -> (r: Vec<(Direction, NeighborInfo)>)
        ensures
            r@.map_values(|e: (Direction, NeighborInfo)| view_of_pair(e)) == neighbor_list(self.spec_neighbors()),
    {
        self.neighbors.get_all_neighbors()
    }

    /// The neighbour on side `d`, if any.
    pub fn neighbor(&self, d: Direction) -> (r: Option<NeighborInfo>)
        ensures
            match r {
                Some(info) => slot(self.spec_neighbors(), d) == Some(info@),
                None => slot(self.spec_neighbors(), d) is None,
            },
    {
        self.neighbors.get(d)
    }

    /// The side of the neighbour whose identity is `id`, if one is configured.
    pub fn find_direction_by_id(&self, id: u128) -> (r: Option<Direction>)
        ensures
            r == direction_of_id(neighbor_list(self.spec_neighbors()), id),
    {
        self.neighbors.find_direction_by_id(id)
    }

    /// The neighbours that this node dials itself to form the replication
    /// mesh: those whose identity is below its own, so that of each pair of
    /// neighbours exactly one dials.
    pub fn outbound_neighbors(&self) -> (r: Vec<(Direction, NeighborInfo)>)
        ensures
            r@.map_values(|e: (Direction, NeighborInfo)| view_of_pair(e)) == below_id(
                neighbor_list(self.spec_neighbors()),
                self.spec_id(),
            ),
    {
        let all = self.neighbors.get_all_neighbors();
        let ghost list = neighbor_list(self.spec_neighbors());
        let mut r: Vec<(Direction, NeighborInfo)> = Vec::new();
        let mut i: usize = 0;
        proof {
            assert(list.take(0) =~= Seq::<(Direction, NeighborView)>::empty());
        }
        while i < all.len()
            invariant
                i <= all.len(),
                all@.map_values(|e: (Direction, NeighborInfo)| view_of_pair(e)) == list,
                r@.map_values(|e: (Direction, NeighborInfo)| view_of_pair(e)) == below_id(list.take(i as int), self.id),
            decreases all.len() - i,
        {
            proof {
                assert(list[i as int] == view_of_pair(all@[i as int]));
                assert(list.take(i + 1) =~= list.take(i as int).push(list[i as int]));
                list.take(i as int).lemma_filter_push(list[i as int], id_below(self.id));
            }
            let ghost before = r@;
            if all[i].1.id < self.id {
                r.push((all[i].0, all[i].1.copied()));
                proof {
                    assert(r@.map_values(|e: (Direction, NeighborInfo)| view_of_pair(e)) =~= before.map_values(
                        |e: (Direction, NeighborInfo)| view_of_pair(e),
                    ).push(list[i as int]));
                }
            }
            i = i + 1;
        }
        proof {
            assert(list.take(all.len() as int) =~= list);
        }
        r
    }
}

/// The identities of the neighbours in `m` are all different.
pub open spec fn identities_distinct(m: Map<Direction, NeighborView>) -> bool {
    forall|a: Direction, b: Direction|
        #![trigger m[a], m[b]]
        m.contains_key(a) && m.contains_key(b) && a != b ==> m[a].0 != m[b].0
}

/// A configured neighbour is found by its own identity, on its own side, when
/// no two neighbours share an identity; an identity that no neighbour has is
/// found nowhere.
pub proof fn law_neighbor_found_by_identity(m: Map<Direction, NeighborView>, d: Direction, id: u128)
    requires
        identities_distinct(m),
    ensures
        m.contains_key(d) ==> direction_of_id(neighbor_list(m), m[d].0) == Some(d),
        (forall|e: Direction| #[trigger] m.contains_key(e) ==> m[e].0 != id) ==> direction_of_id(
            neighbor_list(m),
            id,
        ) is None,
{
    reveal_with_fuel(direction_of_id, 5);
    let l = neighbor_list(m);
    let n = listed_at(m, Direction::North);
    let s = listed_at(m, Direction::South);
    let w = listed_at(m, Direction::West);
    let e = listed_at(m, Direction::East);
    assert(l == n + s + w + e);
    assert(l.len() <= 4);
    assert(forall|i: int| 0 <= i < l.len() ==> m.contains_key(#[trigger] l[i].0) && m[l[i].0] == l[i].1);
    assert(forall|i: int, j: int| 0 <= i < j < l.len() ==> #[trigger] l[i].0 != #[trigger] l[j].0);
    lemma_direction_of_id_position(l, id);
    if m.contains_key(d) {
        assert(exists|k: int| 0 <= k < l.len() && l[k].0 == d) by {
            if d == Direction::North {
                assert(l[0].0 == d);
            } else if d == Direction::South {
                assert(l[n.len() as int].0 == d);
            } else if d == Direction::West {
                assert(l[(n.len() + s.len()) as int].0 == d);
            } else {
                assert(l[(n.len() + s.len() + w.len()) as int].0 == d);
            }
        }
        lemma_direction_of_id_position(l, m[d].0);
    }
}

/// `direction_of_id` gives the side at the first position whose identity
/// matches, and nothing when no position matches.
proof fn lemma_direction_of_id_position(l: Seq<(Direction, NeighborView)>, id: u128)
    ensures
        (forall|i: int| 0 <= i < l.len() ==> #[trigger] l[i].1.0 != id) ==> direction_of_id(l, id) is None,
        forall|k: int|
            0 <= k < l.len() && #[trigger] l[k].1.0 == id && (forall|i: int| 0 <= i < k ==> l[i].1.0 != id)
                ==> direction_of_id(l, id) == Some(l[k].0),
    decreases l.len(),
{
    if l.len() > 0 {
        lemma_direction_of_id_position(l.drop_first(), id);
        assert forall|k: int|
            0 <= k < l.len() && #[trigger] l[k].1.0 == id && (forall|i: int| 0 <= i < k ==> l[i].1.0 != id)
                implies direction_of_id(l, id) == Some(l[k].0) by {
            if k > 0 {
                assert(l[0].1.0 != id);
                assert(l.drop_first()[k - 1] == l[k]);
                assert forall|i: int| 0 <= i < k - 1 implies l.drop_first()[i].1.0 != id by {
                    assert(l.drop_first()[i] == l[i + 1]);
                }
            }
        }
        if forall|i: int| 0 <= i < l.len() ==> #[trigger] l[i].1.0 != id {
            assert(l[0].1.0 != id);
            assert forall|i: int| 0 <= i < l.len() - 1 implies #[trigger] l.drop_first()[i].1.0 != id by {
                assert(l.drop_first()[i] == l[i + 1]);
            }
        }
    }
}

/// The name of a side in capitals, as a neighbour gives it when asked which
/// side it is on.
pub open spec fn upper_name(d: Direction) -> Seq<char> {
    match d {
        Direction::North => "NORTH"@,
        Direction::South => "SOUTH"@,
        Direction::West => "WEST"@,
        Direction::East => "EAST"@,
    }
}

/// Each side is reported under a name of its own: different sides have
/// different names, and a side's name in capitals is the word a neighbour
/// uses for that side.
pub proof fn law_sides_have_their_own_names(d1: Direction, d2: Direction)
    ensures
        d1 != d2 ==> direction_name(d1) != direction_name(d2),
        d1 != d2 ==> upper_name(d1) != upper_name(d2),
        direction_name(d1).map_values(|c: char| crate::text::ascii_upper(c)) == upper_name(d1),
{
    reveal_strlit("North");
    reveal_strlit("South");
    reveal_strlit("West");
    reveal_strlit("East");
    reveal_strlit("NORTH");
    reveal_strlit("SOUTH");
    reveal_strlit("WEST");
    reveal_strlit("EAST");
    assert("North"@[0] != "South"@[0] && "North"@[0] != "West"@[0] && "North"@[0] != "East"@[0]);
    assert("South"@[0] != "West"@[0] && "South"@[0] != "East"@[0] && "West"@[0] != "East"@[0]);
    assert("NORTH"@[0] != "SOUTH"@[0] && "NORTH"@[0] != "WEST"@[0] && "NORTH"@[0] != "EAST"@[0]);
    assert("SOUTH"@[0] != "WEST"@[0] && "SOUTH"@[0] != "EAST"@[0] && "WEST"@[0] != "EAST"@[0]);
    let f = |c: char| crate::text::ascii_upper(c);
    assert("North"@.map_values(f) =~= "NORTH"@);
    assert("South"@.map_values(f) =~= "SOUTH"@);
    assert("West"@.map_values(f) =~= "WEST"@);
    assert("East"@.map_values(f) =~= "EAST"@);
}

/// Of two neighbours with different identities, exactly one dials the other.
pub proof fn law_exactly_one_side_dials(a: u128, b: u128)
    requires
        a != b,
    ensures
        (a < b) != (b < a),
{
}

} // verus!
