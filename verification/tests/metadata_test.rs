use s2d2::metadata::{Direction, Metadata, MetadataResponse, NeighborInfo, Neighbors};

fn info(id: u128, port: u16) -> NeighborInfo {
    NeighborInfo { id, port, cert: vec![port as u8, 1, 2] }
}

fn sample() -> Metadata {
    let neighbors = Neighbors::new(vec![
        (Direction::East, info(20, 9002)),
        (Direction::North, info(5, 9001)),
        (Direction::West, info(7, 9004)),
    ]);
    Metadata::new(10, 7001, 7002, 7003, 7004, neighbors)
}

#[test]
fn inverse_swaps_opposite_sides() {
    assert_eq!(Direction::North.inverse(), Direction::South);
    assert_eq!(Direction::South.inverse(), Direction::North);
    assert_eq!(Direction::East.inverse(), Direction::West);
    assert_eq!(Direction::West.inverse(), Direction::East);
    for d in [Direction::North, Direction::South, Direction::East, Direction::West] {
        assert_eq!(d.inverse().inverse(), d);
        assert_ne!(d.inverse(), d);
    }
}

#[test]
fn direction_names() {
    assert_eq!(Direction::North.name(), "North");
    assert_eq!(Direction::West.name(), "West");
}

#[test]
fn later_entry_for_a_side_replaces_an_earlier_one() {
    let neighbors = Neighbors::new(vec![(Direction::South, info(1, 1)), (Direction::South, info(2, 2))]);
    assert_eq!(neighbors.get(Direction::South), Some(info(2, 2)));
    assert_eq!(neighbors.get(Direction::North), None);
}

#[test]
fn ports_are_listed_north_south_west_east() {
    let m = sample();
    let ports: Vec<(Direction, u16)> = m
        .get_all_neighbors()
        .iter()
        .map(|(d, i)| (*d, i.port))
        .collect();
    assert_eq!(ports, vec![(Direction::North, 9001), (Direction::West, 9004), (Direction::East, 9002)]);
    let neighbors = Neighbors::new(vec![(Direction::East, info(20, 9002)), (Direction::North, info(5, 9001))]);
    assert_eq!(neighbors.get_all_ports(), vec![(Direction::North, 9001), (Direction::East, 9002)]);
}

#[test]
fn metadata_reports_ports_and_neighbours() {
    let m = sample();
    assert_eq!(
        m.get_metadata(),
        MetadataResponse {
            client_port: 7001,
            realtime_port: 7002,
            control_port: 7003,
            quic_port: 7004,
            neighbors: vec![("North".to_string(), 9001), ("West".to_string(), 9004), ("East".to_string(), 9002)],
        }
    );
    assert_eq!(m.id(), 10);
}

#[test]
fn neighbours_are_found_by_identity() {
    let m = sample();
    assert_eq!(m.find_direction_by_id(20), Some(Direction::East));
    assert_eq!(m.find_direction_by_id(5), Some(Direction::North));
    assert_eq!(m.find_direction_by_id(99), None);
    assert_eq!(m.neighbor(Direction::West), Some(info(7, 9004)));
    assert_eq!(m.neighbor(Direction::South), None);
}

#[test]
fn a_node_dials_the_neighbours_below_its_identity() {
    let m = sample();
    let outbound: Vec<Direction> = m.outbound_neighbors().iter().map(|(d, _)| *d).collect();
    assert_eq!(outbound, vec![Direction::North, Direction::West]);
    // Of two neighbours exactly one dials the other.
    let east = Metadata::new(20, 1, 2, 3, 4, Neighbors::new(vec![(Direction::West, info(10, 7004))]));
    assert_eq!(east.outbound_neighbors().len(), 1);
    let here = Metadata::new(10, 1, 2, 3, 4, Neighbors::new(vec![(Direction::East, info(20, 9002))]));
    assert!(here.outbound_neighbors().is_empty());
}
