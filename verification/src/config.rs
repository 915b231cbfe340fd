//! A zone node's configuration: its identity, its ports, its credentials and
//! its neighbours, and how the neighbours become the node's runtime view.
use vstd::prelude::*;
use validator::ValidationError;
use crate::certificate::{parse_cert, parsed_cert, CertError, CertErrorKind};
use crate::metadata::{neighbors_of, slot, view_of_pair, Direction, NeighborInfo, NeighborView};
use crate::metadata::Neighbors as RuntimeNeighbors;
use crate::text::{contains, contains_text};

verus! {

/// validator's `ValidationError`, the error a custom field check reports.
#[verifier::external_type_specification]
#[verifier::external_body]
pub struct ExValidationError(validator::ValidationError);

/// A neighbour as the configuration names it: its identity, its replication
/// port and its certificate as PEM text.
pub struct NeighborConfig {
    pub id: u128,
    pub port: u16,
    pub quic_certificate: String,
}

/// The configured neighbour, if any, on each side.
pub struct Neighbors {
    pub north: Option<NeighborConfig>,
    pub south: Option<NeighborConfig>,
    pub east: Option<NeighborConfig>,
    pub west: Option<NeighborConfig>,
}

/// A zone node's configuration.
pub struct Config {
    pub id: u128,
    pub client_port: u16,
    pub realtime_port: u16,
    pub control_port: u16,
    pub replication_port: u16,
    pub neighbors: Neighbors,
    pub quic_certificate: String,
    pub quic_private_key: String,
}

/// Whether a text has the opening and the closing line of a PEM certificate.
pub open spec fn is_pem_certificate(s: Seq<char>) -> bool {
    contains_text(s, "-----BEGIN CERTIFICATE-----"@) && contains_text(s, "-----END CERTIFICATE-----"@)
}

/// Checks that a text looks like a PEM certificate: it holds both the
/// opening and the closing line.
pub fn validate_is_pem(cert_str: &str) -> (r: Result<(), String>)
    ensures
        r is Ok <==> is_pem_certificate(cert_str@),
        r matches Err(m) ==> m@ == "invalid PEM formatting"@,
{
    if contains(cert_str, "-----BEGIN CERTIFICATE-----") && contains(cert_str, "-----END CERTIFICATE-----") {
        Ok(())
    } else {
        Err(String::from_str("invalid PEM formatting"))
    }
}

/// validator's `ValidationError::new` with a code.  What the error holds
/// (the code, no message, no parameters) is not stated here.
#[verifier::external_body]
fn validation_error(code: &'static str) -> (r: ValidationError) {
    ValidationError::new(code)
}

/// The PEM check in the form a validator field check takes; a failure is the
/// validation error with code "invalid_pem_format".
pub fn validate_is_pem_wrapper(cert_str: &str) -> (r: Result<(), ValidationError>)
    ensures
        r is Ok <==> is_pem_certificate(cert_str@),
{
    match validate_is_pem(cert_str) {
        Ok(()) => Ok(()),
        Err(_) => Err(validation_error("invalid_pem_format")),
    }
}

/// The neighbour that a configured side contributes: none for an empty
/// side, the neighbour with its certificate's DER bytes, or the error of
/// reading its certificate.
pub open spec fn slot_result(d: Direction, slot: Option<NeighborConfig>) -> Result<
    Seq<(Direction, NeighborView)>,
    (CertErrorKind, Seq<char>),
> {
    match slot {
        None => Ok(Seq::empty()),
        Some(c) => match parsed_cert(vstd::utf8::encode_utf8(c.quic_certificate@)) {
            Err(e) => Err(e),
            Ok(der) => Ok(seq![(d, (c.id, c.port, der))]),
        },
    }
}

/// The first error of two steps, or what both give, in order.
pub open spec fn then_slot(
    a: Result<Seq<(Direction, NeighborView)>, (CertErrorKind, Seq<char>)>,
    b: Result<Seq<(Direction, NeighborView)>, (CertErrorKind, Seq<char>)>,
) -> Result<Seq<(Direction, NeighborView)>, (CertErrorKind, Seq<char>)> {
    match a {
        Err(e) => Err(e),
        Ok(p) => match b {
            Err(e) => Err(e),
            Ok(q) => Ok(p + q),
        },
    }
}

/// The runtime neighbours of a configuration, sides taken north, south,
/// east, west: the first certificate that cannot be read decides the error.
pub open spec fn runtime_neighbors(n: Neighbors) -> Result<Seq<(Direction, NeighborView)>, (CertErrorKind, Seq<char>)> {
    then_slot(
        slot_result(Direction::North, n.north),
        then_slot(
            slot_result(Direction::South, n.south),
            then_slot(
                slot_result(Direction::East, n.east),
                then_slot(slot_result(Direction::West, n.west), Ok(Seq::empty())),
            ),
        ),
    )
}

/// The neighbours that a list of (side, neighbour) pairs describes; a later
/// pair for a side replaces an earlier one.
pub open spec fn neighbor_map(list: Seq<(Direction, NeighborView)>) -> Map<Direction, NeighborView>
    decreases list.len(),
{
    if list.len() == 0 {
        Map::empty()
    } else {
        neighbor_map(list.drop_last()).insert(list.last().0, list.last().1)
    }
}

proof fn lemma_neighbors_of_views(entries: Seq<(Direction, NeighborInfo)>)
    ensures
        neighbors_of(entries) == neighbor_map(entries.map_values(|e: (Direction, NeighborInfo)| view_of_pair(e))),
    decreases entries.len(),
{
    let views = entries.map_values(|e: (Direction, NeighborInfo)| view_of_pair(e));
    if entries.len() > 0 {
        lemma_neighbors_of_views(entries.drop_last());
        assert(views.drop_last() =~= entries.drop_last().map_values(|e: (Direction, NeighborInfo)| view_of_pair(e)));
    }
}

/// The neighbour, if any, that one configured side contributes.
fn resolve_slot(d: Direction, slot: &Option<NeighborConfig>) -> (r: Result<Option<NeighborInfo>, CertError>)
    ensures
        match r {
            Ok(None) => slot_result(d, *slot) == Ok::<Seq<(Direction, NeighborView)>, (CertErrorKind, Seq<char>)>(
                Seq::empty(),
            ),
            Ok(Some(info)) => slot_result(d, *slot) == Ok::<Seq<(Direction, NeighborView)>, (CertErrorKind, Seq<char>)>(
                seq![(d, info@)],
            ),
            Err(e) => slot_result(d, *slot) == Err::<Seq<(Direction, NeighborView)>, (CertErrorKind, Seq<char>)>(e@),
        },
{
    match slot {
        None => Ok(None),
        Some(c) => {
            let pem = c.quic_certificate.as_str().as_bytes();
            match parse_cert(pem) {
                Err(e) => Err(e),
                Ok(cert) => Ok(Some(NeighborInfo { id: c.id, port: c.port, cert })),
            }
        },
    }
}

fn push_found(entries: &mut Vec<(Direction, NeighborInfo)>, d: Direction, found: Option<NeighborInfo>)
    ensures
        final(entries)@.map_values(|e: (Direction, NeighborInfo)| view_of_pair(e)) == old(entries)@.map_values(
            |e: (Direction, NeighborInfo)| view_of_pair(e),
        ) + match found {
            None => Seq::<(Direction, NeighborView)>::empty(),
            Some(info) => seq![(d, info@)],
        },
{
    let ghost before = entries@;
    match found {
        None => {
            assert(entries@.map_values(|e: (Direction, NeighborInfo)| view_of_pair(e)) =~= before.map_values(
                |e: (Direction, NeighborInfo)| view_of_pair(e),
            ) + Seq::<(Direction, NeighborView)>::empty());
        },
        Some(info) => {
            let ghost v = info@;
            entries.push((d, info));
            assert(entries@.map_values(|e: (Direction, NeighborInfo)| view_of_pair(e)) =~= before.map_values(
                |e: (Direction, NeighborInfo)| view_of_pair(e),
            ) + seq![(d, v)]);
        },
    }
}

/// The runtime neighbours of a configuration: each configured neighbour
/// with its certificate read from PEM into DER bytes.  The first side
/// (north, south, east, west) whose certificate cannot be read decides the
/// error.
pub fn extract_runtime_neighbors(config_neighbors: &Neighbors) -> (r: Result<RuntimeNeighbors, CertError>)
    ensures
        match r {
            Ok(n) => runtime_neighbors(*config_neighbors) is Ok && n.view() == neighbor_map(
                runtime_neighbors(*config_neighbors)->Ok_0,
            ),
            Err(e) => runtime_neighbors(*config_neighbors) == Err::<
                Seq<(Direction, NeighborView)>,
                (CertErrorKind, Seq<char>),
            >(e@),
        },
{
    let mut entries: Vec<(Direction, NeighborInfo)> = Vec::new();
    let north = match resolve_slot(Direction::North, &config_neighbors.north) {
        Err(e) => return Err(e),
        Ok(found) => found,
    };
    push_found(&mut entries, Direction::North, north);
    let south = match resolve_slot(Direction::South, &config_neighbors.south) {
        Err(e) => return Err(e),
        Ok(found) => found,
    };
    push_found(&mut entries, Direction::South, south);
    let east = match resolve_slot(Direction::East, &config_neighbors.east) {
        Err(e) => return Err(e),
        Ok(found) => found,
    };
    push_found(&mut entries, Direction::East, east);
    let west = match resolve_slot(Direction::West, &config_neighbors.west) {
        Err(e) => return Err(e),
        Ok(found) => found,
    };
    push_found(&mut entries, Direction::West, west);
    let ghost views = entries@.map_values(|e: (Direction, NeighborInfo)| view_of_pair(e));
    proof {
        let pn = slot_result(Direction::North, config_neighbors.north)->Ok_0;
        let ps = slot_result(Direction::South, config_neighbors.south)->Ok_0;
        let pe = slot_result(Direction::East, config_neighbors.east)->Ok_0;
        let pw = slot_result(Direction::West, config_neighbors.west)->Ok_0;
        assert(Seq::<(Direction, NeighborView)>::empty() + pn + ps + pe + pw =~= pn + (ps + (pe + (
        pw + Seq::<(Direction, NeighborView)>::empty()))));
        lemma_neighbors_of_views(entries@);
    }
    Ok(RuntimeNeighbors::new(entries))
}

/// The neighbour that the configuration names on side `d`.
pub open spec fn configured_on(n: Neighbors, d: Direction) -> Option<NeighborConfig> {
    match d {
        Direction::North => n.north,
        Direction::South => n.south,
        Direction::East => n.east,
        Direction::West => n.west,
    }
}

/// The DER bytes that a configured neighbour's PEM certificate reads as.
pub open spec fn configured_cert(c: NeighborConfig) -> Result<Seq<u8>, (CertErrorKind, Seq<char>)> {
    parsed_cert(vstd::utf8::encode_utf8(c.quic_certificate@))
}

proof fn lemma_neighbor_map_append(l: Seq<(Direction, NeighborView)>, p: Seq<(Direction, NeighborView)>)
    requires
        p.len() <= 1,
    ensures
        neighbor_map(l + p) == if p.len() == 0 {
            neighbor_map(l)
        } else {
            neighbor_map(l).insert(p[0].0, p[0].1)
        },
{
    if p.len() == 0 {
        assert(l + p =~= l);
    } else {
        assert((l + p).drop_last() =~= l);
        assert((l + p).last() == p[0]);
    }
}

/// Loading succeeds exactly when every configured neighbour's certificate
/// reads; then each side of the runtime view holds the neighbour configured
/// on that same side, with its identity, its port and its certificate's DER
/// bytes, and a side with no configured neighbour stays empty.
pub proof fn law_runtime_sides_match_config(n: Neighbors, d: Direction)
    ensures
        runtime_neighbors(n) is Ok <==> forall|e: Direction|
            #![trigger configured_on(n, e)]
            configured_on(n, e) is Some ==> configured_cert(configured_on(n, e)->0) is Ok,
        runtime_neighbors(n) is Ok ==> slot(neighbor_map(runtime_neighbors(n)->Ok_0), d) == match configured_on(n, d) {
            None => None,
            Some(c) => Some((c.id, c.port, configured_cert(c)->Ok_0)),
        },
{
    let rn = slot_result(Direction::North, n.north);
    let rs = slot_result(Direction::South, n.south);
    let re = slot_result(Direction::East, n.east);
    let rw = slot_result(Direction::West, n.west);
    assert(configured_on(n, Direction::North) == n.north);
    assert(configured_on(n, Direction::South) == n.south);
    assert(configured_on(n, Direction::East) == n.east);
    assert(configured_on(n, Direction::West) == n.west);
    if rn is Ok && rs is Ok && re is Ok && rw is Ok {
        let pn = rn->Ok_0;
        let ps = rs->Ok_0;
        let pe = re->Ok_0;
        let pw = rw->Ok_0;
        let empty = Seq::<(Direction, NeighborView)>::empty();
        assert(runtime_neighbors(n)->Ok_0 == pn + (ps + (pe + (pw + empty))));
        assert(pn + (ps + (pe + (pw + empty))) =~= empty + pn + ps + pe + pw);
        lemma_neighbor_map_append(empty, pn);
        lemma_neighbor_map_append(empty + pn, ps);
        lemma_neighbor_map_append(empty + pn + ps, pe);
        lemma_neighbor_map_append(empty + pn + ps + pe, pw);
        assert(neighbor_map(empty) == Map::<Direction, NeighborView>::empty());
    }
}

} // verus!
