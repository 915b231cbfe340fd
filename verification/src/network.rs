//! Decisions on the replication channel: which certificate a node accepts
//! from a neighbour it dials, and which side an inbound neighbour is on.
use vstd::prelude::*;
use crate::certificate::{cert_identity, extract_uuid_from_cert, CertError, CertErrorKind};
use crate::metadata::{direction_of_id, neighbor_list, Direction, Metadata};

verus! {

/// Whether the certificate a dialled neighbour presents is the one pinned for
/// it: the same DER bytes.
pub fn certificate_is_pinned(expected: &[u8], presented: &[u8]) -> (r: bool)
    ensures
        r == (expected@ == presented@),
{
    if expected.len() != presented.len() {
        return false;
    }
    let mut i: usize = 0;
    while i < expected.len()
        invariant
            expected.len() == presented.len(),
            i <= expected.len(),
            forall|j: int| 0 <= j < i ==> expected@[j] == presented@[j],
        decreases expected.len() - i,
    {
        if expected[i] != presented[i] {
            return false;
        }
        i = i + 1;
    }
    proof {
        assert(expected@ =~= presented@);
    }
    true
}

/// Why an inbound replication connection is refused.
pub enum PeerRejection {
    /// The peer presented no certificate.
    EmptyChain,
    /// The peer's certificate carries no readable identity.
    MalformedIdentity(CertError),
    /// The peer's identity is none of the configured neighbours'.
    UnknownNeighbor(u128),
}

/// The side that an inbound neighbour is on, from the certificate chain it
/// presented: the first certificate's identity must be a configured
/// neighbour's.
pub fn direction_of_peer(metadata: &Metadata, chain: &Vec<Vec<u8>>) -> (r: Result<Direction, PeerRejection>)
    ensures
        chain.len() == 0 ==> r matches Err(PeerRejection::EmptyChain),
        chain.len() > 0 ==> match cert_identity(chain[0]@) {
            Err(e) => r matches Err(PeerRejection::MalformedIdentity(err)) && err@ == e,
            Ok(id) => match direction_of_id(neighbor_list(metadata.spec_neighbors()), id) {
                Some(d) => r == Ok::<Direction, PeerRejection>(d),
                None => r matches Err(PeerRejection::UnknownNeighbor(unknown)) && unknown == id,
            },
        },
{
    if chain.len() == 0 {
        return Err(PeerRejection::EmptyChain);
    }
    match extract_uuid_from_cert(chain[0].as_slice()) {
        Err(e) => Err(PeerRejection::MalformedIdentity(e)),
        Ok(id) => match metadata.find_direction_by_id(id) {
            Some(d) => Ok(d),
            None => Err(PeerRejection::UnknownNeighbor(id)),
        },
    }
}

} // verus!
