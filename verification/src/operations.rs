//! The master node's decisions: where new zone nodes go and at which ports
//! they listen, and what a health reply says of a node.
use vstd::prelude::*;
use crate::geometry::{grid_cell, grid_cols, grid_rows, BoundingBox};
use crate::lookup::Entry;

verus! {

/// Why servers were not started.
#[derive(Clone, Copy, Debug, PartialEq, Eq)]
pub enum SpawnError {
    /// The server count was refused.
    InvalidCount,
}

/// The entry of the `i`-th of `count` servers started over `area` when the
/// port counter stood at `first_port`: its cell of the grid, its real-time
/// port, its client port 1000 above and its control port 2000 above.
pub open spec fn planned_entry(area: BoundingBox, count: nat, first_port: int, i: int) -> Entry {
    Entry {
        bounds: grid_cell(area, grid_cols(count), grid_rows(count), i),
        udp_port: (first_port + i) as u16,
        tcp_port: (first_port + i + 1000) as u16,
        master_port: (first_port + i + 2000) as u16,
    }
}

/// Plans `count` servers over `area`: one per cell of the grid that
/// `divide_bound_box` cuts, each with the next free real-time port, its client
/// port 1000 above and its control port 2000 above.  A count divisible by four
/// is refused, and the port counter is then left as it was.
pub fn plan_servers(area: &BoundingBox, count: usize, next_port: &mut u16) -> (r: Result<Vec<Entry>, SpawnError>)
    requires
        count % 4 == 0 || *old(next_port) + count + 1999 <= u16::MAX,
    ensures
        (count % 4 == 0) <==> r is Err,
        r is Err ==> *final(next_port) == *old(next_port),
        match r {
            Ok(entries) => {
                &&& entries.len() == count
                &&& *final(next_port) == *old(next_port) + count
                &&& forall|i: int|
                    0 <= i < count ==> #[trigger] entries[i] == planned_entry(
                        *area,
                        count as nat,
                        *old(next_port) as int,
                        i,
                    )
            },
            Err(e) => e == SpawnError::InvalidCount,
        },
{
    if count % 4 == 0 {
        return Err(SpawnError::InvalidCount);
    }
    let boxes = area.divide_bound_box(count as u64);
    let ghost first = *next_port as int;
    let mut entries: Vec<Entry> = Vec::new();
    let mut i: usize = 0;
    while i < count
        invariant
            boxes.len() == count,
            forall|j: int|
                0 <= j < count ==> #[trigger] boxes[j] == grid_cell(
                    *area,
                    grid_cols(count as nat),
                    grid_rows(count as nat),
                    j,
                ),
            first + count + 1999 <= u16::MAX,
            i <= count,
            *next_port == first + i,
            entries.len() == i,
            forall|j: int| 0 <= j < i ==> #[trigger] entries[j] == planned_entry(*area, count as nat, first, j),
        decreases count - i,
    {
        let udp_port = *next_port;
        let tcp_port = *next_port + 1000;
        let master_port = *next_port + 2000;
        *next_port = *next_port + 1;
        entries.push(Entry::new(boxes[i], udp_port, tcp_port, master_port));
        i = i + 1;
    }
    Ok(entries)
}

/// Every port of a plan of at most a thousand servers is used once: no two
/// servers share a port of a kind, and the three kinds of port never meet.
pub proof fn law_planned_ports_distinct(area: BoundingBox, count: nat, first_port: int, i: int, j: int)
    requires
        0 <= first_port,
        first_port + count + 1999 <= u16::MAX,
        count <= 1000,
        0 <= i < count,
        0 <= j < count,
    ensures
        i != j ==> planned_entry(area, count, first_port, i).udp_port != planned_entry(area, count, first_port, j).udp_port,
        i != j ==> planned_entry(area, count, first_port, i).tcp_port != planned_entry(area, count, first_port, j).tcp_port,
        i != j ==> planned_entry(area, count, first_port, i).master_port != planned_entry(
            area,
            count,
            first_port,
            j,
        ).master_port,
        planned_entry(area, count, first_port, i).udp_port != planned_entry(area, count, first_port, j).tcp_port,
        planned_entry(area, count, first_port, i).udp_port != planned_entry(area, count, first_port, j).master_port,
        planned_entry(area, count, first_port, i).tcp_port != planned_entry(area, count, first_port, j).master_port,
{
}

/// What a zone node's health reply says of it.
#[derive(Clone, Debug, PartialEq, Eq)]
pub enum ServerStatus {
    /// It answered the health check as a live node does.
    Alive,
    /// It answered something else, given here.
    Unexpected(String),
    /// It could not be reached; the error's text.
    Dead(String),
}

/// The health command a zone node answers when it is alive.
pub open spec fn health_command() -> Seq<char> {
    "PING"@
}

/// The answer of a live zone node to the health command.
pub open spec fn alive_reply() -> Seq<char> {
    "PONG"@
}

/// The health command, as sent.
pub fn health_command_text() -> (r: String)
    ensures
        r@ == health_command(),
{
    String::from_str("PING")
}

/// The status that a health check's outcome shows: the node's trimmed reply,
/// or the error of reaching it.
pub fn status_of(reply: Result<String, String>) -> (r: ServerStatus)
    ensures
        match reply {
            Ok(text) => if text@ == alive_reply() {
                r == ServerStatus::Alive
            } else {
                r matches ServerStatus::Unexpected(t) && t@ == text@
            },
            Err(e) => r matches ServerStatus::Dead(t) && t@ == e@,
        },
{
    match reply {
        Ok(text) => {
            let alive = String::from_str("PONG");
            proof {
                reveal_strlit("PONG");
            }
            if text.eq(&alive) {
                ServerStatus::Alive
            } else {
                ServerStatus::Unexpected(text)
            }
        },
        Err(e) => ServerStatus::Dead(e),
    }
}

} // verus!
