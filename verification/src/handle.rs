//! The zone node's text protocol: what each request does to the store and
//! what it is answered.
use vstd::prelude::*;
use vstd::string::StrSliceExecFns;
use serde_json::Value;
use crate::json::{json_from_string, json_parse, json_string, json_text, json_to_text, parse_json};
use crate::metadata::{Direction, spec_inverse};
use crate::store::Store;
use crate::text::{
    has_prefix, split_from, split_message, split_on, splitn3, starts_with, str_to_uppercase,
    to_uppercase, views_of,
};

verus! {

broadcast use vstd::string::group_string_axioms;

/// The command word of a request, upper-cased.
pub open spec fn command_of(msg: Seq<char>) -> Seq<char> {
    str_to_uppercase(splitn3(msg)[0])
}

/// What a stored text becomes: the JSON it holds, or else a JSON string of it.
pub open spec fn value_of_text(text: Seq<char>) -> Value {
    match json_parse(text) {
        Some(v) => v,
        None => json_string(text),
    }
}

/// A data request carries the pieces its command reads: a key and a value
/// for `SET`, a key for `GET` and `DEL`.
pub open spec fn db_request_complete(msg: Seq<char>) -> bool {
    let parts = splitn3(msg);
    let c = command_of(msg);
    &&& c == "SET"@ ==> parts.len() == 3
    &&& (c == "GET"@ || c == "DEL"@) ==> parts.len() >= 2
}

/// The store after a data request.
pub open spec fn db_store_after(m: Map<Seq<char>, Value>, msg: Seq<char>) -> Map<Seq<char>, Value> {
    let parts = splitn3(msg);
    let c = command_of(msg);
    if c == "SET"@ {
        m.insert(parts[1], value_of_text(parts[2]))
    } else if c == "GET"@ {
        m
    } else if c == "DEL"@ {
        m.remove(parts[1])
    } else {
        m
    }
}

/// The answer to a data request.
pub open spec fn db_reply(m: Map<Seq<char>, Value>, msg: Seq<char>) -> Seq<char> {
    let parts = splitn3(msg);
    let c = command_of(msg);
    if c == "SET"@ {
        "OK"@
    } else if c == "GET"@ {
        if m.contains_key(parts[1]) {
            "OK "@ + json_text(m[parts[1]])
        } else {
            "ERR not_found"@
        }
    } else if c == "DEL"@ {
        "OK"@
    } else if c == "PING"@ {
        "PONG"@
    } else {
        "ERR unknown_command"@
    }
}

proof fn lemma_command_words_differ()
    ensures
        "SET"@ != "GET"@,
        "SET"@ != "DEL"@,
        "GET"@ != "DEL"@,
{
    reveal_strlit("SET");
    reveal_strlit("GET");
    reveal_strlit("DEL");
    assert("SET"@[0] != "GET"@[0]);
    assert("SET"@[0] != "DEL"@[0]);
    assert("GET"@[0] != "DEL"@[0]);
}

/// Through the data protocol, a `GET` of a key answers with the value that a
/// `SET` of that key just stored.
pub proof fn law_get_after_set(m: Map<Seq<char>, Value>, set_msg: Seq<char>, get_msg: Seq<char>)
    requires
        command_of(set_msg) == "SET"@,
        db_request_complete(set_msg),
        command_of(get_msg) == "GET"@,
        db_request_complete(get_msg),
        splitn3(get_msg)[1] == splitn3(set_msg)[1],
    ensures
        db_reply(db_store_after(m, set_msg), get_msg) == "OK "@ + json_text(value_of_text(splitn3(set_msg)[2])),
        db_reply(m, set_msg) == "OK"@,
{
    lemma_command_words_differ();
}

/// Through the data protocol, a `GET` of a key after a `DEL` of it finds
/// nothing, and requests on other keys are not disturbed by either.
pub proof fn law_get_after_del(m: Map<Seq<char>, Value>, del_msg: Seq<char>, get_msg: Seq<char>)
    requires
        command_of(del_msg) == "DEL"@,
        db_request_complete(del_msg),
        command_of(get_msg) == "GET"@,
        db_request_complete(get_msg),
    ensures
        splitn3(get_msg)[1] == splitn3(del_msg)[1] ==> db_reply(db_store_after(m, del_msg), get_msg)
            == "ERR not_found"@,
        splitn3(get_msg)[1] != splitn3(del_msg)[1] ==> db_reply(db_store_after(m, del_msg), get_msg)
            == db_reply(m, get_msg),
{
    lemma_command_words_differ();
}

/// A `GET` changes nothing, and a `SET` of one key leaves what a `GET` of
/// another key answers.
pub proof fn law_get_is_a_pure_read(m: Map<Seq<char>, Value>, set_msg: Seq<char>, get_msg: Seq<char>)
    requires
        command_of(set_msg) == "SET"@,
        db_request_complete(set_msg),
        command_of(get_msg) == "GET"@,
        db_request_complete(get_msg),
    ensures
        db_store_after(m, get_msg) == m,
        splitn3(get_msg)[1] != splitn3(set_msg)[1] ==> db_reply(db_store_after(m, set_msg), get_msg)
            == db_reply(m, get_msg),
{
    lemma_command_words_differ();
}

/// Serves a data request (`SET key value`, `GET key`, `DEL key`, `PING`).
pub fn db_handle(store: &mut Store, msg: &str) -> (r: String)
    requires
        db_request_complete(msg@),
    ensures
        final(store)@ == db_store_after(old(store)@, msg@),
        r@ == db_reply(old(store)@, msg@),
{
    let parts = split_message(msg);
    proof {
        assert(views_of(parts@)[0] == parts@[0]@);
    }
    let command = to_uppercase(parts[0]);
    if command == String::from_str("SET") {
        proof {
            assert(views_of(parts@)[1] == parts@[1]@);
            assert(views_of(parts@)[2] == parts@[2]@);
        }
        let value = match parse_json(parts[2]) {
            Some(v) => v,
            None => json_from_string(String::from_str(parts[2])),
        };
        store.set(String::from_str(parts[1]), value);
        String::from_str("OK")
    } else if command == String::from_str("GET") {
        proof {
            assert(views_of(parts@)[1] == parts@[1]@);
        }
        match store.get(parts[1]) {
            Some(v) => String::from_str("OK ").concat(json_to_text(&v).as_str()),
            None => String::from_str("ERR not_found"),
        }
    } else if command == String::from_str("DEL") {
        proof {
            assert(views_of(parts@)[1] == parts@[1]@);
        }
        store.delete(parts[1]);
        String::from_str("OK")
    } else if command == String::from_str("PING") {
        String::from_str("PONG")
    } else {
        String::from_str("ERR unknown_command")
    }
}

/// Serves a data request when it carries the pieces its command reads, and
/// otherwise answers nothing and leaves the store alone.
pub fn db_handle_checked(store: &mut Store, msg: &str) -> (r: Option<String>)
    ensures
        db_request_complete(msg@) ==> (r matches Some(s) && s@ == db_reply(old(store)@, msg@)
            && final(store)@ == db_store_after(old(store)@, msg@)),
        !db_request_complete(msg@) ==> r is None && final(store)@ == old(store)@,
{
    let parts = split_message(msg);
    proof {
        assert(views_of(parts@)[0] == parts@[0]@);
    }
    let command = to_uppercase(parts[0]);
    if command == String::from_str("SET") && parts.len() != 3 {
        return None;
    }
    if (command == String::from_str("GET") || command == String::from_str("DEL")) && parts.len() < 2 {
        return None;
    }
    Some(db_handle(store, msg))
}

/// A replication request that names the replicate command carries a key and
/// a value.
pub open spec fn replication_request_complete(msg: Seq<char>) -> bool {
    command_of(msg) == "Replicate"@ ==> splitn3(msg).len() == 3
}

/// Serves a request from a neighbour: the command word, upper-cased, is
/// compared with `Replicate`; on a match the value is stored under the key.
pub fn replication_handle(store: &mut Store, msg: &str) -> (r: String)
    requires
        replication_request_complete(msg@),
    ensures
        command_of(msg@) == "Replicate"@ ==> final(store)@ == old(store)@.insert(
            splitn3(msg@)[1],
            value_of_text(splitn3(msg@)[2]),
        ) && r@ == "OK"@,
        command_of(msg@) != "Replicate"@ ==> final(store)@ == old(store)@ && r@ == "ERR unknown_command"@,
{
    let parts = split_message(msg);
    proof {
        assert(views_of(parts@)[0] == parts@[0]@);
    }
    let command = to_uppercase(parts[0]);
    if command == String::from_str("Replicate") {
        proof {
            assert(views_of(parts@)[1] == parts@[1]@);
            assert(views_of(parts@)[2] == parts@[2]@);
        }
        let value = match parse_json(parts[2]) {
            Some(v) => v,
            None => json_from_string(String::from_str(parts[2])),
        };
        store.set(String::from_str(parts[1]), value);
        String::from_str("OK")
    } else {
        String::from_str("ERR unknown_command")
    }
}

/// Serves a replication request when it carries what its command reads, and
/// otherwise answers nothing and leaves the store alone.
pub fn replication_handle_checked(store: &mut Store, msg: &str) -> (r: Option<String>)
    ensures
        replication_request_complete(msg@) ==> r is Some,
        replication_request_complete(msg@) && command_of(msg@) == "Replicate"@ ==> final(store)@
            == old(store)@.insert(splitn3(msg@)[1], value_of_text(splitn3(msg@)[2])) && r->0@ == "OK"@,
        replication_request_complete(msg@) && command_of(msg@) != "Replicate"@ ==> final(store)@
            == old(store)@ && r->0@ == "ERR unknown_command"@,
        !replication_request_complete(msg@) ==> r is None && final(store)@ == old(store)@,
{
    let parts = split_message(msg);
    proof {
        assert(views_of(parts@)[0] == parts@[0]@);
    }
    let command = to_uppercase(parts[0]);
    if command == String::from_str("Replicate") && parts.len() != 3 {
        return None;
    }
    Some(replication_handle(store, msg))
}

/// The side that an upper-cased word names.
pub open spec fn direction_named(u: Seq<char>) -> Option<Direction> {
    if u == "NORTH"@ {
        Some(Direction::North)
    } else if u == "SOUTH"@ {
        Some(Direction::South)
    } else if u == "EAST"@ {
        Some(Direction::East)
    } else if u == "WEST"@ {
        Some(Direction::West)
    } else {
        None
    }
}

/// The sides that the pieces from position `i` on name, or the complaint
/// about the first piece that names none.
pub open spec fn directions_from(pieces: Seq<Seq<char>>, i: int) -> Result<Seq<Direction>, Seq<char>>
    decreases pieces.len() - i,
{
    if i < 0 || i >= pieces.len() {
        Ok(Seq::empty())
    } else {
        match direction_named(str_to_uppercase(pieces[i])) {
            None => Err("invalid direction: "@ + pieces[i]),
            Some(d) => match directions_from(pieces, i + 1) {
                Ok(ds) => Ok(seq![d] + ds),
                Err(e) => Err(e),
            },
        }
    }
}

/// What `parse_directions` makes of the request pieces from position `k` on:
/// the first piece that begins with `DIRECTIONS=` is read as a comma-separated
/// list of sides.
pub open spec fn parse_directions_from(parts: Seq<Seq<char>>, k: int) -> Result<Seq<Direction>, Seq<char>>
    decreases parts.len() - k,
{
    if k < 0 || k >= parts.len() {
        Err("missing DIRECTIONS parameter"@)
    } else if has_prefix(parts[k], "DIRECTIONS="@) {
        let value = parts[k].skip("DIRECTIONS="@.len() as int);
        if value.len() == 0 {
            Err("DIRECTIONS cannot be empty"@)
        } else {
            directions_from(split_from(value, ',', 0), 0)
        }
    } else {
        parse_directions_from(parts, k + 1)
    }
}

pub open spec fn prepend_ok(pre: Seq<Direction>, r: Result<Seq<Direction>, Seq<char>>) -> Result<Seq<Direction>, Seq<char>> {
    match r {
        Ok(ds) => Ok(pre + ds),
        Err(e) => Err(e),
    }
}

proof fn lemma_directions_prefix(pieces: Seq<Seq<char>>, acc: Seq<Direction>, i: int, k: int)
    requires
        0 <= k <= i <= pieces.len(),
        acc.len() == i,
        forall|j: int| 0 <= j < i ==> direction_named(str_to_uppercase(#[trigger] pieces[j])) == Some(acc[j]),
    ensures
        directions_from(pieces, k) == prepend_ok(acc.subrange(k, i), directions_from(pieces, i)),
    decreases i - k,
{
    if k == i {
        match directions_from(pieces, i) {
            Ok(ds) => {
                assert(acc.subrange(k, i) + ds =~= ds);
            },
            Err(e) => {},
        }
    } else {
        lemma_directions_prefix(pieces, acc, i, k + 1);
        assert(direction_named(str_to_uppercase(pieces[k])) == Some(acc[k]));
        match directions_from(pieces, i) {
            Ok(ds) => {
                assert(seq![acc[k]] + (acc.subrange(k + 1, i) + ds) =~= acc.subrange(k, i) + ds);
            },
            Err(e) => {},
        }
    }
}

/// The side named by one piece of a `DIRECTIONS=` list.
fn direction_of_piece(piece: &str) -> (r: Option<Direction>)
    ensures
        r == direction_named(str_to_uppercase(piece@)),
{
    let u = to_uppercase(piece);
    if u == String::from_str("NORTH") {
        Some(Direction::North)
    } else if u == String::from_str("SOUTH") {
        Some(Direction::South)
    } else if u == String::from_str("EAST") {
        Some(Direction::East)
    } else if u == String::from_str("WEST") {
        Some(Direction::West)
    } else {
        None
    }
}

/// Reads the sides listed in the first piece of the form
/// `DIRECTIONS=side,side,...` (sides in any letter case).
pub fn parse_directions(parts: &[&str]) -> (r: Result<Vec<Direction>, String>)
    ensures
        match r {
            Ok(ds) => parse_directions_from(views_of(parts@), 0) == Ok::<Seq<Direction>, Seq<char>>(ds@),
            Err(e) => parse_directions_from(views_of(parts@), 0) == Err::<Seq<Direction>, Seq<char>>(e@),
        },
{
    let ghost ps = views_of(parts@);
    let mut k: usize = 0;
    let prefix = "DIRECTIONS=";
    while k < parts.len()
        invariant
            k <= parts.len(),
            ps == views_of(parts@),
            prefix@ == "DIRECTIONS="@,
            parse_directions_from(ps, 0) == parse_directions_from(ps, k as int),
        decreases parts.len() - k,
    {
        let part: &str = parts[k];
        proof {
            assert(ps[k as int] == part@);
        }
        if starts_with(part, prefix) {
            let plen = prefix.unicode_len();
            let n = part.unicode_len();
            let value = part.substring_char(plen, n);
            proof {
                assert(value@ =~= part@.skip("DIRECTIONS="@.len() as int));
            }
            if value.unicode_len() == 0 {
                return Err(String::from_str("DIRECTIONS cannot be empty"));
            }
            let pieces = split_on(value, ',');
            let ghost pv = views_of(pieces@);
            proof {
                assert(parse_directions_from(ps, k as int) == directions_from(pv, 0));
            }
            let mut directions: Vec<Direction> = Vec::new();
            let mut i: usize = 0;
            while i < pieces.len()
                invariant
                    i <= pieces.len(),
                    pv == views_of(pieces@),
                    pv == split_from(value@, ',', 0),
                    parse_directions_from(ps, 0) == directions_from(pv, 0),
                    ps == views_of(parts@),
                    directions@.len() == i,
                    forall|j: int| 0 <= j < i ==> direction_named(str_to_uppercase(#[trigger] pv[j])) == Some(directions@[j]),
                decreases pieces.len() - i,
            {
                proof {
                    assert(pv[i as int] == pieces@[i as int]@);
                }
                match direction_of_piece(pieces[i]) {
                    Some(d) => {
                        directions.push(d);
                    },
                    None => {
                        proof {
                            lemma_directions_prefix(pv, directions@, i as int, 0);
                            assert(directions_from(pv, i as int) == Err::<Seq<Direction>, Seq<char>>("invalid direction: "@ + pv[i as int]));
                        }
                        return Err(String::from_str("invalid direction: ").concat(pieces[i]));
                    },
                }
                i = i + 1;
            }
            proof {
                lemma_directions_prefix(pv, directions@, i as int, 0);
                assert(directions@.subrange(0, i as int) + Seq::<Direction>::empty() =~= directions@);
            }
            return Ok(directions);
        }
        k = k + 1;
    }
    Err(String::from_str("missing DIRECTIONS parameter"))
}

/// What the control plane does with a request.
pub enum ControlAction {
    /// The store has been emptied; the node is to shut down.
    Shutdown,
    /// The request is answered with this text.
    Reply(String),
    /// The request is answered with the node's metadata.
    Metadata,
    /// Connections are to be opened to the neighbours on these sides.
    Connect(Vec<Direction>),
}

/// The control plane's decision as a value.
pub enum ControlPlan {
    Shutdown,
    Reply(Seq<char>),
    Metadata,
    Connect(Seq<Direction>),
}

impl View for ControlAction {
    type V = ControlPlan;

    open spec fn view(&self) -> ControlPlan {
        match self {
            ControlAction::Shutdown => ControlPlan::Shutdown,
            ControlAction::Reply(s) => ControlPlan::Reply(s@),
            ControlAction::Metadata => ControlPlan::Metadata,
            ControlAction::Connect(ds) => ControlPlan::Connect(ds@),
        }
    }
}

/// What the control plane decides for a request.
pub open spec fn control_plan(msg: Seq<char>) -> ControlPlan {
    let parts = splitn3(msg);
    let c = command_of(msg);
    if c == "SHUTDOWN"@ {
        ControlPlan::Shutdown
    } else if c == "PING"@ {
        ControlPlan::Reply("PONG"@)
    } else if c == "Metadata"@ {
        ControlPlan::Metadata
    } else if c == "CONNECT"@ {
        match parse_directions_from(parts.skip(1), 0) {
            Err(e) => ControlPlan::Reply("ERR "@ + e),
            Ok(ds) => if ds.len() == 0 {
                ControlPlan::Reply("ERR missing_directions"@)
            } else {
                ControlPlan::Connect(ds)
            },
        }
    } else {
        ControlPlan::Reply("ERR unknown_command"@)
    }
}

/// Decides a control-plane request (`SHUTDOWN`, `PING`, `CONNECT
/// DIRECTIONS=...`, and the metadata request); a shutdown empties the store.
pub fn control_plane_handle(msg: &str, store: &mut Store) -> (r: ControlAction)
    ensures
        r@ == control_plan(msg@),
        r@ is Shutdown ==> final(store)@ == Map::<Seq<char>, Value>::empty(),
        !(r@ is Shutdown) ==> final(store)@ == old(store)@,
{
    let parts = split_message(msg);
    proof {
        assert(views_of(parts@)[0] == parts@[0]@);
    }
    let command = to_uppercase(parts[0]);
    if command == String::from_str("SHUTDOWN") {
        store.clear();
        ControlAction::Shutdown
    } else if command == String::from_str("PING") {
        ControlAction::Reply(String::from_str("PONG"))
    } else if command == String::from_str("Metadata") {
        ControlAction::Metadata
    } else if command == String::from_str("CONNECT") {
        let rest = slice_from_one(&parts);
        proof {
            assert(views_of(rest@) =~= splitn3(msg@).skip(1));
        }
        match parse_directions(rest.as_slice()) {
            Err(e) => ControlAction::Reply(String::from_str("ERR ").concat(e.as_str())),
            Ok(directions) => {
                if directions.len() == 0 {
                    ControlAction::Reply(String::from_str("ERR missing_directions"))
                } else {
                    ControlAction::Connect(directions)
                }
            },
        }
    } else {
        ControlAction::Reply(String::from_str("ERR unknown_command"))
    }
}

/// The pieces after the first.
fn slice_from_one<'a>(parts: &Vec<&'a str>) -> (r: Vec<&'a str>)
    requires
        parts.len() >= 1,
    ensures
        r@ == parts@.skip(1),
{
    let mut r: Vec<&'a str> = Vec::new();
    let mut i: usize = 1;
    while i < parts.len()
        invariant
            1 <= i <= parts.len(),
            r@ == parts@.subrange(1, i as int),
        decreases parts.len() - i,
    {
        r.push(parts[i]);
        i = i + 1;
        proof {
            assert(r@ =~= parts@.subrange(1, i as int));
        }
    }
    proof {
        assert(parts@.subrange(1, parts.len() as int) =~= parts@.skip(1));
    }
    r
}

/// The control plane's next step while it opens connections to neighbours.
pub enum DialStep {
    /// Dial the neighbour on this side.
    Dial(Direction),
    /// Stop and answer with this text.
    Reply(String),
}

/// The next step after `dialled` of the requested sides were dialled, the
/// last with outcome `last`: a failed dial ends it with
/// `ERR connection_failed: ` and the error; otherwise the next side is
/// dialled, and once every side was, the answer is `OK connection_started`.
pub fn next_dial(directions: &Vec<Direction>, dialled: usize, last: Option<Result<(), String>>) -> (r: DialStep)
    requires
        dialled <= directions.len(),
    ensures
        match last {
            Some(Err(e)) => r matches DialStep::Reply(t) && t@ == "ERR connection_failed: "@ + e@,
            _ => if dialled < directions.len() {
                r matches DialStep::Dial(d) && d == directions@[dialled as int]
            } else {
                r matches DialStep::Reply(t) && t@ == "OK connection_started"@
            },
        },
{
    match last {
        Some(Err(e)) => DialStep::Reply(String::from_str("ERR connection_failed: ").concat(e.as_str())),
        _ => if dialled < directions.len() {
            DialStep::Dial(directions[dialled])
        } else {
            DialStep::Reply(String::from_str("OK connection_started"))
        },
    }
}

/// The side named by a neighbour's answer to the direction question (exactly
/// `NORTH`, `SOUTH`, `EAST` or `WEST`), seen from this node: the opposite side.
pub open spec fn neighbor_direction(reply: Seq<char>) -> Result<Direction, Seq<char>> {
    if reply == "NORTH"@ {
        Ok(spec_inverse(Direction::North))
    } else if reply == "SOUTH"@ {
        Ok(spec_inverse(Direction::South))
    } else if reply == "EAST"@ {
        Ok(spec_inverse(Direction::East))
    } else if reply == "WEST"@ {
        Ok(spec_inverse(Direction::West))
    } else {
        Err("invalid direction"@)
    }
}

/// A neighbour that answers the direction question with the capital name of
/// a side sits on the opposite side of this node, never on the side it names;
/// every other answer is refused.
pub proof fn law_answer_names_the_opposite_side(d: Direction, reply: Seq<char>)
    ensures
        neighbor_direction(crate::metadata::upper_name(d)) == Ok::<Direction, Seq<char>>(spec_inverse(d)),
        neighbor_direction(crate::metadata::upper_name(d)) != Ok::<Direction, Seq<char>>(d),
        (forall|e: Direction| reply != #[trigger] crate::metadata::upper_name(e)) ==> neighbor_direction(reply)
            is Err,
{
    crate::metadata::law_sides_have_their_own_names(Direction::North, Direction::South);
    crate::metadata::law_sides_have_their_own_names(Direction::North, Direction::East);
    crate::metadata::law_sides_have_their_own_names(Direction::North, Direction::West);
    crate::metadata::law_sides_have_their_own_names(Direction::South, Direction::East);
    crate::metadata::law_sides_have_their_own_names(Direction::South, Direction::West);
    crate::metadata::law_sides_have_their_own_names(Direction::East, Direction::West);
    crate::metadata::law_inverse_is_involution(d);
    assert(crate::metadata::upper_name(Direction::North) == "NORTH"@);
    assert(crate::metadata::upper_name(Direction::South) == "SOUTH"@);
    assert(crate::metadata::upper_name(Direction::East) == "EAST"@);
    assert(crate::metadata::upper_name(Direction::West) == "WEST"@);
}

/// Reads a neighbour's answer to the direction question.
pub fn neighbor_direction_from_reply(reply: &str) -> (r: Result<Direction, String>)
    ensures
        match r {
            Ok(d) => neighbor_direction(reply@) == Ok::<Direction, Seq<char>>(d),
            Err(e) => neighbor_direction(reply@) == Err::<Direction, Seq<char>>(e@),
        },
{
    let s = String::from_str(reply);
    let named = if s == String::from_str("NORTH") {
        Direction::North
    } else if s == String::from_str("SOUTH") {
        Direction::South
    } else if s == String::from_str("EAST") {
        Direction::East
    } else if s == String::from_str("WEST") {
        Direction::West
    } else {
        return Err(String::from_str("invalid direction"));
    };
    Ok(named.inverse())
}

} // verus!
