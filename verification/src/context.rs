//! The handlers that serve the zone node's data ports.
use vstd::prelude::*;
use crate::handle::{db_handle_checked, db_reply, db_request_complete, db_store_after};
use crate::store::Store;

verus! {

/// Serves requests that arrive on the real-time (UDP) port.
#[derive(Clone, Copy, Debug)]
pub struct RealtimeHandler;

/// Serves requests that arrive on the client (TCP) port.
#[derive(Clone, Copy, Debug)]
pub struct ClientHandler;

impl RealtimeHandler {
    /// Serves a data request; a request that lacks the pieces its command
    /// reads is answered with nothing and leaves the store alone.
    pub fn handle(&self, msg: &str, store: &mut Store) -> (r: Option<String>)
        ensures
            db_request_complete(msg@) ==> (r matches Some(s) && s@ == db_reply(old(store)@, msg@)
                && final(store)@ == db_store_after(old(store)@, msg@)),
            !db_request_complete(msg@) ==> r is None && final(store)@ == old(store)@,
    {
        db_handle_checked(store, msg)
    }
}

impl ClientHandler {
    /// Serves a data request; a request that lacks the pieces its command
    /// reads is answered with nothing and leaves the store alone.
    pub fn handle(&self, msg: &str, store: &mut Store) -> (r: Option<String>)
        ensures
            db_request_complete(msg@) ==> (r matches Some(s) && s@ == db_reply(old(store)@, msg@)
                && final(store)@ == db_store_after(old(store)@, msg@)),
            !db_request_complete(msg@) ==> r is None && final(store)@ == old(store)@,
    {
        db_handle_checked(store, msg)
    }
}

} // verus!
