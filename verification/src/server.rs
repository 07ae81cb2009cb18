use vstd::prelude::*;

use std::collections::HashMap;

use crate::connection::Connection;

verus! {

broadcast use vstd::std_specs::hash::group_hash_axioms;

/// The server's configuration: the address to listen on and the directory
/// whose regular files are served.
pub struct Server {
    pub addr: String,
    pub mount_dir: String,
}

impl Server {
    pub fn new(addr: &str, mount_dir: String) -> (s: Server)
        ensures
            s.addr@ == addr@,
            s.mount_dir@ == mount_dir@,
    {
        Server { addr: addr.to_owned(), mount_dir }
    }
}

/// The table of live connections, keyed by an opaque token. Tokens count
/// up from 1 (0 names the listening socket) and are never reused within
/// the process lifetime, so a stale readiness event can never reach a
/// connection accepted later.
pub struct ConnectionTable {
    next_token: u64,
    conns: HashMap<u64, Connection>,
}

impl ConnectionTable {
    pub closed spec fn map(self) -> Map<u64, Connection> {
        self.conns@
    }

    pub closed spec fn next(self) -> u64 {
        self.next_token
    }

    pub closed spec fn wf(self) -> bool {
        &&& self.next_token >= 1
        &&& forall|k: u64| #[trigger] self.conns@.dom().contains(k) ==> k < self.next_token
        &&& forall|k: u64| #[trigger] self.conns@.dom().contains(k) ==> self.conns@[k].wf()
    }

    pub fn new() -> (t: ConnectionTable)
        ensures
            t.wf(),
            t.map() == Map::<u64, Connection>::empty(),
            t.next() == 1,
    {
        ConnectionTable { next_token: 1, conns: HashMap::new() }
    }

    /// The token the next accepted connection will get.
    pub fn next_token(&self) -> (r: u64)
        ensures
            r == self.next(),
    {
        self.next_token
    }

    /// Registers a freshly accepted connection under a token never handed
    /// out before.
    pub fn accept(&mut self) -> (token: u64)
        requires
            old(self).wf(),
            old(self).next() < u64::MAX,
        ensures
            final(self).wf(),
            token == old(self).next(),
            !old(self).map().dom().contains(token),
            final(self).next() == old(self).next() + 1,
            final(self).map().dom() == old(self).map().dom().insert(token),
            final(self).map()[token]@.read_buf == Seq::<u8>::empty(),
            final(self).map()[token]@.write_buf == Seq::<u8>::empty(),
            final(self).map()[token]@.streamer is None,
            forall|k: u64| #[trigger] old(self).map().dom().contains(k) ==> final(self).map()[k]
                == old(self).map()[k],
    {
        let conn = Connection::new();
        let token = self.next_token;
        self.conns.insert(token, conn);
        self.next_token = token + 1;
        token
    }

    /// Removes and returns the connection a readiness event names, so the
    /// caller can drive it; a token of a connection already dropped finds
    /// nothing.
    pub fn take(&mut self, token: u64) -> (r: Option<Connection>)
        requires
            old(self).wf(),
        ensures
            final(self).wf(),
            final(self).next() == old(self).next(),
            match r {
                Some(c) => {
                    &&& old(self).map().dom().contains(token)
                    &&& c == old(self).map()[token]
                    &&& c.wf()
                    &&& final(self).map() == old(self).map().remove(token)
                },
                None => {
                    &&& !old(self).map().dom().contains(token)
                    &&& final(self).map() == old(self).map()
                },
            },
    {
        self.conns.remove(&token)
    }

    /// Puts a connection back after its event was handled. A connection
    /// that failed is simply not put back: dropping it releases its
    /// resources.
    pub fn put(&mut self, token: u64, conn: Connection)
        requires
            old(self).wf(),
            conn.wf(),
            token < old(self).next(),
        ensures
            final(self).wf(),
            final(self).next() == old(self).next(),
            final(self).map() == old(self).map().insert(token, conn),
    {
        self.conns.insert(token, conn);
    }
}

} // verus!
