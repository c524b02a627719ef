//! The reactor: connection registry, registration record, and dispatch.
//!
//! The reactor owns every live connection's context, keyed by a counter that
//! is unique for the server's lifetime, and keeps a record of which keys are
//! armed in the readiness facility and for which interest. One reserved
//! sentinel key stands for the listening socket; it is armed for
//! read-readiness for the reactor's entire life and never carries a
//! connection context. The caller performs the operating-system calls (wait,
//! accept, read, write, arm, disarm) and feeds their outcomes in; the
//! reactor decides every transition, and its well-formedness invariant ties
//! the registry and the registration record together: a key is armed exactly
//! when it is the sentinel or a live connection, and its interest matches
//! that connection's phase.

use vstd::prelude::*;

use crate::conn::ConnError;
use crate::conn::ConnState;
use crate::conn::Interest;
use crate::conn::RequestContext;
use crate::conn::chunk_header_ok;
use crate::conn::http_response;
use crate::conn::updated_length;
use std::collections::HashMap;

verus! {

broadcast use vstd::std_specs::hash::group_hash_axioms;

/// The reserved key of the listening socket.
pub const SENTINEL_KEY: u64 = 888;

/// The interest a live connection's registration must be armed for: read
/// while it gathers the request, write once the request is complete.
pub open spec fn interest_for(s: ConnState) -> Interest {
    match s {
        ConnState::Reading => Interest::Read,
        _ => Interest::Write,
    }
}

/// Where one readiness event must be routed.
#[derive(Clone, Copy, PartialEq, Eq, Structural, Debug)]
pub enum Dispatch {
    /// The sentinel fired: accept one connection, then re-arm the listener.
    AcceptNew,
    /// A connection is read-ready: read one chunk and feed it in.
    DoRead,
    /// A connection is write-ready: send the response and tear it down.
    DoWrite,
    /// The key is no longer tracked; the event is stale and is dropped.
    IgnoreStale,
    /// The mask carries neither readiness; the event is logged and dropped.
    IgnoreMask,
}

/// The routing rule, exactly as the reactor applies it: the sentinel key
/// goes to the acceptor; an untracked key is stale; otherwise read-readiness
/// is served before write-readiness, and an event with neither is ignored.
pub open spec fn spec_classify(
    conns: Map<u64, RequestContext>,
    key: u64,
    readable: bool,
    writable: bool,
) -> Dispatch {
    if key == SENTINEL_KEY {
        Dispatch::AcceptNew
    } else if !conns.contains_key(key) {
        Dispatch::IgnoreStale
    } else if readable {
        Dispatch::DoRead
    } else if writable {
        Dispatch::DoWrite
    } else {
        Dispatch::IgnoreMask
    }
}

/// What one read step did to the reactor.
#[derive(Clone, Copy, PartialEq, Eq, Structural, Debug)]
pub enum ReadStep {
    /// The connection lives on; its registration must be re-armed for this
    /// interest.
    Rearmed(Interest),
    /// Its length header was malformed: the connection was dropped from the
    /// registry and the record; the caller must disarm and close its socket.
    Abandoned,
    /// No tracked connection in its reading phase carries this key; nothing
    /// changed.
    Ignored,
}

/// The reactor's state: the registry of live connections, the record of
/// armed registrations, and the next key to hand out.
pub struct Reactor {
    pub connections: HashMap<u64, RequestContext>,
    pub armed: HashMap<u64, Interest>,
    pub next_key: u64,
}

impl Reactor {
    /// The reactor's invariant. The sentinel is armed for read and holds no
    /// context; every key ever handed out is below `next_key`; the armed
    /// keys are exactly the sentinel and the registry's keys; a live
    /// connection is never `Closed`, its registration's interest matches
    /// its phase, and one in its writing phase has gathered its whole body.
    pub open spec fn wf(self) -> bool {
        &&& self.armed@.contains_key(SENTINEL_KEY)
        &&& self.armed@[SENTINEL_KEY] == Interest::Read
        &&& !self.connections@.contains_key(SENTINEL_KEY)
        &&& self.next_key > SENTINEL_KEY
        &&& self.armed@.dom() == self.connections@.dom().insert(SENTINEL_KEY)
        &&& forall|k: u64| #[trigger] self.connections@.contains_key(k) ==> {
            let c = self.connections@[k];
            &&& SENTINEL_KEY < k < self.next_key
            &&& (c.state == ConnState::Reading || c.state == ConnState::Writing)
            &&& self.armed@[k] == interest_for(c.state)
            &&& (c.state == ConnState::Writing ==> c.buf@.len() >= c.content_length)
        }
    }

    /// A fresh reactor: no connections, the sentinel armed for read, keys
    /// starting just above the sentinel.
    pub fn new() -> (r: Reactor)
        ensures
            r.wf(),
            r.connections@ == Map::<u64, RequestContext>::empty(),
            r.armed@ == Map::<u64, Interest>::empty().insert(SENTINEL_KEY, Interest::Read),
            r.next_key == SENTINEL_KEY + 1,
    {
        let connections: HashMap<u64, RequestContext> = HashMap::new();
        let mut armed: HashMap<u64, Interest> = HashMap::new();
        armed.insert(SENTINEL_KEY, Interest::Read);
        let r = Reactor { connections, armed, next_key: SENTINEL_KEY + 1 };
        proof {
            assert(r.armed@.dom() =~= r.connections@.dom().insert(SENTINEL_KEY));
        }
        r
    }

    /// Route one readiness event, by key and by the two readiness bits of
    /// its mask.
    pub fn classify(&self, key: u64, readable: bool, writable: bool) -> (d: Dispatch)
        ensures
            d == spec_classify(self.connections@, key, readable, writable),
    {
        if key == SENTINEL_KEY {
            Dispatch::AcceptNew
        } else if !self.connections.contains_key(&key) {
            Dispatch::IgnoreStale
        } else if readable {
            Dispatch::DoRead
        } else if writable {
            Dispatch::DoWrite
        } else {
            Dispatch::IgnoreMask
        }
    }

    /// Admit one accepted connection: hand it the next unused key, insert a
    /// fresh context, and record its registration armed for read. The
    /// sentinel stays armed: accepting never touches the listener's entry.
    pub fn accept_connection(&mut self) -> (key: u64)
        requires
            old(self).wf(),
            old(self).next_key < u64::MAX,
        ensures
            final(self).wf(),
            key == old(self).next_key,
            !old(self).connections@.contains_key(key),
            !old(self).armed@.contains_key(key),
            final(self).next_key == old(self).next_key + 1,
            final(self).connections@ == old(self).connections@.insert(
                key,
                final(self).connections@[key],
            ),
            final(self).connections@[key].content_length == 0,
            final(self).connections@[key].buf@ == Seq::<u8>::empty(),
            final(self).connections@[key].state == ConnState::Reading,
            final(self).armed@ == old(self).armed@.insert(key, Interest::Read),
            final(self).armed@[SENTINEL_KEY] == Interest::Read,
    {
        let key = self.next_key;
        self.next_key = self.next_key + 1;
        self.connections.insert(key, RequestContext::new());
        self.armed.insert(key, Interest::Read);
        proof {
            assert(final(self).armed@.dom() =~= final(self).connections@.dom().insert(
                SENTINEL_KEY,
            ));
        }
        key
    }

    /// Feed one read chunk to the connection behind `key`. When the
    /// connection is tracked and reading, this is its `on_readable` step:
    /// the chunk's bytes join its buffer, a length header is honoured, and
    /// the key ends re-armed for read or for write — it leaves the record
    /// only on a malformed header, and then it leaves the registry with it.
    pub fn handle_readable(&mut self, key: u64, chunk: &[u8]) -> (r: ReadStep)
        requires
            old(self).wf(),
            key != SENTINEL_KEY,
        ensures
            final(self).wf(),
            final(self).next_key == old(self).next_key,
            match r {
                ReadStep::Rearmed(interest) => {
                    let c0 = old(self).connections@[key];
                    let c1 = final(self).connections@[key];
                    &&& old(self).connections@.contains_key(key)
                    &&& c0.state == ConnState::Reading
                    &&& chunk_header_ok(c0.content_length, chunk@)
                    &&& c1.content_length == updated_length(c0.content_length, chunk@)
                    &&& c1.buf@ == c0.buf@ + chunk@
                    &&& (c1.state == ConnState::Writing <==> c1.buf@.len() >= c1.content_length)
                    &&& (c1.state == ConnState::Writing || c1.state == ConnState::Reading)
                    &&& interest == interest_for(c1.state)
                    &&& final(self).connections@ == old(self).connections@.insert(key, c1)
                    &&& final(self).armed@ == old(self).armed@.insert(key, interest)
                },
                ReadStep::Abandoned => {
                    let c0 = old(self).connections@[key];
                    &&& old(self).connections@.contains_key(key)
                    &&& c0.state == ConnState::Reading
                    &&& !chunk_header_ok(c0.content_length, chunk@)
                    &&& final(self).connections@ == old(self).connections@.remove(key)
                    &&& final(self).armed@ == old(self).armed@.remove(key)
                    &&& !final(self).connections@.contains_key(key)
                    &&& !final(self).armed@.contains_key(key)
                },
                ReadStep::Ignored => {
                    &&& !(old(self).connections@.contains_key(key)
                        && old(self).connections@[key].state == ConnState::Reading)
                    &&& final(self).connections@ == old(self).connections@
                    &&& final(self).armed@ == old(self).armed@
                },
            },
    {
        let ctx_opt = self.connections.remove(&key);
        match ctx_opt {
            None => {
                proof {
                    assert(final(self).connections@ =~= old(self).connections@);
                }
                ReadStep::Ignored
            },
            Some(mut ctx) => {
                match ctx.state {
                    ConnState::Reading => {
                        match ctx.on_readable(chunk) {
                            Ok(interest) => {
                                self.connections.insert(key, ctx);
                                self.armed.insert(key, interest);
                                proof {
                                    assert(final(self).armed@.dom() =~= final(self).connections@.dom().insert(SENTINEL_KEY));
                                }
                                ReadStep::Rearmed(interest)
                            },
                            Err(ConnError::MalformedLength) => {
                                self.armed.remove(&key);
                                proof {
                                    assert(final(self).armed@.dom() =~= final(self).connections@.dom().insert(SENTINEL_KEY));
                                }
                                ReadStep::Abandoned
                            },
                        }
                    },
                    _ => {
                        self.connections.insert(key, ctx);
                        proof {
                            assert(final(self).connections@ =~= old(self).connections@);
                        }
                        ReadStep::Ignored
                    },
                }
            },
        }
    }

    /// Serve write-readiness for the connection behind `key`. When it is
    /// tracked and its writing phase has been reached, hand out the fixed
    /// response and the closed context: its key leaves the registry and the
    /// record together, atomically with the close. The caller writes the
    /// bytes, shuts the socket down, disarms the registration and closes
    /// the descriptor.
    pub fn handle_writable(&mut self, key: u64) -> (r: Option<(Vec<u8>, RequestContext)>)
        requires
            old(self).wf(),
            key != SENTINEL_KEY,
        ensures
            final(self).wf(),
            final(self).next_key == old(self).next_key,
            match r {
                Some((resp, ctx)) => {
                    let c0 = old(self).connections@[key];
                    &&& old(self).connections@.contains_key(key)
                    &&& c0.state == ConnState::Writing
                    &&& resp@ == http_response()
                    &&& ctx.state == ConnState::Closed
                    &&& ctx.buf == c0.buf
                    &&& ctx.content_length == c0.content_length
                    &&& ctx.buf@.len() >= ctx.content_length
                    &&& final(self).connections@ == old(self).connections@.remove(key)
                    &&& final(self).armed@ == old(self).armed@.remove(key)
                    &&& !final(self).connections@.contains_key(key)
                    &&& !final(self).armed@.contains_key(key)
                },
                None => {
                    &&& !(old(self).connections@.contains_key(key)
                        && old(self).connections@[key].state == ConnState::Writing)
                    &&& final(self).connections@ == old(self).connections@
                    &&& final(self).armed@ == old(self).armed@
                },
            },
    {
        let ctx_opt = self.connections.remove(&key);
        match ctx_opt {
            None => {
                proof {
                    assert(final(self).connections@ =~= old(self).connections@);
                }
                None
            },
            Some(mut ctx) => {
                match ctx.state {
                    ConnState::Writing => {
                        let resp = ctx.on_writable();
                        self.armed.remove(&key);
                        proof {
                            assert(final(self).armed@.dom() =~= final(self).connections@.dom().insert(SENTINEL_KEY));
                        }
                        Some((resp, ctx))
                    },
                    _ => {
                        self.connections.insert(key, ctx);
                        proof {
                            assert(final(self).connections@ =~= old(self).connections@);
                        }
                        None
                    },
                }
            },
        }
    }

    /// Abandon the connection behind `key` after a failure confined to it:
    /// an I/O error on its socket or a rejected registration call. Its key
    /// leaves the registry and the record; no other connection is touched.
    pub fn abandon(&mut self, key: u64) -> (removed: bool)
        requires
            old(self).wf(),
            key != SENTINEL_KEY,
        ensures
            final(self).wf(),
            final(self).next_key == old(self).next_key,
            removed == old(self).connections@.contains_key(key),
            final(self).connections@ == old(self).connections@.remove(key),
            final(self).armed@ == old(self).armed@.remove(key),
            !final(self).connections@.contains_key(key),
            !final(self).armed@.contains_key(key),
    {
        let removed = self.connections.remove(&key).is_some();
        self.armed.remove(&key);
        proof {
            assert(final(self).armed@.dom() =~= final(self).connections@.dom().insert(
                SENTINEL_KEY,
            ));
            if !old(self).connections@.contains_key(key) {
                assert(final(self).connections@ =~= old(self).connections@.remove(key));
            }
        }
        removed
    }

    /// Whether a key is tracked in the registry.
    pub fn contains_connection(&self, key: u64) -> (b: bool)
        ensures
            b == self.connections@.contains_key(key),
    {
        self.connections.contains_key(&key)
    }

    /// The interest a key's registration is armed for, if it is armed.
    pub fn registered_interest(&self, key: u64) -> (r: Option<Interest>)
        ensures
            match r {
                Some(i) => self.armed@.contains_key(key) && i == self.armed@[key],
                None => !self.armed@.contains_key(key),
            },
    {
        match self.armed.get(&key) {
            Some(i) => Some(*i),
            None => None,
        }
    }

    /// How many connections are live.
    pub fn connection_count(&self) -> (n: usize)
        ensures
            n == self.connections@.len(),
    {
        self.connections.len()
    }
}

/// The listener is never given up: in every well-formed reactor the
/// sentinel key is armed for read-readiness and carries no connection
/// context. Every reactor operation preserves well-formedness, so this
/// holds for the server's entire lifetime.
pub proof fn lemma_sentinel_registered(r: Reactor)
    requires
        r.wf(),
    ensures
        r.armed@.contains_key(SENTINEL_KEY),
        r.armed@[SENTINEL_KEY] == Interest::Read,
        !r.connections@.contains_key(SENTINEL_KEY),
{
}

/// Write-readiness is only ever served to a connection whose buffer already
/// holds at least the announced body length: in a well-formed reactor every
/// connection in its writing phase has gathered its whole body, and only
/// such a connection is armed for write.
pub proof fn lemma_writing_implies_complete(r: Reactor, key: u64)
    requires
        r.wf(),
        r.connections@.contains_key(key),
        r.connections@[key].state == ConnState::Writing,
    ensures
        r.connections@[key].buf@.len() >= r.connections@[key].content_length,
        r.armed@[key] == Interest::Write,
{
}

/// A closed connection is tracked nowhere: in a well-formed reactor no
/// registry entry is `Closed`, and a key is armed only for the sentinel or
/// a registry entry. So once a connection closes, its key is absent from
/// the registry and from the registration record at once.
pub proof fn lemma_closed_untracked(r: Reactor, key: u64)
    requires
        r.wf(),
    ensures
        r.connections@.contains_key(key) ==> r.connections@[key].state != ConnState::Closed,
        r.armed@.contains_key(key) ==> key == SENTINEL_KEY || r.connections@.contains_key(key),
{
    assert(r.armed@.dom() == r.connections@.dom().insert(SENTINEL_KEY));
    if r.armed@.contains_key(key) && key != SENTINEL_KEY {
        assert(r.connections@.dom().insert(SENTINEL_KEY).contains(key));
    }
}

/// Live connections are independent: a read step for one key leaves every
/// other connection's context — buffer and length counter — untouched, and
/// tearing one down (completion or abandonment) removes exactly that key.
pub proof fn lemma_connections_independent(
    pre: Reactor,
    post: Reactor,
    key: u64,
    other: u64,
)
    requires
        other != key,
        post.connections@ == pre.connections@.insert(key, post.connections@[key])
            || post.connections@ == pre.connections@.remove(key),
    ensures
        pre.connections@.contains_key(other) ==> post.connections@.contains_key(other)
            && post.connections@[other] == pre.connections@[other],
{
}

} // verus!
