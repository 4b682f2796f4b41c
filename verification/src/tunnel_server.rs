//! The broker's side of a tunnel: which tunnels are live, which public
//! connections wait for a proxy connection, and how the two are matched.

use crate::tunnel_protocol::{ClientMessage, ServerMessage, TunnelError, CONNECTION_TIMEOUT_MS};
use dashmap::DashMap;
use std::collections::HashSet;
use vstd::prelude::*;

verus! {

broadcast use vstd::std_specs::hash::group_hash_axioms;

/// A public connection that waits for the agent's proxy connection.
#[derive(Clone, Copy, Debug, PartialEq, Eq, Structural)]
pub struct PendingProxyRequest {
    /// The public port of the tunnel on which the connection came.
    pub port: u16,
    /// The broker's handle for the waiting public connection.
    pub conn: u64,
    /// The time, in milliseconds, from which on the request is expired.
    pub deadline: u64,
}

/// What the first message on a fresh connection to the control port makes
/// of that connection.
#[derive(Clone, Copy, Debug, PartialEq, Eq, Structural)]
pub enum Hello {
    /// A control connection: the agent asks for a tunnel.
    Tunnel,
    /// A proxy connection for the request with this id.
    Proxy(u128),
    /// Neither: close the connection.
    Reject,
}

/// Why a public connection was not taken in.
#[derive(Clone, Copy, Debug, PartialEq, Eq, Structural)]
pub enum Refused {
    /// No live tunnel has this public port.
    NoSuchTunnel,
    /// A request with this id is waiting already.
    DuplicateId,
    /// The broker has no handle left to give.
    OutOfConnections,
}

/// A public connection that was taken in.
#[derive(Clone, Copy, Debug, PartialEq, Eq, Structural)]
pub struct Accepted {
    /// The handle under which the broker holds the public connection.
    pub conn: u64,
    /// The message to send on the tunnel's control connection.
    pub request: ServerMessage,
}

/// What a registration of a proxy connection found.
#[derive(Clone, Copy, Debug, PartialEq, Eq, Structural)]
pub enum Matched {
    /// The public connection that waited under the id: relay between it and
    /// the proxy connection.
    Paired(u64),
    /// A request waited under the id, but past its deadline: close its
    /// public connection and the proxy connection.
    Expired(u64),
    /// Nothing waits under the id: close the proxy connection.
    Unknown,
}

/// Which waiting requests an eviction takes.
#[derive(Clone, Copy, Debug, PartialEq, Eq, Structural)]
pub enum Selector {
    /// Those whose deadline is at or before this time.
    Expired(u64),
    /// Those of the tunnel with this public port.
    OfTunnel(u16),
}

impl Selector {
    pub open spec fn picks(self, entry: PendingProxyRequest) -> bool {
        match self {
            Selector::Expired(now) => entry.deadline <= now,
            Selector::OfTunnel(port) => entry.port == port,
        }
    }

    /// Whether the eviction takes this request.
    pub fn takes(&self, entry: &PendingProxyRequest) -> (r: bool)
        ensures
            r == self.picks(*entry),
    {
        match self {
            Selector::Expired(now) => entry.deadline <= *now,
            Selector::OfTunnel(port) => entry.port == *port,
        }
    }
}

/// What marks a number as a random UUID: the version is 4 and the variant is
/// the standard one.
pub open spec fn is_random_uuid(id: u128) -> bool {
    (id >> 76) & 0xf == 4 && (id >> 62) & 0x3 == 2
}

/// The deadline of a request that is taken in at `now`.
pub open spec fn deadline_after(now: u64) -> u64 {
    if now + CONNECTION_TIMEOUT_MS > u64::MAX {
        u64::MAX
    } else {
        (now + CONNECTION_TIMEOUT_MS) as u64
    }
}

/// The broker's state as mathematics.
pub struct Broker {
    /// The waiting requests, by their correlation id.
    pub pending: Map<u128, PendingProxyRequest>,
    /// The public ports of the live tunnels.
    pub tunnels: Set<u16>,
    /// The handle that the next public connection gets.
    pub next_conn: nat,
}

impl Broker {
    /// A broker without tunnels.
    pub open spec fn empty() -> Broker {
        Broker { pending: Map::empty(), tunnels: Set::empty(), next_conn: 0 }
    }

    /// Every waiting request belongs to a live tunnel, and no handle is held
    /// by two requests or will be given out again.
    pub open spec fn consistent(self) -> bool {
        &&& self.next_conn <= u64::MAX
        &&& forall|id: u128| #[trigger]
            self.pending.contains_key(id) ==> self.pending[id].conn < self.next_conn
                && self.tunnels.contains(self.pending[id].port)
        &&& forall|a: u128, b: u128|
            #[trigger] self.pending.contains_key(a) && #[trigger] self.pending.contains_key(b) && a
                != b ==> self.pending[a].conn != self.pending[b].conn
    }

    /// The broker with a tunnel on `port`.
    pub open spec fn opened(self, port: u16) -> Broker {
        Broker { tunnels: self.tunnels.insert(port), ..self }
    }

    /// Why a public connection on `port` cannot wait under `id`, if it
    /// cannot.
    pub open spec fn refusal(self, port: u16, id: u128) -> Option<Refused> {
        if !self.tunnels.contains(port) {
            Some(Refused::NoSuchTunnel)
        } else if self.pending.contains_key(id) {
            Some(Refused::DuplicateId)
        } else if self.next_conn >= u64::MAX {
            Some(Refused::OutOfConnections)
        } else {
            None
        }
    }

    /// The broker with one more waiting request: a public connection that
    /// came on `port` at `now` waits under `id` and gets the next handle.
    pub open spec fn enqueued(self, port: u16, id: u128, now: u64) -> Broker {
        Broker {
            pending: self.pending.insert(
                id,
                PendingProxyRequest {
                    port,
                    conn: self.next_conn as u64,
                    deadline: deadline_after(now),
                },
            ),
            next_conn: self.next_conn + 1,
            ..self
        }
    }

    /// What a proxy connection that registers with `id` at `now` finds.
    pub open spec fn matched(self, id: u128, now: u64) -> Matched {
        if !self.pending.contains_key(id) {
            Matched::Unknown
        } else if now < self.pending[id].deadline {
            Matched::Paired(self.pending[id].conn)
        } else {
            Matched::Expired(self.pending[id].conn)
        }
    }

    /// The broker after a registration with `id`: whatever waited under the
    /// id waits no more.
    pub open spec fn without(self, id: u128) -> Broker {
        Broker { pending: self.pending.remove(id), ..self }
    }

    /// The broker after an eviction: the requests that the selector picks
    /// are gone.
    pub open spec fn evicted(self, sel: Selector) -> Broker {
        Broker {
            pending: Map::new(
                |id: u128| self.pending.contains_key(id) && !sel.picks(self.pending[id]),
                |id: u128| self.pending[id],
            ),
            ..self
        }
    }

    /// The handles of the public connections that an eviction takes.
    pub open spec fn victims(self, sel: Selector) -> Set<u64> {
        Set::new(
            |conn: u64|
                exists|id: u128| #[trigger]
                    self.pending.contains_key(id) && sel.picks(self.pending[id])
                        && self.pending[id].conn == conn,
        )
    }

    /// The broker after the tunnel on `port` closed: the tunnel is gone,
    /// and with it every request that waited on it.
    pub open spec fn torn_down(self, port: u16) -> Broker {
        Broker { tunnels: self.tunnels.remove(port), ..self.evicted(Selector::OfTunnel(port)) }
    }
}

/// A consistent broker stays consistent, whatever is done to it.
pub proof fn lemma_steps_keep_consistency(b: Broker, port: u16, id: u128, now: u64, sel: Selector)
    requires
        b.consistent(),
    ensures
        Broker::empty().consistent(),
        b.opened(port).consistent(),
        b.refusal(port, id) is None ==> b.enqueued(port, id, now).consistent(),
        b.without(id).consistent(),
        b.evicted(sel).consistent(),
        b.torn_down(port).consistent(),
{
    let opened = b.opened(port);
    assert forall|k: u128| #[trigger] opened.pending.contains_key(k) implies opened.tunnels.contains(
        opened.pending[k].port,
    ) by {
        assert(b.pending.contains_key(k));
    }
    if b.refusal(port, id) is None {
        let more = b.enqueued(port, id, now);
        assert forall|k: u128| #[trigger] more.pending.contains_key(k) implies more.pending[k].conn
            < more.next_conn && more.tunnels.contains(more.pending[k].port) by {
            if k != id {
                assert(b.pending.contains_key(k));
            }
        }
        assert forall|x: u128, y: u128|
            #[trigger] more.pending.contains_key(x) && #[trigger] more.pending.contains_key(y) && x
                != y implies more.pending[x].conn != more.pending[y].conn by {
            if x != id {
                assert(b.pending.contains_key(x));
            }
            if y != id {
                assert(b.pending.contains_key(y));
            }
        }
    }
    let less = b.without(id);
    assert forall|k: u128| #[trigger] less.pending.contains_key(k) implies b.pending.contains_key(
        k,
    ) by {}
    let swept = b.evicted(sel);
    assert forall|k: u128| #[trigger] swept.pending.contains_key(k) implies b.pending.contains_key(
        k,
    ) by {}
    let gone = b.torn_down(port);
    assert forall|k: u128| #[trigger] gone.pending.contains_key(k) implies b.pending.contains_key(
        k,
    ) && gone.pending[k].port != port by {}
}

/// Two public connections that wait at the same time wait under different
/// ids and hold different handles. A registration finds under each id the
/// connection that was taken in under it and no other, and finding one does
/// not disturb the other.
pub proof fn lemma_requests_are_told_apart(
    b: Broker,
    port1: u16,
    id1: u128,
    now1: u64,
    port2: u16,
    id2: u128,
    now2: u64,
    at: u64,
)
    requires
        b.consistent(),
        b.refusal(port1, id1) is None,
        b.enqueued(port1, id1, now1).refusal(port2, id2) is None,
    ensures
        id1 != id2,
        ({
            let both = b.enqueued(port1, id1, now1).enqueued(port2, id2, now2);
            &&& both.pending[id1].conn == b.next_conn
            &&& both.pending[id2].conn == b.next_conn + 1
            &&& both.matched(id1, at) == if at < deadline_after(now1) {
                Matched::Paired(b.next_conn as u64)
            } else {
                Matched::Expired(b.next_conn as u64)
            }
            &&& both.matched(id2, at) == if at < deadline_after(now2) {
                Matched::Paired((b.next_conn + 1) as u64)
            } else {
                Matched::Expired((b.next_conn + 1) as u64)
            }
            &&& both.without(id1).matched(id2, at) == both.matched(id2, at)
            &&& both.without(id2).matched(id1, at) == both.matched(id1, at)
        }),
{
}

/// A registration with an id under which nothing waits finds nothing and
/// changes nothing. Nothing waits under an id that was never given out, and
/// nothing waits under it any more once a registration has found it. No
/// registration touches what waits under another id.
pub proof fn lemma_unknown_id_changes_nothing(b: Broker, id: u128, now: u64, later: u64)
    ensures
        !b.pending.contains_key(id) ==> b.matched(id, now) == Matched::Unknown && b.without(id)
            == b,
        b.without(id).matched(id, later) == Matched::Unknown,
        b.without(id).without(id) == b.without(id),
        forall|other: u128|
            other != id ==> #[trigger] b.without(id).matched(other, later) == b.matched(
                other,
                later,
            ),
{
    if !b.pending.contains_key(id) {
        assert(b.without(id).pending =~= b.pending);
    }
    assert(b.without(id).without(id).pending =~= b.without(id).pending);
}

/// A sweep evicts a request exactly when its deadline has passed. The public
/// connection of an evicted request is among those to close, and a
/// registration that comes afterwards finds nothing under its id. A request
/// whose deadline is still ahead is found as before.
pub proof fn lemma_sweep_evicts_the_expired(b: Broker, id: u128, now: u64, later: u64)
    requires
        b.consistent(),
        b.pending.contains_key(id),
    ensures
        b.pending[id].deadline <= now ==> b.victims(Selector::Expired(now)).contains(
            b.pending[id].conn,
        ) && b.evicted(Selector::Expired(now)).matched(id, later) == Matched::Unknown,
        b.pending[id].deadline > now ==> !b.victims(Selector::Expired(now)).contains(
            b.pending[id].conn,
        ) && b.evicted(Selector::Expired(now)).matched(id, later) == b.matched(id, later),
{
    let sel = Selector::Expired(now);
    if b.pending[id].deadline > now && b.victims(sel).contains(b.pending[id].conn) {
        let other = choose|other: u128| #[trigger]
            b.pending.contains_key(other) && sel.picks(b.pending[other]) && b.pending[other].conn
                == b.pending[id].conn;
        assert(other != id);
    }
}

/// Closing a tunnel evicts every request that waits on it and no other: the
/// public connections of those requests are the ones to close, registrations
/// for them find nothing afterwards, and the requests of other tunnels are
/// found as before. The port is live no more, so that a public connection
/// that still comes on it is refused.
pub proof fn lemma_close_aborts_the_tunnel(b: Broker, port: u16, id: u128, any: u128, at: u64)
    requires
        b.consistent(),
        b.pending.contains_key(id),
    ensures
        !b.torn_down(port).tunnels.contains(port),
        b.torn_down(port).refusal(port, any) == Some(Refused::NoSuchTunnel),
        b.pending[id].port == port ==> b.victims(Selector::OfTunnel(port)).contains(
            b.pending[id].conn,
        ) && b.torn_down(port).matched(id, at) == Matched::Unknown,
        b.pending[id].port != port ==> !b.victims(Selector::OfTunnel(port)).contains(
            b.pending[id].conn,
        ) && b.torn_down(port).matched(id, at) == b.matched(id, at),
{
    let sel = Selector::OfTunnel(port);
    if b.pending[id].port != port && b.victims(sel).contains(b.pending[id].conn) {
        let other = choose|other: u128| #[trigger]
            b.pending.contains_key(other) && sel.picks(b.pending[other]) && b.pending[other].conn
                == b.pending[id].conn;
        assert(other != id);
    }
}

/// What the first message on a fresh connection to the control port makes
/// of the connection. `first` is what waiting for that message gave.
pub open spec fn greeted(first: Result<Option<ClientMessage>, TunnelError>) -> Hello {
    match first {
        Ok(Some(ClientMessage::ReqTunnel)) => Hello::Tunnel,
        Ok(Some(ClientMessage::RegProxy(id))) => Hello::Proxy(id),
        _ => Hello::Reject,
    }
}

#[verifier::external_type_specification]
#[verifier::external_body]
#[verifier::reject_recursive_types(K)]
#[verifier::reject_recursive_types(V)]
#[verifier::reject_recursive_types(S)]
pub struct ExDashMap<K, V, S>(DashMap<K, V, S>);

/// The entries that a `DashMap` of waiting requests holds.
pub uninterp spec fn held(table: DashMap<u128, PendingProxyRequest>) -> Map<
    u128,
    PendingProxyRequest,
>;

/// `DashMap::new`: a map that holds nothing.
#[verifier::external_body]
fn table_new() -> (table: DashMap<u128, PendingProxyRequest>)
    ensures
        held(table).dom() == Set::<u128>::empty(),
{
    DashMap::new()
}

/// `DashMap::contains_key`: whether the map holds an entry under `id`.
#[verifier::external_body]
fn table_contains(table: &DashMap<u128, PendingProxyRequest>, id: u128) -> (r: bool)
    ensures
        r == held(*table).contains_key(id),
{
    table.contains_key(&id)
}

/// `DashMap::insert`: puts `entry` under `id`, in place of what was there,
/// and leaves every other entry as it was.
#[verifier::external_body]
fn table_insert(table: &mut DashMap<u128, PendingProxyRequest>, id: u128, entry: PendingProxyRequest)
    ensures
        held(*final(table)) == held(*old(table)).insert(id, entry),
{
    table.insert(id, entry);
}

/// `DashMap::remove`: takes out the entry under `id` and gives its value, or
/// gives `None` where there is none; every other entry stays as it was.
#[verifier::external_body]
fn table_remove(table: &mut DashMap<u128, PendingProxyRequest>, id: u128) -> (r: Option<
    PendingProxyRequest,
>)
    ensures
        held(*final(table)) == held(*old(table)).remove(id),
        r == if held(*old(table)).contains_key(id) {
            Some(held(*old(table))[id])
        } else {
            None
        },
{
    table.remove(&id).map(|pair| pair.1)
}

/// `DashMap::iter`: every entry of the map once, each with its key, in an
/// order that is not known.
#[verifier::external_body]
fn table_entries(table: &DashMap<u128, PendingProxyRequest>) -> (entries: Vec<
    (u128, PendingProxyRequest),
>)
    ensures
        forall|j: int|
            0 <= j < entries@.len() ==> held(*table).contains_key((#[trigger] entries@[j]).0)
                && held(*table)[entries@[j].0] == entries@[j].1,
        forall|id: u128|
            held(*table).contains_key(id) ==> exists|j: int|
                0 <= j < entries@.len() && (#[trigger] entries@[j]).0 == id,
        forall|j: int, k: int|
            0 <= j < k < entries@.len() ==> (#[trigger] entries@[j]).0 != (#[trigger] entries@[k]).0,
{
    table.iter().map(|entry| (*entry.key(), *entry.value())).collect()
}

/// `Uuid::new_v4`, as a number: a version 4 UUID drawn from the operating
/// system's random source. All that is claimed of it is what marks it as
/// such a UUID, which `new_v4` sets in whatever it drew. The call panics
/// where the operating system has no random bytes to give.
#[verifier::external_body]
fn fresh_id() -> (id: u128)
    ensures
        is_random_uuid(id),
{
    uuid::Uuid::new_v4().as_u128()
}

/// The broker's tunnels and the public connections that wait on them.
pub struct Server {
    /// Map of IDs to the public connections that wait for them.
    conns: DashMap<u128, PendingProxyRequest>,
    tunnels: HashSet<u16>,
    next_conn: u64,
}

impl View for Server {
    type V = Broker;

    closed spec fn view(&self) -> Broker {
        Broker {
            pending: held(self.conns),
            tunnels: self.tunnels@,
            next_conn: self.next_conn as nat,
        }
    }
}

impl Server {
    /// The broker's state is consistent.
    pub open spec fn wf(&self) -> bool {
        self@.consistent()
    }

    /// A broker without tunnels.
    pub fn new() -> (r: Self)
        ensures
            r@ == Broker::empty(),
            r.wf(),
    {
        let r = Server { conns: table_new(), tunnels: HashSet::new(), next_conn: 0 };
        assert(r@.pending =~= Map::empty());
        assert(r@.tunnels =~= Set::empty());
        r
    }

    /// Tells a control connection from a proxy connection by the first
    /// message that came on it. `first` is what waiting for that message
    /// gave: a message, the end of the stream (`None`), or an error.
    pub fn greet(first: Result<Option<ClientMessage>, TunnelError>) -> (r: Hello)
        ensures
            r == greeted(first),
    {
        match first {
            Ok(Some(ClientMessage::ReqTunnel)) => Hello::Tunnel,
            Ok(Some(ClientMessage::RegProxy(id))) => Hello::Proxy(id),
            _ => Hello::Reject,
        }
    }

    /// Registers the tunnel whose public listener is bound to `port`, and
    /// gives the reply for its agent. A port that a live tunnel has already
    /// is refused: nothing changes and there is no reply.
    pub fn open_tunnel(&mut self, port: u16) -> (reply: Option<ServerMessage>)
        requires
            old(self).wf(),
        ensures
            final(self).wf(),
            old(self)@.tunnels.contains(port) ==> reply is None && final(self)@ == old(self)@,
            !old(self)@.tunnels.contains(port) ==> reply == Some(ServerMessage::NewTunnel(port))
                && final(self)@ == old(self)@.opened(port),
    {
        if self.tunnels.contains(&port) {
            None
        } else {
            self.tunnels.insert(port);
            proof {
                assert(self@ == old(self)@.opened(port));
                assert forall|id: u128| #[trigger]
                    self@.pending.contains_key(id) implies self@.tunnels.contains(
                    self@.pending[id].port,
                ) by {
                    assert(old(self)@.pending.contains_key(id));
                }
            }
            Some(ServerMessage::NewTunnel(port))
        }
    }

    /// Takes in a public connection that came on `port` at `now`, to wait
    /// under `id` until `deadline_after(now)`.
    pub fn enqueue(&mut self, port: u16, id: u128, now: u64) -> (r: Result<Accepted, Refused>)
        requires
            old(self).wf(),
        ensures
            final(self).wf(),
            match old(self)@.refusal(port, id) {
                Some(why) => r == Err::<Accepted, Refused>(why) && final(self)@ == old(self)@,
                None => r == Ok::<Accepted, Refused>(
                    Accepted {
                        conn: old(self)@.next_conn as u64,
                        request: ServerMessage::ReqProxy(id),
                    },
                ) && final(self)@ == old(self)@.enqueued(port, id, now),
            },
    {
        if !self.tunnels.contains(&port) {
            return Err(Refused::NoSuchTunnel);
        }
        if table_contains(&self.conns, id) {
            return Err(Refused::DuplicateId);
        }
        if self.next_conn == u64::MAX {
            return Err(Refused::OutOfConnections);
        }
        let conn: u64 = self.next_conn;
        let deadline: u64 = if now > u64::MAX - CONNECTION_TIMEOUT_MS {
            u64::MAX
        } else {
            now + CONNECTION_TIMEOUT_MS
        };
        table_insert(&mut self.conns, id, PendingProxyRequest { port, conn, deadline });
        self.next_conn = conn + 1;
        Ok(Accepted { conn, request: ServerMessage::ReqProxy(id) })
    }

    /// Takes in a public connection that came on `port` at `now`, under a
    /// correlation id that it draws at random. What the result says holds
    /// whichever id was drawn: either the connection waits under the id that
    /// the request names, a random UUID under which nothing waited, or nothing
    /// changed and the refusal is the one that `enqueue` gives for some id.
    /// On a live tunnel, with a handle left and nothing waiting, the
    /// connection is taken in.
    pub fn accept_public(&mut self, port: u16, now: u64) -> (r: Result<Accepted, Refused>)
        requires
            old(self).wf(),
        ensures
            final(self).wf(),
            match r {
                Ok(accepted) => accepted.conn == old(self)@.next_conn && exists|id: u128|
                    #![trigger old(self)@.refusal(port, id)]
                    {
                        &&& accepted.request == ServerMessage::ReqProxy(id)
                        &&& is_random_uuid(id)
                        &&& old(self)@.refusal(port, id) is None
                        &&& final(self)@ == old(self)@.enqueued(port, id, now)
                    },
                Err(why) => final(self)@ == old(self)@ && exists|id: u128|
                    old(self)@.refusal(port, id) == Some(why),
            },
            !old(self)@.tunnels.contains(port) ==> r == Err::<Accepted, Refused>(
                Refused::NoSuchTunnel,
            ),
            old(self)@.tunnels.contains(port) && old(self)@.next_conn < u64::MAX && old(
                self,
            )@.pending.dom() == Set::<u128>::empty() ==> r is Ok,
    {
        let id: u128 = fresh_id();
        assert(old(self)@.pending.dom() == Set::<u128>::empty() ==> !old(self)@.pending.contains_key(
            id,
        ));
        self.enqueue(port, id, now)
    }

    /// Matches a proxy connection that registered with `id` at `now`.
    /// Whatever waited under the id is taken out, so that it is found once
    /// at most; every other request stays as it was.
    pub fn register_proxy(&mut self, id: u128, now: u64) -> (r: Matched)
        requires
            old(self).wf(),
        ensures
            final(self).wf(),
            r == old(self)@.matched(id, now),
            final(self)@ == old(self)@.without(id),
    {
        match table_remove(&mut self.conns, id) {
            Some(entry) => if now < entry.deadline {
                Matched::Paired(entry.conn)
            } else {
                Matched::Expired(entry.conn)
            },
            None => Matched::Unknown,
        }
    }

    /// Takes out the requests that the selector picks and gives the handles
    /// of their public connections, each once.
    fn evict(&mut self, sel: Selector) -> (out: Vec<u64>)
        requires
            old(self).wf(),
        ensures
            final(self)@ == old(self)@.evicted(sel),
            out@.no_duplicates(),
            out@.to_set() == old(self)@.victims(sel),
    {
        let entries: Vec<(u128, PendingProxyRequest)> = table_entries(&self.conns);
        let ghost before = self@;
        let mut out: Vec<u64> = Vec::new();
        let mut i: usize = 0;
        while i < entries.len()
            invariant
                i <= entries@.len(),
                before == old(self)@,
                before.consistent(),
                self@.tunnels == before.tunnels,
                self@.next_conn == before.next_conn,
                forall|j: int|
                    0 <= j < entries@.len() ==> before.pending.contains_key(
                        (#[trigger] entries@[j]).0,
                    ) && before.pending[entries@[j].0] == entries@[j].1,
                forall|id: u128|
                    before.pending.contains_key(id) ==> exists|j: int|
                        0 <= j < entries@.len() && (#[trigger] entries@[j]).0 == id,
                forall|j: int, k: int|
                    0 <= j < k < entries@.len() ==> (#[trigger] entries@[j]).0 != (
                    #[trigger] entries@[k]).0,
                forall|id: u128| #[trigger]
                    self@.pending.contains_key(id) ==> before.pending.contains_key(id)
                        && self@.pending[id] == before.pending[id],
                forall|j: int|
                    0 <= j < entries@.len() ==> (self@.pending.contains_key(
                        (#[trigger] entries@[j]).0,
                    ) <==> !(j < i && sel.picks(entries@[j].1))),
                forall|c: u64|
                    out@.contains(c) <==> exists|j: int|
                        0 <= j < i && sel.picks((#[trigger] entries@[j]).1) && entries@[j].1.conn
                            == c,
                out@.no_duplicates(),
            decreases entries@.len() - i,
        {
            let id: u128 = entries[i].0;
            let entry: PendingProxyRequest = entries[i].1;
            if sel.takes(&entry) {
                let ghost shown = out@;
                table_remove(&mut self.conns, id);
                out.push(entry.conn);
                proof {
                    assert(!shown.contains(entry.conn)) by {
                        if shown.contains(entry.conn) {
                            let j = choose|j: int|
                                0 <= j < i && sel.picks((#[trigger] entries@[j]).1)
                                    && entries@[j].1.conn == entry.conn;
                            assert(entries@[j].0 != entries@[i as int].0);
                            assert(before.pending.contains_key(entries@[j].0));
                            assert(before.pending.contains_key(entries@[i as int].0));
                        }
                    }
                    assert forall|c: u64|
                        out@.contains(c) <==> exists|j: int|
                            0 <= j < i + 1 && sel.picks((#[trigger] entries@[j]).1)
                                && entries@[j].1.conn == c by {
                        if out@.contains(c) {
                            let at = choose|at: int| 0 <= at < out@.len() && out@[at] == c;
                            if at < shown.len() {
                                assert(shown.contains(c));
                            } else {
                                assert(sel.picks(entries@[i as int].1));
                            }
                        }
                        if exists|j: int|
                            0 <= j < i + 1 && sel.picks((#[trigger] entries@[j]).1)
                                && entries@[j].1.conn == c {
                            let j = choose|j: int|
                                0 <= j < i + 1 && sel.picks((#[trigger] entries@[j]).1)
                                    && entries@[j].1.conn == c;
                            if j < i {
                                assert(shown.contains(c));
                                let at = choose|at: int| 0 <= at < shown.len() && shown[at] == c;
                                assert(out@[at] == c);
                            } else {
                                assert(out@[shown.len() as int] == c);
                            }
                        }
                    }
                }
            }
            i = i + 1;
        }
        proof {
            assert(self@.pending =~= before.evicted(sel).pending) by {
                assert forall|id: u128|
                    before.pending.contains_key(id) && !sel.picks(
                        before.pending[id],
                    ) implies self@.pending.contains_key(id) by {
                    let j = choose|j: int|
                        0 <= j < entries@.len() && (#[trigger] entries@[j]).0 == id;
                    assert(self@.pending.contains_key(entries@[j].0));
                }
                assert forall|id: u128| self@.pending.contains_key(id) implies !sel.picks(
                    before.pending[id],
                ) by {
                    let j = choose|j: int|
                        0 <= j < entries@.len() && (#[trigger] entries@[j]).0 == id;
                    assert(self@.pending.contains_key(entries@[j].0));
                }
            }
            assert(out@.to_set() =~= before.victims(sel)) by {
                assert forall|c: u64| before.victims(sel).contains(c) implies out@.contains(c) by {
                    let id = choose|id: u128| #[trigger]
                        before.pending.contains_key(id) && sel.picks(before.pending[id])
                            && before.pending[id].conn == c;
                    let j = choose|j: int|
                        0 <= j < entries@.len() && (#[trigger] entries@[j]).0 == id;
                    assert(sel.picks(entries@[j].1) && entries@[j].1.conn == c);
                }
                assert forall|c: u64| out@.contains(c) implies before.victims(sel).contains(c) by {
                    let j = choose|j: int|
                        0 <= j < i && sel.picks((#[trigger] entries@[j]).1) && entries@[j].1.conn
                            == c;
                    assert(before.pending.contains_key(entries@[j].0));
                }
            }
        }
        out
    }

    /// Evicts the requests whose deadline is at or before `now`, and gives
    /// the handles of their public connections, which are to be closed.
    pub fn sweep_expired(&mut self, now: u64) -> (out: Vec<u64>)
        requires
            old(self).wf(),
        ensures
            final(self).wf(),
            final(self)@ == old(self)@.evicted(Selector::Expired(now)),
            out@.no_duplicates(),
            out@.to_set() == old(self)@.victims(Selector::Expired(now)),
    {
        self.evict(Selector::Expired(now))
    }

    /// Closes the tunnel on `port`, as when its control connection ended:
    /// the port is live no more, and every request that waited on the tunnel
    /// is evicted. Gives the handles of their public connections, which are
    /// to be closed.
    pub fn close_tunnel(&mut self, port: u16) -> (out: Vec<u64>)
        requires
            old(self).wf(),
        ensures
            final(self).wf(),
            final(self)@ == old(self)@.torn_down(port),
            out@.no_duplicates(),
            out@.to_set() == old(self)@.victims(Selector::OfTunnel(port)),
    {
        let out: Vec<u64> = self.evict(Selector::OfTunnel(port));
        self.tunnels.remove(&port);
        out
    }
}

} // verus!
