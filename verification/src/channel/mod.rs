pub mod laws;
pub mod map;
pub mod relay;
pub mod router;
pub mod storage;
pub mod store;

use vstd::prelude::*;

use crate::addr::Addr;
use crate::auth::AuthConfig;
use crate::connection::Connection;

verus! {

/// A connection as the specifications see it.
pub struct ConnView {
    pub id: Seq<char>,
    pub addr: Addr,
    pub addr_text: Seq<char>,
}

impl View for Connection {
    type V = ConnView;

    open spec fn view(&self) -> ConnView {
        ConnView { id: self.id@, addr: self.addr, addr_text: self.addr_text@ }
    }
}

/// A channel as the specifications see it: its connections in the order in
/// which they joined.
pub struct ChannelView {
    pub name: Seq<char>,
    pub auth: Option<Seq<char>>,
    pub presence: bool,
    pub connections: Seq<ConnView>,
}

/// The authorization endpoint of a channel, as the specifications see it.
pub open spec fn auth_view(auth: Option<AuthConfig>) -> Option<Seq<char>> {
    match auth {
        Some(a) => Some(a.url@),
        None => None,
    }
}

/// A named group of connections that messages are broadcast to. With
/// `presence` on, the members are told who is in the channel whenever that
/// changes.
#[derive(Clone, Debug)]
pub struct Channel {
    pub name: String,
    pub auth: Option<AuthConfig>,
    pub presence: bool,
    pub connections: Vec<Connection>,
}

impl View for Channel {
    type V = ChannelView;

    open spec fn view(&self) -> ChannelView {
        ChannelView {
            name: self.name@,
            auth: auth_view(self.auth),
            presence: self.presence,
            connections: self.connections@.map_values(|c: Connection| c@),
        }
    }
}

/// No two connections share an address.
pub open spec fn addrs_distinct(conns: Seq<ConnView>) -> bool {
    forall|i: int, j: int| 0 <= i < j < conns.len() ==> conns[i].addr != conns[j].addr
}

/// Some connection has address `a`.
pub open spec fn holds_addr(conns: Seq<ConnView>, a: Addr) -> bool {
    exists|i: int| 0 <= i < conns.len() && conns[i].addr == a
}

/// The position of the connection with address `a`.
pub open spec fn addr_index(conns: Seq<ConnView>, a: Addr) -> int {
    choose|i: int| 0 <= i < conns.len() && conns[i].addr == a
}

/// The connections without the one whose address is `a`.
pub open spec fn drop_addr(conns: Seq<ConnView>, a: Addr) -> Seq<ConnView> {
    if holds_addr(conns, a) {
        conns.remove(addr_index(conns, a))
    } else {
        conns
    }
}

/// The ids of the connections, in order.
pub open spec fn conn_ids(conns: Seq<ConnView>) -> Seq<Seq<char>> {
    conns.map_values(|c: ConnView| c.id)
}

/// The addresses of the connections, in order, without `skip`.
pub open spec fn recipients(conns: Seq<ConnView>, skip: Option<Addr>) -> Seq<Addr>
    decreases conns.len(),
{
    if conns.len() == 0 {
        Seq::empty()
    } else {
        let rest = recipients(conns.drop_last(), skip);
        if skip == Some(conns.last().addr) {
            rest
        } else {
            rest.push(conns.last().addr)
        }
    }
}

/// The channel with its connections replaced by `conns`.
pub open spec fn with_connections(ch: ChannelView, conns: Seq<ConnView>) -> ChannelView {
    ChannelView { connections: conns, ..ch }
}

/// The connections without those whose address an earlier connection has:
/// the first connection of each address, in order.
pub open spec fn first_by_addr(conns: Seq<ConnView>) -> Seq<ConnView>
    decreases conns.len(),
{
    if conns.len() == 0 {
        Seq::empty()
    } else {
        let rest = first_by_addr(conns.drop_last());
        if holds_addr(conns.drop_last(), conns.last().addr) {
            rest
        } else {
            rest.push(conns.last())
        }
    }
}

/// Keeping the first connection of each address keeps every address, and no
/// address twice.
pub proof fn lemma_first_by_addr(conns: Seq<ConnView>)
    ensures
        addrs_distinct(first_by_addr(conns)),
        forall|a: Addr| holds_addr(first_by_addr(conns), a) <==> holds_addr(conns, a),
    decreases conns.len(),
{
    if conns.len() > 0 {
        let init = conns.drop_last();
        let last = conns.last();
        let rest = first_by_addr(init);
        lemma_first_by_addr(init);
        assert forall|a: Addr| holds_addr(conns, a) <==> (holds_addr(init, a) || last.addr == a) by {
            if holds_addr(conns, a) {
                let j = choose|j: int| 0 <= j < conns.len() && conns[j].addr == a;
                if j < conns.len() - 1 {
                    assert(init[j] == conns[j]);
                }
            }
            if holds_addr(init, a) {
                let j = choose|j: int| 0 <= j < init.len() && init[j].addr == a;
                assert(init[j] == conns[j]);
            }
            if last.addr == a {
                assert(conns[conns.len() - 1].addr == a);
            }
        }
        if !holds_addr(init, last.addr) {
            let r = rest.push(last);
            assert forall|a: Addr| holds_addr(r, a) <==> (holds_addr(rest, a) || last.addr == a) by {
                if holds_addr(r, a) {
                    let j = choose|j: int| 0 <= j < r.len() && r[j].addr == a;
                    if j < rest.len() {
                        assert(r[j] == rest[j]);
                    }
                }
                if holds_addr(rest, a) {
                    let j = choose|j: int| 0 <= j < rest.len() && rest[j].addr == a;
                    assert(r[j] == rest[j]);
                }
                if last.addr == a {
                    assert(r[rest.len() as int].addr == a);
                }
            }
            assert forall|i: int, j: int| 0 <= i < j < r.len() implies r[i].addr != r[j].addr by {
                assert(r[i] == rest[i]);
                if j < rest.len() {
                    assert(r[j] == rest[j]);
                } else {
                    assert(holds_addr(rest, r[i].addr));
                }
            }
        }
    }
}

/// Connections whose addresses are distinct are kept whole by
/// `first_by_addr`.
pub proof fn law_first_by_addr_keeps_distinct(conns: Seq<ConnView>)
    requires
        addrs_distinct(conns),
    ensures
        first_by_addr(conns) == conns,
    decreases conns.len(),
{
    if conns.len() > 0 {
        let init = conns.drop_last();
        assert(addrs_distinct(init)) by {
            assert forall|i: int, j: int| 0 <= i < j < init.len() implies init[i].addr != init[j].addr by {
                assert(init[i] == conns[i] && init[j] == conns[j]);
            }
        }
        law_first_by_addr_keeps_distinct(init);
        if holds_addr(init, conns.last().addr) {
            let j = choose|j: int| 0 <= j < init.len() && init[j].addr == conns.last().addr;
            assert(init[j] == conns[j]);
            assert(conns[j].addr != conns[conns.len() - 1].addr);
        }
        assert(init.push(conns.last()) =~= conns);
    }
}

/// In distinct connections, the one with address `a` sits at position `i`.
pub proof fn lemma_addr_index(conns: Seq<ConnView>, a: Addr, i: int)
    requires
        addrs_distinct(conns),
        0 <= i < conns.len(),
        conns[i].addr == a,
    ensures
        holds_addr(conns, a),
        addr_index(conns, a) == i,
{
}

/// Dropping an address from distinct connections keeps them distinct and
/// leaves none with that address.
pub proof fn lemma_drop_addr(conns: Seq<ConnView>, a: Addr)
    requires
        addrs_distinct(conns),
    ensures
        addrs_distinct(drop_addr(conns, a)),
        !holds_addr(drop_addr(conns, a), a),
        forall|b: Addr| b != a ==> (holds_addr(drop_addr(conns, a), b) <==> holds_addr(conns, b)),
{
    if holds_addr(conns, a) {
        let k = addr_index(conns, a);
        let d = conns.remove(k);
        assert forall|b: Addr| b != a && holds_addr(conns, b) implies holds_addr(d, b) by {
            let j = choose|j: int| 0 <= j < conns.len() && conns[j].addr == b;
            if j < k {
                assert(d[j] == conns[j]);
            } else {
                assert(d[j - 1] == conns[j]);
            }
        }
    }
}

/// A frame sent to a channel but `skip` reaches every connection of the
/// channel but `skip`, and never `skip`.
pub proof fn law_recipients(conns: Seq<ConnView>, skip: Option<Addr>)
    ensures
        forall|a: Addr| recipients(conns, skip).contains(a) <==> (holds_addr(conns, a) && skip != Some(a)),
    decreases conns.len(),
{
    if conns.len() > 0 {
        let init = conns.drop_last();
        let last = conns.last();
        law_recipients(init, skip);
        assert forall|a: Addr| holds_addr(conns, a) <==> (holds_addr(init, a) || last.addr == a) by {
            if holds_addr(conns, a) {
                let j = choose|j: int| 0 <= j < conns.len() && conns[j].addr == a;
                if j < conns.len() - 1 {
                    assert(init[j] == conns[j]);
                }
            }
            if holds_addr(init, a) {
                let j = choose|j: int| 0 <= j < init.len() && init[j].addr == a;
                assert(init[j] == conns[j]);
            }
            if last.addr == a {
                assert(conns[conns.len() - 1].addr == a);
            }
        }
        let rest = recipients(init, skip);
        if skip != Some(last.addr) {
            assert forall|a: Addr| rest.push(last.addr).contains(a) <==> (rest.contains(a) || last.addr == a) by {
                if rest.push(last.addr).contains(a) {
                    let k = choose|k: int| 0 <= k < rest.push(last.addr).len() && rest.push(last.addr)[k] == a;
                    if k < rest.len() {
                        assert(rest[k] == a);
                    }
                }
                if rest.contains(a) {
                    let k = choose|k: int| 0 <= k < rest.len() && rest[k] == a;
                    assert(rest.push(last.addr)[k] == a);
                }
                if last.addr == a {
                    assert(rest.push(last.addr)[rest.len() as int] == a);
                }
            }
        }
    }
}

/// The addresses of the connections, in order.
pub open spec fn conn_addrs(conns: Seq<ConnView>) -> Seq<Addr> {
    conns.map_values(|c: ConnView| c.addr)
}

/// Holds of every address but `skip`.
pub open spec fn other_than(skip: Option<Addr>) -> spec_fn(Addr) -> bool {
    |a: Addr| skip != Some(a)
}

/// A frame sent to a channel but `skip` goes to the channel's connections in
/// the order in which they joined, leaving out `skip` and nothing else; in a
/// channel (where addresses are distinct) each connection gets it once.
pub proof fn law_recipients_once(conns: Seq<ConnView>, skip: Option<Addr>)
    ensures
        recipients(conns, skip) == conn_addrs(conns).filter(other_than(skip)),
        addrs_distinct(conns) ==> recipients(conns, skip).no_duplicates(),
        addrs_distinct(conns) ==> recipients(conns, skip).len() == conns.len() - (
        if skip matches Some(a) && holds_addr(conns, a) {
            1int
        } else {
            0int
        }),
    decreases conns.len(),
{
    reveal(Seq::filter);
    if conns.len() > 0 {
        let init = conns.drop_last();
        let last = conns.last();
        law_recipients_once(init, skip);
        law_recipients(init, skip);
        assert(conn_addrs(conns).drop_last() =~= conn_addrs(init));
        assert(conn_addrs(conns).last() == last.addr);
        if addrs_distinct(conns) {
            assert(addrs_distinct(init)) by {
                assert forall|i: int, j: int| 0 <= i < j < init.len() implies init[i].addr != init[j].addr by {
                    assert(init[i] == conns[i] && init[j] == conns[j]);
                }
            }
            assert(!holds_addr(init, last.addr)) by {
                if holds_addr(init, last.addr) {
                    let j = choose|j: int| 0 <= j < init.len() && init[j].addr == last.addr;
                    assert(init[j] == conns[j]);
                }
            }
            let rest = recipients(init, skip);
            if skip != Some(last.addr) {
                let r = rest.push(last.addr);
                assert(!rest.contains(last.addr));
                assert forall|i: int, j: int| 0 <= i < r.len() && 0 <= j < r.len() && i != j implies r[i] != r[j] by {
                    if i < rest.len() && j < rest.len() {
                        assert(r[i] == rest[i] && r[j] == rest[j]);
                    } else if i < rest.len() {
                        assert(r[i] == rest[i]);
                    } else {
                        assert(r[j] == rest[j]);
                    }
                }
            }
            if let Some(a) = skip {
                assert(holds_addr(conns, a) <==> (holds_addr(init, a) || last.addr == a)) by {
                    if holds_addr(conns, a) {
                        let j = choose|j: int| 0 <= j < conns.len() && conns[j].addr == a;
                        if j < conns.len() - 1 {
                            assert(init[j] == conns[j]);
                        }
                    }
                    if holds_addr(init, a) {
                        let j = choose|j: int| 0 <= j < init.len() && init[j].addr == a;
                        assert(init[j] == conns[j]);
                    }
                    if last.addr == a {
                        assert(conns[conns.len() - 1].addr == a);
                    }
                }
            }
        }
    }
}

impl Channel {
    /// A channel with no connections.
    pub fn new(name: String, auth: Option<AuthConfig>, presence: bool) -> (c: Channel)
        ensures
            c.name == name,
            c.auth == auth,
            c.presence == presence,
            c.connections@ == Seq::<Connection>::empty(),
            c@.connections == Seq::<ConnView>::empty(),
    {
        let c = Channel { name, auth, presence, connections: Vec::new() };
        assert(c@.connections =~= Seq::<ConnView>::empty());
        c
    }

    /// The channel with, of its connections, only the first of each address.
    fn keep_first_by_addr(self) -> (r: Channel)
        ensures
            r@ == with_connections(self@, first_by_addr(self@.connections)),
    {
        let ghost whole = self@;
        let Channel { name, auth, presence, connections } = self;
        let ghost all = connections@.map_values(|c: Connection| c@);
        let mut r = Channel::new(name, auth, presence);
        let n = connections.len();
        let mut i: usize = 0;
        assert(all.take(0) =~= Seq::<ConnView>::empty());
        while i < n
            invariant
                n == connections@.len(),
                all == connections@.map_values(|c: Connection| c@),
                i <= n,
                r@ == with_connections(whole, first_by_addr(all.take(i as int))),
            decreases n - i,
        {
            let c = &connections[i];
            proof {
                let t = all.take(i + 1);
                assert(t.drop_last() =~= all.take(i as int));
                assert(t.last() == c@);
                lemma_first_by_addr(all.take(i as int));
            }
            if !r.has_connection(c.addr) {
                let ghost before = r@.connections;
                r.connections.push(c.duplicate());
                assert(r@.connections =~= before.push(c@));
            }
            i = i + 1;
        }
        assert(all.take(n as int) =~= all);
        r
    }

    /// Turns presence updates off for this channel.
    pub fn disable_presence(&mut self)
        ensures
            final(self).name == old(self).name,
            final(self).auth == old(self).auth,
            final(self).connections == old(self).connections,
            !final(self).presence,
    {
        self.presence = false;
    }

    /// The position of the connection with address `addr`, if there is one.
    pub fn position(&self, addr: Addr) -> (r: Option<usize>)
        ensures
            match r {
                Some(i) => i < self.connections@.len() && self@.connections[i as int].addr == addr,
                None => !holds_addr(self@.connections, addr),
            },
    {
        let n = self.connections.len();
        let mut i: usize = 0;
        while i < n
            invariant
                n == self.connections@.len(),
                i <= n,
                forall|k: int| 0 <= k < i ==> self@.connections[k].addr != addr,
            decreases n - i,
        {
            if self.connections[i].addr == addr {
                return Some(i);
            }
            i = i + 1;
        }
        None
    }

    /// Whether a connection with address `addr` is in the channel.
    pub fn has_connection(&self, addr: Addr) -> (r: bool)
        ensures
            r == holds_addr(self@.connections, addr),
    {
        self.position(addr).is_some()
    }

    /// The ids of the channel's connections, in order.
    pub fn connection_ids(&self) -> (r: Vec<String>)
        ensures
            r@.map_values(|s: String| s@) == conn_ids(self@.connections),
    {
        let n = self.connections.len();
        let mut r: Vec<String> = Vec::new();
        let mut i: usize = 0;
        while i < n
            invariant
                n == self.connections@.len(),
                i <= n,
                r@.len() == i,
                forall|k: int| 0 <= k < i ==> r@[k]@ == self.connections@[k].id@,
            decreases n - i,
        {
            r.push(self.connections[i].id.clone());
            i = i + 1;
        }
        assert(r@.map_values(|s: String| s@) =~= conn_ids(self@.connections));
        r
    }

    /// The addresses of the channel's connections, in order, without `skip`.
    pub fn recipients(&self, skip: Option<Addr>) -> (r: Vec<Addr>)
        ensures
            r@ == recipients(self@.connections, skip),
            r@ == conn_addrs(self@.connections).filter(other_than(skip)),
    {
        proof { law_recipients_once(self@.connections, skip); }
        let n = self.connections.len();
        let mut r: Vec<Addr> = Vec::new();
        let mut i: usize = 0;
        while i < n
            invariant
                n == self.connections@.len(),
                i <= n,
                r@ == recipients(self@.connections.take(i as int), skip),
            decreases n - i,
        {
            let a = self.connections[i].addr;
            proof {
                let t = self@.connections.take(i + 1);
                assert(t.drop_last() =~= self@.connections.take(i as int));
                assert(t.last() == self@.connections[i as int]);
            }
            let keep = match skip {
                Some(s) => s != a,
                None => true,
            };
            if keep {
                r.push(a);
            }
            i = i + 1;
        }
        assert(self@.connections.take(n as int) =~= self@.connections);
        r
    }

    /// Removes the connection with address `addr`, if there is one.
    pub fn remove_addr(&mut self, addr: Addr)
        requires
            addrs_distinct(old(self)@.connections),
        ensures
            final(self)@ == with_connections(old(self)@, drop_addr(old(self)@.connections, addr)),
            final(self).name == old(self).name,
            final(self).auth == old(self).auth,
            final(self).presence == old(self).presence,
    {
        match self.position(addr) {
            Some(i) => {
                proof { lemma_addr_index(self@.connections, addr, i as int); }
                self.connections.remove(i);
                assert(self@.connections =~= drop_addr(old(self)@.connections, addr));
            },
            None => {},
        }
    }
}

} // verus!
