//! A channel relay without storage, authorization or presence settings:
//! connections join and leave channels, broadcasts reach the other members,
//! every change of membership is announced to the channel with the members'
//! addresses, and failures are answered to the connection that caused them.

use vstd::prelude::*;

use crate::addr::Addr;
use crate::connection::Connection;
use crate::message::{debug_text, message_debug, Frame, Message};
use crate::text::{concat2, no_such_channel};

use super::map::{
    added_channel, has_name, joined, last_named, lemma_name_index, left, left_everywhere, presence_targets,
    named, one_more, Delivery, ChannelMap as StoredMap,
};
use super::storage::Storage;
use super::{holds_addr, recipients, Channel, ChannelView, ConnView};

verus! {

/// A storage that keeps nothing.
pub struct Unstored;

impl Storage for Unstored {
    open spec fn may_create(&self, channel: ChannelView, r: Result<(), Seq<char>>) -> bool {
        r is Ok
    }

    open spec fn may_remove(&self, name: Seq<char>, r: Result<(), Seq<char>>) -> bool {
        r is Ok
    }

    open spec fn may_list(&self, r: Result<Seq<ChannelView>, Seq<char>>) -> bool {
        r == Ok::<Seq<ChannelView>, Seq<char>>(Seq::empty())
    }

    fn new(_path: &str) -> Self {
        Unstored
    }

    fn create_channel(&self, _channel: &Channel) -> (r: Result<(), String>)
        ensures
            r is Ok,
    {
        Ok(())
    }

    fn remove_channel(&self, _name: &str) -> (r: Result<(), String>)
        ensures
            r is Ok,
    {
        Ok(())
    }

    fn get_channels(&self) -> (r: Result<Vec<Channel>, String>)
        ensures
            r matches Ok(v) && v@.len() == 0,
    {
        let v: Vec<Channel> = Vec::new();
        assert(v@.map_values(|c: Channel| c@) =~= Seq::<ChannelView>::empty());
        Ok(v)
    }
}

/// The printed addresses of the connections, in order, without those printed
/// as `except`.
pub open spec fn addr_texts(conns: Seq<ConnView>, except: Option<Seq<char>>) -> Seq<Seq<char>>
    decreases conns.len(),
{
    if conns.len() == 0 {
        Seq::empty()
    } else {
        let rest = addr_texts(conns.drop_last(), except);
        if except == Some(conns.last().addr_text) {
            rest
        } else {
            rest.push(conns.last().addr_text)
        }
    }
}

/// `d` announces the members of channel `ch` (their printed addresses but
/// `except`) to its connections but `skip`.
pub open spec fn is_roster_update(d: Delivery, ch: ChannelView, except: Option<Seq<char>>, skip: Option<Addr>) -> bool {
    &&& d.frame matches Frame::Json(Message::Presence { channel, connections })
        && channel@ == ch.name
        && connections@.map_values(|s: String| s@) == addr_texts(ch.connections, except)
    &&& d.recipients@ == recipients(ch.connections, skip)
}

/// `d` answers the connection at `to` with an `Error` message saying `text`.
pub open spec fn is_reply(d: Delivery, to: Addr, text: Seq<char>) -> bool {
    &&& d.frame matches Frame::Json(Message::Error { message }) && message@ == text
    &&& d.recipients@ == seq![to]
}

/// The positions, in order, of the channels that hold address `a`.
pub open spec fn held_by(s: Seq<ChannelView>, a: Addr) -> Seq<int>
    decreases s.len(),
{
    if s.len() == 0 {
        Seq::empty()
    } else {
        let rest = held_by(s.drop_last(), a);
        if holds_addr(s.last().connections, a) {
            rest.push(s.len() - 1)
        } else {
            rest
        }
    }
}

/// Each position in `held_by` is that of a channel that holds the address.
pub proof fn lemma_held_by(s: Seq<ChannelView>, a: Addr, j: int)
    requires
        0 <= j < held_by(s, a).len(),
    ensures
        0 <= held_by(s, a)[j] < s.len(),
        holds_addr(s[held_by(s, a)[j]].connections, a),
    decreases s.len(),
{
    let rest = held_by(s.drop_last(), a);
    if j < rest.len() {
        lemma_held_by(s.drop_last(), a, j);
        assert(s.drop_last()[rest[j]] == s[rest[j]]);
    }
}

/// Channels of the relay have neither presence settings nor authorization.
pub open spec fn bare(s: Seq<ChannelView>) -> bool {
    forall|i: int| 0 <= i < s.len() ==> !(#[trigger] s[i]).presence && s[i].auth is None
}

/// What `add_connection` of `c` to the channel `name` does and answers.
pub open spec fn relay_join_post(old: StoredMap<Unstored>, new: StoredMap<Unstored>, name: Seq<char>, c: ConnView, r: Result<(), String>) -> bool {
    &&& !has_name(old@, name) ==> {
        &&& r matches Err(e) && e@ == no_such_channel(name)
        &&& new@ == old@
        &&& new.pending() == old.pending()
    }
    &&& has_name(old@, name) && holds_addr(named(old@, name).connections, c.addr) ==> {
        &&& r matches Err(e) && e@ == "Connection already exists for "@ + c.addr_text
        &&& new@ == old@
        &&& new.pending() == old.pending()
    }
    &&& has_name(old@, name) && !holds_addr(named(old@, name).connections, c.addr) ==> {
        &&& r is Ok
        &&& new@ == joined(old@, name, c)
        &&& new.pending() == old.pending()
    }
}

/// What `broadcast` to the channel `name`, skipping `skip`, does and answers.
pub open spec fn relay_broadcast_post(old: StoredMap<Unstored>, new: StoredMap<Unstored>, name: Seq<char>, skip: Option<Addr>, r: Result<(), String>) -> bool {
    &&& new@ == old@
    &&& has_name(old@, name) ==> {
        &&& r is Ok
        &&& one_more(old.pending(), new.pending())
        &&& new.pending().last().recipients@ == recipients(named(old@, name).connections, skip)
    }
    &&& !has_name(old@, name) ==> {
        &&& r matches Err(e) && e@ == no_such_channel(name)
        &&& new.pending() == old.pending()
    }
}

/// What `remove_connection` of the connection at `a`, printed `text`, from
/// the channel `name` does and answers.
pub open spec fn relay_leave_post(old: StoredMap<Unstored>, new: StoredMap<Unstored>, name: Seq<char>, a: Addr, text: Seq<char>, r: Result<(), String>) -> bool {
    &&& !has_name(old@, name) ==> {
        &&& r matches Err(e) && e@ == no_such_channel(name)
        &&& new@ == old@
        &&& new.pending() == old.pending()
    }
    &&& has_name(old@, name) ==> {
        &&& r is Ok
        &&& new@ == left(old@, name, a)
        &&& one_more(old.pending(), new.pending())
        &&& is_roster_update(new.pending().last(), named(new@, name), Some(text), Some(a))
    }
}

/// What `remove_connection_from_all` of the connection at `a`, printed
/// `text`, does and answers: it leaves every channel, and each channel it
/// left announces its remaining members, in the order of the channels.
pub open spec fn relay_leave_all_post(old: StoredMap<Unstored>, new: StoredMap<Unstored>, a: Addr, text: Seq<char>, r: Result<(), String>) -> bool {
    let held = held_by(old@, a);
    &&& r is Ok
    &&& new@ == left_everywhere(old@, a)
    &&& new.pending().len() == old.pending().len() + held.len()
    &&& new.pending().take(old.pending().len() as int) == old.pending()
    &&& forall|j: int| 0 <= j < held.len() ==> is_roster_update(
        #[trigger] new.pending()[old.pending().len() + j],
        new@[held[j]],
        Some(text),
        Some(a),
    )
}

/// The printed address to leave out, if any.
pub open spec fn opt_text(t: Option<&String>) -> Option<Seq<char>> {
    match t {
        Some(s) => Some(s@),
        None => None,
    }
}

/// The printed addresses of the channel's connections, in order, without
/// those printed as `except`.
pub fn roster(ch: &Channel, except: Option<&String>) -> (r: Vec<String>)
    ensures
        r@.map_values(|s: String| s@) == addr_texts(ch@.connections, opt_text(except)),
{
    let ghost conns = ch@.connections;
    let n = ch.connections.len();
    let mut r: Vec<String> = Vec::new();
    let mut i: usize = 0;
    while i < n
        invariant
            n == ch.connections@.len(),
            conns == ch@.connections,
            i <= n,
            r@.map_values(|s: String| s@) == addr_texts(conns.take(i as int), opt_text(except)),
        decreases n - i,
    {
        proof {
            let t = conns.take(i + 1);
            assert(t.drop_last() =~= conns.take(i as int));
            assert(t.last() == conns[i as int]);
        }
        let text = &ch.connections[i].addr_text;
        let skip = match except {
            Some(e) => *e == *text,
            None => false,
        };
        if !skip {
            let ghost before = r@;
            r.push(text.clone());
            proof {
                assert(r@.map_values(|s: String| s@) =~= before.map_values(|s: String| s@).push(text@));
            }
        }
        i = i + 1;
    }
    assert(conns.take(n as int) =~= conns);
    r
}

/// No channel of a bare relay has presence on.
pub proof fn lemma_no_presence_targets(s: Seq<ChannelView>, a: Addr)
    requires
        bare(s),
    ensures
        presence_targets(s, a).len() == 0,
    decreases s.len(),
{
    if s.len() > 0 {
        assert(!s[s.len() - 1].presence);
        assert forall|i: int| 0 <= i < s.drop_last().len() implies !(#[trigger] s.drop_last()[i]).presence
            && s.drop_last()[i].auth is None by {
            assert(s.drop_last()[i] == s[i]);
        }
        lemma_no_presence_targets(s.drop_last(), a);
    }
}

/// What handling `msg` from connection `conn` does to the relay.
pub open spec fn relay_handled(old: StoredMap<Unstored>, new: StoredMap<Unstored>, msg: Message, conn: Connection) -> bool {
    let a = conn.addr;
    let text = conn.addr_text@;
    match msg {
        Message::Join { channel, .. } => {
            let s1 = added_channel(old@, channel@, None, false);
            &&& one_more(old.pending(), new.pending())
            &&& if holds_addr(named(s1, channel@).connections, a) {
                &&& new@ == s1
                &&& is_reply(new.pending().last(), a, "Failed to add connection: "@ + "Connection already exists for "@ + text)
            } else {
                &&& new@ == joined(s1, channel@, conn@)
                &&& is_roster_update(new.pending().last(), named(new@, channel@), None, None)
            }
        },
        Message::Leave { channel } => if has_name(old@, channel@) {
            relay_leave_post(old, new, channel@, a, text, Ok(()))
        } else {
            &&& new@ == old@
            &&& one_more(old.pending(), new.pending())
            &&& is_reply(new.pending().last(), a, "Failed to remove connection: "@ + no_such_channel(channel@))
        },
        Message::Disconnect => relay_leave_all_post(old, new, a, text, Ok(())),
        Message::Broadcast { channel, body } => {
            &&& new@ == old@
            &&& one_more(old.pending(), new.pending())
            &&& if has_name(old@, channel@) {
                &&& new.pending().last().frame matches Frame::Json(Message::Broadcast { channel: c, body: b })
                    && c@ == channel@ && b == body
                &&& new.pending().last().recipients@ == recipients(named(old@, channel@).connections, Some(a))
            } else {
                is_reply(new.pending().last(), a, "Failed to broadcast message: "@ + no_such_channel(channel@))
            }
        },
        Message::Error { .. } => new@ == old@ && new.pending() == old.pending(),
        _ => {
            &&& new@ == old@
            &&& one_more(old.pending(), new.pending())
            &&& is_reply(new.pending().last(), a, "Received an invalid message: "@ + message_debug(msg))
        },
    }
}

/// A map of channels for the relay.
pub struct ChannelMap {
    pub channels: StoredMap<Unstored>,
}

impl ChannelMap {
    /// The channels are well formed and bare.
    pub open spec fn wf(&self) -> bool {
        self.channels.wf() && bare(self.channels@)
    }

    /// A relay without channels.
    pub fn new() -> (m: ChannelMap)
        ensures
            m.wf(),
            m.channels@.len() == 0,
            m.channels.pending().len() == 0,
    {
        let stored: Vec<Channel> = Vec::new();
        let ghost listed = stored@.map_values(|c: Channel| c@);
        let channels = StoredMap::with_channels(Unstored, stored);
        assert(channels@.len() == 0) by {
            // A loaded channel is the last stored one of its name, and none was stored.
            if channels@.len() > 0 {
                assert(exists|j: int| last_named(listed, j, channels@[0].name));
            }
        }
        ChannelMap { channels }
    }

    /// The channel called `name`, if there is one.
    pub fn get_channel(&self, name: &String) -> (r: Option<&Channel>)
        requires
            self.wf(),
        ensures
            match r {
                Some(c) => has_name(self.channels@, name@) && c@ == named(self.channels@, name@),
                None => !has_name(self.channels@, name@),
            },
    {
        self.channels.get(name)
    }

    /// Whether a channel is called `channel_name`.
    pub fn has_channel(&self, channel_name: String) -> (r: bool)
        ensures
            r == has_name(self.channels@, channel_name@),
    {
        self.channels.has_channel(channel_name)
    }

    /// Creates the channel `name`, unless it exists.
    pub fn add_channel(&mut self, name: &String)
        requires
            old(self).wf(),
        ensures
            final(self).wf(),
            final(self).channels@ == added_channel(old(self).channels@, name@, None, false),
            final(self).channels.pending() == old(self).channels.pending(),
    {
        let c = Channel::new(name.clone(), None, false);
        let _ = self.channels.apply_created(c, Ok(()));
        proof {
            let s = self.channels@;
            assert forall|i: int| 0 <= i < s.len() implies !(#[trigger] s[i]).presence && s[i].auth is None by {
                if i < old(self).channels@.len() {
                    assert(s[i] == old(self).channels@[i]);
                }
            }
        }
    }

    /// Adds `conn` to the channel `channel_name`. Fails, changing nothing,
    /// when there is no such channel or a connection with the same address
    /// is in it.
    pub fn add_connection(&mut self, channel_name: &String, conn: Connection) -> (r: Result<(), String>)
        requires
            old(self).wf(),
        ensures
            final(self).wf(),
            relay_join_post(old(self).channels, final(self).channels, channel_name@, conn@, r),
    {
        let res = self.channels.add_connection(channel_name, conn, false);
        proof { self.lemma_still_bare(*old(self)); }
        match res {
            Ok(_) => Ok(()),
            Err(e) => Err(e),
        }
    }

    proof fn lemma_still_bare(&self, old: ChannelMap)
        requires
            bare(old.channels@),
            self.channels@.len() == old.channels@.len(),
            forall|i: int| 0 <= i < self.channels@.len() ==> (#[trigger] self.channels@[i]).presence == old.channels@[i].presence
                && self.channels@[i].auth == old.channels@[i].auth,
        ensures
            bare(self.channels@),
    {
        assert forall|i: int| 0 <= i < self.channels@.len() implies !(#[trigger] self.channels@[i]).presence
            && self.channels@[i].auth is None by {
            assert(!old.channels@[i].presence);
        }
    }

    /// Queues an `Error` message saying `text` for the connection at `to`.
    pub fn reply(&mut self, to: Addr, text: String)
        requires
            old(self).wf(),
        ensures
            final(self).wf(),
            final(self).channels@ == old(self).channels@,
            one_more(old(self).channels.pending(), final(self).channels.pending()),
            is_reply(final(self).channels.pending().last(), to, text@),
    {
        let mut to_vec: Vec<Addr> = Vec::new();
        to_vec.push(to);
        assert(to_vec@ =~= seq![to]);
        self.channels.send_to(Frame::Json(Message::Error { message: text }), to_vec);
    }

    /// Announces the members of the channel `name` (their printed addresses
    /// but `except`) to its connections but `skip`.
    pub fn announce(&mut self, name: &String, except: Option<&String>, skip: Option<Addr>)
        requires
            old(self).wf(),
            has_name(old(self).channels@, name@),
        ensures
            final(self).wf(),
            final(self).channels@ == old(self).channels@,
            one_more(old(self).channels.pending(), final(self).channels.pending()),
            is_roster_update(final(self).channels.pending().last(), named(old(self).channels@, name@), opt_text(except), skip),
    {
        let texts = match self.channels.get(name) {
            Some(ch) => roster(ch, except),
            None => Vec::new(),
        };
        let msg = Message::Presence { channel: name.clone(), connections: texts };
        let _ = self.channels.broadcast(name.as_str(), Frame::Json(msg), skip);
    }

    /// Removes the connection at `addr`, printed `addr_text`, from the
    /// channel `channel_name`, and announces the remaining members to the
    /// channel. Fails, changing nothing, when there is no such channel.
    pub fn remove_connection(&mut self, channel_name: &String, addr: Addr, addr_text: &String) -> (r: Result<(), String>)
        requires
            old(self).wf(),
        ensures
            final(self).wf(),
            relay_leave_post(old(self).channels, final(self).channels, channel_name@, addr, addr_text@, r),
    {
        let res = self.channels.remove_connection(channel_name, addr);
        proof { self.lemma_still_bare(*old(self)); }
        match res {
            Err(e) => Err(e),
            Ok(_) => {
                let ghost mid = self.channels@;
                proof {
                    let i = super::map::name_index(old(self).channels@, channel_name@);
                    assert(mid[i].name == channel_name@);
                    assert(has_name(mid, channel_name@));
                }
                self.announce(channel_name, Some(addr_text), Some(addr));
                Ok(())
            },
        }
    }

    /// The names, in order, of the channels that hold the connection at `addr`.
    fn channels_holding(&self, addr: Addr) -> (r: Vec<String>)
        requires
            self.wf(),
        ensures
            r@.len() == held_by(self.channels@, addr).len(),
            forall|j: int| 0 <= j < r@.len() ==> (#[trigger] r@[j])@ == self.channels@[held_by(self.channels@, addr)[j]].name,
    {
        let ghost s = self.channels@;
        let keys = self.channels.keys();
        let n = keys.len();
        let mut r: Vec<String> = Vec::new();
        let mut k: usize = 0;
        while k < n
            invariant
                self.wf(),
                s == self.channels@,
                n == keys@.len(),
                n == s.len(),
                forall|x: int| 0 <= x < keys@.len() ==> #[trigger] keys@[x]@ == s[x].name,
                k <= n,
                r@.len() == held_by(s.take(k as int), addr).len(),
                forall|j: int| 0 <= j < r@.len() ==> (#[trigger] r@[j])@ == s[held_by(s.take(k as int), addr)[j]].name,
            decreases n - k,
        {
            proof {
                let t = s.take(k + 1);
                assert(t.drop_last() =~= s.take(k as int));
                assert(t.last() == s[k as int]);
                assert(keys@[k as int]@ == s[k as int].name);
                lemma_name_index(s, s[k as int].name, k as int);
            }
            let holds = match self.channels.get(&keys[k]) {
                Some(ch) => ch.has_connection(addr),
                None => false,
            };
            if holds {
                let ghost before = r@;
                r.push(keys[k].clone());
                proof {
                    let h0 = held_by(s.take(k as int), addr);
                    let h1 = held_by(s.take(k + 1), addr);
                    assert(h1 == h0.push(k as int));
                    assert forall|j: int| 0 <= j < r@.len() implies (#[trigger] r@[j])@ == s[h1[j]].name by {
                        if j < before.len() {
                            assert(r@[j] == before[j]);
                        }
                    }
                }
            } else {
                proof {
                    assert(held_by(s.take(k + 1), addr) == held_by(s.take(k as int), addr));
                }
            }
            k = k + 1;
        }
        assert(s.take(n as int) =~= s);
        r
    }

    /// Announces the members of each channel called in `names`, in order,
    /// but the connection at `skip`, printed `text`, to their connections
    /// but `skip`.
    fn announce_all(&mut self, names: &Vec<String>, text: &String, skip: Addr)
        requires
            old(self).wf(),
            forall|j: int| 0 <= j < names@.len() ==> has_name(old(self).channels@, #[trigger] names@[j]@),
        ensures
            final(self).wf(),
            final(self).channels@ == old(self).channels@,
            final(self).channels.pending().len() == old(self).channels.pending().len() + names@.len(),
            final(self).channels.pending().take(old(self).channels.pending().len() as int) == old(self).channels.pending(),
            forall|j: int| 0 <= j < names@.len() ==> is_roster_update(
                #[trigger] final(self).channels.pending()[old(self).channels.pending().len() + j],
                named(old(self).channels@, names@[j]@),
                Some(text@),
                Some(skip),
            ),
    {
        let ghost q0 = self.channels.pending();
        let m = names.len();
        let mut k: usize = 0;
        while k < m
            invariant
                m == names@.len(),
                k <= m,
                self.wf(),
                self.channels@ == old(self).channels@,
                forall|j: int| 0 <= j < m ==> has_name(self.channels@, #[trigger] names@[j]@),
                self.channels.pending().len() == q0.len() + k,
                self.channels.pending().take(q0.len() as int) == q0,
                forall|j: int| 0 <= j < k ==> is_roster_update(
                    #[trigger] self.channels.pending()[q0.len() + j],
                    named(self.channels@, names@[j]@),
                    Some(text@),
                    Some(skip),
                ),
            decreases m - k,
        {
            let ghost q = self.channels.pending();
            proof { assert(has_name(self.channels@, names@[k as int]@)); }
            self.announce(&names[k], Some(text), Some(skip));
            proof {
                assert(self.channels.pending().drop_last() == q);
                assert forall|j: int| 0 <= j < k + 1 implies is_roster_update(
                    #[trigger] self.channels.pending()[q0.len() + j],
                    named(self.channels@, names@[j]@),
                    Some(text@),
                    Some(skip),
                ) by {
                    if j < k {
                        assert(self.channels.pending()[q0.len() + j] == q[q0.len() + j]);
                    }
                }
                assert(self.channels.pending().take(q0.len() as int) =~= q0) by {
                    assert forall|j: int| 0 <= j < q0.len() implies self.channels.pending()[j] == q0[j] by {
                        assert(self.channels.pending()[j] == q[j]);
                        assert(q.take(q0.len() as int)[j] == q[j]);
                    }
                }
            }
            k = k + 1;
        }
    }

    /// Removes the connection at `addr`, printed `addr_text`, from every
    /// channel, and then announces the remaining members of each channel it
    /// left.
    pub fn remove_connection_from_all(&mut self, addr: Addr, addr_text: &String) -> (r: Result<(), String>)
        requires
            old(self).wf(),
        ensures
            final(self).wf(),
            relay_leave_all_post(old(self).channels, final(self).channels, addr, addr_text@, r),
    {
        let ghost s0 = self.channels@;
        let names = self.channels_holding(addr);
        proof { lemma_no_presence_targets(s0, addr); }
        let _ = self.channels.remove_connection_from_all(addr);
        proof {
            self.lemma_still_bare(*old(self));
            let s1 = self.channels@;
            assert forall|j: int| 0 <= j < names@.len() implies has_name(s1, #[trigger] names@[j]@)
                && named(s1, names@[j]@) == s1[held_by(s0, addr)[j]] by {
                let t = held_by(s0, addr)[j];
                lemma_held_by(s0, addr, j);
                assert(s1[t].name == s0[t].name);
                lemma_name_index(s1, s0[t].name, t);
            }
            assert(self.channels.pending() =~= old(self).channels.pending());
        }
        self.announce_all(&names, addr_text, addr);
        Ok(())
    }

    /// Handles one message from connection `conn`: joins (creating the
    /// channel when needed) and leaves announce the members; broadcasts go
    /// to the other members; failures and messages that a client may not
    /// send are answered to `conn` with an `Error` message.
    pub fn handle(&mut self, msg: Message, conn: Connection)
        requires
            old(self).wf(),
        ensures
            final(self).wf(),
            relay_handled(old(self).channels, final(self).channels, msg, conn),
    {
        match &msg {
            Message::Join { .. } | Message::Leave { .. } | Message::Disconnect | Message::Broadcast { .. }
            | Message::Error { .. } => {},
            _ => {
                let text = debug_text(&msg);
                self.reply(conn.addr, concat2("Received an invalid message: ", text.as_str()));
                return;
            },
        }
        match msg {
            Message::Join { channel, presence: _ } => {
                self.add_channel(&channel);
                let ghost s1 = self.channels@;
                proof {
                    crate::channel::laws::law_create_then_exists(old(self).channels@, channel@, None, false);
                }
                match self.add_connection(&channel, conn.duplicate()) {
                    Err(e) => {
                        proof {
                            assert(("Failed to add connection: "@ + e@) =~= ("Failed to add connection: "@
                                + "Connection already exists for "@ + conn.addr_text@));
                        }
                        self.reply(conn.addr, concat2("Failed to add connection: ", e.as_str()));
                    },
                    Ok(()) => {
                        proof {
                            let i = super::map::name_index(s1, channel@);
                            assert(self.channels@[i].name == channel@);
                            assert(has_name(self.channels@, channel@));
                        }
                        self.announce(&channel, None, None);
                    },
                }
            },
            Message::Leave { channel } => {
                match self.remove_connection(&channel, conn.addr, &conn.addr_text) {
                    Err(e) => {
                        self.reply(conn.addr, concat2("Failed to remove connection: ", e.as_str()));
                    },
                    Ok(()) => {},
                }
            },
            Message::Disconnect => {
                match self.remove_connection_from_all(conn.addr, &conn.addr_text) {
                    Err(e) => {
                        self.reply(conn.addr, concat2("Failed to remove connection from all channels: ", e.as_str()));
                    },
                    Ok(()) => {},
                }
            },
            Message::Broadcast { channel, body } => {
                let m = Message::Broadcast { channel: channel.clone(), body };
                match self.broadcast(&channel, Frame::Json(m), Some(conn.addr)) {
                    Err(e) => {
                        self.reply(conn.addr, concat2("Failed to broadcast message: ", e.as_str()));
                    },
                    Ok(()) => {},
                }
            },
            _ => {},
        }
    }

    /// Sends `message` to the connections of `channel_name` but `skip_addr`.
    pub fn broadcast(&mut self, channel_name: &String, message: Frame, skip_addr: Option<Addr>) -> (r: Result<(), String>)
        requires
            old(self).wf(),
        ensures
            final(self).wf(),
            relay_broadcast_post(old(self).channels, final(self).channels, channel_name@, skip_addr, r),
            has_name(old(self).channels@, channel_name@) ==> final(self).channels.pending().last().frame == message,
    {
        let res = self.channels.broadcast(channel_name.as_str(), message, skip_addr);
        match res {
            Ok(_) => Ok(()),
            Err(e) => Err(e),
        }
    }
}

} // verus!
