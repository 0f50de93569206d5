use vstd::prelude::*;

use crate::addr::Addr;
use crate::auth::AuthConfig;
use crate::connection::Connection;
use crate::message::{Frame, Message};
use crate::text::{concat2, no_such_channel, no_such_channel_text};

use super::router::{CommandResponse, CommandResult};
use super::storage::Storage;
use super::{
    addrs_distinct, auth_view, conn_ids, drop_addr, first_by_addr, holds_addr, lemma_first_by_addr, lemma_drop_addr, recipients, with_connections, Channel, ChannelView,
    ConnView,
};

verus! {

// ---------------------------------------------------------------------------
// The channels as a sequence of views, and what each operation makes of them.
// ---------------------------------------------------------------------------

/// No two channels share a name.
pub open spec fn names_distinct(s: Seq<ChannelView>) -> bool {
    forall|i: int, j: int| 0 <= i < j < s.len() ==> s[i].name != s[j].name
}

/// Channel names are distinct, and within each channel connection addresses are.
pub open spec fn well_formed(s: Seq<ChannelView>) -> bool {
    &&& names_distinct(s)
    &&& forall|i: int| 0 <= i < s.len() ==> addrs_distinct(#[trigger] s[i].connections)
}

/// Some channel is called `name`.
pub open spec fn has_name(s: Seq<ChannelView>, name: Seq<char>) -> bool {
    exists|i: int| 0 <= i < s.len() && s[i].name == name
}

/// The position of the channel called `name`.
pub open spec fn name_index(s: Seq<ChannelView>, name: Seq<char>) -> int {
    choose|i: int| 0 <= i < s.len() && s[i].name == name
}

/// The channel called `name`.
pub open spec fn named(s: Seq<ChannelView>, name: Seq<char>) -> ChannelView {
    s[name_index(s, name)]
}

/// The channels after creating `name`: a channel that exists already is kept
/// as it is; otherwise an empty channel is added.
pub open spec fn added_channel(
    s: Seq<ChannelView>,
    name: Seq<char>,
    auth: Option<Seq<char>>,
    presence: bool,
) -> Seq<ChannelView> {
    if has_name(s, name) {
        s
    } else {
        s.push(ChannelView { name, auth, presence, connections: Seq::empty() })
    }
}

/// The channels after deleting `name`.
pub open spec fn removed_channel(s: Seq<ChannelView>, name: Seq<char>) -> Seq<ChannelView> {
    if has_name(s, name) {
        s.remove(name_index(s, name))
    } else {
        s
    }
}

/// The channels after connection `c` joined the channel called `name`.
pub open spec fn joined(s: Seq<ChannelView>, name: Seq<char>, c: ConnView) -> Seq<ChannelView> {
    let ch = named(s, name);
    s.update(name_index(s, name), with_connections(ch, ch.connections.push(c)))
}

/// The channels after the connection with address `a` left the channel called `name`.
pub open spec fn left(s: Seq<ChannelView>, name: Seq<char>, a: Addr) -> Seq<ChannelView> {
    let ch = named(s, name);
    s.update(name_index(s, name), with_connections(ch, drop_addr(ch.connections, a)))
}

/// The channels after the connection with address `a` left all of them.
pub open spec fn left_everywhere(s: Seq<ChannelView>, a: Addr) -> Seq<ChannelView> {
    s.map_values(|ch: ChannelView| with_connections(ch, drop_addr(ch.connections, a)))
}

/// The positions, in order, of the channels that hold address `a` and send
/// presence updates.
pub open spec fn presence_targets(s: Seq<ChannelView>, a: Addr) -> Seq<int>
    decreases s.len(),
{
    if s.len() == 0 {
        Seq::empty()
    } else {
        let rest = presence_targets(s.drop_last(), a);
        if holds_addr(s.last().connections, a) && s.last().presence {
            rest.push(s.len() - 1)
        } else {
            rest
        }
    }
}

/// Every position in `presence_targets` is a position of `s`, and they increase.
pub proof fn lemma_presence_targets(s: Seq<ChannelView>, a: Addr)
    ensures
        forall|j: int| 0 <= j < presence_targets(s, a).len() ==> 0 <= #[trigger] presence_targets(s, a)[j] < s.len(),
    decreases s.len(),
{
    if s.len() > 0 {
        let rest = presence_targets(s.drop_last(), a);
        lemma_presence_targets(s.drop_last(), a);
        assert forall|j: int| 0 <= j < presence_targets(s, a).len() implies 0 <= #[trigger] presence_targets(s, a)[j] < s.len() by {
            if j < rest.len() {
                assert(presence_targets(s, a)[j] == rest[j]);
            }
        }
    }
}

/// Every channel that holds address `a` and has presence on is among the
/// `presence_targets`.
pub proof fn lemma_presence_targets_complete(s: Seq<ChannelView>, a: Addr, i: int)
    requires
        0 <= i < s.len(),
        holds_addr(s[i].connections, a),
        s[i].presence,
    ensures
        exists|j: int| 0 <= j < presence_targets(s, a).len() && presence_targets(s, a)[j] == i,
    decreases s.len(),
{
    let rest = presence_targets(s.drop_last(), a);
    if i == s.len() - 1 {
        assert(presence_targets(s, a)[rest.len() as int] == i);
    } else {
        assert(s.drop_last()[i] == s[i]);
        lemma_presence_targets_complete(s.drop_last(), a, i);
        let j = choose|j: int| 0 <= j < rest.len() && rest[j] == i;
        assert(presence_targets(s, a)[j] == i);
    }
}

/// `stored[j]` is the last stored channel called `name`.
pub open spec fn last_named(stored: Seq<ChannelView>, j: int, name: Seq<char>) -> bool {
    &&& 0 <= j < stored.len()
    &&& stored[j].name == name
    &&& forall|k: int| j < k < stored.len() ==> stored[k].name != name
}

/// `s` holds, once for each name among the stored channels, the last stored
/// channel of that name as it was stored, connections included. A channel
/// keeps at most one connection per address, so of stored connections that
/// share an address only the first is kept (`first_by_addr`, which keeps
/// connections with distinct addresses whole).
pub open spec fn loaded_from(s: Seq<ChannelView>, stored: Seq<ChannelView>) -> bool {
    &&& names_distinct(s)
    &&& forall|i: int| 0 <= i < stored.len() ==> has_name(s, #[trigger] stored[i].name)
    &&& forall|k: int| 0 <= k < s.len() ==> exists|j: int| last_named(stored, j, s[k].name)
        && #[trigger] s[k] == with_connections(stored[j], first_by_addr(stored[j].connections))
}

/// Each position in `presence_targets` is that of a channel that holds the
/// address and has presence on.
pub proof fn lemma_targets_hold(s: Seq<ChannelView>, a: Addr, j: int)
    requires
        0 <= j < presence_targets(s, a).len(),
    ensures
        0 <= presence_targets(s, a)[j] < s.len(),
        holds_addr(s[presence_targets(s, a)[j]].connections, a),
        s[presence_targets(s, a)[j]].presence,
    decreases s.len(),
{
    lemma_presence_targets(s, a);
    let rest = presence_targets(s.drop_last(), a);
    if j < rest.len() {
        lemma_targets_hold(s.drop_last(), a, j);
        lemma_presence_targets(s.drop_last(), a);
        assert(s.drop_last()[rest[j]] == s[rest[j]]);
    }
}

/// In well-formed channels, the one called `name` sits at position `i`.
pub proof fn lemma_name_index(s: Seq<ChannelView>, name: Seq<char>, i: int)
    requires
        names_distinct(s),
        0 <= i < s.len(),
        s[i].name == name,
    ensures
        has_name(s, name),
        name_index(s, name) == i,
        named(s, name) == s[i],
{
}

// ---------------------------------------------------------------------------
// Frames waiting to be sent.
// ---------------------------------------------------------------------------

/// A frame and the addresses of the connections it is sent to.
#[derive(Debug)]
pub struct Delivery {
    pub frame: Frame,
    pub recipients: Vec<Addr>,
}

/// `d` is the presence update of channel `ch`: the list of its connection
/// ids, sent to all of its connections.
pub open spec fn is_presence_update(d: Delivery, ch: ChannelView) -> bool {
    &&& d.frame matches Frame::Json(Message::Presence { channel, connections })
        && channel@ == ch.name
        && connections@.map_values(|s: String| s@) == conn_ids(ch.connections)
    &&& d.recipients@ == recipients(ch.connections, None)
}

/// `new` is `old` with one more delivery at its end.
pub open spec fn one_more(old: Seq<Delivery>, new: Seq<Delivery>) -> bool {
    &&& new.len() == old.len() + 1
    &&& new.drop_last() == old
}

// ---------------------------------------------------------------------------
// The map.
// ---------------------------------------------------------------------------

/// The channels, the storage that keeps them, and the frames that the
/// operations have queued for the connections. Sending the queued frames is
/// left to the caller (`take_outbox`).
pub struct ChannelMap<S: Storage> {
    pub channels: Vec<Channel>,
    db: S,
    pub outbox: Vec<Delivery>,
}

impl<S: Storage> View for ChannelMap<S> {
    type V = Seq<ChannelView>;

    closed spec fn view(&self) -> Seq<ChannelView> {
        self.channels@.map_values(|c: Channel| c@)
    }
}

/// What `broadcast` of a frame to the channel `name`, skipping `skip`, does
/// to the map and answers: the frame is queued for the channel's connections
/// but `skip`; without such a channel nothing is queued and the command fails.
pub open spec fn broadcast_post<S: Storage>(
    old: ChannelMap<S>,
    new: ChannelMap<S>,
    name: Seq<char>,
    skip: Option<Addr>,
    r: CommandResult,
) -> bool {
    &&& new@ == old@
    &&& has_name(old@, name) ==> {
        &&& r matches Ok(CommandResponse::Done)
        &&& one_more(old.pending(), new.pending())
        &&& new.pending().last().recipients@ == recipients(named(old@, name).connections, skip)
    }
    &&& !has_name(old@, name) ==> {
        &&& r matches Err(e) && e@ == no_such_channel(name)
        &&& new.pending() == old.pending()
    }
}

/// When `on`, the presence update of the channel `name` is queued, and
/// otherwise nothing is.
pub open spec fn presence_sent<S: Storage>(old: ChannelMap<S>, new: ChannelMap<S>, name: Seq<char>, on: bool) -> bool {
    if on {
        &&& one_more(old.pending(), new.pending())
        &&& is_presence_update(new.pending().last(), named(new@, name))
    } else {
        new.pending() == old.pending()
    }
}

/// What `add_connection` of `c` to the channel `name` does and answers.
pub open spec fn join_post<S: Storage>(
    old: ChannelMap<S>,
    new: ChannelMap<S>,
    name: Seq<char>,
    c: ConnView,
    send_presence: bool,
    r: CommandResult,
) -> bool {
    &&& !has_name(old@, name) ==> {
        &&& r matches Err(e) && e@ == no_such_channel(name)
        &&& new@ == old@
        &&& new.pending() == old.pending()
    }
    &&& has_name(old@, name) && holds_addr(named(old@, name).connections, c.addr) ==> {
        &&& r matches Err(e) && e@ == "Connection already exists for "@ + c.addr_text
        &&& new@ == old@
        &&& new.pending() == old.pending()
    }
    &&& has_name(old@, name) && !holds_addr(named(old@, name).connections, c.addr) ==> {
        &&& r matches Ok(CommandResponse::Done)
        &&& new@ == joined(old@, name, c)
        &&& presence_sent(old, new, name, send_presence && named(old@, name).presence)
    }
}

/// What `remove_connection` of address `a` from the channel `name` does and
/// answers.
pub open spec fn leave_post<S: Storage>(old: ChannelMap<S>, new: ChannelMap<S>, name: Seq<char>, a: Addr, r: CommandResult) -> bool {
    &&& !has_name(old@, name) ==> {
        &&& r matches Err(e) && e@ == no_such_channel(name)
        &&& new@ == old@
        &&& new.pending() == old.pending()
    }
    &&& has_name(old@, name) ==> {
        &&& r matches Ok(CommandResponse::Done)
        &&& new@ == left(old@, name, a)
        &&& presence_sent(old, new, name, named(old@, name).presence)
    }
}

/// What `remove_connection_from_all` of address `a` does and answers: the
/// address leaves every channel, and each channel with presence on that it
/// left gets its presence update, in the order of the channels.
pub open spec fn leave_all_post<S: Storage>(old: ChannelMap<S>, new: ChannelMap<S>, a: Addr, r: CommandResult) -> bool {
    let targets = presence_targets(old@, a);
    &&& r matches Ok(CommandResponse::Done)
    &&& new@ == left_everywhere(old@, a)
    &&& new.pending().len() == old.pending().len() + targets.len()
    &&& new.pending().take(old.pending().len() as int) == old.pending()
    &&& forall|j: int| 0 <= j < targets.len() ==> is_presence_update(
        #[trigger] new.pending()[old.pending().len() + j],
        new@[targets[j]],
    )
}

/// After a disconnect of address `a`, every channel that held it and has
/// presence on is sent its new member list.
pub proof fn law_disconnect_updates_all<S: Storage>(old: ChannelMap<S>, new: ChannelMap<S>, a: Addr, r: CommandResult)
    requires
        leave_all_post(old, new, a, r),
    ensures
        forall|i: int| 0 <= i < old@.len() && #[trigger] holds_addr(old@[i].connections, a) && old@[i].presence
            ==> exists|j: int| old.pending().len() <= j < new.pending().len()
                && #[trigger] is_presence_update(new.pending()[j], new@[i]),
{
    let s = old@;
    let targets = presence_targets(s, a);
    let n0 = old.pending().len();
    assert forall|i: int| 0 <= i < s.len() && #[trigger] holds_addr(s[i].connections, a) && s[i].presence
        implies exists|j: int| n0 <= j < new.pending().len() && #[trigger] is_presence_update(new.pending()[j], new@[i]) by {
        lemma_presence_targets_complete(s, a, i);
        let k = choose|k: int| 0 <= k < targets.len() && targets[k] == i;
        assert(is_presence_update(new.pending()[n0 + k], new@[targets[k]]));
    }
}

/// The delivery at position `j` of `new`'s queue is the new member list of
/// a channel of `old` that held address `a` and has presence on.
pub open spec fn update_for_holder<S: Storage>(old: ChannelMap<S>, new: ChannelMap<S>, a: Addr, j: int) -> bool {
    exists|i: int| 0 <= i < old@.len() && holds_addr(old@[i].connections, a) && old@[i].presence
        && #[trigger] is_presence_update(new.pending()[j], new@[i])
}

/// After a disconnect of address `a`, every update sent is the new member
/// list of a channel that held `a` and has presence on.
pub proof fn law_disconnect_updates_only<S: Storage>(old: ChannelMap<S>, new: ChannelMap<S>, a: Addr, r: CommandResult)
    requires
        leave_all_post(old, new, a, r),
    ensures
        forall|j: int| old.pending().len() <= j < new.pending().len() ==> #[trigger] update_for_holder(old, new, a, j),
{
    let s = old@;
    let targets = presence_targets(s, a);
    let n0 = old.pending().len();
    assert forall|j: int| n0 <= j < new.pending().len() implies #[trigger] update_for_holder(old, new, a, j) by {
        let k = j - n0;
        lemma_targets_hold(s, a, k);
        let i = targets[k];
        assert(is_presence_update(new.pending()[n0 + k], new@[i]));
    }
}

impl<S: Storage> ChannelMap<S> {
    /// Opens the map over `db`, with the channels that `db` lists, loaded by
    /// `with_channels` (whose contract states how the map follows the
    /// listing). When the storage cannot list them, fails with
    /// "Error loading channels from DB: " followed by the storage's error,
    /// the message that a program using the map stops with.
    pub fn new(db: S) -> (r: Result<Self, String>)
        ensures
            r matches Ok(m) ==> m.wf() && m.pending().len() == 0,
            r matches Err(msg) ==> exists|e: Seq<char>| msg@ == "Error loading channels from DB: "@ + e,
            r matches Ok(m) ==> m.storage() == db && exists|stored: Seq<ChannelView>|
                db.may_list(Ok(stored)) && loaded_from(m@, stored),
            r matches Err(msg) ==> exists|e: Seq<char>|
                db.may_list(Err(e)) && msg@ == "Error loading channels from DB: "@ + e,
    {
        match db.get_channels() {
            Ok(stored) => Ok(Self::with_channels(db, stored)),
            Err(e) => Err(concat2("Error loading channels from DB: ", e.as_str())),
        }
    }

    /// The map over `db` with the channels `stored` that it holds: one
    /// channel for each name, as stored last (see `loaded_from`).
    pub fn with_channels(db: S, stored: Vec<Channel>) -> (m: Self)
        ensures
            m.wf(),
            m.pending().len() == 0,
            loaded_from(m@, stored@.map_values(|c: Channel| c@)),
            m.storage() == db,
    {
        let ghost all = stored@.map_values(|c: Channel| c@);
        let mut stored = stored;
        let ghost d = db;
        let mut m = ChannelMap { channels: Vec::new(), db, outbox: Vec::new() };
        assert(m@ =~= Seq::<ChannelView>::empty());
        while stored.len() > 0
            invariant
                stored@.len() <= all.len(),
                forall|j: int| 0 <= j < stored@.len() ==> #[trigger] stored@[j]@ == all[j],
                m.outbox@.len() == 0,
                m.db == d,
                names_distinct(m@),
                forall|j: int| stored@.len() <= j < all.len() ==> has_name(m@, #[trigger] all[j].name),
                forall|k: int| 0 <= k < m@.len() ==> addrs_distinct(#[trigger] m@[k].connections),
                forall|k: int| 0 <= k < m@.len() ==> exists|j: int| stored@.len() <= j < all.len() && last_named(all, j, m@[k].name)
                    && #[trigger] m@[k] == with_connections(all[j], first_by_addr(all[j].connections)),
            decreases stored@.len(),
        {
            let ghost p = stored@.len() - 1;
            let c = stored.pop().unwrap();
            proof { assert(c@ == all[p]); }
            let ghost before = m@;
            if m.find(c.name.as_str()).is_none() {
                let fresh = c.keep_first_by_addr();
                m.channels.push(fresh);
                proof {
                    lemma_first_by_addr(all[p].connections);
                    assert(m@ =~= before.push(m@[before.len() as int]));
                    assert(m@[before.len() as int].name == all[p].name);
                    assert(last_named(all, p, all[p].name)) by {
                        assert forall|k: int| p < k < all.len() implies all[k].name != all[p].name by {
                            if all[k].name == all[p].name {
                                assert(has_name(before, all[k].name));
                            }
                        }
                    }
                    assert forall|j: int| stored@.len() <= j < all.len() implies has_name(m@, #[trigger] all[j].name) by {
                        if j == p {
                            assert(m@[before.len() as int].name == all[j].name);
                        } else {
                            let i = choose|i: int| 0 <= i < before.len() && before[i].name == all[j].name;
                            assert(m@[i] == before[i]);
                        }
                    }
                    assert forall|k: int| 0 <= k < m@.len() implies addrs_distinct(#[trigger] m@[k].connections) by {
                        if k < before.len() {
                            assert(m@[k] == before[k]);
                        }
                    }
                    assert forall|k: int| 0 <= k < m@.len() implies exists|j: int| stored@.len() <= j < all.len() && last_named(all, j, m@[k].name)
                        && #[trigger] m@[k] == with_connections(all[j], first_by_addr(all[j].connections)) by {
                        if k < before.len() {
                            assert(m@[k] == before[k]);
                        }
                    }
                    assert forall|x: int, y: int| 0 <= x < y < m@.len() implies m@[x].name != m@[y].name by {
                        assert(m@[x] == before[x]) by {}
                        if y < before.len() {
                            assert(m@[y] == before[y]);
                        }
                    }
                }
            } else {
                proof {
                    assert forall|k: int| 0 <= k < m@.len() implies exists|j: int| stored@.len() <= j < all.len() && last_named(all, j, m@[k].name)
                        && #[trigger] m@[k] == with_connections(all[j], first_by_addr(all[j].connections)) by {
                        let j = choose|j: int| stored@.len() + 1 <= j < all.len() && last_named(all, j, m@[k].name)
                            && m@[k] == with_connections(all[j], first_by_addr(all[j].connections));
                    }
                }
            }
        }
        m
    }

    /// The storage that keeps the channels.
    pub closed spec fn storage(&self) -> S {
        self.db
    }

    /// The frames queued for sending, oldest first.
    pub closed spec fn pending(&self) -> Seq<Delivery> {
        self.outbox@
    }

    /// Channel names are distinct, and within each channel connection addresses are.
    pub open spec fn wf(&self) -> bool {
        well_formed(self@)
    }

    /// The position of the channel called `name`, if there is one.
    pub fn find(&self, name: &str) -> (r: Option<usize>)
        ensures
            match r {
                Some(i) => i < self@.len() && self@[i as int].name == name@,
                None => !has_name(self@, name@),
            },
    {
        let key = name.to_owned();
        let n = self.channels.len();
        let mut i: usize = 0;
        while i < n
            invariant
                n == self.channels@.len(),
                i <= n,
                key@ == name@,
                forall|k: int| 0 <= k < i ==> self@[k].name != name@,
            decreases n - i,
        {
            if self.channels[i].name == key {
                return Some(i);
            }
            i = i + 1;
        }
        None
    }

    /// The names of all channels, each once.
    pub fn keys(&self) -> (r: Vec<String>)
        ensures
            r@.len() == self@.len(),
            forall|k: int| 0 <= k < r@.len() ==> #[trigger] r@[k]@ == self@[k].name,
    {
        let n = self.channels.len();
        let mut r: Vec<String> = Vec::new();
        let mut i: usize = 0;
        while i < n
            invariant
                n == self.channels@.len(),
                i <= n,
                r@.len() == i,
                forall|k: int| 0 <= k < i ==> #[trigger] r@[k]@ == self@[k].name,
            decreases n - i,
        {
            r.push(self.channels[i].name.clone());
            i = i + 1;
        }
        r
    }

    /// The channel called `name`, if there is one.
    pub fn get(&self, name: &String) -> (r: Option<&Channel>)
        requires
            self.wf(),
        ensures
            match r {
                Some(c) => has_name(self@, name@) && c@ == named(self@, name@),
                None => !has_name(self@, name@),
            },
    {
        match self.find(name.as_str()) {
            Some(i) => {
                proof { lemma_name_index(self@, name@, i as int); }
                Some(&self.channels[i])
            },
            None => None,
        }
    }

    /// The channel called `name`, to change in place, if there is one.
    pub fn get_mut(&mut self, name: &String) -> (r: Option<&mut Channel>)
        requires
            old(self).wf(),
        ensures
            final(self).pending() == old(self).pending(),
            match r {
                Some(c) => {
                    &&& has_name(old(self)@, name@)
                    &&& c@ == named(old(self)@, name@)
                    &&& final(self)@ == old(self)@.update(name_index(old(self)@, name@), final(c)@)
                },
                None => !has_name(old(self)@, name@) && final(self)@ == old(self)@,
            },
    {
        match self.find(name.as_str()) {
            Some(i) => {
                proof { lemma_name_index(self@, name@, i as int); }
                let c = &mut self.channels[i];
                Some(c)
            },
            None => None,
        }
    }

    /// Whether a channel is called `channel_name`.
    pub fn has_channel(&self, channel_name: String) -> (r: bool)
        ensures
            r == has_name(self@, channel_name@),
    {
        self.find(channel_name.as_str()).is_some()
    }

    /// Queues `message` for every connection of the channel called
    /// `channel_name` but the one at `skip_addr`. Fails, queueing nothing,
    /// when there is no such channel.
    pub fn broadcast(&mut self, channel_name: &str, message: Frame, skip_addr: Option<Addr>) -> (r: CommandResult)
        requires
            old(self).wf(),
        ensures
            broadcast_post(*old(self), *final(self), channel_name@, skip_addr, r),
            has_name(old(self)@, channel_name@) ==> final(self).pending().last().frame == message,
    {
        match self.find(channel_name) {
            Some(i) => {
                proof { lemma_name_index(self@, channel_name@, i as int); }
                let to = self.channels[i].recipients(skip_addr);
                self.outbox.push(Delivery { frame: message, recipients: to });
                assert(self.outbox@.drop_last() =~= old(self).outbox@);
                assert(self.channels@[i as int]@ == self@[i as int]);
                Ok(CommandResponse::Done)
            },
            None => Err(no_such_channel_text(channel_name)),
        }
    }

    /// Queues, for a channel with presence on, the list of its connection
    /// ids for all of its connections.
    pub fn broadcast_presence(&mut self, channel_name: &str) -> (r: CommandResult)
        requires
            old(self).wf(),
            has_name(old(self)@, channel_name@),
        ensures
            final(self)@ == old(self)@,
            r matches Ok(CommandResponse::Done),
            presence_sent(*old(self), *final(self), channel_name@, named(old(self)@, channel_name@).presence),
    {
        let i = self.find(channel_name).unwrap();
        proof { lemma_name_index(self@, channel_name@, i as int); }
        if !self.channels[i].presence {
            return Ok(CommandResponse::Done);
        }
        let ids = self.channels[i].connection_ids();
        let msg = Message::Presence { channel: channel_name.to_owned(), connections: ids };
        self.broadcast(channel_name, Frame::Json(msg), None)
    }

    /// Adds `conn` to the channel called `channel_name`, and then, when
    /// `send_presence` is set and the channel has presence on, queues the
    /// channel's presence update. Fails, changing nothing, when there is no
    /// such channel or a connection with the same address is in it already.
    pub fn add_connection(&mut self, channel_name: &String, conn: Connection, send_presence: bool) -> (r: CommandResult)
        requires
            old(self).wf(),
        ensures
            final(self).wf(),
            join_post(*old(self), *final(self), channel_name@, conn@, send_presence, r),
    {
        match self.find(channel_name.as_str()) {
            None => Err(no_such_channel_text(channel_name.as_str())),
            Some(i) => {
                proof { lemma_name_index(self@, channel_name@, i as int); }
                if self.channels[i].has_connection(conn.addr) {
                    return Err(concat2("Connection already exists for ", conn.addr_text.as_str()));
                }
                let ghost c = conn@;
                self.channels[i].connections.push(conn);
                proof {
                    let ch = old(self)@[i as int];
                    assert(self.channels@[i as int]@.connections =~= ch.connections.push(c));
                    assert(self@ =~= joined(old(self)@, channel_name@, c));
                    assert forall|j: int| 0 <= j < self@.len() implies addrs_distinct(#[trigger] self@[j].connections) by {
                        if j == i {
                            let cs = ch.connections.push(c);
                            assert forall|x: int, y: int| 0 <= x < y < cs.len() implies cs[x].addr != cs[y].addr by {
                                if y == cs.len() - 1 {
                                    assert(ch.connections[x].addr != c.addr);
                                }
                            }
                        } else {
                            assert(self@[j] == old(self)@[j]);
                        }
                    }
                    assert(names_distinct(self@)) by {
                        assert forall|x: int, y: int| 0 <= x < y < self@.len() implies self@[x].name != self@[y].name by {
                            assert(self@[x].name == old(self)@[x].name);
                            assert(self@[y].name == old(self)@[y].name);
                        }
                    }
                    lemma_name_index(self@, channel_name@, i as int);
                }
                if send_presence {
                    let _ = self.broadcast_presence(channel_name.as_str());
                }
                Ok(CommandResponse::Done)
            },
        }
    }

    /// Removes the connection with address `addr` from the channel called
    /// `channel_name`, and then, when the channel has presence on, queues its
    /// presence update (also when no such connection was in it). Fails,
    /// changing nothing, when there is no such channel.
    pub fn remove_connection(&mut self, channel_name: &String, addr: Addr) -> (r: CommandResult)
        requires
            old(self).wf(),
        ensures
            final(self).wf(),
            leave_post(*old(self), *final(self), channel_name@, addr, r),
    {
        match self.find(channel_name.as_str()) {
            None => Err(no_such_channel_text(channel_name.as_str())),
            Some(i) => {
                proof { lemma_name_index(self@, channel_name@, i as int); }
                self.channels[i].remove_addr(addr);
                proof {
                    let ch = old(self)@[i as int];
                    lemma_drop_addr(ch.connections, addr);
                    assert(self@ =~= left(old(self)@, channel_name@, addr));
                    assert forall|j: int| 0 <= j < self@.len() implies addrs_distinct(#[trigger] self@[j].connections) by {
                        if j != i {
                            assert(self@[j] == old(self)@[j]);
                        }
                    }
                    assert forall|x: int, y: int| 0 <= x < y < self@.len() implies self@[x].name != self@[y].name by {
                        assert(self@[x].name == old(self)@[x].name);
                        assert(self@[y].name == old(self)@[y].name);
                    }
                    lemma_name_index(self@, channel_name@, i as int);
                }
                if self.channels[i].presence {
                    let _ = self.broadcast_presence(channel_name.as_str());
                }
                Ok(CommandResponse::Done)
            },
        }
    }

    /// Removes the connection with address `addr` from every channel, and
    /// then queues the presence update of each channel with presence on that
    /// it was removed from, in the order of the channels.
    pub fn remove_connection_from_all(&mut self, addr: Addr) -> (r: CommandResult)
        requires
            old(self).wf(),
        ensures
            final(self).wf(),
            leave_all_post(*old(self), *final(self), addr, r),
            forall|i: int| 0 <= i < old(self)@.len() && #[trigger] holds_addr(old(self)@[i].connections, addr)
                && old(self)@[i].presence ==> exists|j: int| old(self).pending().len() <= j < final(self).pending().len()
                    && #[trigger] is_presence_update(final(self).pending()[j], final(self)@[i]),
            forall|j: int| old(self).pending().len() <= j < final(self).pending().len()
                ==> #[trigger] update_for_holder(*old(self), *final(self), addr, j),
    {
        let ghost s0 = old(self)@;
        let ghost q0 = old(self).outbox@;
        let n = self.channels.len();
        let mut updates: Vec<String> = Vec::new();
        let mut i: usize = 0;
        while i < n
            invariant
                n == self.channels@.len(),
                n == s0.len(),
                i <= n,
                self.outbox@ == q0,
                well_formed(self@),
                forall|j: int| 0 <= j < i ==> #[trigger] self@[j] == with_connections(s0[j], drop_addr(s0[j].connections, addr)),
                forall|j: int| i <= j < n ==> #[trigger] self@[j] == s0[j],
                updates@.len() == presence_targets(s0.take(i as int), addr).len(),
                forall|j: int| 0 <= j < updates@.len() ==> #[trigger] updates@[j]@ == s0[presence_targets(s0.take(i as int), addr)[j]].name,
            decreases n - i,
        {
            proof {
                let t = s0.take(i + 1);
                assert(t.drop_last() =~= s0.take(i as int));
                assert(t.last() == s0[i as int]);
                lemma_presence_targets(s0.take(i as int), addr);
            }
            proof {
                assert(self@[i as int] == s0[i as int]);
                assert(addrs_distinct(self@[i as int].connections));
            }
            if self.channels[i].has_connection(addr) {
                let ghost before = self@;
                self.channels[i].remove_addr(addr);
                proof {
                    lemma_drop_addr(s0[i as int].connections, addr);
                    assert forall|j: int| 0 <= j < self@.len() && j != i implies #[trigger] self@[j] == before[j] by {}
                    assert forall|j: int| 0 <= j < self@.len() implies addrs_distinct(#[trigger] self@[j].connections) by {
                        if j != i {
                            assert(self@[j] == before[j]);
                        }
                    }
                    assert forall|x: int, y: int| 0 <= x < y < self@.len() implies self@[x].name != self@[y].name by {
                        assert(self@[x].name == before[x].name);
                        assert(self@[y].name == before[y].name);
                    }
                }
                if self.channels[i].presence {
                    updates.push(self.channels[i].name.clone());
                }
            } else {
                proof {
                    assert(drop_addr(s0[i as int].connections, addr) == s0[i as int].connections);
                    assert(self@[i as int] =~= with_connections(s0[i as int], drop_addr(s0[i as int].connections, addr)));
                }
            }
            i = i + 1;
        }
        proof {
            assert(s0.take(n as int) =~= s0);
            assert(self@ =~= left_everywhere(s0, addr));
            lemma_presence_targets(s0, addr);
        }
        proof {
            assert forall|j: int| 0 <= j < updates@.len() implies has_name(self@, #[trigger] updates@[j]@)
                && named(self@, updates@[j]@) == self@[presence_targets(s0, addr)[j]]
                && named(self@, updates@[j]@).presence by {
                let t = presence_targets(s0, addr)[j];
                lemma_targets_hold(s0, addr, j);
                assert(self@[t].name == s0[t].name);
                lemma_name_index(self@, s0[t].name, t);
            }
        }
        self.broadcast_presence_all(&updates);
        let r = Ok(CommandResponse::Done);
        proof {
            law_disconnect_updates_all(*old(self), *self, addr, r);
            law_disconnect_updates_only(*old(self), *self, addr, r);
        }
        r
    }

    /// Creates the channel `name` in the storage and then in the map, where a
    /// channel of that name is kept as it is. Fails, changing nothing, when
    /// the storage fails.
    pub fn add_channel(&mut self, name: &String, auth: Option<AuthConfig>, presence: bool) -> (r: Result<(), String>)
        requires
            old(self).wf(),
        ensures
            final(self).wf(),
            final(self).pending() == old(self).pending(),
            r is Ok ==> final(self)@ == added_channel(old(self)@, name@, auth_view(auth), presence),
            r is Err ==> final(self)@ == old(self)@,
            final(self).storage() == old(self).storage(),
            r is Ok ==> old(self).storage().may_create(
                ChannelView { name: name@, auth: auth_view(auth), presence, connections: Seq::empty() },
                Ok(()),
            ),
            r matches Err(e) ==> old(self).storage().may_create(
                ChannelView { name: name@, auth: auth_view(auth), presence, connections: Seq::empty() },
                Err(e@),
            ),
    {
        let channel = Channel::new(name.clone(), auth, presence);
        let stored = self.db.create_channel(&channel);
        self.apply_created(channel, stored)
    }

    /// The part of `add_channel` that follows the storage's answer `stored`:
    /// on success `channel` is added unless a channel of its name exists.
    pub fn apply_created(&mut self, channel: Channel, stored: Result<(), String>) -> (r: Result<(), String>)
        requires
            old(self).wf(),
            channel@.connections.len() == 0,
        ensures
            final(self).wf(),
            final(self).pending() == old(self).pending(),
            match stored {
                Ok(_) => r is Ok && final(self)@ == added_channel(
                    old(self)@,
                    channel@.name,
                    channel@.auth,
                    channel@.presence,
                ),
                Err(e) => r == Err::<(), String>(e) && final(self)@ == old(self)@,
            },
            final(self).storage() == old(self).storage(),
    {
        match stored {
            Err(e) => Err(e),
            Ok(_) => {
                if self.find(channel.name.as_str()).is_none() {
                    let ghost c = channel@;
                    self.channels.push(channel);
                    proof {
                        assert(c.connections =~= Seq::<ConnView>::empty());
                        assert(self@ =~= old(self)@.push(c));
                        assert(self@ =~= added_channel(old(self)@, c.name, c.auth, c.presence));
                        assert forall|j: int| 0 <= j < self@.len() implies addrs_distinct(#[trigger] self@[j].connections) by {
                            if j < old(self)@.len() {
                                assert(self@[j] == old(self)@[j]);
                            }
                        }
                        assert forall|x: int, y: int| 0 <= x < y < self@.len() implies self@[x].name != self@[y].name by {
                            if y == self@.len() - 1 {
                                assert(self@[x] == old(self)@[x]);
                            } else {
                                assert(self@[x] == old(self)@[x]);
                                assert(self@[y] == old(self)@[y]);
                            }
                        }
                    }
                }
                Ok(())
            },
        }
    }

    /// Deletes the channel `name` from the storage and then from the map.
    /// Fails, changing nothing, when the storage fails.
    pub fn remove_channel(&mut self, name: &String) -> (r: Result<(), String>)
        requires
            old(self).wf(),
        ensures
            final(self).wf(),
            final(self).pending() == old(self).pending(),
            r is Ok ==> final(self)@ == removed_channel(old(self)@, name@),
            r is Err ==> final(self)@ == old(self)@,
            final(self).storage() == old(self).storage(),
            r is Ok ==> old(self).storage().may_remove(name@, Ok(())),
            r matches Err(e) ==> old(self).storage().may_remove(name@, Err(e@)),
    {
        let removed = self.db.remove_channel(name.as_str());
        self.apply_removed(name, removed)
    }

    /// The part of `remove_channel` that follows the storage's answer
    /// `removed`: on success the channel `name` leaves the map.
    pub fn apply_removed(&mut self, name: &String, removed: Result<(), String>) -> (r: Result<(), String>)
        requires
            old(self).wf(),
        ensures
            final(self).wf(),
            final(self).pending() == old(self).pending(),
            match removed {
                Ok(_) => r is Ok && final(self)@ == removed_channel(old(self)@, name@),
                Err(e) => r == Err::<(), String>(e) && final(self)@ == old(self)@,
            },
            final(self).storage() == old(self).storage(),
    {
        match removed {
            Err(e) => Err(e),
            Ok(_) => {
                match self.find(name.as_str()) {
                    Some(i) => {
                        proof { lemma_name_index(self@, name@, i as int); }
                        self.channels.remove(i);
                        proof {
                            let s0 = old(self)@;
                            assert(self@ =~= s0.remove(i as int));
                            assert forall|j: int| 0 <= j < self@.len() implies addrs_distinct(#[trigger] self@[j].connections) by {
                                if j < i {
                                    assert(self@[j] == s0[j]);
                                } else {
                                    assert(self@[j] == s0[j + 1]);
                                }
                            }
                            assert forall|x: int, y: int| 0 <= x < y < self@.len() implies self@[x].name != self@[y].name by {
                                let x0 = if x < i { x } else { x + 1 };
                                let y0 = if y < i { y } else { y + 1 };
                                assert(self@[x] == s0[x0]);
                                assert(self@[y] == s0[y0]);
                            }
                        }
                    },
                    None => {},
                }
                Ok(())
            },
        }
    }

    /// Queues the presence updates of the channels called `names`, in order;
    /// all of them have presence on.
    fn broadcast_presence_all(&mut self, names: &Vec<String>)
        requires
            old(self).wf(),
            forall|j: int| 0 <= j < names@.len() ==> has_name(old(self)@, #[trigger] names@[j]@)
                && named(old(self)@, names@[j]@).presence,
        ensures
            final(self)@ == old(self)@,
            final(self).pending().len() == old(self).pending().len() + names@.len(),
            final(self).pending().take(old(self).pending().len() as int) == old(self).pending(),
            forall|j: int| 0 <= j < names@.len() ==> is_presence_update(
                #[trigger] final(self).pending()[old(self).pending().len() + j],
                named(old(self)@, names@[j]@),
            ),
    {
        let ghost q0 = self.outbox@;
        let m = names.len();
        let mut k: usize = 0;
        while k < m
            invariant
                m == names@.len(),
                k <= m,
                self@ == old(self)@,
                well_formed(self@),
                forall|j: int| 0 <= j < m ==> has_name(self@, #[trigger] names@[j]@) && named(self@, names@[j]@).presence,
                self.outbox@.len() == q0.len() + k,
                self.outbox@.take(q0.len() as int) == q0,
                forall|j: int| 0 <= j < k ==> is_presence_update(
                    #[trigger] self.outbox@[q0.len() + j],
                    named(self@, names@[j]@),
                ),
            decreases m - k,
        {
            let ghost q = self.outbox@;
            proof { assert(has_name(self@, names@[k as int]@)); }
            let _ = self.broadcast_presence(names[k].as_str());
            proof {
                assert(self.outbox@.drop_last() == q);
                assert forall|j: int| 0 <= j < k + 1 implies is_presence_update(
                    #[trigger] self.outbox@[q0.len() + j],
                    named(self@, names@[j]@),
                ) by {
                    if j < k {
                        assert(self.outbox@[q0.len() + j] == q[q0.len() + j]);
                    }
                }
                assert(self.outbox@.take(q0.len() as int) =~= q0) by {
                    assert forall|j: int| 0 <= j < q0.len() implies self.outbox@[j] == q0[j] by {
                        assert(self.outbox@[j] == q[j]);
                        assert(q.take(q0.len() as int)[j] == q[j]);
                    }
                }
            }
            k = k + 1;
        }
    }

    /// Queues `frame` for the connections at `recipients`.
    pub fn send_to(&mut self, frame: Frame, recipients: Vec<Addr>)
        ensures
            final(self)@ == old(self)@,
            one_more(old(self).pending(), final(self).pending()),
            final(self).pending().last().frame == frame,
            final(self).pending().last().recipients == recipients,
    {
        self.outbox.push(Delivery { frame, recipients });
        assert(self.outbox@.drop_last() =~= old(self).outbox@);
    }

    /// Hands out the queued frames and empties the queue.
    pub fn take_outbox(&mut self) -> (r: Vec<Delivery>)
        ensures
            r@ == old(self).pending(),
            final(self).pending() == Seq::<Delivery>::empty(),
            final(self)@ == old(self)@,
    {
        let mut out: Vec<Delivery> = Vec::new();
        std::mem::swap(&mut out, &mut self.outbox);
        out
    }
}

} // verus!
