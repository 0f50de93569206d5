use vstd::prelude::*;

use crate::auth::{join_payload, AuthConfig, AuthPayload};
use crate::connection::Connection;
use crate::message::{debug_text, message_debug, Frame, Message};
use crate::text::{concat2, no_such_channel, no_such_channel_text};

use super::map::{
    broadcast_post, has_name, join_post, leave_all_post, leave_post, loaded_from, named, ChannelMap,
};
use super::router::{CommandResponse, CommandResult};
use super::storage::Storage;
use super::ChannelView;

verus! {

/// What handling a command comes to: its result, or, for a join of a
/// channel that asks an authorization service, the request to make; the
/// join is then finished with `ChannelStore::finish_join` and the answer.
#[derive(Debug)]
pub enum Step {
    Done(CommandResult),
    Authorize {
        config: AuthConfig,
        payload: AuthPayload,
        channel: String,
        conn: Connection,
        presence: bool,
    },
}

/// The channels and the handling of the commands that connections and the
/// channel API send them.
pub struct ChannelStore<S: Storage> {
    pub channels: ChannelMap<S>,
}

impl<S: Storage> ChannelStore<S> {
    /// The store over the channels that `db` holds, opened with
    /// `ChannelMap::new`; fails as that does when the storage cannot list
    /// them.
    pub fn new(db: S) -> (r: Result<Self, String>)
        ensures
            r matches Ok(s) ==> s.channels.wf() && s.channels.pending().len() == 0,
            r matches Err(msg) ==> exists|e: Seq<char>| msg@ == "Error loading channels from DB: "@ + e,
            r matches Ok(s) ==> s.channels.storage() == db && exists|stored: Seq<ChannelView>|
                db.may_list(Ok(stored)) && loaded_from(s.channels@, stored),
            r matches Err(msg) ==> exists|e: Seq<char>|
                db.may_list(Err(e)) && msg@ == "Error loading channels from DB: "@ + e,
    {
        match ChannelMap::new(db) {
            Ok(channels) => Ok(ChannelStore { channels }),
            Err(e) => Err(e),
        }
    }

    /// Handles one command. Joining, leaving, disconnecting and broadcasting
    /// come from a connection, which must be given.
    pub fn handle(&mut self, msg: Message, conn: Option<Connection>) -> (r: Step)
        requires
            old(self).channels.wf(),
            (msg is Join || msg is Leave || msg is Disconnect || msg is Broadcast) ==> conn is Some,
        ensures
            final(self).channels.wf(),
            match msg {
                Message::Join { channel, presence } => join_step(old(self).channels, final(self).channels, channel@, conn.unwrap(), presence, r),
                Message::Leave { channel } => r matches Step::Done(res) && leave_post(old(self).channels, final(self).channels, channel@, conn.unwrap().addr, res),
                Message::Disconnect => r matches Step::Done(res) && leave_all_post(old(self).channels, final(self).channels, conn.unwrap().addr, res),
                Message::Broadcast { channel, body } => r matches Step::Done(res) && relayed(old(self).channels, final(self).channels, channel@, body, conn.unwrap(), res),
                Message::Error { .. } => r matches Step::Done(Ok(CommandResponse::Done)) && unchanged(old(self).channels, final(self).channels),
                Message::ChannelGetAll => r matches Step::Done(res) && listed(old(self).channels, res) && unchanged(old(self).channels, final(self).channels),
                Message::ChannelGet { name } => r matches Step::Done(res) && looked_up(old(self).channels, name@, res) && unchanged(old(self).channels, final(self).channels),
                Message::ChannelCreate { name, auth, presence } => r matches Step::Done(res) && created(old(self).channels, final(self).channels, name@, crate::channel::auth_view(auth), presence, res),
                Message::ChannelDelete { name } => r matches Step::Done(res) && deleted(old(self).channels, final(self).channels, name@, res),
                Message::Presence { .. } => r matches Step::Done(Err(e))
                    && e@ == "Received an invalid message: "@ + message_debug(msg)
                    && unchanged(old(self).channels, final(self).channels),
            },
    {
        let invalid = match &msg {
            Message::Presence { .. } => Some(concat2("Received an invalid message: ", debug_text(&msg).as_str())),
            _ => None,
        };
        match msg {
            Message::Join { channel, presence } => self.handle_join(&channel, conn.unwrap(), presence),
            Message::Leave { channel } => Step::Done(self.handle_leave(&channel, conn.unwrap())),
            Message::Disconnect => Step::Done(self.handle_disconnect(conn.unwrap())),
            Message::Broadcast { channel, body } => Step::Done(self.handle_broadcast(channel.as_str(), body, conn.unwrap())),
            Message::Error { message: _ } => Step::Done(Ok(CommandResponse::Done)),
            Message::ChannelGetAll => Step::Done(self.handle_channel_get_all()),
            Message::ChannelGet { name } => Step::Done(self.handle_channel_get(name)),
            Message::ChannelCreate { name, auth, presence } => Step::Done(self.handle_channel_create(name, auth, presence)),
            Message::ChannelDelete { name } => Step::Done(self.handle_channel_delete(name)),
            Message::Presence { .. } => Step::Done(Err(invalid.unwrap())),
        }
    }

    /// Starts a join of `conn` to the channel `channel_name`: fails when there
    /// is no such channel; asks for authorization when the channel has an
    /// authorization service; and otherwise adds the connection.
    pub fn handle_join(&mut self, channel_name: &String, conn: Connection, send_presence: bool) -> (r: Step)
        requires
            old(self).channels.wf(),
        ensures
            final(self).channels.wf(),
            join_step(old(self).channels, final(self).channels, channel_name@, conn, send_presence, r),
    {
        let found = match self.channels.get(channel_name) {
            None => None,
            Some(channel) => match &channel.auth {
                Some(auth) => Some(Some((auth.duplicate(), channel.name.clone()))),
                None => Some(None),
            },
        };
        match found {
            None => Step::Done(Err(no_such_channel_text(channel_name.as_str()))),
            Some(Some((config, name))) => {
                let payload = join_payload(name, conn.id.clone());
                Step::Authorize { config, payload, channel: channel_name.clone(), conn, presence: send_presence }
            },
            Some(None) => Step::Done(self.channels.add_connection(channel_name, conn, send_presence)),
        }
    }

    /// Finishes a join that waited for authorization, given the service's
    /// answer: an error is passed on, a refusal is answered `Unauthorized`,
    /// and a grant adds the connection.
    pub fn finish_join(&mut self, channel_name: &String, conn: Connection, send_presence: bool, authorized: Result<bool, String>) -> (r: CommandResult)
        requires
            old(self).channels.wf(),
        ensures
            final(self).channels.wf(),
            match authorized {
                Err(e) => r == Err::<CommandResponse, String>(e) && unchanged(old(self).channels, final(self).channels),
                Ok(false) => r matches Ok(CommandResponse::Unauthorized(m)) && m@ == "Unauthorized"@
                    && unchanged(old(self).channels, final(self).channels),
                Ok(true) => join_post(old(self).channels, final(self).channels, channel_name@, conn@, send_presence, r),
            },
    {
        match authorized {
            Err(e) => Err(e),
            Ok(false) => Ok(CommandResponse::Unauthorized(String::from_str("Unauthorized"))),
            Ok(true) => self.channels.add_connection(channel_name, conn, send_presence),
        }
    }

    /// Removes `conn` from the channel `channel`.
    pub fn handle_leave(&mut self, channel: &String, conn: Connection) -> (r: CommandResult)
        requires
            old(self).channels.wf(),
        ensures
            final(self).channels.wf(),
            leave_post(old(self).channels, final(self).channels, channel@, conn.addr, r),
    {
        self.channels.remove_connection(channel, conn.addr)
    }

    /// Removes `conn` from every channel.
    pub fn handle_disconnect(&mut self, conn: Connection) -> (r: CommandResult)
        requires
            old(self).channels.wf(),
        ensures
            final(self).channels.wf(),
            leave_all_post(old(self).channels, final(self).channels, conn.addr, r),
    {
        self.channels.remove_connection_from_all(conn.addr)
    }

    /// Relays a broadcast from `conn` to the other connections of `channel`.
    pub fn handle_broadcast(&mut self, channel: &str, body: String, conn: Connection) -> (r: CommandResult)
        requires
            old(self).channels.wf(),
        ensures
            final(self).channels.wf(),
            relayed(old(self).channels, final(self).channels, channel@, body, conn, r),
    {
        let msg = Message::Broadcast { channel: channel.to_owned(), body };
        self.channels.broadcast(channel, Frame::Json(msg), Some(conn.addr))
    }

    /// The names of all channels.
    pub fn handle_channel_get_all(&self) -> (r: CommandResult)
        ensures
            listed(self.channels, r),
    {
        Ok(CommandResponse::ChannelGetAll(self.channels.keys()))
    }

    /// The name of the channel `name`, if there is one.
    pub fn handle_channel_get(&self, name: String) -> (r: CommandResult)
        requires
            self.channels.wf(),
        ensures
            looked_up(self.channels, name@, r),
    {
        match self.channels.get(&name) {
            Some(channel) => Ok(CommandResponse::ChannelGet(Some(channel.name.clone()))),
            None => Ok(CommandResponse::ChannelGet(None)),
        }
    }

    /// Creates the channel `name`; answers its name.
    pub fn handle_channel_create(&mut self, name: String, auth: Option<AuthConfig>, presence: bool) -> (r: CommandResult)
        requires
            old(self).channels.wf(),
        ensures
            final(self).channels.wf(),
            created(old(self).channels, final(self).channels, name@, crate::channel::auth_view(auth), presence, r),
    {
        match self.channels.add_channel(&name, auth, presence) {
            Ok(()) => Ok(CommandResponse::ChannelCreate(name)),
            Err(e) => Err(e),
        }
    }

    /// Deletes the channel `name`; answers its name.
    pub fn handle_channel_delete(&mut self, name: String) -> (r: CommandResult)
        requires
            old(self).channels.wf(),
        ensures
            final(self).channels.wf(),
            deleted(old(self).channels, final(self).channels, name@, r),
    {
        match self.channels.remove_channel(&name) {
            Ok(()) => Ok(CommandResponse::ChannelDelete(name)),
            Err(e) => Err(e),
        }
    }
}

/// The channels and the queued frames are as they were.
pub open spec fn unchanged<S: Storage>(old: ChannelMap<S>, new: ChannelMap<S>) -> bool {
    new@ == old@ && new.pending() == old.pending()
}

/// What starting a join of `conn` to the channel `name` does and comes to.
pub open spec fn join_step<S: Storage>(
    old: ChannelMap<S>,
    new: ChannelMap<S>,
    name: Seq<char>,
    conn: Connection,
    presence: bool,
    r: Step,
) -> bool {
    &&& !has_name(old@, name) ==> (r matches Step::Done(Err(e)) && e@ == no_such_channel(name) && unchanged(old, new))
    &&& has_name(old@, name) && named(old@, name).auth is Some ==> {
        &&& unchanged(old, new)
        &&& r matches Step::Authorize { config, payload, channel, conn: c, presence: p }
        &&& Some(config.url@) == named(old@, name).auth
        &&& payload.operation == crate::auth::Operation::Join
        &&& payload.channel@ == name
        &&& payload.conn_id == conn.id
        &&& channel@ == name
        &&& c == conn
        &&& p == presence
    }
    &&& has_name(old@, name) && named(old@, name).auth is None ==> (r matches Step::Done(res) && join_post(old, new, name, conn@, presence, res))
}

/// What relaying a broadcast with `body` from `conn` to the channel `name`
/// does and answers.
pub open spec fn relayed<S: Storage>(
    old: ChannelMap<S>,
    new: ChannelMap<S>,
    name: Seq<char>,
    body: String,
    conn: Connection,
    r: CommandResult,
) -> bool {
    &&& broadcast_post(old, new, name, Some(conn.addr), r)
    &&& has_name(old@, name) ==> (new.pending().last().frame matches Frame::Json(Message::Broadcast { channel, body: b })
        && channel@ == name && b == body)
}

/// `r` lists the names of all channels, in order.
pub open spec fn listed<S: Storage>(m: ChannelMap<S>, r: CommandResult) -> bool {
    r matches Ok(CommandResponse::ChannelGetAll(names))
        && names@.len() == m@.len()
        && forall|k: int| 0 <= k < names@.len() ==> #[trigger] names@[k]@ == m@[k].name
}

/// `r` is the name of the channel `name` when there is one, and nothing
/// otherwise.
pub open spec fn looked_up<S: Storage>(m: ChannelMap<S>, name: Seq<char>, r: CommandResult) -> bool {
    r matches Ok(CommandResponse::ChannelGet(found)) && match found {
        Some(n) => has_name(m@, name) && n@ == name,
        None => !has_name(m@, name),
    }
}

/// What creating the channel `name` does and answers.
pub open spec fn created<S: Storage>(
    old: ChannelMap<S>,
    new: ChannelMap<S>,
    name: Seq<char>,
    auth: Option<Seq<char>>,
    presence: bool,
    r: CommandResult,
) -> bool {
    &&& new.pending() == old.pending()
    &&& r matches Ok(resp) ==> (resp matches CommandResponse::ChannelCreate(n) && n@ == name
        && new@ == super::map::added_channel(old@, name, auth, presence))
    &&& r is Err ==> new@ == old@
    &&& r is Ok ==> old.storage().may_create(ChannelView { name, auth, presence, connections: Seq::empty() }, Ok(()))
    &&& r matches Err(e) ==> old.storage().may_create(
        ChannelView { name, auth, presence, connections: Seq::empty() },
        Err(e@),
    )
}

/// What deleting the channel `name` does and answers.
pub open spec fn deleted<S: Storage>(old: ChannelMap<S>, new: ChannelMap<S>, name: Seq<char>, r: CommandResult) -> bool {
    &&& new.pending() == old.pending()
    &&& r matches Ok(resp) ==> (resp matches CommandResponse::ChannelDelete(n) && n@ == name
        && new@ == super::map::removed_channel(old@, name))
    &&& r is Err ==> new@ == old@
    &&& r is Ok ==> old.storage().may_remove(name, Ok(()))
    &&& r matches Err(e) ==> old.storage().may_remove(name, Err(e@))
}

} // verus!
