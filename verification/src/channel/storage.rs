use vstd::prelude::*;

use super::{Channel, ChannelView};

verus! {

/// A storage's answer to a request that returns nothing, as the
/// specifications see it.
pub open spec fn answer_view(r: Result<(), String>) -> Result<(), Seq<char>> {
    match r {
        Ok(_) => Ok(()),
        Err(e) => Err(e@),
    }
}

/// A storage's listing of its channels, as the specifications see it.
pub open spec fn listing_view(r: Result<Vec<Channel>, String>) -> Result<Seq<ChannelView>, Seq<char>> {
    match r {
        Ok(v) => Ok(v@.map_values(|c: Channel| c@)),
        Err(e) => Err(e@),
    }
}

/// Where channels are kept across restarts. What a storage answers is its
/// own affair (it depends on what is on disk); the three `may_` predicates
/// name, for each request, the answers it may give, so that the channel
/// logic can say that it acts on the answer it got. Nothing else is stated
/// of them for storages in general.
pub trait Storage: Sized {
    /// `r` is an answer this storage may give when asked to store `channel`.
    open spec fn may_create(&self, channel: ChannelView, r: Result<(), Seq<char>>) -> bool {
        true
    }

    /// `r` is an answer this storage may give when asked to remove the
    /// channel called `name`.
    open spec fn may_remove(&self, name: Seq<char>, r: Result<(), Seq<char>>) -> bool {
        true
    }

    /// `r` is an answer this storage may give when asked for its channels.
    open spec fn may_list(&self, r: Result<Seq<ChannelView>, Seq<char>>) -> bool {
        true
    }

    /// Opens the storage at `path`.
    fn new(path: &str) -> Self;

    /// Stores `channel`, unless a channel with its name is stored already.
    fn create_channel(&self, channel: &Channel) -> (r: Result<(), String>)
        ensures
            self.may_create(channel@, answer_view(r));

    /// Removes the channel called `name`.
    fn remove_channel(&self, name: &str) -> (r: Result<(), String>)
        ensures
            self.may_remove(name@, answer_view(r));

    /// All stored channels.
    fn get_channels(&self) -> (r: Result<Vec<Channel>, String>)
        ensures
            self.may_list(listing_view(r));
}

} // verus!
