use vstd::prelude::*;

verus! {

/// What a successfully handled command answers.
#[derive(Clone, Debug)]
pub enum CommandResponse {
    /// The command was carried out.
    Done,
    Unauthorized(String),
    ChannelGetAll(Vec<String>),
    ChannelCreate(String),
    ChannelGet(Option<String>),
    ChannelDelete(String),
}

/// The outcome of a command: a response, or the reason it was refused.
pub type CommandResult = Result<CommandResponse, String>;

} // verus!
