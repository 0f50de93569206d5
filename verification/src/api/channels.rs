//! The HTTP channel API: which command each request sends, and how each
//! command result is answered.

use vstd::prelude::*;
use vstd::string::*;

use crate::auth::AuthConfig;
use crate::channel::router::{CommandResponse, CommandResult};
use crate::message::Message;

verus! {

/// The body of an HTTP answer.
#[derive(Debug)]
pub enum ApiBody {
    /// Plain text.
    Text(String),
    /// A JSON array of strings.
    JsonNames(Vec<String>),
    /// A JSON string.
    JsonName(String),
}

/// An HTTP answer: its status code and its body.
#[derive(Debug)]
pub struct ApiResponse {
    pub status: u16,
    pub body: ApiBody,
}

pub const OK: u16 = 200;
pub const CREATED: u16 = 201;
pub const BAD_REQUEST: u16 = 400;
pub const NOT_FOUND: u16 = 404;
pub const INTERNAL_SERVER_ERROR: u16 = 500;

/// The answer to a command that failed with `e`, or that answered something
/// else than the request expects.
pub open spec fn is_failure_answer(res: CommandResult, a: ApiResponse) -> bool {
    &&& a.status == INTERNAL_SERVER_ERROR
    &&& match res {
        Err(e) => a.body matches ApiBody::Text(t) && t == e,
        Ok(_) => a.body matches ApiBody::Text(t) && t@ == "Internal Server Error"@,
    }
}

fn failure_answer(res: CommandResult) -> (a: ApiResponse)
    ensures
        is_failure_answer(res, a),
{
    match res {
        Err(e) => ApiResponse { status: INTERNAL_SERVER_ERROR, body: ApiBody::Text(e) },
        Ok(_) => ApiResponse {
            status: INTERNAL_SERVER_ERROR,
            body: ApiBody::Text(String::from_str("Internal Server Error")),
        },
    }
}

/// The command that a channel creation request sends: presence is off
/// unless the request turns it on.
pub fn create_channel_command(name: String, auth: Option<AuthConfig>, presence: Option<bool>) -> (m: Message)
    ensures
        m matches Message::ChannelCreate { name: n, auth: a, presence: p } && n == name && a == auth
            && p == (presence == Some(true)),
{
    let p = match presence {
        Some(b) => b,
        None => false,
    };
    Message::ChannelCreate { name, auth, presence: p }
}

/// The answer to a request whose body does not parse, given the parser's
/// description of the problem.
pub fn bad_request(problem: String) -> (a: ApiResponse)
    ensures
        a.status == BAD_REQUEST,
        a.body matches ApiBody::Text(t) && t == problem,
{
    ApiResponse { status: BAD_REQUEST, body: ApiBody::Text(problem) }
}

/// The answer to a channel creation: `201 Created` with the channel's name.
pub fn create_channel_response(res: CommandResult) -> (a: ApiResponse)
    ensures
        match res {
            Ok(CommandResponse::ChannelCreate(name)) => a.status == CREATED && (a.body matches ApiBody::Text(t) && t == name),
            _ => is_failure_answer(res, a),
        },
{
    match res {
        Ok(CommandResponse::ChannelCreate(name)) => ApiResponse { status: CREATED, body: ApiBody::Text(name) },
        _ => failure_answer(res),
    }
}

/// The answer to a listing of the channels: `200 OK` with their names.
pub fn get_channels_response(res: CommandResult) -> (a: ApiResponse)
    ensures
        match res {
            Ok(CommandResponse::ChannelGetAll(names)) => a.status == OK && (a.body matches ApiBody::JsonNames(ns) && ns == names),
            _ => is_failure_answer(res, a),
        },
{
    match res {
        Ok(CommandResponse::ChannelGetAll(names)) => ApiResponse { status: OK, body: ApiBody::JsonNames(names) },
        _ => failure_answer(res),
    }
}

/// The answer to a lookup of a channel: `200 OK` with its name, or `404 Not
/// Found` when there is no such channel.
pub fn get_channel_response(res: CommandResult) -> (a: ApiResponse)
    ensures
        match res {
            Ok(CommandResponse::ChannelGet(Some(name))) => a.status == OK && (a.body matches ApiBody::JsonName(n) && n == name),
            Ok(CommandResponse::ChannelGet(None)) => a.status == NOT_FOUND && (a.body matches ApiBody::Text(t)
                && t@ == "Channel not found"@),
            _ => is_failure_answer(res, a),
        },
{
    match res {
        Ok(CommandResponse::ChannelGet(Some(name))) => ApiResponse { status: OK, body: ApiBody::JsonName(name) },
        Ok(CommandResponse::ChannelGet(None)) => ApiResponse {
            status: NOT_FOUND,
            body: ApiBody::Text(String::from_str("Channel not found")),
        },
        _ => failure_answer(res),
    }
}

/// The answer to a channel deletion: `200 OK` with the channel's name.
pub fn delete_channel_response(res: CommandResult) -> (a: ApiResponse)
    ensures
        match res {
            Ok(CommandResponse::ChannelDelete(name)) => a.status == OK && (a.body matches ApiBody::Text(t) && t == name),
            _ => is_failure_answer(res, a),
        },
{
    match res {
        Ok(CommandResponse::ChannelDelete(name)) => ApiResponse { status: OK, body: ApiBody::Text(name) },
        _ => failure_answer(res),
    }
}

} // verus!
