use vstd::prelude::*;

verus! {

/// The websocket and channel API server. Running it (binding the address,
/// routing requests, spawning connection tasks) is done by the program
/// around the library.
#[derive(Clone, Copy, Debug, PartialEq, Eq, Structural)]
pub struct Server {}

impl Server {
    pub fn new() -> (s: Server)
        ensures
            s == (Server {}),
    {
        Server {}
    }
}

} // verus!
