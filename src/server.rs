use vstd::prelude::*;
use vstd::string::StringExecFns;
use crate::handler::{handle_command, handled};
use crate::serializer::{serialize_resp, serialized};
use crate::store::State;
use crate::types::RESPValue;

verus! {

/// Where the server listens, as `host:port`.
pub struct Config<'a> {
    pub address: &'a str,
}

/// One step of a connection: executes a received command against the store at
/// instant `now` and returns the text to write back, the serialized reply
/// followed by a line terminator.
pub fn respond(command: &RESPValue, state: &mut State, now: u64) -> (r: String)
    ensures
        r@ == serialized(handled(command@, old(state)@, now).0) + seq!['\r', '\n'],
        final(state)@ == handled(command@, old(state)@, now).1,
{
    let reply = handle_command(command, state, now);
    let mut out = serialize_resp(&reply);
    out.append("\r\n");
    proof {
        reveal_strlit("\r\n");
    }
    out
}

} // verus!
