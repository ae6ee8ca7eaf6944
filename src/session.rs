//! The decisions of one forwarded invocation, between the steps that touch
//! the environment, the network and the filesystem.
use vstd::prelude::*;
use crate::lines::lines_of;
use crate::reply::{decode_reply, decodes_to, Reply};
use crate::scan::Invocation;
use crate::wire::{buffers, encodable, encode_request, names_of, request_text, texts};

verus! {

/// The HTTP status of a reply that is decoded; any other status fails.
pub const HTTP_OK: u16 = 200;

/// The exit code of an invocation that fully succeeded.
pub const EXIT_SUCCESS: i32 = 0;

/// The exit code of an invocation that failed at any stage.
pub const EXIT_FAILURE: i32 = 1;

/// What is sent to the remote executor: where, and the request text.
pub struct Outbound {
    pub url: String,
    pub body: String,
}

/// Builds the request for `inv`, with the bytes of each shipped file in
/// `contents`, to the configured `endpoint`. There is none, and so no
/// network call, where no endpoint is configured.
pub fn prepare_request(endpoint: Option<String>, inv: &Invocation, contents: &Vec<Vec<u8>>) -> (r:
    Option<Outbound>)
    requires
        contents@.len() == inv.replacements@.len(),
        encodable(*inv, contents@),
    ensures
        endpoint is None <==> r is None,
        r matches Some(o) ==> {
            &&& o.url@ == endpoint->0@
            &&& o.body@ == request_text(
                inv.program@,
                texts(inv.args@),
                names_of(inv.replacements@),
                buffers(contents@),
            )
        },
{
    let body = encode_request(inv, contents);
    match endpoint {
        Some(url) => Some(Outbound { url, body }),
        None => None,
    }
}

/// Decodes the reply to an invocation that shipped `k` files, where the
/// HTTP status is the success status; any other status fails the invocation
/// before anything is decoded or applied.
pub fn accept_response(status: u16, body: &[u8], k: usize) -> (r: Option<Reply>)
    requires
        body@.len() <= usize::MAX - 7,
    ensures
        status != HTTP_OK <==> r is None,
        r matches Some(reply) ==> decodes_to(reply, lines_of(body@), k as nat),
{
    if status != HTTP_OK {
        return None;
    }
    Some(decode_reply(body, k))
}

/// The exit code of an invocation whose reply was decoded to `reply` and
/// whose files and streams were all written: success only where the reply
/// decoded in full and the remote status is zero.
pub fn exit_code(reply: &Reply) -> (r: i32)
    ensures
        r == if reply.outcome matches Ok(h) && h.status == 0 {
            EXIT_SUCCESS
        } else {
            EXIT_FAILURE
        },
{
    match &reply.outcome {
        Ok(h) => if h.status == 0 {
            EXIT_SUCCESS
        } else {
            EXIT_FAILURE
        },
        Err(_) => EXIT_FAILURE,
    }
}

} // verus!
