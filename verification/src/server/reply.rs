//! Replies that the server makes itself.
use crate::proxy;
use crate::proxy::{Reply, ReplyV};
use vstd::prelude::*;

verus! {

/// A reply without a body.
pub fn empty_response(status: u16) -> (r: Reply)
    ensures
        r@ == proxy::plain_reply(status, ""@),
{
    Reply { status, header: None, body: "" }
}

/// A reply with a short text.
pub fn text_response(status: u16, text: &'static str) -> (r: Reply)
    ensures
        r@ == proxy::plain_reply(status, text@),
{
    Reply { status, header: None, body: text }
}

/// 405 with the `Allow` header that it must carry.
pub fn method_not_allowed(allow: &'static str) -> (r: Reply)
    ensures
        r@ == (ReplyV { status: 405, header: Some(("allow"@, allow@)), body: ""@ }),
{
    Reply { status: 405, header: Some(("allow", allow)), body: "" }
}

/// 401 with the challenge that it must carry.
pub fn unauthorized(text: &'static str, challenge: &'static str) -> (r: Reply)
    ensures
        r@ == (ReplyV {
            status: 401,
            header: Some(("www-authenticate"@, challenge@)),
            body: text@,
        }),
{
    Reply { status: 401, header: Some(("www-authenticate", challenge)), body: text }
}

} // verus!
