//! Answering the browser when it comes back from the consent page.
use crate::shutdown::ShutdownSlot;
use crate::tokens::{absorb, TokenState};
use vstd::prelude::*;
use vstd::string::*;

verus! {

/// The status every callback is answered with.
pub const SUCCESS_STATUS: u16 = 200;

/// The body every callback is answered with.
pub open spec fn success_text() -> Seq<char> {
    "You have successfully signed into Yogu and can close this at any time."@
}

/// What is sent back to the browser.
#[derive(Debug)]
pub struct CallbackReply {
    pub status: u16,
    pub body: String,
}

/// The text of a request's query; a request without one has the empty query.
pub open spec fn query_text(query: Option<&str>) -> Seq<char> {
    match query {
        Some(q) => q@,
        None => Seq::<char>::empty(),
    }
}

/// Serves one callback, whatever its path: reads the query into `tokens`,
/// fires and empties `slot` so that the listener winds down, and answers
/// with the fixed success reply, whether or not the query held anything of
/// use.
pub fn handle_request(query: Option<&str>, tokens: &mut TokenState, slot: &mut ShutdownSlot) -> (reply:
    CallbackReply)
    ensures
        final(tokens)@ == absorb(old(tokens)@, query_text(query)),
        !final(slot).is_installed(),
        reply.status == SUCCESS_STATUS,
        reply.body@ == success_text(),
{
    match query {
        Some(q) => tokens.absorb_query(q),
        None => {
            proof {
                reveal_strlit("");
                assert(""@ =~= Seq::<char>::empty());
            }
            tokens.absorb_query("")
        },
    }
    slot.take_and_signal();
    CallbackReply {
        status: SUCCESS_STATUS,
        body: String::from_str(
            "You have successfully signed into Yogu and can close this at any time.",
        ),
    }
}

} // verus!
