//! Shadow runs: other variants of an agent that answer the same request for the judges
//! alone.
use vstd::prelude::*;

use crate::ids::{self, MessageId, UserId};
use crate::judges::judge::ScoredExchange;
use crate::text;

verus! {

/// The variants that run in the shadow of a request: all of them if the request was
/// picked, and none otherwise.
pub fn shadow_runs(sampled: bool, variants: &Vec<String>) -> (r: Vec<String>)
    ensures
        text::texts(r@) == if sampled {
            text::texts(variants@)
        } else {
            Seq::empty()
        },
{
    if sampled {
        text::clone_list(variants)
    } else {
        let none: Vec<String> = Vec::new();
        assert(text::texts(none@) =~= Seq::empty());
        none
    }
}

/// What the judges score of a shadow run. Its message is one that nobody else sees.
pub fn shadow_exchange(
    agent_name: String,
    user_message: String,
    assistant_message: String,
    user_id: UserId,
) -> (r: ScoredExchange)
    ensures
        r.agent_name == agent_name,
        r.assistant_message == assistant_message,
        ids::is_random_uuid(r.message_id.0),
        r.user_id == user_id,
        r.user_message == user_message,
{
    ScoredExchange {
        agent_name,
        assistant_message,
        message_id: MessageId::new(),
        user_id,
        user_message,
    }
}

} // verus!
