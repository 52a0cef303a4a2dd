//! What the model sessions and the chat handler agree on.
use vstd::prelude::*;

verus! {

/// The capacity of the channels between the handler and a model session.
pub const DEFAULT_CHANNEL_BUFFER: usize = 1000;

/// The text that a model session sends after the last token of a reply.
pub open spec fn end_signal() -> Seq<char> {
    "<<end>>"@
}

/// The end-of-reply text.
pub fn chat_end_signal() -> (res: String)
    ensures
        res@ == end_signal(),
{
    String::from_str("<<end>>")
}

/// Whether a text is the end-of-reply text.
pub fn is_end_signal(token: &str) -> (res: bool)
    ensures
        res == (token@ == end_signal()),
{
    let a = String::from_str(token);
    let b = chat_end_signal();
    a == b
}

} // verus!
