//! The chat handler: the open chats, the history kept on disk, and how the
//! tokens of a reply are relayed to the client.
use vstd::prelude::*;
use crate::history::{ChatsHistory, history_json};
use crate::registry::ChatRegistry;
use crate::signal::{end_signal, is_end_signal};
use crate::session::{
    lemma_local_turn, lemma_remote_turn, local_run, local_turn, remote_run, remote_turn, sent_texts,
    RemoteState,
};

verus! {

/// Why a request to the handler failed.
#[derive(Debug)]
pub enum HandlerError {
    /// No chat is open under the identifier.
    UnknownChat,
    /// The history could not be written as JSON.
    Encode(serde_json::Error),
}

/// Calls `Display::to_string` on a `serde_json::Error`; nothing is stated of
/// the text.
#[verifier::external_body]
fn json_error_text(e: &serde_json::Error) -> String {
    e.to_string()
}

impl HandlerError {
    /// The text of the error.
    pub fn message(&self) -> (res: String)
        ensures
            self matches HandlerError::UnknownChat ==> res@ == "Unable to get the lock"@,
    {
        match self {
            HandlerError::UnknownChat => String::from_str("Unable to get the lock"),
            HandlerError::Encode(e) => json_error_text(e),
        }
    }
}

/// The path of the history file.
pub open spec fn stored_chats_path() -> Seq<char> {
    "./"@ + "chats"@ + ".json"@
}

/// The path of the history file: the file `chats.json` of the working
/// directory.
pub fn history_file_path() -> (res: String)
    ensures
        res@ == stored_chats_path(),
{
    let mut path = String::from_str("./");
    path.append("chats");
    path.append(".json");
    path
}

/// The state of the chat handler: the open chats, each with the channel `C`
/// to its model session, and the history of the chats opened by this run.
pub struct Handler<C> {
    chats: ChatRegistry<C>,
    stored_chats: ChatsHistory,
    stored_chats_path: String,
}

impl<C> Handler<C> {
    pub closed spec fn wf(&self) -> bool {
        self.chats.wf()
    }

    /// The open chats.
    pub closed spec fn chats(&self) -> Map<Seq<char>, C> {
        self.chats@
    }

    /// The identifiers recorded in the history, in order.
    pub closed spec fn stored_uids(&self) -> Seq<Seq<char>> {
        self.stored_chats.view_uids()
    }

    /// Where the history is written.
    pub closed spec fn stored_path(&self) -> Seq<char> {
        self.stored_chats_path@
    }

    /// A handler with no open chat and an empty history.
    pub fn new() -> (res: Self)
        ensures
            res.wf(),
            res.chats() == Map::<Seq<char>, C>::empty(),
            res.stored_uids() == Seq::<Seq<char>>::empty(),
            res.stored_path() == stored_chats_path(),
    {
        let path = history_file_path();
        let res = Handler {
            chats: ChatRegistry::new(),
            stored_chats: ChatsHistory::default(),
            stored_chats_path: path,
        };
        assert(res.stored_uids() =~= Seq::<Seq<char>>::empty());
        res
    }

    /// The path of the history file.
    pub fn stored_chats_path(&self) -> (res: String)
        ensures
            res@ == self.stored_path(),
    {
        self.stored_chats_path.clone()
    }

    /// Takes the chats restored from an earlier run as the open chats, and
    /// the history they were restored from as the history, so that the
    /// history file keeps listing them when further chats are opened.
    pub fn load(&mut self, chats: ChatRegistry<C>, restored: ChatsHistory)
        requires
            chats.wf(),
        ensures
            final(self).wf(),
            final(self).chats() == chats@,
            final(self).stored_uids() == restored.view_uids(),
            final(self).stored_path() == old(self).stored_path(),
    {
        self.chats = chats;
        self.stored_chats = restored;
    }

    /// Opens a chat: holds its channel under its identifier, records the
    /// identifier in the history, and gives the new contents of the history
    /// file, to be written to `stored_chats_path`.
    pub fn new_chat(&mut self, uid: String, channel: C) -> (res: Result<String, HandlerError>)
        requires
            old(self).wf(),
        ensures
            final(self).wf(),
            final(self).chats() == old(self).chats().insert(uid@, channel),
            final(self).stored_uids() == old(self).stored_uids().push(uid@),
            final(self).stored_path() == old(self).stored_path(),
            res is Ok,
            res matches Ok(text) ==> text@ == history_json(final(self).stored_uids()),
    {
        let recorded = uid.clone();
        self.chats.insert(uid, channel);
        self.stored_chats.record(recorded);
        match self.stored_chats.to_json() {
            Ok(text) => Ok(text),
            Err(e) => Err(HandlerError::Encode(e)),
        }
    }

    /// The channel of the chat open under `uid`.
    pub fn chat_mut(&mut self, uid: &str) -> (res: Result<&mut C, HandlerError>)
        requires
            old(self).wf(),
        ensures
            res is Ok <==> old(self).chats().contains_key(uid@),
            res matches Err(e) ==> e is UnknownChat && *final(self) == *old(self),
            res matches Ok(c) ==> {
                &&& *c == old(self).chats()[uid@]
                &&& final(self).wf()
                &&& final(self).chats() == old(self).chats().insert(uid@, *final(c))
                &&& final(self).stored_uids() == old(self).stored_uids()
                &&& final(self).stored_path() == old(self).stored_path()
            },
    {
        match self.chats.get_mut(uid) {
            Some(c) => Ok(c),
            None => Err(HandlerError::UnknownChat),
        }
    }
}

/// What the handler does with a token that a model session sent.
pub enum RelayAction {
    /// Pass the token on to the client.
    Forward(String),
    /// The reply is complete: stop relaying.
    Finish,
}

/// The decision of the handler on one token of a reply.
pub open spec fn relay_decision(token: Seq<char>) -> Option<Seq<char>> {
    if token == end_signal() {
        None
    } else {
        Some(token)
    }
}

/// Decides what to do with one token of a reply: the end-of-reply text
/// finishes the reply, any other token is passed on.
pub fn relay_token(token: String) -> (res: RelayAction)
    ensures
        token@ == end_signal() ==> res is Finish,
        token@ != end_signal() ==> (res matches RelayAction::Forward(t) && t == token),
{
    if is_end_signal(token.as_str()) {
        RelayAction::Finish
    } else {
        RelayAction::Forward(token)
    }
}

/// The tokens that reach the client when the handler relays `tokens`, one
/// decision after another, until a decision finishes the reply.
pub open spec fn relayed(tokens: Seq<Seq<char>>) -> Seq<Seq<char>>
    decreases tokens.len(),
{
    if tokens.len() == 0 {
        Seq::empty()
    } else {
        match relay_decision(tokens[0]) {
            Some(t) => seq![t] + relayed(tokens.drop_first()),
            None => Seq::empty(),
        }
    }
}

/// The client receives the tokens of a reply up to, and not including, the
/// first end-of-reply text; when there is none, it receives them all.
#[verifier::spinoff_prover]
pub proof fn lemma_relay_forwards_until_end(tokens: Seq<Seq<char>>)
    ensures
        relayed(tokens) == match tokens.index_of_first(end_signal()) {
            Some(i) => tokens.take(i),
            None => tokens,
        },
    decreases tokens.len(),
{
    tokens.index_of_first_ensures(end_signal());
    if tokens.len() > 0 {
        let rest = tokens.drop_first();
        lemma_relay_forwards_until_end(rest);
        rest.index_of_first_ensures(end_signal());
        if tokens[0] == end_signal() {
            assert(tokens.take(0) =~= Seq::<Seq<char>>::empty());
        } else {
            match rest.index_of_first(end_signal()) {
                Some(j) => {
                    assert(tokens[j + 1] == end_signal());
                    assert(tokens.contains(end_signal()));
                    let i = tokens.index_of_first(end_signal())->0;
                    if i < j + 1 {
                        assert(rest[i - 1] == tokens[i]);
                    } else if i > j + 1 {
                        assert(tokens[j + 1] != end_signal());
                    }
                    assert(i == j + 1);
                    assert(seq![tokens[0]] + rest.take(j) =~= tokens.take(j + 1));
                },
                None => {
                    assert(!tokens.contains(end_signal())) by {
                        if tokens.contains(end_signal()) {
                            let k = choose|k: int| 0 <= k < tokens.len() && tokens[k] == end_signal();
                            assert(rest[k - 1] == end_signal());
                        }
                    }
                    assert(seq![tokens[0]] + rest =~= tokens);
                },
            }
        }
    } else {
        assert(tokens.index_of_first(end_signal()) is None);
    }
}


proof fn lemma_relay_stops_at_appended_end(tokens: Seq<Seq<char>>)
    requires
        !tokens.contains(end_signal()),
    ensures
        relayed(tokens.push(end_signal())) == tokens,
{
    let s = tokens.push(end_signal());
    lemma_relay_forwards_until_end(s);
    s.index_of_first_ensures(end_signal());
    assert(s[tokens.len() as int] == end_signal());
    assert(s.contains(end_signal()));
    let i = s.index_of_first(end_signal())->0;
    if i < tokens.len() {
        assert(tokens[i] == s[i]);
        assert(tokens.contains(end_signal()));
    }
    assert(i == tokens.len());
    assert(s.take(i) =~= tokens);
}

/// What a local model replies reaches the client whole: relaying what a
/// session sends for one reply delivers exactly the tokens of the reply,
/// provided that no token is itself the end-of-reply text.
pub proof fn lemma_local_reply_reaches_client(save_path: Seq<char>, message: Seq<char>, tokens: Seq<Seq<char>>)
    requires
        !tokens.contains(end_signal()),
    ensures
        relayed(sent_texts(local_run(false, save_path, local_turn(message, tokens)).1)) == tokens,
{
    lemma_local_turn(save_path, message, tokens);
    lemma_relay_stops_at_appended_end(tokens);
}

/// What a model server replies reaches the client whole: relaying what a
/// session sends for one reply that goes well delivers exactly the texts of
/// its parts, provided that none of them is the end-of-reply text.
pub proof fn lemma_remote_reply_reaches_client(message: Seq<char>, contents: Seq<Seq<char>>, last: Seq<char>)
    requires
        !contents.push(last).contains(end_signal()),
    ensures
        relayed(sent_texts(remote_run(RemoteState::Idle, remote_turn(message, contents, last)).1))
            == contents.push(last),
{
    lemma_remote_turn(message, contents, last);
    lemma_relay_stops_at_appended_end(contents.push(last));
}

/// Every open chat is listed in the history.
pub open spec fn all_listed<C>(chats: Map<Seq<char>, C>, stored: Seq<Seq<char>>) -> bool {
    forall|k: Seq<char>| #[trigger] chats.contains_key(k) ==> stored.contains(k)
}

/// Opening a chat keeps every open chat listed in the history: what
/// `Handler::new_chat` does to the open chats and to the history (an insert
/// and a push of the same identifier) keeps each open chat restorable.
pub proof fn lemma_new_chat_keeps_chats_listed<C>(chats: Map<Seq<char>, C>, stored: Seq<Seq<char>>, uid: Seq<char>, chat: C)
    requires
        all_listed(chats, stored),
    ensures
        all_listed(chats.insert(uid, chat), stored.push(uid)),
{
    assert forall|k: Seq<char>| #[trigger] chats.insert(uid, chat).contains_key(k) implies stored.push(uid).contains(k) by {
        if k == uid {
            assert(stored.push(uid)[stored.len() as int] == uid);
        } else {
            assert(chats.contains_key(k));
            let i = choose|i: int| 0 <= i < stored.len() && stored[i] == k;
            assert(stored.push(uid)[i] == k);
        }
    }
}

} // verus!
