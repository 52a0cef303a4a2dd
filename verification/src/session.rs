//! The decisions of a model session: what it does with a message from the
//! client and with each part of the reply that the model streams back.
use vstd::prelude::*;
use crate::signal::{chat_end_signal, end_signal};

verus! {

/// What a model session asks the program around it to do.
pub enum SessionAction {
    /// Ask the model for a reply to this message.
    Generate(String),
    /// Send this text to the chat handler.
    Send(String),
    /// Save the conversation so far to this path.
    Save(String),
}

/// An action as plain values.
pub enum ActionModel {
    Generate(Seq<char>),
    Send(Seq<char>),
    Save(Seq<char>),
}

impl SessionAction {
    pub open spec fn model(&self) -> ActionModel {
        match self {
            SessionAction::Generate(m) => ActionModel::Generate(m@),
            SessionAction::Send(t) => ActionModel::Send(t@),
            SessionAction::Save(p) => ActionModel::Save(p@),
        }
    }
}

/// The actions of a list, as plain values.
pub open spec fn actions_model(actions: Seq<SessionAction>) -> Seq<ActionModel> {
    actions.map_values(|a: SessionAction| a.model())
}

/// The texts that a list of actions sends to the chat handler, in order.
pub open spec fn sent_texts(actions: Seq<ActionModel>) -> Seq<Seq<char>>
    decreases actions.len(),
{
    if actions.len() == 0 {
        Seq::empty()
    } else {
        let rest = sent_texts(actions.drop_first());
        match actions[0] {
            ActionModel::Send(t) => seq![t] + rest,
            _ => rest,
        }
    }
}

pub proof fn lemma_sent_texts_append(a: Seq<ActionModel>, b: Seq<ActionModel>)
    ensures
        sent_texts(a + b) == sent_texts(a) + sent_texts(b),
    decreases a.len(),
{
    if a.len() == 0 {
        assert(a + b =~= b);
        assert(sent_texts(a) =~= Seq::<Seq<char>>::empty());
        assert(sent_texts(a) + sent_texts(b) =~= sent_texts(b));
    } else {
        lemma_sent_texts_append(a.drop_first(), b);
        assert((a + b).drop_first() =~= a.drop_first() + b);
        assert((a + b)[0] == a[0]);
        match a[0] {
            ActionModel::Send(t) => {
                assert(seq![t] + (sent_texts(a.drop_first()) + sent_texts(b))
                    =~= (seq![t] + sent_texts(a.drop_first())) + sent_texts(b));
            },
            _ => {},
        }
    }
}

/// An event of a session backed by a local model.
pub enum LocalEvent {
    /// A message from the client.
    Message(String),
    /// A token of the reply that the model streams.
    Token(String),
    /// The model has finished the reply.
    StreamEnd,
}

/// An event as plain values.
pub enum LocalEventModel {
    Message(Seq<char>),
    Token(Seq<char>),
    StreamEnd,
}

impl LocalEvent {
    pub open spec fn model(&self) -> LocalEventModel {
        match self {
            LocalEvent::Message(m) => LocalEventModel::Message(m@),
            LocalEvent::Token(t) => LocalEventModel::Token(t@),
            LocalEvent::StreamEnd => LocalEventModel::StreamEnd,
        }
    }
}

/// One step of a session backed by a local model, from whether a reply is
/// being streamed: the next such flag and the actions. A message starts a
/// reply, each token is passed on, and the end of the reply saves the
/// conversation and then sends the end-of-reply text. An event that does
/// not fit the state is ignored.
pub open spec fn local_step(streaming: bool, save_path: Seq<char>, event: LocalEventModel) -> (bool, Seq<ActionModel>) {
    match event {
        LocalEventModel::Message(m) => if streaming {
            (streaming, Seq::empty())
        } else {
            (true, seq![ActionModel::Generate(m)])
        },
        LocalEventModel::Token(t) => if streaming {
            (true, seq![ActionModel::Send(t)])
        } else {
            (streaming, Seq::empty())
        },
        LocalEventModel::StreamEnd => if streaming {
            (false, seq![ActionModel::Save(save_path), ActionModel::Send(end_signal())])
        } else {
            (streaming, Seq::empty())
        },
    }
}

/// A sequence of steps of a local session.
pub open spec fn local_run(streaming: bool, save_path: Seq<char>, events: Seq<LocalEventModel>) -> (bool, Seq<ActionModel>)
    decreases events.len(),
{
    if events.len() == 0 {
        (streaming, Seq::empty())
    } else {
        let first = local_step(streaming, save_path, events[0]);
        let rest = local_run(first.0, save_path, events.drop_first());
        (rest.0, first.1 + rest.1)
    }
}

/// A session backed by a local model.
pub struct LocalSession {
    uid: String,
    save_path: String,
    restore_from: Option<String>,
    streaming: bool,
}

impl LocalSession {
    pub closed spec fn uid(&self) -> Seq<char> {
        self.uid@
    }

    pub closed spec fn save_path(&self) -> Seq<char> {
        self.save_path@
    }

    pub closed spec fn restore_from(&self) -> Option<Seq<char>> {
        match self.restore_from {
            Some(p) => Some(p@),
            None => None,
        }
    }

    pub closed spec fn streaming(&self) -> bool {
        self.streaming
    }

    /// A session for chat `uid`, saving to `save_path` and, where
    /// `restore_from` is given, resuming the conversation saved there.
    pub fn new(uid: String, save_path: String, restore_from: Option<String>) -> (res: Self)
        ensures
            res.uid() == uid@,
            res.save_path() == save_path@,
            res.restore_from() == (match restore_from {
                Some(p) => Some(p@),
                None => None::<Seq<char>>,
            }),
            !res.streaming(),
    {
        LocalSession { uid, save_path, restore_from, streaming: false }
    }

    /// The identifier of the chat.
    pub fn uid_text(&self) -> (res: String)
        ensures
            res@ == self.uid(),
    {
        self.uid.clone()
    }

    /// Where the conversation is saved.
    pub fn save_path_text(&self) -> (res: String)
        ensures
            res@ == self.save_path(),
    {
        self.save_path.clone()
    }

    /// Where an earlier conversation is resumed from, if anywhere.
    pub fn restore_path(&self) -> (res: Option<String>)
        ensures
            (match res {
                Some(p) => Some(p@),
                None => None::<Seq<char>>,
            }) == self.restore_from(),
    {
        match &self.restore_from {
            Some(p) => Some(p.clone()),
            None => None,
        }
    }

    /// Takes one event and gives the actions to perform, in order.
    pub fn step(&mut self, event: LocalEvent) -> (res: Vec<SessionAction>)
        ensures
            (final(self).streaming(), actions_model(res@))
                == local_step(old(self).streaming(), old(self).save_path(), event.model()),
            final(self).uid() == old(self).uid(),
            final(self).save_path() == old(self).save_path(),
            final(self).restore_from() == old(self).restore_from(),
    {
        let mut actions: Vec<SessionAction> = Vec::new();
        match event {
            LocalEvent::Message(m) => {
                if !self.streaming {
                    self.streaming = true;
                    actions.push(SessionAction::Generate(m));
                }
            },
            LocalEvent::Token(t) => {
                if self.streaming {
                    actions.push(SessionAction::Send(t));
                }
            },
            LocalEvent::StreamEnd => {
                if self.streaming {
                    self.streaming = false;
                    actions.push(SessionAction::Save(self.save_path.clone()));
                    actions.push(SessionAction::Send(chat_end_signal()));
                }
            },
        }
        assert(actions_model(actions@) =~= local_step(old(self).streaming(), old(self).save_path(), event.model()).1);
        actions
    }
}

/// The events of one reply of a local model: the message, its tokens, and
/// the end of the stream.
pub open spec fn local_turn(message: Seq<char>, tokens: Seq<Seq<char>>) -> Seq<LocalEventModel> {
    seq![LocalEventModel::Message(message)]
        + tokens.map_values(|t: Seq<char>| LocalEventModel::Token(t))
        + seq![LocalEventModel::StreamEnd]
}

proof fn lemma_local_tokens(save_path: Seq<char>, tokens: Seq<Seq<char>>)
    ensures
        local_run(true, save_path, tokens.map_values(|t: Seq<char>| LocalEventModel::Token(t)))
            == (true, tokens.map_values(|t: Seq<char>| ActionModel::Send(t))),
    decreases tokens.len(),
{
    let evs = tokens.map_values(|t: Seq<char>| LocalEventModel::Token(t));
    if tokens.len() > 0 {
        lemma_local_tokens(save_path, tokens.drop_first());
        assert(evs.drop_first() =~= tokens.drop_first().map_values(|t: Seq<char>| LocalEventModel::Token(t)));
        assert(seq![ActionModel::Send(tokens[0])] + tokens.drop_first().map_values(|t: Seq<char>| ActionModel::Send(t))
            =~= tokens.map_values(|t: Seq<char>| ActionModel::Send(t)));
    } else {
        assert(tokens.map_values(|t: Seq<char>| ActionModel::Send(t)) =~= Seq::<ActionModel>::empty());
    }
}

/// Running two lists of events one after the other is running their
/// concatenation.
pub proof fn lemma_local_run_append(streaming: bool, save_path: Seq<char>, a: Seq<LocalEventModel>, b: Seq<LocalEventModel>)
    ensures
        local_run(streaming, save_path, a + b) == (
            local_run(local_run(streaming, save_path, a).0, save_path, b).0,
            local_run(streaming, save_path, a).1 + local_run(local_run(streaming, save_path, a).0, save_path, b).1,
        ),
    decreases a.len(),
{
    if a.len() == 0 {
        assert(a + b =~= b);
        assert(Seq::<ActionModel>::empty() + local_run(streaming, save_path, b).1 =~= local_run(streaming, save_path, b).1);
    } else {
        let first = local_step(streaming, save_path, a[0]);
        lemma_local_run_append(first.0, save_path, a.drop_first(), b);
        assert((a + b).drop_first() =~= a.drop_first() + b);
        assert((a + b)[0] == a[0]);
        let r = local_run(first.0, save_path, a.drop_first());
        let q = local_run(r.0, save_path, b);
        assert(first.1 + (r.1 + q.1) =~= (first.1 + r.1) + q.1);
    }
}

proof fn lemma_sent_sends(tokens: Seq<Seq<char>>)
    ensures
        sent_texts(tokens.map_values(|t: Seq<char>| ActionModel::Send(t))) == tokens,
    decreases tokens.len(),
{
    let acts = tokens.map_values(|t: Seq<char>| ActionModel::Send(t));
    if tokens.len() > 0 {
        lemma_sent_sends(tokens.drop_first());
        assert(acts.drop_first() =~= tokens.drop_first().map_values(|t: Seq<char>| ActionModel::Send(t)));
        assert(seq![tokens[0]] + tokens.drop_first() =~= tokens);
    } else {
        assert(sent_texts(acts) =~= tokens);
    }
}

/// A reply of a local model, from an idle session: the session asks the
/// model for a reply to the message, passes each token on in order, saves
/// the conversation, and ends with the end-of-reply text; it is then idle
/// again. So what it sends is the tokens followed by the end-of-reply text.
#[verifier::spinoff_prover]
pub proof fn lemma_local_turn(save_path: Seq<char>, message: Seq<char>, tokens: Seq<Seq<char>>)
    ensures
        local_run(false, save_path, local_turn(message, tokens)) == (
            false,
            seq![ActionModel::Generate(message)]
                + tokens.map_values(|t: Seq<char>| ActionModel::Send(t))
                + seq![ActionModel::Save(save_path), ActionModel::Send(end_signal())],
        ),
        sent_texts(local_run(false, save_path, local_turn(message, tokens)).1) == tokens.push(end_signal()),
{
    let m = seq![LocalEventModel::Message(message)];
    let t = tokens.map_values(|t: Seq<char>| LocalEventModel::Token(t));
    let e = seq![LocalEventModel::StreamEnd];
    lemma_local_run_append(false, save_path, m + t, e);
    lemma_local_run_append(false, save_path, m, t);
    lemma_local_tokens(save_path, tokens);
    assert(local_run(false, save_path, m) == (true, seq![ActionModel::Generate(message)])) by {
        assert(m.drop_first() =~= Seq::<LocalEventModel>::empty());
        assert(m[0] == LocalEventModel::Message(message));
        assert(local_run(true, save_path, m.drop_first()) == (true, Seq::<ActionModel>::empty()));
        assert(seq![ActionModel::Generate(message)] + Seq::<ActionModel>::empty()
            =~= seq![ActionModel::Generate(message)]);
    }
    assert(local_run(true, save_path, e) == (false, seq![ActionModel::Save(save_path), ActionModel::Send(end_signal())])) by {
        assert(e.drop_first() =~= Seq::<LocalEventModel>::empty());
        assert(e[0] == LocalEventModel::StreamEnd);
        assert(local_run(false, save_path, e.drop_first()) == (false, Seq::<ActionModel>::empty()));
        assert(seq![ActionModel::Save(save_path), ActionModel::Send(end_signal())] + Seq::<ActionModel>::empty()
            =~= seq![ActionModel::Save(save_path), ActionModel::Send(end_signal())]);
    }
    let sends = tokens.map_values(|t: Seq<char>| ActionModel::Send(t));
    let tail = seq![ActionModel::Save(save_path), ActionModel::Send(end_signal())];
    lemma_sent_texts_append(seq![ActionModel::Generate(message)], sends);
    lemma_sent_texts_append(seq![ActionModel::Generate(message)] + sends, tail);
    lemma_sent_sends(tokens);
    assert(sent_texts(seq![ActionModel::Generate(message)]) =~= Seq::<Seq<char>>::empty()) by {
        let g = seq![ActionModel::Generate(message)];
        assert(g.drop_first() =~= Seq::<ActionModel>::empty());
        assert(sent_texts(g.drop_first()) =~= Seq::<Seq<char>>::empty());
        assert(g[0] == ActionModel::Generate(message));
    }
    assert(sent_texts(tail) =~= seq![end_signal()]) by {
        let t1 = tail.drop_first();
        assert(t1 =~= seq![ActionModel::Send(end_signal())]);
        assert(t1.drop_first() =~= Seq::<ActionModel>::empty());
        assert(sent_texts(t1.drop_first()) =~= Seq::<Seq<char>>::empty());
        assert(t1[0] == ActionModel::Send(end_signal()));
        assert(sent_texts(t1) =~= seq![end_signal()] + Seq::<Seq<char>>::empty());
        assert(tail[0] == ActionModel::Save(save_path));
    }
    assert(Seq::<Seq<char>>::empty() + tokens + seq![end_signal()] =~= tokens.push(end_signal()));
}


/// An event of a session backed by a model server.
pub enum RemoteEvent {
    /// A message from the client.
    Message(String),
    /// The request for a reply could not be made.
    RequestFailed,
    /// A part of the reply could not be read.
    ItemFailed,
    /// A part of the reply: its text, if it has one, and whether it is the
    /// last part.
    Item { content: Option<String>, done: bool },
    /// The stream of the reply has ended.
    StreamEnd,
}

/// An event as plain values.
pub enum RemoteEventModel {
    Message(Seq<char>),
    RequestFailed,
    ItemFailed,
    Item { content: Option<Seq<char>>, done: bool },
    StreamEnd,
}

impl RemoteEvent {
    pub open spec fn model(&self) -> RemoteEventModel {
        match self {
            RemoteEvent::Message(m) => RemoteEventModel::Message(m@),
            RemoteEvent::RequestFailed => RemoteEventModel::RequestFailed,
            RemoteEvent::ItemFailed => RemoteEventModel::ItemFailed,
            RemoteEvent::Item { content, done } => RemoteEventModel::Item {
                content: match content {
                    Some(c) => Some(c@),
                    None => None,
                },
                done: *done,
            },
            RemoteEvent::StreamEnd => RemoteEventModel::StreamEnd,
        }
    }
}

/// Where a session backed by a model server stands.
#[derive(PartialEq, Eq, Structural, Clone, Copy, Debug)]
pub enum RemoteState {
    /// Waiting for a message from the client.
    Idle,
    /// A reply is being streamed.
    Streaming,
    /// The session has ended: a request failed.
    Stopped,
}

/// One step of a session backed by a model server. A message starts a
/// request; when the request cannot be made the end-of-reply text is sent
/// and the session stops; a part that cannot be read is answered with the
/// end-of-reply text; the text of a part is passed on, followed by the
/// end-of-reply text when the part is the last one; the end of the stream
/// makes the session wait for the next message. An event that does not fit
/// the state is ignored, and a stopped session ignores everything.
pub open spec fn remote_step(state: RemoteState, event: RemoteEventModel) -> (RemoteState, Seq<ActionModel>) {
    match (state, event) {
        (RemoteState::Idle, RemoteEventModel::Message(m)) => (RemoteState::Streaming, seq![ActionModel::Generate(m)]),
        (RemoteState::Streaming, RemoteEventModel::RequestFailed) => (RemoteState::Stopped, seq![ActionModel::Send(end_signal())]),
        (RemoteState::Streaming, RemoteEventModel::ItemFailed) => (RemoteState::Streaming, seq![ActionModel::Send(end_signal())]),
        (RemoteState::Streaming, RemoteEventModel::Item { content, done }) => {
            let text = match content {
                Some(c) => seq![ActionModel::Send(c)],
                None => Seq::empty(),
            };
            let end = if done { seq![ActionModel::Send(end_signal())] } else { Seq::empty() };
            (RemoteState::Streaming, text + end)
        },
        (RemoteState::Streaming, RemoteEventModel::StreamEnd) => (RemoteState::Idle, Seq::empty()),
        _ => (state, Seq::empty()),
    }
}

/// A sequence of steps of a remote session.
pub open spec fn remote_run(state: RemoteState, events: Seq<RemoteEventModel>) -> (RemoteState, Seq<ActionModel>)
    decreases events.len(),
{
    if events.len() == 0 {
        (state, Seq::empty())
    } else {
        let first = remote_step(state, events[0]);
        let rest = remote_run(first.0, events.drop_first());
        (rest.0, first.1 + rest.1)
    }
}

/// A session backed by a model server.
pub struct RemoteSession {
    uid: String,
    model_name: String,
    state: RemoteState,
}

impl RemoteSession {
    pub closed spec fn uid(&self) -> Seq<char> {
        self.uid@
    }

    pub closed spec fn model_name(&self) -> Seq<char> {
        self.model_name@
    }

    pub closed spec fn state(&self) -> RemoteState {
        self.state
    }

    /// A session for chat `uid`, asking the model `model_name`.
    pub fn new(uid: String, model_name: String) -> (res: Self)
        ensures
            res.uid() == uid@,
            res.model_name() == model_name@,
            res.state() == RemoteState::Idle,
    {
        RemoteSession { uid, model_name, state: RemoteState::Idle }
    }

    /// The identifier of the chat, under which the server keeps its history.
    pub fn uid_text(&self) -> (res: String)
        ensures
            res@ == self.uid(),
    {
        self.uid.clone()
    }

    /// The model asked for replies.
    pub fn model_name_text(&self) -> (res: String)
        ensures
            res@ == self.model_name(),
    {
        self.model_name.clone()
    }

    /// Whether the session has ended.
    pub fn is_stopped(&self) -> (res: bool)
        ensures
            res == (self.state() == RemoteState::Stopped),
    {
        self.state == RemoteState::Stopped
    }

    /// Takes one event and gives the actions to perform, in order.
    pub fn step(&mut self, event: RemoteEvent) -> (res: Vec<SessionAction>)
        ensures
            (final(self).state(), actions_model(res@)) == remote_step(old(self).state(), event.model()),
            final(self).uid() == old(self).uid(),
            final(self).model_name() == old(self).model_name(),
    {
        let mut actions: Vec<SessionAction> = Vec::new();
        match (self.state, event) {
            (RemoteState::Idle, RemoteEvent::Message(m)) => {
                self.state = RemoteState::Streaming;
                actions.push(SessionAction::Generate(m));
            },
            (RemoteState::Streaming, RemoteEvent::RequestFailed) => {
                self.state = RemoteState::Stopped;
                actions.push(SessionAction::Send(chat_end_signal()));
            },
            (RemoteState::Streaming, RemoteEvent::ItemFailed) => {
                actions.push(SessionAction::Send(chat_end_signal()));
            },
            (RemoteState::Streaming, RemoteEvent::Item { content, done }) => {
                match content {
                    Some(c) => actions.push(SessionAction::Send(c)),
                    None => {},
                }
                if done {
                    actions.push(SessionAction::Send(chat_end_signal()));
                }
            },
            (RemoteState::Streaming, RemoteEvent::StreamEnd) => {
                self.state = RemoteState::Idle;
            },
            _ => {},
        }
        assert(actions_model(actions@) =~= remote_step(old(self).state(), event.model()).1);
        actions
    }
}


/// Running two lists of events one after the other is running their
/// concatenation.
pub proof fn lemma_remote_run_append(state: RemoteState, a: Seq<RemoteEventModel>, b: Seq<RemoteEventModel>)
    ensures
        remote_run(state, a + b) == (
            remote_run(remote_run(state, a).0, b).0,
            remote_run(state, a).1 + remote_run(remote_run(state, a).0, b).1,
        ),
    decreases a.len(),
{
    if a.len() == 0 {
        assert(a + b =~= b);
        assert(Seq::<ActionModel>::empty() + remote_run(state, b).1 =~= remote_run(state, b).1);
    } else {
        let first = remote_step(state, a[0]);
        lemma_remote_run_append(first.0, a.drop_first(), b);
        assert((a + b).drop_first() =~= a.drop_first() + b);
        assert((a + b)[0] == a[0]);
        let r = remote_run(first.0, a.drop_first());
        let q = remote_run(r.0, b);
        assert(first.1 + (r.1 + q.1) =~= (first.1 + r.1) + q.1);
    }
}

proof fn lemma_remote_single(state: RemoteState, e: RemoteEventModel)
    ensures
        remote_run(state, seq![e]) == remote_step(state, e),
{
    let s = seq![e];
    assert(s.drop_first() =~= Seq::<RemoteEventModel>::empty());
    assert(s[0] == e);
    assert(remote_run(remote_step(state, e).0, s.drop_first()) == (remote_step(state, e).0, Seq::<ActionModel>::empty()));
    assert(remote_step(state, e).1 + Seq::<ActionModel>::empty() =~= remote_step(state, e).1);
}

/// The parts of a reply that are not the last one.
pub open spec fn remote_parts(contents: Seq<Seq<char>>) -> Seq<RemoteEventModel> {
    contents.map_values(|c: Seq<char>| RemoteEventModel::Item { content: Some(c), done: false })
}

proof fn lemma_remote_parts(contents: Seq<Seq<char>>)
    ensures
        remote_run(RemoteState::Streaming, remote_parts(contents))
            == (RemoteState::Streaming, contents.map_values(|t: Seq<char>| ActionModel::Send(t))),
    decreases contents.len(),
{
    let evs = remote_parts(contents);
    if contents.len() > 0 {
        lemma_remote_parts(contents.drop_first());
        assert(evs.drop_first() =~= remote_parts(contents.drop_first()));
        assert(evs[0] == RemoteEventModel::Item { content: Some(contents[0]), done: false });
        assert(remote_step(RemoteState::Streaming, evs[0]).1 =~= seq![ActionModel::Send(contents[0])]);
        assert(seq![ActionModel::Send(contents[0])] + contents.drop_first().map_values(|t: Seq<char>| ActionModel::Send(t))
            =~= contents.map_values(|t: Seq<char>| ActionModel::Send(t)));
    } else {
        assert(contents.map_values(|t: Seq<char>| ActionModel::Send(t)) =~= Seq::<ActionModel>::empty());
    }
}

/// The events of one reply of a model server that goes well: the message,
/// the parts of the reply with their texts, the last one marked as such,
/// and the end of the stream.
pub open spec fn remote_turn(message: Seq<char>, contents: Seq<Seq<char>>, last: Seq<char>) -> Seq<RemoteEventModel> {
    seq![RemoteEventModel::Message(message)]
        + remote_parts(contents)
        + seq![RemoteEventModel::Item { content: Some(last), done: true }, RemoteEventModel::StreamEnd]
}

/// A reply of a model server that goes well, from an idle session: the
/// session asks for the reply, passes on the text of every part in order,
/// then the end-of-reply text, and waits for the next message.
#[verifier::spinoff_prover]
pub proof fn lemma_remote_turn(message: Seq<char>, contents: Seq<Seq<char>>, last: Seq<char>)
    ensures
        remote_run(RemoteState::Idle, remote_turn(message, contents, last)).0 == RemoteState::Idle,
        sent_texts(remote_run(RemoteState::Idle, remote_turn(message, contents, last)).1)
            == contents.push(last).push(end_signal()),
{
    let m = seq![RemoteEventModel::Message(message)];
    let p = remote_parts(contents);
    let e = seq![RemoteEventModel::Item { content: Some(last), done: true }, RemoteEventModel::StreamEnd];
    lemma_remote_run_append(RemoteState::Idle, m + p, e);
    lemma_remote_run_append(RemoteState::Idle, m, p);
    lemma_remote_single(RemoteState::Idle, RemoteEventModel::Message(message));
    lemma_remote_parts(contents);
    let e1 = seq![RemoteEventModel::Item { content: Some(last), done: true }];
    let e2 = seq![RemoteEventModel::StreamEnd];
    assert(e =~= e1 + e2);
    lemma_remote_run_append(RemoteState::Streaming, e1, e2);
    lemma_remote_single(RemoteState::Streaming, RemoteEventModel::Item { content: Some(last), done: true });
    lemma_remote_single(RemoteState::Streaming, RemoteEventModel::StreamEnd);
    let sends = contents.map_values(|t: Seq<char>| ActionModel::Send(t));
    let last_acts = seq![ActionModel::Send(last)] + seq![ActionModel::Send(end_signal())];
    assert(remote_run(RemoteState::Streaming, e) == (RemoteState::Idle, last_acts + Seq::<ActionModel>::empty()));
    let g = seq![ActionModel::Generate(message)];
    let all = remote_run(RemoteState::Idle, remote_turn(message, contents, last)).1;
    assert(all == g + sends + (last_acts + Seq::<ActionModel>::empty()));
    lemma_sent_texts_append(g, sends);
    lemma_sent_texts_append(g + sends, last_acts + Seq::<ActionModel>::empty());
    lemma_sent_sends(contents);
    assert(sent_texts(g) =~= Seq::<Seq<char>>::empty()) by {
        assert(g.drop_first() =~= Seq::<ActionModel>::empty());
        assert(sent_texts(g.drop_first()) =~= Seq::<Seq<char>>::empty());
        assert(g[0] == ActionModel::Generate(message));
    }
    assert(sent_texts(last_acts + Seq::<ActionModel>::empty()) =~= seq![last, end_signal()]) by {
        let t = last_acts + Seq::<ActionModel>::empty();
        assert(t =~= seq![ActionModel::Send(last), ActionModel::Send(end_signal())]);
        let t1 = t.drop_first();
        assert(t1 =~= seq![ActionModel::Send(end_signal())]);
        assert(t1.drop_first() =~= Seq::<ActionModel>::empty());
        assert(sent_texts(t1.drop_first()) =~= Seq::<Seq<char>>::empty());
        assert(t1[0] == ActionModel::Send(end_signal()));
        assert(sent_texts(t1) =~= seq![end_signal()] + Seq::<Seq<char>>::empty());
        assert(t[0] == ActionModel::Send(last));
    }
    assert(Seq::<Seq<char>>::empty() + contents + seq![last, end_signal()] =~= contents.push(last).push(end_signal()));
}

/// When the request for a reply cannot be made, the session sends the
/// end-of-reply text and stops; a stopped session ignores every event.
pub proof fn lemma_remote_failure_stops(message: Seq<char>, later: Seq<RemoteEventModel>)
    ensures
        remote_run(RemoteState::Idle, seq![RemoteEventModel::Message(message), RemoteEventModel::RequestFailed] + later)
            == (RemoteState::Stopped, seq![ActionModel::Generate(message), ActionModel::Send(end_signal())]),
{
    let a = seq![RemoteEventModel::Message(message)];
    let b = seq![RemoteEventModel::RequestFailed];
    assert(seq![RemoteEventModel::Message(message), RemoteEventModel::RequestFailed] =~= a + b);
    lemma_remote_run_append(RemoteState::Idle, a + b, later);
    lemma_remote_run_append(RemoteState::Idle, a, b);
    lemma_remote_single(RemoteState::Idle, RemoteEventModel::Message(message));
    lemma_remote_single(RemoteState::Streaming, RemoteEventModel::RequestFailed);
    lemma_remote_stopped(later);
    assert(seq![ActionModel::Generate(message)] + seq![ActionModel::Send(end_signal())] + Seq::<ActionModel>::empty()
        =~= seq![ActionModel::Generate(message), ActionModel::Send(end_signal())]);
}

/// A stopped session takes no action whatever happens.
pub proof fn lemma_remote_stopped(events: Seq<RemoteEventModel>)
    ensures
        remote_run(RemoteState::Stopped, events) == (RemoteState::Stopped, Seq::<ActionModel>::empty()),
    decreases events.len(),
{
    if events.len() > 0 {
        lemma_remote_stopped(events.drop_first());
        assert(Seq::<ActionModel>::empty() + Seq::<ActionModel>::empty() =~= Seq::<ActionModel>::empty());
    }
}

/// The events of several replies of a local model, one after the other:
/// each turn is a message and the tokens of its reply.
pub open spec fn local_turns(turns: Seq<(Seq<char>, Seq<Seq<char>>)>) -> Seq<LocalEventModel>
    decreases turns.len(),
{
    if turns.len() == 0 {
        Seq::empty()
    } else {
        local_turns(turns.drop_last()) + local_turn(turns.last().0, turns.last().1)
    }
}

/// The tokens of each reply followed by the end-of-reply text, reply after
/// reply.
pub open spec fn replies_with_ends(replies: Seq<Seq<Seq<char>>>) -> Seq<Seq<char>>
    decreases replies.len(),
{
    if replies.len() == 0 {
        Seq::empty()
    } else {
        replies_with_ends(replies.drop_last()) + replies.last().push(end_signal())
    }
}

/// Over any number of replies of a local model, from an idle session, the
/// session sends each reply in order, each followed by one end-of-reply
/// text, and is idle again at the end.
pub proof fn lemma_local_turns(save_path: Seq<char>, turns: Seq<(Seq<char>, Seq<Seq<char>>)>)
    ensures
        local_run(false, save_path, local_turns(turns)).0 == false,
        sent_texts(local_run(false, save_path, local_turns(turns)).1)
            == replies_with_ends(turns.map_values(|t: (Seq<char>, Seq<Seq<char>>)| t.1)),
    decreases turns.len(),
{
    let replies = turns.map_values(|t: (Seq<char>, Seq<Seq<char>>)| t.1);
    if turns.len() == 0 {
        assert(sent_texts(Seq::<ActionModel>::empty()) =~= Seq::<Seq<char>>::empty());
    } else {
        let init = turns.drop_last();
        let last = turns.last();
        lemma_local_turns(save_path, init);
        let a = local_turns(init);
        let b = local_turn(last.0, last.1);
        lemma_local_run_append(false, save_path, a, b);
        lemma_local_turn(save_path, last.0, last.1);
        lemma_sent_texts_append(local_run(false, save_path, a).1, local_run(false, save_path, b).1);
        assert(replies.drop_last() =~= init.map_values(|t: (Seq<char>, Seq<Seq<char>>)| t.1));
        assert(replies.last() == last.1);
    }
}

/// The events of several replies of a model server that go well, one after
/// the other: each turn is a message, the texts of the parts before the
/// last, and the text of the last part.
pub open spec fn remote_turns(turns: Seq<(Seq<char>, Seq<Seq<char>>, Seq<char>)>) -> Seq<RemoteEventModel>
    decreases turns.len(),
{
    if turns.len() == 0 {
        Seq::empty()
    } else {
        remote_turns(turns.drop_last()) + remote_turn(turns.last().0, turns.last().1, turns.last().2)
    }
}

/// Over any number of replies of a model server that go well, from an idle
/// session, the session sends the texts of each reply in order, each reply
/// followed by one end-of-reply text, and is idle again at the end.
pub proof fn lemma_remote_turns(turns: Seq<(Seq<char>, Seq<Seq<char>>, Seq<char>)>)
    ensures
        remote_run(RemoteState::Idle, remote_turns(turns)).0 == RemoteState::Idle,
        sent_texts(remote_run(RemoteState::Idle, remote_turns(turns)).1)
            == replies_with_ends(turns.map_values(|t: (Seq<char>, Seq<Seq<char>>, Seq<char>)| t.1.push(t.2))),
    decreases turns.len(),
{
    let replies = turns.map_values(|t: (Seq<char>, Seq<Seq<char>>, Seq<char>)| t.1.push(t.2));
    if turns.len() == 0 {
        assert(sent_texts(Seq::<ActionModel>::empty()) =~= Seq::<Seq<char>>::empty());
    } else {
        let init = turns.drop_last();
        let last = turns.last();
        lemma_remote_turns(init);
        let a = remote_turns(init);
        let b = remote_turn(last.0, last.1, last.2);
        lemma_remote_run_append(RemoteState::Idle, a, b);
        lemma_remote_turn(last.0, last.1, last.2);
        lemma_sent_texts_append(remote_run(RemoteState::Idle, a).1, remote_run(RemoteState::Idle, b).1);
        assert(replies.drop_last() =~= init.map_values(|t: (Seq<char>, Seq<Seq<char>>, Seq<char>)| t.1.push(t.2)));
        assert(replies.last() == last.1.push(last.2));
    }
}

} // verus!
