//! The model backends: which one is used, how each is configured, and how
//! each opens and restores chats.
use vstd::prelude::*;
use crate::env::Variables;
use crate::history::{ChatsHistory, HistoryError};
use crate::session::{LocalSession, RemoteSession, RemoteState};

verus! {

/// The model backends that the service can use.
#[derive(Debug, Clone, Copy, PartialEq, Eq, Structural)]
pub enum SupportedDriver {
    /// A model run in the process.
    Kalosm,
    /// A model run by an Ollama server.
    Ollama,
}

impl Default for SupportedDriver {
    fn default() -> (res: Self)
        ensures
            res == SupportedDriver::Kalosm,
    {
        SupportedDriver::Kalosm
    }
}

/// Why a backend failed.
#[derive(Debug)]
pub enum DriverError {
    /// The model could not be loaded; the text says why.
    ModelLoad(String),
    /// The saved chats could not be read; the text says why.
    Deserialize(String),
}

impl DriverError {
    /// The text of the error.
    pub fn message(&self) -> (res: String)
        ensures
            self matches DriverError::ModelLoad(m) ==> res@ == "Error while loading the model "@ + m@,
            self matches DriverError::Deserialize(m) ==> res@ == "Unable to deserialize message "@ + m@,
    {
        match self {
            DriverError::ModelLoad(m) => {
                let mut text = String::from_str("Error while loading the model ");
                text.append(m.as_str());
                text
            },
            DriverError::Deserialize(m) => {
                let mut text = String::from_str("Unable to deserialize message ");
                text.append(m.as_str());
                text
            },
        }
    }
}

/// The path where the conversation of chat `uid` with a local model is saved.
pub open spec fn session_path(uid: Seq<char>) -> Seq<char> {
    "./"@ + uid + ".llama"@
}

/// The path where the conversation of a chat with a local model is saved.
pub fn session_path_of(uid: &str) -> (res: String)
    ensures
        res@ == session_path(uid@),
{
    let mut path = String::from_str("./");
    path.append(uid);
    path.append(".llama");
    path
}

/// A lower-case hexadecimal digit.
pub open spec fn is_lower_hex(c: char) -> bool {
    ('0' <= c && c <= '9') || ('a' <= c && c <= 'f')
}

/// The hyphenated lower-case text of a random (version 4) UUID: 36
/// characters, hyphens at 8, 13, 18 and 23, hexadecimal digits elsewhere,
/// the version digit 4 at 14 and the variant digit, one of 8, 9, a, b, at 19.
pub open spec fn is_v4_uuid_text(s: Seq<char>) -> bool {
    &&& s.len() == 36
    &&& forall|i: int| 0 <= i < 36 ==> if i == 8 || i == 13 || i == 18 || i == 23 {
        s[i] == '-'
    } else {
        is_lower_hex(#[trigger] s[i])
    }
    &&& s[14] == '4'
    &&& (s[19] == '8' || s[19] == '9' || s[19] == 'a' || s[19] == 'b')
}

/// Calls `uuid::Uuid::new_v4` and writes the identifier with `to_string`.
/// The identifier is random; what holds of every outcome is the shape that
/// the crate's hyphenated lower-case formatting and its version 4 bits give.
#[verifier::external_body]
fn new_v4_uid() -> (res: String)
    ensures
        is_v4_uuid_text(res@),
{
    uuid::Uuid::new_v4().to_string()
}

/// A backend that runs the model in the process. `M` is the loaded model.
pub struct Kalosm<M> {
    model: Option<M>,
}

impl<M> Default for Kalosm<M> {
    fn default() -> (res: Self)
        ensures
            res.model() is None,
    {
        Kalosm { model: None }
    }
}

impl<M> Kalosm<M> {
    /// The loaded model, if any.
    pub closed spec fn model(&self) -> Option<M> {
        self.model
    }

    /// Takes the outcome of loading the model: a model, or the text of the
    /// error that loading gave.
    pub fn set_model(&mut self, loaded: Result<M, String>) -> (res: Result<(), DriverError>)
        ensures
            loaded matches Ok(m) ==> (res is Ok && final(self).model() == Some(m)),
            loaded matches Err(t) ==> ((res matches Err(DriverError::ModelLoad(u)) && u == t)
                && final(self).model() == old(self).model()),
    {
        match loaded {
            Ok(m) => {
                self.model = Some(m);
                Ok(())
            },
            Err(t) => Err(DriverError::ModelLoad(t)),
        }
    }

    /// Whether a model is loaded.
    pub fn is_loaded(&self) -> (res: bool)
        ensures
            res == self.model() is Some,
    {
        self.model.is_some()
    }

    /// The loaded model, if any.
    pub fn loaded_model(&self) -> (res: Option<&M>)
        ensures
            res matches Some(m) ==> self.model() == Some(*m),
            res is None <==> self.model() is None,
    {
        match &self.model {
            Some(m) => Some(m),
            None => None,
        }
    }

    /// Opens a new chat with a fresh random identifier; the conversation is
    /// saved under the identifier.
    pub fn new_chat(&self) -> (res: LocalSession)
        requires
            self.model() is Some,
        ensures
            is_v4_uuid_text(res.uid()),
            res.save_path() == session_path(res.uid()),
            res.restore_from() is None,
            !res.streaming(),
    {
        let uid = new_v4_uid();
        let path = session_path_of(uid.as_str());
        LocalSession::new(uid, path, None)
    }

    /// Reopens the chats of an earlier run, each resuming the conversation
    /// saved under its identifier, given what loading the history gave.
    /// With no model loaded, only an error can be handled.
    pub fn load_history(&self, history: Result<ChatsHistory, HistoryError>) -> (res: Result<Vec<LocalSession>, DriverError>)
        requires
            history is Ok ==> self.model() is Some,
        ensures
            history matches Err(e) ==> (res matches Err(DriverError::Deserialize(t)) && (
                e matches HistoryError::Unreadable ==> t@ == "Unable to load the history"@)
                && (e matches HistoryError::Malformed(m) ==> t@ == m@)),
            history matches Ok(h) ==> (res matches Ok(sessions) && {
                &&& sessions.len() == h.uids.len()
                &&& forall|i: int| 0 <= i < sessions.len() ==> {
                    &&& (#[trigger] sessions[i]).uid() == h.uids[i]@
                    &&& sessions[i].save_path() == session_path(h.uids[i]@)
                    &&& sessions[i].restore_from() == Some(session_path(h.uids[i]@))
                    &&& !sessions[i].streaming()
                }
            }),
    {
        match history {
            Err(e) => Err(DriverError::Deserialize(e.message())),
            Ok(h) => {
                let mut sessions: Vec<LocalSession> = Vec::new();
                let mut i: usize = 0;
                while i < h.uids.len()
                    invariant
                        i <= h.uids.len(),
                        sessions.len() == i,
                        forall|j: int| 0 <= j < i ==> {
                            &&& (#[trigger] sessions[j]).uid() == h.uids[j]@
                            &&& sessions[j].save_path() == session_path(h.uids[j]@)
                            &&& sessions[j].restore_from() == Some(session_path(h.uids[j]@))
                            &&& !sessions[j].streaming()
                        },
                    decreases h.uids.len() - i,
                {
                    let uid = h.uids[i].clone();
                    let path = session_path_of(uid.as_str());
                    let restore = session_path_of(uid.as_str());
                    sessions.push(LocalSession::new(uid, path, Some(restore)));
                    i = i + 1;
                }
                Ok(sessions)
            },
        }
    }
}

/// A decimal digit.
pub open spec fn is_ascii_digit(c: char) -> bool {
    '0' <= c && c <= '9'
}

/// The value of a string of decimal digits.
pub open spec fn decimal_value(d: Seq<char>) -> nat
    decreases d.len(),
{
    if d.len() == 0 {
        0
    } else {
        (decimal_value(d.drop_last()) * 10 + (d.last() as int - '0' as int)) as nat
    }
}

/// The digits of a number text: the text without a leading `+`.
pub open spec fn number_digits(s: Seq<char>) -> Seq<char> {
    if s.len() > 0 && s[0] == '+' {
        s.drop_first()
    } else {
        s
    }
}

/// Every character is a decimal digit.
pub open spec fn all_digits(d: Seq<char>) -> bool {
    forall|i: int| 0 <= i < d.len() ==> is_ascii_digit(#[trigger] d[i])
}

/// What `str::parse::<u16>` gives: an optional `+` followed by one or more
/// decimal digits whose value fits in 16 bits; anything else is refused.
pub open spec fn parse_u16_spec(s: Seq<char>) -> Option<u16> {
    let digits = number_digits(s);
    if digits.len() > 0 && all_digits(digits) && decimal_value(digits) <= u16::MAX {
        Some(decimal_value(digits) as u16)
    } else {
        None
    }
}

/// The decimal digit of value `d`, below 10.
pub open spec fn decimal_digit(d: nat) -> char {
    (48 + d) as char
}

/// The decimal text of a number, without leading zeros.
pub open spec fn decimal_text(n: nat) -> Seq<char>
    decreases n,
{
    if n < 10 {
        seq![decimal_digit(n)]
    } else {
        decimal_text(n / 10).push(decimal_digit(n % 10))
    }
}

proof fn lemma_decimal_text(n: nat)
    ensures
        decimal_text(n).len() > 0,
        all_digits(decimal_text(n)),
        decimal_value(decimal_text(n)) == n,
        decimal_text(n)[0] != '+',
    decreases n,
{
    if n < 10 {
        let t = decimal_text(n);
        assert(t.drop_last() =~= Seq::<char>::empty());
        assert(decimal_value(t.drop_last()) == 0);
        assert((decimal_digit(n) as int) == 48 + n);
    } else {
        lemma_decimal_text(n / 10);
        let t = decimal_text(n);
        let d = n % 10;
        assert((decimal_digit(d) as int) == 48 + d);
        assert(t.drop_last() =~= decimal_text(n / 10));
        assert(t.last() == decimal_digit(d));
        assert forall|i: int| 0 <= i < t.len() implies is_ascii_digit(#[trigger] t[i]) by {
            if i < t.len() - 1 {
                assert(t[i] == decimal_text(n / 10)[i]);
            }
        }
        assert(decimal_value(t) == (n / 10) * 10 + d);
        assert(t[0] == decimal_text(n / 10)[0]);
    }
}

/// Every port number is read back from its decimal text, and from that text
/// behind a `+`.
pub proof fn lemma_parse_u16_reads_decimal_text(n: u16)
    ensures
        parse_u16_spec(decimal_text(n as nat)) == Some(n),
        parse_u16_spec(seq!['+'] + decimal_text(n as nat)) == Some(n),
{
    let t = decimal_text(n as nat);
    lemma_decimal_text(n as nat);
    assert(number_digits(t) == t);
    let p = seq!['+'] + t;
    assert(p[0] == '+');
    assert(p.drop_first() =~= t);
    assert(number_digits(p) == t);
}

/// A text is refused when it is empty, when it is a lone `+`, or when any
/// character but a leading `+` is not a decimal digit.
pub proof fn lemma_parse_u16_refuses_non_number(s: Seq<char>, i: int)
    requires
        0 <= i < s.len(),
        !is_ascii_digit(s[i]),
        !(i == 0 && s[0] == '+'),
    ensures
        parse_u16_spec(s) is None,
        parse_u16_spec(Seq::empty()) is None,
        parse_u16_spec(seq!['+']) is None,
{
    let d = number_digits(s);
    if s[0] == '+' {
        assert(d[i - 1] == s[i]);
    } else {
        assert(d[i] == s[i]);
    }
    assert(seq!['+'].drop_first() =~= Seq::<char>::empty());
}

/// Leading zeros do not change the number that a text is read as.
pub proof fn lemma_parse_u16_leading_zero(t: Seq<char>)
    requires
        t.len() > 0,
        t[0] != '+',
    ensures
        parse_u16_spec(seq!['0'] + t) == parse_u16_spec(t),
{
    let z = seq!['0'] + t;
    assert(number_digits(z) == z);
    assert(number_digits(t) == t);
    lemma_decimal_value_prepend_zero(t);
    assert(all_digits(z) == all_digits(t)) by {
        if all_digits(t) {
            assert forall|i: int| 0 <= i < z.len() implies is_ascii_digit(#[trigger] z[i]) by {
                if i > 0 {
                    assert(z[i] == t[i - 1]);
                }
            }
        }
        if all_digits(z) {
            assert forall|i: int| 0 <= i < t.len() implies is_ascii_digit(#[trigger] t[i]) by {
                assert(z[i + 1] == t[i]);
            }
        }
    }
}

proof fn lemma_decimal_value_prepend_zero(t: Seq<char>)
    ensures
        decimal_value(seq!['0'] + t) == decimal_value(t),
    decreases t.len(),
{
    let z = seq!['0'] + t;
    if t.len() == 0 {
        assert(z.drop_last() =~= Seq::<char>::empty());
        assert(decimal_value(z.drop_last()) == 0);
        assert(z.last() == '0');
        assert(decimal_value(t) == 0);
    } else {
        lemma_decimal_value_prepend_zero(t.drop_last());
        assert(z.drop_last() =~= seq!['0'] + t.drop_last());
        assert(z.last() == t.last());
    }
}

/// A longer run of digits has at least the value of a shorter one that
/// starts at the same place.
proof fn lemma_decimal_value_grows(s: Seq<char>, a: int, b: int, c: int)
    requires
        0 <= a <= b <= c <= s.len(),
        forall|j: int| a <= j < c ==> is_ascii_digit(#[trigger] s[j]),
    ensures
        decimal_value(s.subrange(a, b)) <= decimal_value(s.subrange(a, c)),
    decreases c - b,
{
    if b < c {
        lemma_decimal_value_grows(s, a, b, c - 1);
        let t = s.subrange(a, c);
        assert(t.drop_last() =~= s.subrange(a, c - 1));
        assert(t.last() == s[c - 1]);
        assert(is_ascii_digit(s[c - 1]));
    }
}

/// A text whose digits hold a character that is not a digit is refused.
proof fn lemma_parse_u16_refuses(s: Seq<char>, digits: Seq<char>, k: int)
    requires
        digits == number_digits(s),
        0 <= k < digits.len(),
        !is_ascii_digit(digits[k]),
    ensures
        parse_u16_spec(s) is None,
{
}

/// Reads a port number as `str::parse::<u16>` does: its documentation (that
/// of `u16::from_str_radix` with radix 10) admits an optional `+` sign
/// followed by digits only, and refuses values that overflow.
fn parse_u16(s: &str) -> (res: Option<u16>)
    ensures
        res == parse_u16_spec(s@),
{
    let n = s.unicode_len();
    let start: usize = if n > 0 && s.get_char(0) == '+' {
        1
    } else {
        0
    };
    let ghost digits = s@.subrange(start as int, n as int);
    proof {
        if start == 1 {
            assert(digits =~= s@.drop_first());
        } else {
            assert(digits =~= s@);
        }
    }
    if start == n {
        return None;
    }
    let mut value: u32 = 0;
    let mut i: usize = start;
    assert(s@.subrange(start as int, start as int) =~= Seq::<char>::empty());
    while i < n
        invariant
            start <= i <= n,
            start < n,
            n == s@.len(),
            digits == s@.subrange(start as int, n as int),
            digits == number_digits(s@),
            forall|j: int| start <= j < i ==> is_ascii_digit(#[trigger] s@[j]),
            value == decimal_value(s@.subrange(start as int, i as int)),
            value <= 65535,
        decreases n - i,
    {
        let c = s.get_char(i);
        if !('0' <= c && c <= '9') {
            proof {
                assert(digits[i - start] == c);
                assert(!is_ascii_digit(digits[i - start]));
                lemma_parse_u16_refuses(s@, digits, i - start);
            }
            return None;
        }
        let d: u32 = (c as u32) - ('0' as u32);
        value = value * 10 + d;
        proof {
            let t = s@.subrange(start as int, i + 1);
            assert(t.drop_last() =~= s@.subrange(start as int, i as int));
            assert(t.last() == c);
        }
        if value > 65535 {
            proof {
                if all_digits(digits) {
                    assert forall|j: int| start <= j < n implies is_ascii_digit(#[trigger] s@[j]) by {
                        assert(s@[j] == digits[j - start]);
                    }
                    lemma_decimal_value_grows(s@, start as int, i + 1, n as int);
                }
            }
            return None;
        }
        i = i + 1;
    }
    proof {
        assert(s@.subrange(start as int, n as int) == digits);
        assert forall|j: int| 0 <= j < digits.len() implies is_ascii_digit(#[trigger] digits[j]) by {
            assert(digits[j] == s@[j + start]);
        }
        assert(all_digits(digits));
    }
    Some(value as u16)
}

/// The port of the model server when none is configured or the configured
/// one is not a port number.
pub const DEFAULT_OLLAMA_PORT: u16 = 11434;

/// The model that the model server is asked for.
pub open spec fn llama_model() -> Seq<char> {
    "llama3.1:latest"@
}

/// The port that a configured port text gives.
pub open spec fn port_from(text: Seq<char>) -> u16 {
    match parse_u16_spec(text) {
        Some(p) => p,
        None => DEFAULT_OLLAMA_PORT,
    }
}

/// A backend that asks a model server; it holds where the server is.
pub struct Ollama {
    host: String,
    port: u16,
}

impl Default for Ollama {
    fn default() -> (res: Self)
        ensures
            res.host() == "http://127.0.0.1"@,
            res.port() == DEFAULT_OLLAMA_PORT,
    {
        Ollama { host: String::from_str("http://127.0.0.1"), port: DEFAULT_OLLAMA_PORT }
    }
}

impl Ollama {
    pub closed spec fn host(&self) -> Seq<char> {
        self.host@
    }

    pub closed spec fn port(&self) -> u16 {
        self.port
    }

    /// Points the backend at the server that the configuration names.
    pub fn set_model(&mut self, env: Variables)
        ensures
            final(self).host() == env.ollama_host@,
            final(self).port() == port_from(env.ollama_port@),
    {
        let port = match parse_u16(env.ollama_port.as_str()) {
            Some(p) => p,
            None => DEFAULT_OLLAMA_PORT,
        };
        self.host = env.ollama_host;
        self.port = port;
    }

    /// The host of the server.
    pub fn host_text(&self) -> (res: String)
        ensures
            res@ == self.host(),
    {
        self.host.clone()
    }

    /// The port of the server.
    pub fn port_number(&self) -> (res: u16)
        ensures
            res == self.port(),
    {
        self.port
    }

    /// Opens a new chat with a fresh random identifier, under which the
    /// conversation with the server is kept.
    pub fn new_chat(&self) -> (res: RemoteSession)
        ensures
            is_v4_uuid_text(res.uid()),
            res.model_name() == llama_model(),
            res.state() == RemoteState::Idle,
    {
        RemoteSession::new(new_v4_uid(), String::from_str("llama3.1:latest"))
    }

    /// Reopens the chats of an earlier run, each under its identifier, given
    /// what loading the history gave.
    pub fn load_history(&self, history: Result<ChatsHistory, HistoryError>) -> (res: Result<Vec<RemoteSession>, DriverError>)
        ensures
            history matches Err(e) ==> (res matches Err(DriverError::Deserialize(t)) && (
                e matches HistoryError::Unreadable ==> t@ == "Unable to load the history"@)
                && (e matches HistoryError::Malformed(m) ==> t@ == m@)),
            history matches Ok(h) ==> (res matches Ok(sessions) && {
                &&& sessions.len() == h.uids.len()
                &&& forall|i: int| 0 <= i < sessions.len() ==> {
                    &&& (#[trigger] sessions[i]).uid() == h.uids[i]@
                    &&& sessions[i].model_name() == llama_model()
                    &&& sessions[i].state() == RemoteState::Idle
                }
            }),
    {
        match history {
            Err(e) => Err(DriverError::Deserialize(e.message())),
            Ok(h) => {
                let mut sessions: Vec<RemoteSession> = Vec::new();
                let mut i: usize = 0;
                while i < h.uids.len()
                    invariant
                        i <= h.uids.len(),
                        sessions.len() == i,
                        forall|j: int| 0 <= j < i ==> {
                            &&& (#[trigger] sessions[j]).uid() == h.uids[j]@
                            &&& sessions[j].model_name() == llama_model()
                            &&& sessions[j].state() == RemoteState::Idle
                        },
                    decreases h.uids.len() - i,
                {
                    let uid = h.uids[i].clone();
                    sessions.push(RemoteSession::new(uid, String::from_str("llama3.1:latest")));
                    i = i + 1;
                }
                Ok(sessions)
            },
        }
    }
}

/// What the program around the driver must do to finish loading it.
#[derive(Debug, PartialEq, Eq, Structural)]
pub enum LoadStep {
    /// Load the local model and hand the outcome to `install_local_model`.
    LoadLocalModel,
    /// Nothing: the driver is ready.
    Ready,
}

/// A session opened by the active backend.
pub enum NewSession {
    Local(LocalSession),
    Remote(RemoteSession),
}

/// The backends and the choice of the one in use.
pub struct Driver<M> {
    supported_driver: SupportedDriver,
    kalosm: Kalosm<M>,
    ollama: Ollama,
}

impl<M> Default for Driver<M> {
    fn default() -> (res: Self)
        ensures
            res.active() == SupportedDriver::Kalosm,
            res.kalosm().model() is None,
            res.ollama().host() == "http://127.0.0.1"@,
            res.ollama().port() == DEFAULT_OLLAMA_PORT,
    {
        Driver { supported_driver: SupportedDriver::default(), kalosm: Kalosm::default(), ollama: Ollama::default() }
    }
}

impl<M> Driver<M> {
    pub closed spec fn active(&self) -> SupportedDriver {
        self.supported_driver
    }

    pub closed spec fn kalosm(&self) -> Kalosm<M> {
        self.kalosm
    }

    pub closed spec fn ollama(&self) -> Ollama {
        self.ollama
    }

    /// Chooses the backend to use and configures it. The server backend is
    /// configured from `env`, or from the default configuration when there is
    /// none; the local backend asks for its model to be loaded.
    pub fn load_driver(&mut self, s: SupportedDriver, env: Option<Variables>) -> (res: LoadStep)
        ensures
            final(self).active() == s,
            final(self).kalosm() == old(self).kalosm(),
            s == SupportedDriver::Kalosm ==> res == LoadStep::LoadLocalModel
                && final(self).ollama() == old(self).ollama(),
            s == SupportedDriver::Ollama ==> res == LoadStep::Ready && (match env {
                Some(v) => final(self).ollama().host() == v.ollama_host@
                    && final(self).ollama().port() == port_from(v.ollama_port@),
                None => final(self).ollama().host() == "http://localhost"@
                    && final(self).ollama().port() == port_from("11434"@),
            }),
    {
        self.supported_driver = s;
        match s {
            SupportedDriver::Kalosm => LoadStep::LoadLocalModel,
            SupportedDriver::Ollama => {
                let vars = match env {
                    Some(v) => v,
                    None => Variables::default(),
                };
                self.ollama.set_model(vars);
                LoadStep::Ready
            },
        }
    }

    /// Takes the outcome of loading the local model.
    pub fn install_local_model(&mut self, loaded: Result<M, String>) -> (res: Result<(), DriverError>)
        ensures
            final(self).active() == old(self).active(),
            final(self).ollama() == old(self).ollama(),
            loaded matches Ok(m) ==> (res is Ok && final(self).kalosm().model() == Some(m)),
            loaded matches Err(t) ==> ((res matches Err(DriverError::ModelLoad(u)) && u == t)
                && final(self).kalosm() == old(self).kalosm()),
    {
        self.kalosm.set_model(loaded)
    }

    /// The backend in use.
    pub fn get_driver(&self) -> (res: SupportedDriver)
        ensures
            res == self.active(),
    {
        self.supported_driver
    }

    /// The local backend.
    pub fn kalosm_backend(&self) -> (res: &Kalosm<M>)
        ensures
            *res == self.kalosm(),
    {
        &self.kalosm
    }

    /// The server backend.
    pub fn ollama_backend(&self) -> (res: &Ollama)
        ensures
            *res == self.ollama(),
    {
        &self.ollama
    }

    /// Opens a new chat with the backend in use.
    pub fn new_chat(&self) -> (res: NewSession)
        requires
            self.active() == SupportedDriver::Kalosm ==> self.kalosm().model() is Some,
        ensures
            self.active() == SupportedDriver::Kalosm ==> (res matches NewSession::Local(s) && {
                &&& is_v4_uuid_text(s.uid())
                &&& s.save_path() == session_path(s.uid())
                &&& s.restore_from() is None
                &&& !s.streaming()
            }),
            self.active() == SupportedDriver::Ollama ==> (res matches NewSession::Remote(s) && {
                &&& is_v4_uuid_text(s.uid())
                &&& s.model_name() == llama_model()
                &&& s.state() == RemoteState::Idle
            }),
    {
        match self.supported_driver {
            SupportedDriver::Kalosm => NewSession::Local(self.kalosm.new_chat()),
            SupportedDriver::Ollama => NewSession::Remote(self.ollama.new_chat()),
        }
    }
}

} // verus!
