//! The list of chat identifiers that the service keeps on disk, so that the
//! chats can be restored when the service starts again.
use vstd::prelude::*;

verus! {

/// The identifiers of the chats opened so far, in the order they were opened.
pub struct ChatsHistory {
    pub uids: Vec<String>,
}

/// The identifiers of a list of strings, as sequences of characters.
pub open spec fn texts_of(v: Seq<String>) -> Seq<Seq<char>> {
    v.map_values(|u: String| u@)
}

/// A lower-case hexadecimal digit of value `n`, below 16.
pub open spec fn lower_hex_digit(n: int) -> char {
    if n < 10 {
        (48 + n) as char
    } else {
        (87 + n) as char
    }
}

/// How `serde_json` writes one character inside a string: the quote and the
/// backslash behind a backslash, the control characters that have a short
/// escape by it, the other control characters below 0x20 as `\u00` and two
/// lower-case hexadecimal digits, and every other character as it is.
pub open spec fn json_escaped_char(c: char) -> Seq<char> {
    if c == '"' {
        seq!['\\', '"']
    } else if c == '\\' {
        seq!['\\', '\\']
    } else if c == '\u{8}' {
        seq!['\\', 'b']
    } else if c == '\t' {
        seq!['\\', 't']
    } else if c == '\n' {
        seq!['\\', 'n']
    } else if c == '\u{c}' {
        seq!['\\', 'f']
    } else if c == '\r' {
        seq!['\\', 'r']
    } else if (c as int) < 32 {
        seq!['\\', 'u', '0', '0', lower_hex_digit((c as int) / 16), lower_hex_digit((c as int) % 16)]
    } else {
        seq![c]
    }
}

/// The JSON text of a string: its escaped characters between quotes.
pub open spec fn json_string_text(s: Seq<char>) -> Seq<char> {
    seq!['"'] + s.map_values(|c: char| json_escaped_char(c)).flatten() + seq!['"']
}

/// The JSON texts of strings, separated by commas.
pub open spec fn json_items_text(items: Seq<Seq<char>>) -> Seq<char>
    decreases items.len(),
{
    if items.len() == 0 {
        Seq::empty()
    } else if items.len() == 1 {
        json_string_text(items[0])
    } else {
        json_items_text(items.drop_last()) + seq![','] + json_string_text(items.last())
    }
}

/// The JSON text of an array of strings, as `serde_json::to_string` writes
/// it: compact, the strings between brackets, separated by commas.
pub open spec fn json_text_of_strings(items: Seq<Seq<char>>) -> Seq<char> {
    seq!['['] + json_items_text(items) + seq![']']
}

/// The file contents that record a history: a JSON object whose one field
/// `uids` holds the identifiers.
pub open spec fn history_json(uids: Seq<Seq<char>>) -> Seq<char> {
    "{\"uids\":"@ + json_text_of_strings(uids) + "}"@
}

#[verifier::external_type_specification]
#[verifier::external_body]
pub struct ExJsonError(serde_json::Error);

/// Calls `serde_json::to_string` on a list of strings. It writes the compact
/// array text of its compact formatter, with the escapes of its escape table,
/// as `json_text_of_strings` states them. It succeeds:
/// its documentation says it fails only where a `Serialize` impl fails or a
/// map has non-string keys, and the impls for a list of strings write to an
/// in-memory buffer, whose writes do not fail.
#[verifier::external_body]
fn json_of_strings(items: &Vec<String>) -> (res: Result<String, serde_json::Error>)
    ensures
        res is Ok,
        res matches Ok(s) ==> s@ == json_text_of_strings(texts_of(items@)),
{
    serde_json::to_string(items)
}

/// What reading the history file gave.
pub enum HistoryRead {
    /// There is no such file.
    Missing,
    /// The file exists but could not be read.
    Unreadable,
    /// The file was read and decoded.
    Decoded(ChatsHistory),
    /// The file was read but does not hold a history; the text says why.
    Malformed(String),
}

/// Why the history could not be loaded.
#[derive(Debug)]
pub enum HistoryError {
    Unreadable,
    Malformed(String),
}

impl HistoryError {
    /// The text of the error.
    pub fn message(&self) -> (res: String)
        ensures
            self matches HistoryError::Unreadable ==> res@ == "Unable to load the history"@,
            self matches HistoryError::Malformed(m) ==> res@ == m@,
    {
        match self {
            HistoryError::Unreadable => String::from_str("Unable to load the history"),
            HistoryError::Malformed(m) => m.clone(),
        }
    }
}

impl Default for ChatsHistory {
    fn default() -> (res: Self)
        ensures
            res.uids@ == Seq::<String>::empty(),
    {
        ChatsHistory { uids: Vec::new() }
    }
}

impl ChatsHistory {
    /// The identifiers, as sequences of characters.
    pub open spec fn view_uids(&self) -> Seq<Seq<char>> {
        texts_of(self.uids@)
    }

    /// Records a newly opened chat.
    pub fn record(&mut self, uid: String)
        ensures
            final(self).uids@ == old(self).uids@.push(uid),
            final(self).view_uids() == old(self).view_uids().push(uid@),
    {
        self.uids.push(uid);
        assert(final(self).view_uids() =~= old(self).view_uids().push(uid@));
    }

    /// The contents of the history file for this history.
    pub fn to_json(&self) -> (res: Result<String, serde_json::Error>)
        ensures
            res is Ok,
            res matches Ok(s) ==> s@ == history_json(self.view_uids()),
    {
        match json_of_strings(&self.uids) {
            Ok(array) => {
                let mut text = String::from_str("{\"uids\":");
                text.append(array.as_str());
                text.append("}");
                Ok(text)
            },
            Err(e) => Err(e),
        }
    }

    /// The history that the service starts from, given what reading the
    /// history file gave: no file means no chat yet.
    pub fn from_read(read: HistoryRead) -> (res: Result<ChatsHistory, HistoryError>)
        ensures
            read matches HistoryRead::Missing ==> (res matches Ok(h) && h.uids@.len() == 0),
            read matches HistoryRead::Unreadable ==> res matches Err(HistoryError::Unreadable),
            read matches HistoryRead::Decoded(h) ==> (res matches Ok(g) && g == h),
            read matches HistoryRead::Malformed(m) ==> (res matches Err(HistoryError::Malformed(n)) && n == m),
    {
        match read {
            HistoryRead::Missing => Ok(ChatsHistory::default()),
            HistoryRead::Unreadable => Err(HistoryError::Unreadable),
            HistoryRead::Decoded(h) => Ok(h),
            HistoryRead::Malformed(m) => Err(HistoryError::Malformed(m)),
        }
    }
}

/// Whether `serde_json` writes a character inside a string with an escape.
pub open spec fn needs_escape(c: char) -> bool {
    c == '"' || c == '\\' || (c as int) < 32
}

/// A character that needs no escape is written as it is; one that needs an
/// escape is written as a backslash followed by one or more characters.
pub proof fn lemma_escaped_char(c: char)
    ensures
        !needs_escape(c) ==> json_escaped_char(c) == seq![c],
        needs_escape(c) ==> json_escaped_char(c).len() > 1 && json_escaped_char(c)[0] == '\\',
{
}

/// Appending a character to a string appends its written form inside the
/// quotes of the string's JSON text.
pub proof fn lemma_json_string_push(s: Seq<char>, c: char)
    ensures
        json_string_text(s.push(c)) == json_string_text(s).drop_last() + json_escaped_char(c) + seq!['"'],
{
    let f = |c: char| json_escaped_char(c);
    assert(s.push(c).map_values(f) =~= s.map_values(f).push(json_escaped_char(c)));
    s.map_values(f).lemma_flatten_push(json_escaped_char(c));
    let body = s.map_values(f).flatten();
    assert(json_string_text(s).drop_last() =~= seq!['"'] + body);
    assert(json_string_text(s.push(c)) =~= seq!['"'] + (body + json_escaped_char(c)) + seq!['"']);
    assert(seq!['"'] + (body + json_escaped_char(c)) + seq!['"']
        =~= (seq!['"'] + body) + json_escaped_char(c) + seq!['"']);
}

/// A string none of whose characters needs an escape is written between
/// quotes exactly as it is.
pub proof fn lemma_plain_json_string(s: Seq<char>)
    requires
        forall|i: int| 0 <= i < s.len() ==> !needs_escape(#[trigger] s[i]),
    ensures
        json_string_text(s) == seq!['"'] + s + seq!['"'],
    decreases s.len(),
{
    if s.len() == 0 {
        assert(s.map_values(|c: char| json_escaped_char(c)) =~= Seq::<Seq<char>>::empty());
        assert(json_string_text(s) =~= seq!['"'] + s + seq!['"']);
    } else {
        let init = s.drop_last();
        let c = s.last();
        assert forall|i: int| 0 <= i < init.len() implies !needs_escape(#[trigger] init[i]) by {
            assert(init[i] == s[i]);
        }
        lemma_plain_json_string(init);
        lemma_escaped_char(c);
        assert(init.push(c) =~= s);
        lemma_json_string_push(init, c);
        assert((seq!['"'] + init + seq!['"']).drop_last() =~= seq!['"'] + init);
        assert(seq!['"'] + init + seq![c] + seq!['"'] =~= seq!['"'] + s + seq!['"']);
    }
}

/// The history file of no chat holds an empty list.
pub proof fn lemma_history_json_empty()
    ensures
        history_json(Seq::empty()) == "{\"uids\":"@ + seq!['[', ']'] + "}"@,
{
    assert(json_text_of_strings(Seq::empty()) =~= seq!['[', ']']);
}

/// Recording one more chat writes its identifier into the history file
/// after all the identifiers written before, separated by a comma when
/// there were any: the file lists every recorded identifier, in order.
pub proof fn lemma_history_json_push(u: Seq<Seq<char>>, x: Seq<char>)
    ensures
        u.len() == 0 ==> history_json(u.push(x)) == "{\"uids\":"@ + seq!['['] + json_string_text(x) + seq![']'] + "}"@,
        u.len() > 0 ==> history_json(u.push(x))
            == history_json(u).take(history_json(u).len() - 2) + seq![','] + json_string_text(x) + seq![']'] + "}"@,
{
    reveal_strlit("}");
    let head = "{\"uids\":"@;
    let tail = "}"@;
    assert(u.push(x).drop_last() =~= u);
    assert(u.push(x).last() == x);
    if u.len() == 0 {
        assert(json_items_text(u.push(x)) == json_string_text(x));
        assert(history_json(u.push(x)) =~= head + seq!['['] + json_string_text(x) + seq![']'] + tail);
    } else {
        let items = json_items_text(u);
        assert(json_items_text(u.push(x)) == items + seq![','] + json_string_text(x));
        let h = history_json(u);
        assert(h =~= head + seq!['['] + items + seq![']'] + tail);
        assert(h.take(h.len() - 2) =~= head + seq!['['] + items);
        assert(history_json(u.push(x)) =~= head + seq!['['] + items + seq![','] + json_string_text(x) + seq![']'] + tail);
    }
}

} // verus!
