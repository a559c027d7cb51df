//! The messages that the page of the editor sends.

use serde_json::Value;
use vstd::prelude::*;

use crate::editor;
use crate::params::ParamId;
use crate::state;
use crate::text;

verus! {

/// One JSON value of a message, as far as a message is read: what stands inside
/// an array or an object that is itself a member is not looked at.
#[derive(Clone, Debug)]
pub enum Json {
    Null,
    Bool(bool),
    /// The number as the bits of a 64-bit float, and as an integer from zero
    /// up where it is written as one.
    Number { float: Option<u64>, whole: Option<u64> },
    Text(String),
    Array,
    Object,
}

/// A JSON value with the text of a string in place of the string.
pub enum JsonView {
    Null,
    Bool(bool),
    Number { float: Option<u64>, whole: Option<u64> },
    Text(Seq<char>),
    Array,
    Object,
}

impl View for Json {
    type V = JsonView;

    open spec fn view(&self) -> JsonView {
        match *self {
            Json::Null => JsonView::Null,
            Json::Bool(b) => JsonView::Bool(b),
            Json::Number { float, whole } => JsonView::Number { float, whole },
            Json::Text(s) => JsonView::Text(s@),
            Json::Array => JsonView::Array,
            Json::Object => JsonView::Object,
        }
    }
}

/// A member of an object.
#[derive(Clone, Debug)]
pub struct Member {
    pub name: String,
    pub value: Json,
    /// The whole value, as the log shows it.
    pub shown: String,
}

/// A member with texts in place of strings.
pub struct MemberView {
    pub name: Seq<char>,
    pub value: JsonView,
    pub shown: Seq<char>,
}

impl View for Member {
    type V = MemberView;

    open spec fn view(&self) -> MemberView {
        MemberView { name: self.name@, value: self.value@, shown: self.shown@ }
    }
}

/// The members of an object.
pub open spec fn members_view(members: Seq<Member>) -> Seq<MemberView> {
    Seq::new(members.len(), |i: int| members[i]@)
}

/// A document: what is wrong with it where it is not JSON, no members where it is
/// not an object.
pub open spec fn document_view(doc: Result<Option<Vec<Member>>, String>) -> Result<
    Option<Seq<MemberView>>,
    Seq<char>,
> {
    match doc {
        Err(why) => Err(why@),
        Ok(None) => Ok(None),
        Ok(Some(members)) => Ok(Some(members_view(members@))),
    }
}

/// What `serde_json::from_str` reads in a text: an error where the text is not
/// one JSON value, otherwise the members of the object that it is, or none.
pub uninterp spec fn json_members(raw: Seq<char>) -> Result<Option<Seq<MemberView>>, Seq<char>>;

/// The complaints of `serde_json` about a text that is not JSON.
pub open spec fn complaints() -> Seq<Seq<char>> {
    seq![
        "EOF while parsing a list"@,
        "EOF while parsing an object"@,
        "EOF while parsing a string"@,
        "EOF while parsing a value"@,
        "expected `:`"@,
        "expected `,` or `]`"@,
        "expected `,` or `}`"@,
        "expected ident"@,
        "expected value"@,
        "expected `\"`"@,
        "invalid escape"@,
        "invalid number"@,
        "number out of range"@,
        "invalid unicode code point"@,
        "control character (\\u0000-\\u001F) found while parsing a string"@,
        "key must be a string"@,
        "lone leading surrogate in hex escape"@,
        "trailing comma"@,
        "trailing characters"@,
        "unexpected end of hex escape"@,
        "recursion limit exceeded"@,
    ]
}

/// A complaint and a place: nothing of the text that it is about.
pub open spec fn is_error_text(why: Seq<char>) -> bool {
    exists|i: int, line: nat, column: nat|
        0 <= i < complaints().len() && why == #[trigger] error_text(i, line, column)
}

/// The complaint with this number about the text at a place.
pub open spec fn error_text(i: int, line: nat, column: nat) -> Seq<char> {
    complaints()[i] + " at line "@ + text::decimal(line) + " column "@ + text::decimal(column)
}

/// `serde_json::from_str` into a `serde_json::Value`, and the members of the
/// object that came out, one for one, each with the `Debug` text of its value;
/// or the text of the error.
///
/// The contract names the result, as a function of the text: the grammar of
/// JSON, the rounding of its numbers and the look of a value in the log are those
/// of the outside crate. Of the error it says that its text is one of a few fixed
/// complaints with a line and a column.
#[verifier::external_body]
fn parse_json(raw: &str) -> (doc: Result<Option<Vec<Member>>, String>)
    ensures
        document_view(doc) == json_members(raw@),
        doc matches Err(why) ==> is_error_text(why@),
{
    let value: Value = serde_json::from_str(raw).map_err(|e| e.to_string())?;
    Ok(value.as_object().map(|members| members.iter().map(|(name, v)| Member {
        name: name.clone(),
        shown: format!("{:?}", v),
        value: match v {
            Value::Null => Json::Null,
            Value::Bool(b) => Json::Bool(*b),
            Value::Number(n) => Json::Number { float: n.as_f64().map(|x| x.to_bits()), whole: n.as_u64() },
            Value::String(s) => Json::Text(s.clone()),
            Value::Array(_) => Json::Array,
            Value::Object(_) => Json::Object,
        },
    }).collect()))
}

/// The member with this name.
pub open spec fn member(members: Seq<MemberView>, name: Seq<char>) -> Option<MemberView>
    decreases members.len(),
{
    if members.len() == 0 {
        None
    } else if members[0].name == name {
        Some(members[0])
    } else {
        member(members.drop_first(), name)
    }
}

/// The value of the member with this name.
pub open spec fn value_member(members: Seq<MemberView>, name: Seq<char>) -> Option<JsonView> {
    match member(members, name) {
        Some(m) => Some(m.value),
        None => None,
    }
}

/// The text of the member with this name, and no text where it is not one.
pub open spec fn text_member(members: Seq<MemberView>, name: Seq<char>) -> Seq<char> {
    match value_member(members, name) {
        Some(JsonView::Text(s)) => s,
        _ => Seq::empty(),
    }
}

/// The member with this name as a size in pixels: zero where it is not an
/// integer from zero up, and otherwise its lowest 32 bits.
pub open spec fn size_member(members: Seq<MemberView>, name: Seq<char>) -> u32 {
    match value_member(members, name) {
        Some(JsonView::Number { float, whole: Some(n) }) => (n % 0x1_0000_0000) as u32,
        _ => 0,
    }
}

/// A value for a parameter: a number as the bits of a 64-bit float, a switch,
/// or a variant.
#[derive(Clone, Copy, Debug, PartialEq, Eq, Structural)]
pub enum NewValue {
    Number(u64),
    Flag(bool),
    Choice(usize),
}

/// The value that a message carries for a parameter: a number, a switch, or a
/// word that the parameter understands.
pub open spec fn new_value(id: Seq<char>, value: Option<JsonView>) -> Option<NewValue> {
    match value {
        Some(JsonView::Number { float: Some(bits), whole }) => Some(NewValue::Number(bits)),
        Some(JsonView::Bool(b)) => Some(NewValue::Flag(b)),
        Some(JsonView::Text(s)) => match editor::place_in(editor::vocabulary(id), s) {
            Some(i) => Some(NewValue::Choice(i)),
            None => None,
        },
        _ => None,
    }
}

/// What a message asks for.
#[derive(Clone, Debug)]
pub enum UiMessage {
    /// Not JSON, and what is wrong with it.
    Malformed { why: String },
    /// Move a parameter.
    SetParam { param: ParamId, value: NewValue },
    /// A value that the parameter does not understand, as the log shows it, or
    /// none at all.
    BadValue { id: String, shown: Option<String> },
    /// A value for a parameter there is not.
    UnknownParam { id: String },
    /// Give the keyboard back to the host.
    ReleaseFocus,
    /// Make the window this large.
    Resize { width: u32, height: u32 },
    /// A size the window does not take.
    ResizeRefused { width: u32, height: u32 },
    /// Keep the licence token, where there is one.
    SaveToken { token: Option<String> },
    /// Forget the licence token.
    ClearToken,
    /// No message there is.
    Unknown { kind: String },
}

/// A message with the text of a string in place of the string.
pub enum MessageView {
    Malformed { why: Seq<char> },
    SetParam { param: ParamId, value: NewValue },
    BadValue { id: Seq<char>, shown: Option<Seq<char>> },
    UnknownParam { id: Seq<char> },
    ReleaseFocus,
    Resize { width: u32, height: u32 },
    ResizeRefused { width: u32, height: u32 },
    SaveToken { token: Option<Seq<char>> },
    ClearToken,
    Unknown { kind: Seq<char> },
}

impl View for UiMessage {
    type V = MessageView;

    open spec fn view(&self) -> MessageView {
        match *self {
            UiMessage::Malformed { why } => MessageView::Malformed { why: why@ },
            UiMessage::SetParam { param, value } => MessageView::SetParam { param, value },
            UiMessage::BadValue { id, shown: Some(v) } => MessageView::BadValue {
                id: id@,
                shown: Some(v@),
            },
            UiMessage::BadValue { id, shown: None } => MessageView::BadValue {
                id: id@,
                shown: None,
            },
            UiMessage::UnknownParam { id } => MessageView::UnknownParam { id: id@ },
            UiMessage::ReleaseFocus => MessageView::ReleaseFocus,
            UiMessage::Resize { width, height } => MessageView::Resize { width, height },
            UiMessage::ResizeRefused { width, height } => MessageView::ResizeRefused {
                width,
                height,
            },
            UiMessage::SaveToken { token: Some(t) } => MessageView::SaveToken { token: Some(t@) },
            UiMessage::SaveToken { token: None } => MessageView::SaveToken { token: None },
            UiMessage::ClearToken => MessageView::ClearToken,
            UiMessage::Unknown { kind } => MessageView::Unknown { kind: kind@ },
        }
    }
}

/// What a message asks for, from its members.
pub open spec fn message_of(members: Seq<MemberView>) -> MessageView {
    let kind = text_member(members, "type"@);
    if kind == "set_param"@ {
        let id = text_member(members, "id"@);
        match (new_value(id, value_member(members, "value"@)), state::known(id)) {
            (Some(value), Some(param)) => MessageView::SetParam { param, value },
            (None, _) => MessageView::BadValue {
                id,
                shown: match member(members, "value"@) {
                    Some(m) => Some(m.shown),
                    None => None,
                },
            },
            (Some(_), None) => MessageView::UnknownParam { id },
        }
    } else if kind == "release_focus"@ {
        MessageView::ReleaseFocus
    } else if kind == "resize"@ {
        let width = size_member(members, "width"@);
        let height = size_member(members, "height"@);
        if editor::size_is_allowed(width, height) {
            MessageView::Resize { width, height }
        } else {
            MessageView::ResizeRefused { width, height }
        }
    } else if kind == "save_token"@ {
        MessageView::SaveToken {
            token: match value_member(members, "token"@) {
                Some(JsonView::Text(s)) => Some(s),
                _ => None,
            },
        }
    } else if kind == "clear_token"@ {
        MessageView::ClearToken
    } else {
        MessageView::Unknown { kind }
    }
}

/// The member with this name.
fn find_member<'a>(members: &'a Vec<Member>, name: &str) -> (r: Option<&'a Member>)
    ensures
        match r {
            Some(m) => member(members_view(members@), name@) == Some(m@),
            None => member(members_view(members@), name@) is None,
        },
{
    let ghost all = members_view(members@);
    let mut i: usize = 0;
    assert(all.skip(0) =~= all);
    while i < members.len()
        invariant
            i <= members.len(),
            all == members_view(members@),
            member(all, name@) == member(all.skip(i as int), name@),
        decreases members.len() - i,
    {
        assert(all.skip(i as int).drop_first() =~= all.skip(i + 1));
        if text::same_text(members[i].name.as_str(), name) {
            return Some(&members[i]);
        }
        i += 1;
    }
    None
}

/// The value of the member with this name.
fn find_value<'a>(members: &'a Vec<Member>, name: &str) -> (r: Option<&'a Json>)
    ensures
        match r {
            Some(v) => value_member(members_view(members@), name@) == Some(v@),
            None => value_member(members_view(members@), name@) is None,
        },
{
    match find_member(members, name) {
        Some(m) => Some(&m.value),
        None => None,
    }
}

/// The text of the member with this name.
fn find_text(members: &Vec<Member>, name: &str) -> (r: String)
    ensures
        r@ == text_member(members_view(members@), name@),
{
    match find_value(members, name) {
        Some(Json::Text(s)) => s.clone(),
        _ => String::new(),
    }
}

/// The member with this name as a size in pixels.
fn find_size(members: &Vec<Member>, name: &str) -> (r: u32)
    ensures
        r == size_member(members_view(members@), name@),
{
    match find_value(members, name) {
        Some(Json::Number { float, whole: Some(n) }) => (*n % 0x1_0000_0000) as u32,
        _ => 0,
    }
}

/// What a message asks for, once its members are known.
pub fn read_message(members: &Vec<Member>) -> (r: UiMessage)
    ensures
        r@ == message_of(members_view(members@)),
{
    let kind = find_text(members, "type");
    if text::same_text(kind.as_str(), "set_param") {
        let id = find_text(members, "id");
        let value = match find_value(members, "value") {
            Some(Json::Number { float: Some(bits), whole }) => Some(NewValue::Number(*bits)),
            Some(Json::Bool(b)) => Some(NewValue::Flag(*b)),
            Some(Json::Text(s)) => match editor::string_to_param_value(id.as_str(), s.as_str()) {
                Some(i) => Some(NewValue::Choice(i)),
                None => None,
            },
            _ => None,
        };
        match (value, state::find_known(id.as_str())) {
            (Some(value), Some(param)) => UiMessage::SetParam { param, value },
            (None, _) => {
                let shown = match find_member(members, "value") {
                    Some(m) => Some(m.shown.clone()),
                    None => None,
                };
                UiMessage::BadValue { id, shown }
            },
            (Some(_), None) => UiMessage::UnknownParam { id },
        }
    } else if text::same_text(kind.as_str(), "release_focus") {
        UiMessage::ReleaseFocus
    } else if text::same_text(kind.as_str(), "resize") {
        let width = find_size(members, "width");
        let height = find_size(members, "height");
        if editor::allows_size(width, height) {
            UiMessage::Resize { width, height }
        } else {
            UiMessage::ResizeRefused { width, height }
        }
    } else if text::same_text(kind.as_str(), "save_token") {
        let token = match find_value(members, "token") {
            Some(Json::Text(s)) => Some(s.clone()),
            _ => None,
        };
        UiMessage::SaveToken { token }
    } else if text::same_text(kind.as_str(), "clear_token") {
        UiMessage::ClearToken
    } else {
        UiMessage::Unknown { kind }
    }
}

/// What a message asks for: from its members, where it is an object, and as if
/// it had none where it is another JSON value.
pub open spec fn message_in(raw: Seq<char>) -> MessageView {
    match json_members(raw) {
        Err(why) => MessageView::Malformed { why },
        Ok(None) => message_of(Seq::empty()),
        Ok(Some(members)) => message_of(members),
    }
}

/// What a message asks for. Nothing of a message that is not JSON is kept but what
/// is wrong with it, and where.
pub fn handle_ipc(raw: &str) -> (r: UiMessage)
    ensures
        r@ == message_in(raw@),
        r@ matches MessageView::Malformed { why } ==> is_error_text(why),
{
    match parse_json(raw) {
        Err(why) => UiMessage::Malformed { why },
        Ok(None) => {
            let members: Vec<Member> = Vec::new();
            assert(members_view(members@) =~= Seq::empty());
            read_message(&members)
        },
        Ok(Some(members)) => read_message(&members),
    }
}

/// A width and a height.
pub open spec fn size_text(width: u32, height: u32) -> Seq<char> {
    text::decimal(width as nat) + "x"@ + text::decimal(height as nat)
}

/// A value as the log shows it, or that there is none.
pub open spec fn shown_text(shown: Option<Seq<char>>) -> Seq<char> {
    match shown {
        Some(v) => "Some("@ + v + ")"@,
        None => "None"@,
    }
}

/// What the log says of a message. A token never goes there, nor the text of a
/// message that could not be read.
pub open spec fn log_lines(message: MessageView) -> Seq<Seq<char>> {
    match message {
        MessageView::Malformed { why } => seq!["[HardwaveWettBoi] IPC parse error: "@ + why],
        MessageView::SetParam { .. } => Seq::empty(),
        MessageView::BadValue { id, shown } => seq![
            "[HardwaveWettBoi] IPC set_param '"@ + id + "': could not parse value "@ + shown_text(
                shown,
            ),
        ],
        MessageView::UnknownParam { id } => seq![
            "[HardwaveWettBoi] IPC set_param: unknown param id '"@ + id + "'"@,
        ],
        MessageView::ReleaseFocus => Seq::empty(),
        MessageView::Resize { width, height } => seq![
            "[HardwaveWettBoi] IPC resize: "@ + size_text(width, height),
        ],
        MessageView::ResizeRefused { width, height } => seq![
            "[HardwaveWettBoi] IPC resize: "@ + size_text(width, height),
            "[HardwaveWettBoi] IPC resize: out of bounds ("@ + size_text(width, height) + " not in "@
                + size_text(editor::MIN_WIDTH, editor::MIN_HEIGHT) + "–"@ + size_text(
                editor::MAX_WIDTH,
                editor::MAX_HEIGHT,
            ) + ")"@,
        ],
        MessageView::SaveToken { .. } => seq![
            "[HardwaveWettBoi] IPC save_token: persisting to disk"@,
        ],
        MessageView::ClearToken => seq!["[HardwaveWettBoi] IPC clear_token: removing from disk"@],
        MessageView::Unknown { kind } => seq![
            "[HardwaveWettBoi] IPC unknown message type: '"@ + kind + "'"@,
        ],
    }
}

/// The texts of some lines.
pub open spec fn line_texts(lines: Seq<String>) -> Seq<Seq<char>> {
    Seq::new(lines.len(), |i: int| lines[i]@)
}

/// Append a width and a height.
fn push_size(out: &mut String, width: u32, height: u32)
    ensures
        final(out)@ == old(out)@ + size_text(width, height),
{
    let ghost before = out@;
    text::push_decimal(out, width as u128);
    out.append("x");
    text::push_decimal(out, height as u128);
    assert(out@ =~= before + size_text(width, height));
}

/// A line around a word.
fn line_around(head: &str, word: &str, tail: &str) -> (r: String)
    ensures
        r@ == head@ + word@ + tail@,
{
    let mut r = head.to_string();
    r.append(word);
    r.append(tail);
    r
}

/// What the log says of a message.
pub fn log_of(message: &UiMessage) -> (r: Vec<String>)
    ensures
        line_texts(r@) == log_lines(message@),
{
    let mut r: Vec<String> = Vec::new();
    match message {
        UiMessage::Malformed { why } => {
            r.push(line_around("[HardwaveWettBoi] IPC parse error: ", why.as_str(), ""));
            proof {
                reveal_strlit("");
                assert(r@[0]@ =~= log_lines(message@)[0]);
            }
        },
        UiMessage::SetParam { .. } => {},
        UiMessage::BadValue { id, shown } => {
            let mut line = line_around(
                "[HardwaveWettBoi] IPC set_param '",
                id.as_str(),
                "': could not parse value ",
            );
            match shown {
                Some(v) => {
                    line.append(line_around("Some(", v.as_str(), ")").as_str());
                },
                None => {
                    line.append("None");
                },
            }
            r.push(line);
        },
        UiMessage::UnknownParam { id } => {
            r.push(
                line_around(
                    "[HardwaveWettBoi] IPC set_param: unknown param id '",
                    id.as_str(),
                    "'",
                ),
            );
        },
        UiMessage::ReleaseFocus => {},
        UiMessage::Resize { width, height } => {
            let mut line = "[HardwaveWettBoi] IPC resize: ".to_string();
            push_size(&mut line, *width, *height);
            r.push(line);
        },
        UiMessage::ResizeRefused { width, height } => {
            let mut line = "[HardwaveWettBoi] IPC resize: ".to_string();
            push_size(&mut line, *width, *height);
            r.push(line);
            let mut why = "[HardwaveWettBoi] IPC resize: out of bounds (".to_string();
            push_size(&mut why, *width, *height);
            why.append(" not in ");
            push_size(&mut why, editor::MIN_WIDTH, editor::MIN_HEIGHT);
            why.append("–");
            push_size(&mut why, editor::MAX_WIDTH, editor::MAX_HEIGHT);
            why.append(")");
            r.push(why);
        },
        UiMessage::SaveToken { .. } => {
            r.push("[HardwaveWettBoi] IPC save_token: persisting to disk".to_string());
        },
        UiMessage::ClearToken => {
            r.push("[HardwaveWettBoi] IPC clear_token: removing from disk".to_string());
        },
        UiMessage::Unknown { kind } => {
            r.push(
                line_around(
                    "[HardwaveWettBoi] IPC unknown message type: '",
                    kind.as_str(),
                    "'",
                ),
            );
        },
    }
    assert(line_texts(r@) =~= log_lines(message@));
    r
}

/// The log holds no token: what it says of a message that saves one is the same
/// for every token.
pub proof fn law_the_log_holds_no_token(a: Option<Seq<char>>, b: Option<Seq<char>>)
    ensures
        log_lines(MessageView::SaveToken { token: a }) == log_lines(
            MessageView::SaveToken { token: b },
        ),
{
}

/// The log holds nothing of a message that is not JSON, such as one that was cut
/// short: it holds one of a few complaints, the same for every such message, with
/// a line and a column.
pub proof fn law_the_log_holds_nothing_of_a_broken_message(why: Seq<char>)
    requires
        is_error_text(why),
    ensures
        exists|i: int, line: nat, column: nat|
            0 <= i < complaints().len() && log_lines(MessageView::Malformed { why }) == seq![
                "[HardwaveWettBoi] IPC parse error: "@ + #[trigger] error_text(i, line, column),
            ],
{
    let (i, line, column) = choose|i: int, line: nat, column: nat|
        0 <= i < complaints().len() && why == #[trigger] error_text(i, line, column);
    assert(log_lines(MessageView::Malformed { why }) == seq![
        "[HardwaveWettBoi] IPC parse error: "@ + error_text(i, line, column),
    ]);
}

/// The members of a message that moves a parameter.
pub open spec fn moving(id: Seq<char>, value: MemberView) -> Seq<MemberView> {
    seq![
        MemberView { name: "type"@, value: JsonView::Text("set_param"@), shown: Seq::empty() },
        MemberView { name: "id"@, value: JsonView::Text(id), shown: Seq::empty() },
        value,
    ]
}

/// The member that holds the new value.
pub open spec fn to(value: JsonView, shown: Seq<char>) -> MemberView {
    MemberView { name: "value"@, value, shown }
}

/// What is found in such a message.
proof fn lemma_moving(id: Seq<char>, value: MemberView)
    requires
        value.name == "value"@,
    ensures
        text_member(moving(id, value), "type"@) == "set_param"@,
        text_member(moving(id, value), "id"@) == id,
        member(moving(id, value), "value"@) == Some(value),
{
    let m = moving(id, value);
    reveal_strlit("type");
    reveal_strlit("id");
    reveal_strlit("value");
    assert("type"@.len() == 4 && "id"@.len() == 2 && "value"@.len() == 5);
    reveal_with_fuel(member, 4);
    assert(m.drop_first()[0] == m[1]);
    assert(m.drop_first().drop_first()[0] == m[2]);
}

/// Every word that the page can send for a parameter moves it, to the variant
/// that the word stands for.
pub proof fn law_every_word_moves_its_parameter(p: ParamId, i: usize, shown: Seq<char>)
    requires
        i < editor::vocabulary(p.described().id@).len(),
    ensures
        message_of(
            moving(
                p.described().id@,
                to(JsonView::Text(editor::vocabulary(p.described().id@)[i as int]), shown),
            ),
        ) == (MessageView::SetParam { param: p, value: NewValue::Choice(i) }),
{
    let id = p.described().id@;
    let words = editor::vocabulary(id);
    lemma_moving(id, to(JsonView::Text(words[i as int]), shown));
    editor::law_words_are_distinct(id);
    editor::lemma_one_place(words, words[i as int], Some(i));
    state::lemma_known(p);
}

/// A number or a switch moves any parameter there is.
pub proof fn law_a_number_moves_its_parameter(
    p: ParamId,
    bits: u64,
    whole: Option<u64>,
    on: bool,
    shown: Seq<char>,
)
    ensures
        message_of(
            moving(
                p.described().id@,
                to(JsonView::Number { float: Some(bits), whole }, shown),
            ),
        ) == (MessageView::SetParam { param: p, value: NewValue::Number(bits) }),
        message_of(moving(p.described().id@, to(JsonView::Bool(on), shown))) == (
        MessageView::SetParam {
            param: p,
            value: NewValue::Flag(on),
        }),
{
    let id = p.described().id@;
    lemma_moving(id, to(JsonView::Number { float: Some(bits), whole }, shown));
    lemma_moving(id, to(JsonView::Bool(on), shown));
    state::lemma_known(p);
}

/// A word that a parameter does not understand is refused rather than guessed.
pub proof fn law_an_unknown_word_moves_nothing(
    id: Seq<char>,
    word: Seq<char>,
    shown: Seq<char>,
)
    requires
        forall|i: int|
            0 <= i < editor::vocabulary(id).len() ==> (#[trigger] editor::vocabulary(id)[i])
                != word,
    ensures
        message_of(moving(id, to(JsonView::Text(word), shown))) == (MessageView::BadValue {
            id,
            shown: Some(shown),
        }),
{
    lemma_moving(id, to(JsonView::Text(word), shown));
    editor::lemma_one_place(editor::vocabulary(id), word, None);
}

/// The member that says what a message is about.
pub open spec fn about(kind: Seq<char>) -> MemberView {
    MemberView { name: "type"@, value: JsonView::Text(kind), shown: Seq::empty() }
}

/// A member that holds a text.
pub open spec fn with_text(name: Seq<char>, s: Seq<char>) -> MemberView {
    MemberView { name, value: JsonView::Text(s), shown: Seq::empty() }
}

/// A member that holds a whole number.
pub open spec fn with_number(name: Seq<char>, n: u64, float: Option<u64>) -> MemberView {
    MemberView {
        name,
        value: JsonView::Number { float, whole: Some(n) },
        shown: Seq::empty(),
    }
}

/// The kinds of messages are told apart, and the names of members are.
proof fn lemma_kinds()
    ensures
        "release_focus"@ != "set_param"@,
        "resize"@ != "set_param"@ && "resize"@ != "release_focus"@,
        "save_token"@ != "set_param"@ && "save_token"@ != "release_focus"@ && "save_token"@
            != "resize"@,
        "clear_token"@ != "set_param"@ && "clear_token"@ != "release_focus"@ && "clear_token"@
            != "resize"@ && "clear_token"@ != "save_token"@,
        "token"@ != "type"@ && "width"@ != "type"@ && "height"@ != "type"@ && "height"@
            != "width"@,
{
    reveal_strlit("set_param");
    reveal_strlit("release_focus");
    reveal_strlit("resize");
    reveal_strlit("save_token");
    reveal_strlit("clear_token");
    reveal_strlit("token");
    reveal_strlit("type");
    reveal_strlit("width");
    reveal_strlit("height");
    assert("set_param"@.len() == 9 && "release_focus"@.len() == 13 && "resize"@.len() == 6);
    assert("save_token"@.len() == 10 && "clear_token"@.len() == 11);
    assert("token"@.len() == 5 && "type"@.len() == 4 && "width"@.len() == 5 && "height"@.len()
        == 6);
}

/// A token that the page hands over is kept, whole and unchanged, whatever it holds;
/// without one there is none to keep.
pub proof fn law_a_token_is_kept_as_it_is(token: Seq<char>)
    ensures
        message_of(seq![about("save_token"@), with_text("token"@, token)]) == (
        MessageView::SaveToken { token: Some(token) }),
        message_of(seq![about("save_token"@)]) == (MessageView::SaveToken { token: None }),
        message_of(seq![about("clear_token"@)]) == MessageView::ClearToken,
        message_of(seq![about("release_focus"@)]) == MessageView::ReleaseFocus,
{
    lemma_kinds();
    let m = seq![about("save_token"@), with_text("token"@, token)];
    reveal_with_fuel(member, 3);
    assert(m.drop_first()[0] == m[1]);
    assert(member(m, "type"@) == Some(m[0]));
    assert(member(m, "token"@) == Some(m[1]));
    let n = seq![about("save_token"@)];
    assert(member(n, "type"@) == Some(n[0]));
    assert(n.drop_first().len() == 0);
    assert(member(n, "token"@) is None);
    let c = seq![about("clear_token"@)];
    assert(member(c, "type"@) == Some(c[0]));
    let f = seq![about("release_focus"@)];
    assert(member(f, "type"@) == Some(f[0]));
}

/// A size that the page asks for is taken from 600 by 380 to 2560 by 1600 pixels, as
/// it is, and refused otherwise.
pub proof fn law_a_size_is_taken_within_bounds(width: u64, height: u64, float: Option<u64>)
    requires
        width <= 0xffff_ffff,
        height <= 0xffff_ffff,
    ensures
        ({
            let m = message_of(
                seq![
                    about("resize"@),
                    with_number("width"@, width, float),
                    with_number("height"@, height, float),
                ],
            );
            let fits = 600 <= width && width <= 2560 && 380 <= height && height <= 1600;
            &&& fits ==> m == (MessageView::Resize { width: width as u32, height: height as u32 })
            &&& !fits ==> m == (MessageView::ResizeRefused {
                width: width as u32,
                height: height as u32,
            })
        }),
{
    lemma_kinds();
    let m = seq![
        about("resize"@),
        with_number("width"@, width, float),
        with_number("height"@, height, float),
    ];
    reveal_with_fuel(member, 4);
    assert(m.drop_first()[0] == m[1]);
    assert(m.drop_first().drop_first()[0] == m[2]);
    assert(member(m, "type"@) == Some(m[0]));
    assert(member(m, "width"@) == Some(m[1]));
    assert(member(m, "height"@) == Some(m[2]));
    editor::law_a_window_keeps_to_its_bounds(width as u32, height as u32);
}

/// A message of any other kind asks for nothing, and says what kind it is.
pub proof fn law_another_kind_asks_for_nothing(kind: Seq<char>)
    requires
        kind != "set_param"@,
        kind != "release_focus"@,
        kind != "resize"@,
        kind != "save_token"@,
        kind != "clear_token"@,
    ensures
        message_of(seq![about(kind)]) == (MessageView::Unknown { kind }),
        message_of(Seq::empty()) == (MessageView::Unknown { kind: Seq::empty() }),
{
    let m = seq![about(kind)];
    assert(member(m, "type"@) == Some(m[0]));
    reveal_strlit("set_param");
    reveal_strlit("release_focus");
    reveal_strlit("resize");
    reveal_strlit("save_token");
    reveal_strlit("clear_token");
    let e = Seq::<char>::empty();
    assert(e.len() == 0 && "set_param"@.len() == 9 && "release_focus"@.len() == 13);
    assert("resize"@.len() == 6 && "save_token"@.len() == 10 && "clear_token"@.len() == 11);
}

/// A member is found wherever it stands, and is the first one with its name.
pub proof fn law_a_member_is_found_by_its_name(members: Seq<MemberView>, name: Seq<char>, i: int)
    requires
        0 <= i < members.len(),
        members[i].name == name,
        forall|j: int| 0 <= j < i ==> (#[trigger] members[j]).name != name,
    ensures
        member(members, name) == Some(members[i]),
        value_member(members, name) == Some(members[i].value),
    decreases i,
{
    if i > 0 {
        let rest = members.drop_first();
        assert(members[0].name != name);
        assert forall|j: int| 0 <= j < i - 1 implies (#[trigger] rest[j]).name != name by {
            assert(rest[j] == members[j + 1]);
        }
        law_a_member_is_found_by_its_name(rest, name, i - 1);
    }
}

/// What the log says: of a value that was not understood the id and the value, of an
/// unknown parameter its id, of a size the size, and of one that is refused what it would
/// have to be, of an unknown message its kind, of a token never what it is; of a
/// parameter that is moved and of the keyboard nothing.
pub proof fn law_the_log_says_what_was_asked_for(
    id: Seq<char>,
    shown: Seq<char>,
    param: ParamId,
    value: NewValue,
    w: u32,
    h: u32,
)
    ensures
        log_lines(MessageView::BadValue { id, shown: Some(shown) }) == seq![
            "[HardwaveWettBoi] IPC set_param '"@ + id + "': could not parse value "@ + ("Some("@
                + shown + ")"@),
        ],
        log_lines(MessageView::BadValue { id, shown: None }) == seq![
            "[HardwaveWettBoi] IPC set_param '"@ + id + "': could not parse value "@ + "None"@,
        ],
        log_lines(MessageView::UnknownParam { id }) == seq![
            "[HardwaveWettBoi] IPC set_param: unknown param id '"@ + id + "'"@,
        ],
        log_lines(MessageView::Unknown { kind: id }) == seq![
            "[HardwaveWettBoi] IPC unknown message type: '"@ + id + "'"@,
        ],
        log_lines(MessageView::Resize { width: w, height: h }) == seq![
            "[HardwaveWettBoi] IPC resize: "@ + (text::decimal(w as nat) + "x"@ + text::decimal(
                h as nat,
            )),
        ],
        log_lines(MessageView::SetParam { param, value }).len() == 0,
        log_lines(MessageView::ReleaseFocus).len() == 0,
        log_lines(MessageView::ResizeRefused { width: w, height: h }).len() == 2,
        log_lines(MessageView::ResizeRefused { width: w, height: h })[0] == log_lines(
            MessageView::Resize { width: w, height: h },
        )[0],
        log_lines(MessageView::ResizeRefused { width: w, height: h })[1]
            == "[HardwaveWettBoi] IPC resize: out of bounds ("@ + (text::decimal(w as nat) + "x"@
            + text::decimal(h as nat)) + " not in "@ + (text::decimal(600) + "x"@ + text::decimal(380))
            + "–"@ + (text::decimal(2560) + "x"@ + text::decimal(1600)) + ")"@,
        log_lines(MessageView::SaveToken { token: Some(shown) }) == seq![
            "[HardwaveWettBoi] IPC save_token: persisting to disk"@,
        ],
        log_lines(MessageView::SaveToken { token: None }) == seq![
            "[HardwaveWettBoi] IPC save_token: persisting to disk"@,
        ],
        log_lines(MessageView::ClearToken) == seq![
            "[HardwaveWettBoi] IPC clear_token: removing from disk"@,
        ],
{
}

/// A size in pixels is the lowest 32 bits of the number, however large that is, and
/// nothing where there is no whole number.
pub proof fn law_a_size_is_the_lowest_bits(
    name: Seq<char>,
    n: u64,
    float: Option<u64>,
    s: Seq<char>,
)
    ensures
        ({
            let r = size_member(seq![with_number(name, n, float)], name);
            r + 4_294_967_296 * (n as int / 4_294_967_296) == n
        }),
        size_member(seq![with_text(name, s)], name) == 0,
        size_member(Seq::empty(), name) == 0,
{
    law_a_member_is_found_by_its_name(seq![with_number(name, n, float)], name, 0);
    law_a_member_is_found_by_its_name(seq![with_text(name, s)], name, 0);
}

}
