//! The conversation held with the model: role-tagged turns, some with a screenshot.
use vstd::prelude::*;
use crate::text::{chars_of, concat_chars, string_of};

verus! {

#[derive(Debug, Clone, Copy, PartialEq, Eq, Structural)]
pub enum Role {
    System,
    User,
    Assistant,
}

/// One turn of the conversation. A user turn may carry a screenshot as a
/// `data:` URL of a base64-encoded PNG.
#[derive(Debug, Clone)]
pub struct ChatMessage {
    pub role: Role,
    pub text: String,
    pub image_url: Option<String>,
}

pub struct MessageModel {
    pub role: Role,
    pub text: Seq<char>,
    pub image_url: Option<Seq<char>>,
}

impl View for ChatMessage {
    type V = MessageModel;

    open spec fn view(&self) -> MessageModel {
        MessageModel {
            role: self.role,
            text: self.text@,
            image_url: match self.image_url {
                Some(u) => Some(u@),
                None => None,
            },
        }
    }
}

pub open spec fn messages_view(v: Seq<ChatMessage>) -> Seq<MessageModel> {
    v.map_values(|m: ChatMessage| m@)
}

/// The `data:` URL of a base64-encoded PNG.
pub open spec fn png_url(data: Seq<char>) -> Seq<char> {
    "data:image/png;base64,"@ + data
}

/// The lower-case hexadecimal digit for `d` below sixteen.
pub open spec fn hex_digit(d: int) -> char {
    seq!['0', '1', '2', '3', '4', '5', '6', '7', '8', '9', 'a', 'b', 'c', 'd', 'e', 'f'][d]
}

/// How a JSON string literal writes one character: quote and backslash
/// escaped, the short escapes for backspace, tab, line feed, form feed and
/// carriage return, other control characters below 0x20 as `\u00` and two
/// hexadecimal digits, every other character as itself.
pub open spec fn json_char(c: char) -> Seq<char> {
    if c == '"' {
        seq!['\\', '"']
    } else if c == '\\' {
        seq!['\\', '\\']
    } else if c == '\u{8}' {
        seq!['\\', 'b']
    } else if c == '\t' {
        seq!['\\', 't']
    } else if c == '\n' {
        seq!['\\', 'n']
    } else if c == '\u{c}' {
        seq!['\\', 'f']
    } else if c == '\r' {
        seq!['\\', 'r']
    } else if (c as u32) < 0x20 {
        seq!['\\', 'u', '0', '0', hex_digit((c as u32) as int / 16), hex_digit((c as u32) as int % 16)]
    } else {
        seq![c]
    }
}

/// The characters of `s`, each written as `json_char` writes it.
pub open spec fn json_escaped(s: Seq<char>) -> Seq<char>
    decreases s.len(),
{
    if s.len() == 0 {
        Seq::empty()
    } else {
        json_escaped(s.drop_last()) + json_char(s.last())
    }
}

/// The JSON string literal for a text: a quote, the escaped characters, a quote.
pub open spec fn json_string_of(s: Seq<char>) -> Seq<char> {
    seq!['"'] + json_escaped(s) + seq!['"']
}

/// Relies on `serde_json::to_string` on a `str`: the quoted literal with the
/// escapes of its `format_escaped_str`; writing into a `Vec` cannot fail.
#[verifier::external_body]
fn json_string(s: &str) -> (r: String)
    ensures
        r@ == json_string_of(s@),
{
    serde_json::to_string(s).unwrap_or_default()
}

/// The screen description given to the model: a JSON object naming the app in front.
pub open spec fn screen_info_of(current_app: Seq<char>) -> Seq<char> {
    "{\"current_app\":"@ + json_string_of(current_app) + "}"@
}

/// A user turn with its image removed; other turns are kept as they are.
pub open spec fn without_image(m: MessageModel) -> MessageModel {
    if m.role == Role::User {
        MessageModel { image_url: None, ..m }
    } else {
        m
    }
}

/// Builds the turns of the conversation.
pub struct MessageBuilder;

impl MessageBuilder {
    pub fn create_system_message(content: &str) -> (r: ChatMessage)
        ensures
            r@ == (MessageModel { role: Role::System, text: content@, image_url: None }),
    {
        ChatMessage { role: Role::System, text: string_of(&chars_of(content)), image_url: None }
    }

    /// A user turn with its text and, if given, the screenshot.
    pub fn create_user_message(text: &str, image_base64: Option<&str>) -> (r: ChatMessage)
        ensures
            r@.role == Role::User,
            r@.text == text@,
            image_base64 matches Some(img) ==> r@.image_url == Some(png_url(img@)),
            image_base64 is None ==> r@.image_url is None,
    {
        let url = match image_base64 {
            Some(img) => Some(
                string_of(&concat_chars(&chars_of("data:image/png;base64,"), &chars_of(img))),
            ),
            None => None,
        };
        ChatMessage { role: Role::User, text: string_of(&chars_of(text)), image_url: url }
    }

    pub fn create_assistant_message(content: &str) -> (r: ChatMessage)
        ensures
            r@ == (MessageModel { role: Role::Assistant, text: content@, image_url: None }),
    {
        ChatMessage { role: Role::Assistant, text: string_of(&chars_of(content)), image_url: None }
    }

    /// Drops the image of a user turn, keeping its text.
    pub fn remove_images_from_message(message: ChatMessage) -> (r: ChatMessage)
        ensures
            r@ == without_image(message@),
    {
        match message.role {
            Role::User => ChatMessage { role: message.role, text: message.text, image_url: None },
            _ => message,
        }
    }

    /// The screen description, such as `{"current_app":"WeChat"}`.
    pub fn build_screen_info(current_app: &str) -> (r: String)
        ensures
            r@ == screen_info_of(current_app@),
    {
        let q = json_string(current_app);
        MessageBuilder::screen_info_from_json(q.as_str())
    }

    /// The screen description around the app name already written as a JSON string.
    pub fn screen_info_from_json(app_json: &str) -> (r: String)
        ensures
            r@ == "{\"current_app\":"@ + app_json@ + "}"@,
    {
        let a = concat_chars(&chars_of("{\"current_app\":"), &chars_of(app_json));
        string_of(&concat_chars(&a, &chars_of("}")))
    }
}

} // verus!
