//! The transcript: a chat, its messages, their authors and text segments.

use vstd::prelude::*;

verus! {

/// Makes `chrono::NaiveDateTime`, a date and time without a time zone,
/// known to Verus as a type that it cannot look into. A message carries its
/// date in one; the library never reads it.
#[verifier::external_type_specification]
#[verifier::external_body]
pub struct ExNaiveDateTime(chrono::NaiveDateTime);

/// The display name of whoever wrote a message. Two persons are the same
/// when their names are equal character by character.
#[derive(Debug, PartialEq, Eq, Hash)]
pub struct Person(pub String);

impl View for Person {
    type V = Seq<char>;

    open spec fn view(&self) -> Seq<char> {
        self.0@
    }
}

impl Clone for Person {
    fn clone(&self) -> (copy: Self)
        ensures
            copy == *self,
    {
        Person(self.0.clone())
    }
}

/// A word that is counted. Two tokens are the same when their text is equal
/// character by character.
#[derive(Debug, PartialEq, Eq, Hash)]
pub struct Token(pub String);

impl View for Token {
    type V = Seq<char>;

    open spec fn view(&self) -> Seq<char> {
        self.0@
    }
}

impl Clone for Token {
    fn clone(&self) -> (copy: Self)
        ensures
            copy == *self,
    {
        Token(self.0.clone())
    }
}

impl From<String> for Token {
    /// The token with this text.
    fn from(value: String) -> (token: Self)
        ensures
            token == Token(value),
    {
        Token(value)
    }
}

impl vstd::std_specs::convert::FromSpecImpl<String> for Token {
    open spec fn obeys_from_spec() -> bool {
        true
    }

    open spec fn from_spec(value: String) -> Token {
        Token(value)
    }
}

impl<'a> From<&'a str> for Token {
    /// The token with a copy of this text.
    fn from(value: &'a str) -> (token: Self)
        ensures
            token@ == value@,
    {
        Token(value.to_owned())
    }
}

/// Of a token made from a string slice only its text is known, as `from`
/// says; which `String` holds the copy is left open.
impl<'a> vstd::std_specs::convert::FromSpecImpl<&'a str> for Token {
    open spec fn obeys_from_spec() -> bool {
        false
    }

    open spec fn from_spec(value: &'a str) -> Token {
        arbitrary()
    }
}

/// The number that identifies a chat.
#[derive(Debug, Clone, Copy, PartialEq, Eq)]
pub struct Id(pub u128);

/// What sort of chat a transcript was taken from.
#[derive(Debug)]
pub enum ChatType {
    PublicChannel,
    PrivateChannel,
    PublicSupergroup,
    PrivateSupergroup,
    PersonalChat,
    ChatForbidden,
}

/// Whether a message was written by a person or put there by the system.
#[derive(Debug, PartialEq, Eq, Structural)]
pub enum MessageType {
    Service,
    Message,
}

/// How a run of text inside a message is styled, or what it stands for.
#[derive(Debug, PartialEq, Eq, Structural)]
pub enum TextEntityType {
    Pre,
    Bold,
    Link,
    Code,
    Email,
    Plain,
    Phone,
    Italic,
    Cashtag,
    Spoiler,
    Mention,
    Hashtag,
    TextLink,
    Underline,
    BotCommand,
    CustomEmoji,
    MentionName,
    Strikethrough,
}

impl TextEntityType {
    /// The kinds that hold no words: phone numbers, bot commands, e-mail
    /// addresses, custom emoji and mentions.
    pub open spec fn is_meta_kind(&self) -> bool {
        self is Phone || self is BotCommand || self is Email || self is CustomEmoji
            || self is Mention
    }

    /// Tells whether a segment of this kind is left out of the count.
    #[verifier::when_used_as_spec(is_meta_kind)]
    pub fn is_meta(&self) -> (meta: bool)
        ensures
            meta == self.is_meta_kind(),
    {
        match self {
            TextEntityType::Phone
            | TextEntityType::BotCommand
            | TextEntityType::Email
            | TextEntityType::CustomEmoji
            | TextEntityType::Mention => true,
            _ => false,
        }
    }
}

/// A run of text inside a message, of one kind.
#[derive(Debug)]
pub struct TextEntity {
    pub text_type: TextEntityType,
    pub text: String,
}

/// One message of a chat.
#[derive(Debug)]
pub struct Message {
    pub id: u64,
    pub message_type: MessageType,
    pub date: chrono::NaiveDateTime,
    pub from: Option<Person>,
    pub text_entities: Vec<TextEntity>,
}

/// A chat transcript.
#[derive(Debug)]
pub struct Chat {
    pub name: String,
    pub chat_type: ChatType,
    pub id: Id,
    pub messages: Vec<Message>,
}

/// A message counts when a person wrote it.
pub open spec fn countable_message(msg: Message) -> bool {
    msg.message_type == MessageType::Message
}

/// A segment counts unless its kind is one that holds no words.
pub open spec fn countable_segment(seg: TextEntity) -> bool {
    !seg.text_type.is_meta_kind()
}

/// Tells whether the words of `msg` are counted.
pub fn is_countable_message(msg: &Message) -> (counts: bool)
    ensures
        counts == countable_message(*msg),
{
    msg.message_type == MessageType::Message
}

/// Tells whether the words of `seg` are counted.
pub fn is_countable_segment(seg: &TextEntity) -> (counts: bool)
    ensures
        counts == countable_segment(*seg),
{
    !seg.text_type.is_meta()
}

} // verus!
