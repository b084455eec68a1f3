//! The request that sends a notification: where it goes and what fields it
//! carries. Sending it is the caller's part.

use vstd::prelude::*;
use vstd::string::StringExecFns;
use crate::text::pairs_view;

verus! {

/// The notification sink: a bot and the chat that it writes to.
pub struct TelegramBot {
    token: String,
    chat_id: String,
}

/// What a `TelegramBot` holds.
pub struct TelegramBotView {
    pub token: Seq<char>,
    pub chat_id: Seq<char>,
}

/// The address to which the bot with the given token sends a message.
pub open spec fn send_message_address(token: Seq<char>) -> Seq<char> {
    "https://api.telegram.org/bot"@ + token + "/sendMessage"@
}

/// The fields of the request that sends `message` to a chat, as markup.
pub open spec fn send_message_fields(chat_id: Seq<char>, message: Seq<char>) -> Seq<
    (Seq<char>, Seq<char>),
> {
    seq![("chat_id"@, chat_id), ("text"@, message), ("parse_mode"@, "HTML"@)]
}

impl View for TelegramBot {
    type V = TelegramBotView;

    closed spec fn view(&self) -> TelegramBotView {
        TelegramBotView { token: self.token@, chat_id: self.chat_id@ }
    }
}

impl TelegramBot {
    /// The bot with the given token, writing to the given chat.
    pub fn new(token: String, chat_id: String) -> (bot: Self)
        ensures
            bot@ == (TelegramBotView { token: token@, chat_id: chat_id@ }),
    {
        TelegramBot { token, chat_id }
    }

    /// The address to which a notification is sent.
    pub fn send_message_url(&self) -> (url: String)
        ensures
            url@ == send_message_address(self@.token),
    {
        let mut url = String::from_str("https://api.telegram.org/bot");
        url.append(self.token.as_str());
        url.append("/sendMessage");
        url
    }

    /// The fields of the request that sends `message`.
    pub fn notification_fields(&self, message: &str) -> (fields: Vec<(String, String)>)
        ensures
            pairs_view(fields@) == send_message_fields(self@.chat_id, message@),
    {
        let mut fields: Vec<(String, String)> = Vec::new();
        fields.push((String::from_str("chat_id"), self.chat_id.clone()));
        fields.push((String::from_str("text"), String::from_str(message)));
        fields.push((String::from_str("parse_mode"), String::from_str("HTML")));
        assert(pairs_view(fields@) =~= send_message_fields(self@.chat_id, message@));
        fields
    }
}

} // verus!
