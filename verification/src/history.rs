//! Records of the chat history store, as the surrounding application
//! exchanges them: plain data, persisted elsewhere.

use vstd::prelude::*;

verus! {

/// One stored chat message.
pub struct Message {
    /// Row identifier, absent before the message is persisted.
    pub id: Option<i64>,
    /// The chat this message belongs to.
    pub chat_id: i64,
    /// Message text.
    pub content: String,
    /// Whether the user (rather than the model) wrote it.
    pub is_user: bool,
    /// Creation time, as stored text.
    pub timestamp: String,
}

/// One stored chat.
pub struct Chat {
    /// Row identifier.
    pub id: i64,
    /// Display name.
    pub name: String,
    /// Creation time, as stored text.
    pub created_at: String,
}

} // verus!
