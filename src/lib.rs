//! Conversation controller for a language-model driven browser agent: it keeps
//! the message history, resets it when the browsed host changes, builds the
//! per-turn prompt, and decodes the model's reply into a browser command.

pub mod action;
pub mod host;
pub mod conversation;
pub mod message;

pub use action::{decode_action, Action, ActionModel};
pub use message::{Message, MessageView, Role};
pub use conversation::{
    build_user_prompt, Conversation, ConversationError, ConversationView, DEFAULT_GOAL, SYSTEM_PROMPT,
};
