//! Conversations: prompts, the completion server and the console.
pub mod console;
pub mod prompt;
pub mod server;
pub mod template;
