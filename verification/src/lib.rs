//! A command-dispatch core for a chat bot.
//!
//! Messages come in from a gateway; the dispatcher reads each one against the
//! configured prefixes, looks the command up in the registry, counts the
//! attempt, checks the permissions of the invoker and the rate-limit bucket
//! of the command, and says what is to happen next. Connecting, sending and
//! the handlers themselves belong to the program that uses the library.
//!
//! - [`registry`]: which command a name or an alias stands for.
//! - [`ratelimit`]: buckets that limit how often a command may be used.
//! - [`usage`]: how many times each command has been attempted.
//! - [`parse`]: reading a message as a command invocation.
//! - [`dispatch`]: the states of a dispatch and the steps between them.
//! - [`shard`]: the latency of a shard.
//! - [`builtin`]: the replies of the built-in commands.
//! - [`text`], [`assoc`], [`debug_text`]: what the others share.

pub mod assoc;
pub mod builtin;
pub mod debug_text;
pub mod dispatch;
pub mod parse;
pub mod ratelimit;
pub mod registry;
pub mod shard;
pub mod text;
pub mod usage;
