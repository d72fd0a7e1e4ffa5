//! Credential helper core: a configuration store whose sections can be sealed under
//! interchangeable encryption profiles, the allow-list check on the calling process, the
//! filters applied to login entries, the group tree, the unlock retry machine, the session with the
//! password manager and the decisions taken on its replies.
pub mod seal;
pub mod config;
pub mod commands;
pub mod caller;
pub mod entries;
pub mod unlock;
pub mod protocol;
pub mod session;
pub mod groups;
