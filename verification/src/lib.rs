//! Verification-code relay: watches mailboxes over IMAP and POP3, finds
//! verification codes in new messages, and pushes them to authenticated
//! WebSocket clients.
pub mod config;
pub mod delivery;
pub mod extractor;
pub mod imap;
pub mod json;
pub mod mail;
pub mod pop3;
pub mod text;
pub mod ws;
