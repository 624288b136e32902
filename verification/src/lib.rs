pub mod account;
pub mod accounts;
pub mod avatar;
pub mod coordinator;
pub mod laws;
pub mod migration;
pub mod notifications;
pub mod permissions;
pub mod registry;
pub mod release_notes;
pub mod sessions;
pub mod settings;
pub mod spellcheck;
pub mod stored;
pub mod text;
pub mod tray;
pub mod zoom;
