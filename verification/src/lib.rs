//! Account manager core: encrypted account storage, join presets, launch
//! URL construction, process bookkeeping and the message handling of the
//! local automation endpoints.

pub mod error;
pub mod random;
pub mod crypto;
pub mod text;
pub mod format;
pub mod time;
pub mod models;
pub mod storage;
pub mod presets;
pub mod nexus;
pub mod launcher;
pub mod api;
pub mod profiles;
pub mod import;
pub mod legacy;
pub mod page_scan;
pub mod sharelinks;
pub mod game;
pub mod presence;
pub mod settings;
pub mod watcher;
pub mod login;
pub mod webapi;
pub mod install;
pub mod laws;
