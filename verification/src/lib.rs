//! SnipDesk: canned replies for support teams.
//!
//! The library holds what the desktop engine and the team server decide and compute.
//! Reading and writing (disk, database, network, clipboard, keyboard) is left to the
//! programs around it, which hand plain values in and carry out what comes back.
//!
//! - Text: [`text`], [`trim`], [`find`], [`order`], [`decimal`], [`encoding`], [`json`],
//!   [`csv`], [`entries`], [`html`], [`url`], [`tags`], [`paths`], [`diff`], [`highlight`], [`preview`].
//! - Desktop: [`db`] plans every change of the snippet store, [`phraseexpress`] and [`rtf`]
//!   read foreign files, [`paste`], [`backup`], [`logging`], [`settings`] and
//!   [`shared_library`] are the rules of the engine, [`validate`] the limits on a snippet.
//! - Server: [`auth`], [`crypto`], [`config`], [`audit`], [`error`], the commands of [`cli`]
//!   and [`console`], and the pages of [`dashboard`] over the shared [`library`].
//! - [`clock`] and [`ident`] give the time and fresh identifiers.
//! - [`sql`] says what the conditions of a query mean.
//!
//! Contracts speak of texts as sequences of characters. What holds of several functions
//! together stands in the proof functions whose names begin with `law_`.
pub mod audit;
pub mod auth;
pub mod backup;
pub mod cli;
pub mod clock;
pub mod config;
pub mod console;
pub mod crypto;
pub mod csv;
pub mod dashboard;
pub mod db;
pub mod decimal;
pub mod diff;
pub mod encoding;
pub mod entries;
pub mod error;
pub mod find;
pub mod highlight;
pub mod html;
pub mod ident;
pub mod json;
pub mod library;
pub mod logging;
pub mod order;
pub mod paste;
pub mod paths;
pub mod phraseexpress;
pub mod preview;
pub mod rtf;
pub mod settings;
pub mod shared_library;
pub mod sql;
pub mod tags;
pub mod text;
pub mod trim;
pub mod url;
pub mod validate;
