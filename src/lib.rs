//! A static documentation site builder.
//!
//! The build follows the cross-references of a root manifest to find its documents
//! (`resolver`), gives each tracked file the time of its last change from one walk of the
//! commit history (`history`), decides for each document where its page goes and what it
//! holds (`generator`), and keeps a search index of the pages (`index`). Converting documents,
//! rendering templates and touching the file system are left to the caller, which hands the
//! library plain values and acts on what it returns.
pub mod asciidoctor;
pub mod config;
pub mod context;
pub mod duration;
pub mod error;
pub mod filetree;
pub mod generator;
pub mod history;
pub mod html;
pub mod index;
pub mod jinjaext;
pub mod resolver;
pub mod text;
