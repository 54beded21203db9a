//! The core of a content server that serves a directory tree over HTTP and
//! reads EPUB archives in place: it renders an archive's table of contents,
//! resolves single resources of an archive and puts chapter navigation into
//! those that are HTML, caches both kinds of reply, and verifies basic-auth
//! credentials against one configured user.
//!
//! The library computes on plain values. Opening archives, reading files and
//! talking HTTP is left to the program around it, which calls the request
//! steps of [`toc`] and [`content`] in turn.

pub mod archive;
pub mod auth;
pub mod cache;
pub mod config;
pub mod content;
pub mod fs_proc;
pub mod lookup;
pub mod mime;
pub mod nav;
pub mod path_codec;
pub mod text;
pub mod toc;
pub mod url;
