use vstd::prelude::*;

pub mod text;
pub mod webmeta;
pub mod config;
pub mod github;
pub mod friendly;
pub mod webdav;
pub mod new_item;
pub mod collections;
pub mod entries;
pub mod order;
pub mod graph;
pub mod ranking;
pub mod backup;
pub mod columns;
pub mod attachments;
pub mod creators;
pub mod bookshelf;
pub mod detail;
pub mod custom_fields;
pub mod nodes;
pub mod relations;
pub mod note_editor;
pub mod acquire;

verus! {
} // verus!
