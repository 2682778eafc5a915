//! A verified core for a single-user task list: the command words of the
//! interactive menu, the list operations, the rendering of the listing,
//! and the JSON text format of the persisted task file, with a proved
//! round trip between saving and loading.

pub mod codec;
pub mod command;
pub mod laws;
pub mod ops;
pub mod parse;
pub mod render;
pub mod task;
pub mod text;
