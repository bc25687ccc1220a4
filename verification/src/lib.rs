//! A filter for experiment tag documents: it removes whole record elements
//! whose stimulus names contain a word from a per-document exclusion list,
//! and forwards every other structural event unchanged and in order.
//!
//! The core is [`filter::RecordFilter`], an event-driven state machine that
//! buffers each pair of records until its keep-or-drop decision is final.
//! Reading and writing the raw document bytes is left to the caller, which
//! hands the filter a stream of plain [`events::Event`] values.

pub mod cli;
pub mod escape;
pub mod events;
pub mod filter;
pub mod laws;
pub mod paths;
pub mod text;
pub mod words;

pub use events::{is_sound_or_img_tag, Event, OtherKind};
pub use filter::{process_xml, ProcessError, RecordFilter};
pub use paths::{
    get_input_path_prefix, is_tag_file_name, make_backup_path, make_exclude_words_path,
    make_output_path, PathError,
};
pub use words::{load_exclude_words, text_matches_any};
