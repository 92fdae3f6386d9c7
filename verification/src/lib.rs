//! Time logging by narration: fuzzy ranking of labels, the keystroke-driven
//! selection of a project and task, and the log format whose trailing byte
//! records whether an entry is still running.

pub mod clock;
pub mod closing_note;
pub mod distance_laws;
pub mod log_laws;
pub mod numerals;
pub mod ranker;
pub mod ranking_laws;
pub mod record;
pub mod render;
pub mod selector;
pub mod session;
pub mod storage;
pub mod storage_laws;
pub mod text;
