//! File listing and batch renaming: the decisions behind a small desktop
//! renaming tool, kept apart from the file system and the dialogs that feed them.
pub mod listing;
pub mod record;
pub mod rename;

pub use listing::{
    check_directory, is_listed, is_listed_folded, list_directory_files, order_by_keys,
    sort_listing, text_less, DirectoryError,
};
pub use record::{extension, EntryMeta, FileInfo, InfoError};
pub use rename::{
    decide_rename, finish_rename, plan_rename, RenameBatch, RenameError, RenameFacts,
    RenameResult, RenameStep,
};
