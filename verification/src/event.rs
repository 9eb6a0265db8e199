//! Change notifications as the watch source reports them.
//!
//! A notification says what kind of change happened and which paths it
//! touched. The kinds form a small tree: a general kind, refined by the way a
//! file was accessed, created, modified or removed.

use vstd::prelude::*;

verus! {

/// How a file was opened or closed.
#[derive(Debug, Clone, Copy, PartialEq, Eq)]
pub enum AccessMode {
    Any,
    Execute,
    Read,
    Write,
    Other,
}

/// An access that did not change the file.
#[derive(Debug, Clone, Copy, PartialEq, Eq)]
pub enum AccessKind {
    Any,
    Read,
    Open(AccessMode),
    Close(AccessMode),
    Other,
}

/// What was created.
#[derive(Debug, Clone, Copy, PartialEq, Eq)]
pub enum CreateKind {
    Any,
    File,
    Folder,
    Other,
}

/// A change to the content of a file.
#[derive(Debug, Clone, Copy, PartialEq, Eq)]
pub enum DataChange {
    Any,
    Size,
    Content,
    Other,
}

/// A change to what the file system records about a file.
#[derive(Debug, Clone, Copy, PartialEq, Eq)]
pub enum MetadataKind {
    Any,
    AccessTime,
    WriteTime,
    Permissions,
    Ownership,
    Extended,
    Other,
}

/// The side of a rename that a notification reports.
#[derive(Debug, Clone, Copy, PartialEq, Eq)]
pub enum RenameMode {
    Any,
    /// The new name: the file has arrived under it.
    To,
    /// The old name: the file has left it.
    From,
    /// Both names in one notification.
    Both,
    Other,
}

/// A modification of a file or folder.
#[derive(Debug, Clone, Copy, PartialEq, Eq)]
pub enum ModifyKind {
    Any,
    Data(DataChange),
    Metadata(MetadataKind),
    Name(RenameMode),
    Other,
}

/// What was removed.
#[derive(Debug, Clone, Copy, PartialEq, Eq)]
pub enum RemoveKind {
    Any,
    File,
    Folder,
    Other,
}

/// The kind of a change notification.
#[derive(Debug, Clone, Copy, PartialEq, Eq)]
pub enum EventKind {
    Any,
    Access(AccessKind),
    Create(CreateKind),
    Modify(ModifyKind),
    Remove(RemoveKind),
    Other,
}

/// A change notification: its kind and the paths it concerns, in the order in
/// which the watch source listed them.
#[derive(Debug, PartialEq, Eq)]
pub struct ChangeEvent {
    pub kind: EventKind,
    pub paths: Vec<String>,
}

} // verus!
