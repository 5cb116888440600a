//! One row of the flat, ordered tree.

use vstd::prelude::*;
use vstd::string::*;
use crate::error::{description, AppError, ErrorKind};
use crate::status::FileStatus;

verus! {

/// A file or directory of the working tree, as listed under some directory.
#[derive(Clone, Debug)]
pub struct FileEntry {
    /// The path relative to the directory it was listed under.
    pub name: String,
    pub status: FileStatus,
    pub is_dir: bool,
    /// The directory it was listed under; absent at the root.
    pub parent: Option<String>,
    /// The nesting level relative to the root of the tree.
    pub depth: usize,
}

/// What a row holds, as mathematical values.
pub ghost struct EntryModel {
    pub name: Seq<char>,
    pub status: FileStatus,
    pub is_dir: bool,
    pub parent: Option<Seq<char>>,
    pub depth: nat,
}

impl View for FileEntry {
    type V = EntryModel;

    open spec fn view(&self) -> EntryModel {
        EntryModel {
            name: self.name@,
            status: self.status,
            is_dir: self.is_dir,
            parent: match self.parent {
                Some(p) => Some(p@),
                None => None,
            },
            depth: self.depth as nat,
        }
    }
}

impl DeepView for FileEntry {
    type V = EntryModel;

    open spec fn deep_view(&self) -> EntryModel {
        self@
    }
}

impl EntryModel {
    /// The name as it is shown: that of a directory ends in a separator.
    pub open spec fn label(self) -> Seq<char> {
        if self.is_dir {
            self.name.push('/')
        } else {
            self.name
        }
    }

    /// The path of the row relative to the root: its name below the
    /// directory it was listed under.
    pub open spec fn path(self) -> Seq<char> {
        match self.parent {
            Some(p) => p.push('/') + self.name,
            None => self.name,
        }
    }
}

/// The row that stands in a listing that could not be built: a file at
/// the top whose name is the text of the failure.
pub open spec fn error_row_model(kind: ErrorKind, message: Seq<char>) -> EntryModel {
    EntryModel {
        name: description(kind, message),
        status: FileStatus::Current,
        is_dir: false,
        parent: None,
        depth: 0,
    }
}

impl FileEntry {
    /// The row that stands in a listing that could not be built.
    pub fn error_row(error: &AppError) -> (row: FileEntry)
        ensures
            row@ == error_row_model(error.kind, error.message@),
    {
        FileEntry {
            name: error.describe(),
            status: FileStatus::Current,
            is_dir: false,
            parent: None,
            depth: 0,
        }
    }

    /// The name as it is shown.
    pub fn label(&self) -> (label: String)
        ensures
            label@ == self@.label(),
    {
        let mut label = self.name.clone();
        if self.is_dir {
            label.push('/');
        }
        label
    }

    /// The path of the row relative to the root.
    pub fn path(&self) -> (path: String)
        ensures
            path@ == self@.path(),
    {
        match &self.parent {
            Some(p) => {
                let mut path = p.clone();
                path.push('/');
                path.append(self.name.as_str());
                path
            },
            None => self.name.clone(),
        }
    }
}

} // verus!
