use vstd::prelude::*;

verus! {

/// Kind of a node in the persisted file tree.
#[derive(Debug, Clone, Copy, PartialEq, Eq, Structural)]
pub enum FileNodeType {
    File,
    Directory,
}

/// What a scanned filesystem entry turned out to be.
#[derive(Debug, PartialEq, Eq)]
pub enum FsFileType {
    Directory,
    AudioFile { artist: Option<String>, title: Option<String> },
}

/// Identity of a file on disk: inode and device are always compared together.
#[derive(Debug, Clone, Copy, PartialEq, Eq, Structural, Hash)]
pub struct FileIdentity {
    pub inode: u64,
    pub device: u64,
}

/// Marker type handed across the foreign-function boundary.
pub struct FFITag;

impl<'a> From<&'a FsFileType> for FileNodeType {
    fn from(value: &'a FsFileType) -> (r: FileNodeType)
        ensures
            r == (if value is Directory {
                FileNodeType::Directory
            } else {
                FileNodeType::File
            }),
    {
        match value {
            FsFileType::Directory => FileNodeType::Directory,
            FsFileType::AudioFile { .. } => FileNodeType::File,
        }
    }
}

impl<'a> vstd::std_specs::convert::FromSpecImpl<&'a FsFileType> for FileNodeType {
    open spec fn obeys_from_spec() -> bool {
        true
    }

    open spec fn from_spec(value: &'a FsFileType) -> FileNodeType {
        if value is Directory {
            FileNodeType::Directory
        } else {
            FileNodeType::File
        }
    }
}

} // verus!
