use vstd::prelude::*;

verus! {

/// The kind of an operating-system I/O failure, as surfaced by the file handle.
#[derive(Debug, Clone, Copy, PartialEq, Eq, Structural)]
pub enum IoErrorKind {
    NotFound,
    PermissionDenied,
    AlreadyExists,
    UnexpectedEof,
    WriteZero,
    Interrupted,
    Other,
}

/// Corruption found in the file header. Each variant carries the byte offset
/// at which it was detected.
#[derive(Debug, Clone, Copy, PartialEq, Eq, Structural)]
pub enum HeaderErr {
    BadMagic(u64),
    UnsupportedVersion(u64),
    ChecksumMismatch(u64),
    Truncated(u64),
}

/// Corruption found in a record frame. Each variant carries the byte offset
/// of the frame in which it was detected.
#[derive(Debug, Clone, Copy, PartialEq, Eq, Structural)]
pub enum FormatErr {
    Truncated(u64),
    ChecksumMismatch(u64),
    InvalidStreamKey(u64),
    InvalidUtf8(u64),
    OversizeRecord(u64),
}

/// Every error that the file backend reports.
#[derive(Debug, PartialEq, Eq)]
pub enum FileErr {
    /// A payload expected to be UTF-8 is not; carries the length of the valid prefix.
    Utf8Error(usize),
    IoError(IoErrorKind),
    /// Stands in for an `IoError` that has already been handed out once.
    DuplicateIoError,
    WatchError(String),
    HeaderErr(HeaderErr),
    FormatErr(FormatErr),
    FileRemoved,
    FileLimitExceeded,
    TaskDead(&'static str),
    NotEnoughBytes,
    RecvError,
    ProducerEnded,
}

impl FileErr {
    /// What is left behind when an error is taken: the same error, except
    /// that an I/O error, which cannot be copied, becomes `DuplicateIoError`.
    pub open spec fn duplicate(self) -> FileErr {
        match self {
            FileErr::IoError(_) => FileErr::DuplicateIoError,
            _ => self,
        }
    }

    /// Takes ownership of this error, leaving a copy in its place.
    pub fn take(&mut self) -> (r: FileErr)
        ensures
            r == *old(self),
            *final(self) == old(self).duplicate(),
    {
        let mut copy = match self {
            FileErr::Utf8Error(n) => FileErr::Utf8Error(*n),
            FileErr::IoError(_) => FileErr::DuplicateIoError,
            FileErr::DuplicateIoError => FileErr::DuplicateIoError,
            FileErr::WatchError(e) => FileErr::WatchError(e.clone()),
            FileErr::HeaderErr(e) => FileErr::HeaderErr(*e),
            FileErr::FormatErr(e) => FileErr::FormatErr(*e),
            FileErr::FileRemoved => FileErr::FileRemoved,
            FileErr::FileLimitExceeded => FileErr::FileLimitExceeded,
            FileErr::TaskDead(who) => FileErr::TaskDead(*who),
            FileErr::NotEnoughBytes => FileErr::NotEnoughBytes,
            FileErr::RecvError => FileErr::RecvError,
            FileErr::ProducerEnded => FileErr::ProducerEnded,
        };
        std::mem::swap(self, &mut copy);
        copy
    }
}

} // verus!
