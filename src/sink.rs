use vstd::prelude::*;

use crate::bytes::Bytes;
use crate::error::FileErr;

verus! {

/// The marker that acknowledges a full sync; plain flushes never use it.
pub const SYNC_MARKER: u32 = 4_294_967_295;

/// What the watcher of a file reports.
#[derive(Debug)]
pub enum FileEvent {
    Modify,
    Remove,
    /// The watch was set up again; the state of the file is uncertain.
    Rewatch,
    Error(String),
}

/// What the sink task sends back to its owner.
#[derive(Debug)]
pub enum SinkUpdate {
    FileErr(FileErr),
    Receipt(u32),
}

/// Whether a wait for an acknowledgement is over.
#[derive(Debug)]
pub enum Progress {
    Done(Result<(), FileErr>),
    Wait,
}

/// The error that a watcher event ends the sink with, if any.
pub open spec fn event_error(event: Option<FileEvent>) -> Option<FileErr> {
    match event {
        None => Some(FileErr::TaskDead("watcher")),
        Some(FileEvent::Modify) => None,
        Some(FileEvent::Remove) => Some(FileErr::FileRemoved),
        Some(FileEvent::Rewatch) => Some(FileErr::TaskDead("watcher")),
        Some(FileEvent::Error(m)) => Some(FileErr::WatchError(m)),
    }
}

/// The decisions of a buffered file writer: how many bytes of each write fit
/// the quota, and which error ended it. The quota is the largest size the file
/// may reach.
pub struct SinkState {
    quota: u64,
    written: u64,
    latched: Option<FileErr>,
}

impl SinkState {
    /// The file is within its quota.
    pub closed spec fn wf(&self) -> bool {
        self.written <= self.quota
    }

    /// The largest size the file may reach.
    pub closed spec fn quota(&self) -> u64 {
        self.quota
    }

    /// The size of the file.
    pub closed spec fn written(&self) -> u64 {
        self.written
    }

    /// The error that ended the sink, if one did.
    pub closed spec fn error(&self) -> Option<FileErr> {
        self.latched
    }

    /// A sink for a file of `file_size` bytes that may grow to `quota`. Fails
    /// with `FileLimitExceeded` when the file is already larger than the quota.
    pub fn new(quota: u64, file_size: u64) -> (r: Result<SinkState, FileErr>)
        ensures
            file_size <= quota <==> r is Ok,
            r matches Ok(s) ==> s.wf() && s.quota() == quota && s.written() == file_size && s.error()
                is None,
            r matches Err(e) ==> e == FileErr::FileLimitExceeded,
    {
        if file_size > quota {
            Err(FileErr::FileLimitExceeded)
        } else {
            Ok(SinkState { quota, written: file_size, latched: None })
        }
    }

    /// The file never grows past its quota.
    pub fn size(&self) -> (r: u64)
        requires
            self.wf(),
        ensures
            r == self.written(),
            r <= self.quota(),
    {
        self.written
    }

    /// Accepts a write: returns the bytes to append. When they do not all fit,
    /// only the first bytes up to the quota are returned, and the sink ends
    /// with `FileLimitExceeded`. After the sink has ended, nothing is appended
    /// and the error comes back.
    pub fn accept(&mut self, bytes: Bytes) -> (r: Result<Bytes, FileErr>)
        requires
            old(self).wf(),
            bytes@.len() <= usize::MAX,
        ensures
            final(self).wf(),
            final(self).quota() == old(self).quota(),
            final(self).written() <= final(self).quota(),
            old(self).error() matches Some(e) ==> r == Err::<Bytes, FileErr>(e) && final(self).error() == Some(e.duplicate()) && final(self).written() == old(self).written(),
            old(self).error() is None && old(self).written() + bytes@.len() <= old(self).quota()
                ==> (r matches Ok(b) && b@ == bytes@ && final(self).written() == old(self).written()
                + bytes@.len() && final(self).error() is None),
            old(self).error() is None && old(self).written() + bytes@.len() > old(self).quota()
                ==> (r matches Ok(b) && b@ == bytes@.subrange(0, old(self).quota() - old(self).written())
                && final(self).written() == old(self).quota() && final(self).error() == Some(FileErr::FileLimitExceeded)),
    {
        if self.latched.is_some() {
            let r = self.check();
            return match r {
                Ok(()) => Err(FileErr::TaskDead("sink")),
                Err(e) => Err(e),
            };
        }
        let len = bytes.len();
        let remaining = self.quota - self.written;
        if (len as u64) <= remaining {
            self.written = self.written + len as u64;
            Ok(bytes)
        } else {
            let mut bytes = bytes;
            let head = bytes.pop(remaining as usize);
            self.written = self.quota;
            self.latched = Some(FileErr::FileLimitExceeded);
            Ok(head)
        }
    }

    /// Records a failed I/O operation; the first error is the one kept.
    pub fn fail(&mut self, err: FileErr)
        requires
            old(self).wf(),
        ensures
            final(self).wf(),
            final(self).quota() == old(self).quota(),
            final(self).written() == old(self).written(),
            final(self).error() == if old(self).error() is Some {
                old(self).error()
            } else {
                Some(err)
            },
    {
        if self.latched.is_none() {
            self.latched = Some(err);
        }
    }

    /// Takes in what the watcher reported after an operation: `None` when the
    /// watcher is gone. Removal, a watch error, a re-established watch or a
    /// lost watcher end the sink; a modification does not.
    pub fn observe(&mut self, event: Option<FileEvent>)
        requires
            old(self).wf(),
        ensures
            final(self).wf(),
            final(self).quota() == old(self).quota(),
            final(self).written() == old(self).written(),
            final(self).error() == if old(self).error() is Some {
                old(self).error()
            } else {
                event_error(event)
            },
    {
        let err = match event {
            None => Some(FileErr::TaskDead("watcher")),
            Some(FileEvent::Modify) => None,
            Some(FileEvent::Remove) => Some(FileErr::FileRemoved),
            Some(FileEvent::Rewatch) => Some(FileErr::TaskDead("watcher")),
            Some(FileEvent::Error(m)) => Some(FileErr::WatchError(m)),
        };
        match err {
            Some(e) => self.fail(e),
            None => {},
        }
    }

    /// `Ok` while the sink runs; afterwards the error that ended it, every
    /// time it is asked (an I/O error is handed out once, then
    /// `DuplicateIoError`).
    pub fn check(&mut self) -> (r: Result<(), FileErr>)
        requires
            old(self).wf(),
        ensures
            final(self).wf(),
            final(self).quota() == old(self).quota(),
            final(self).written() == old(self).written(),
            old(self).error() is None ==> r is Ok && final(self).error() is None,
            old(self).error() matches Some(e) ==> r == Err::<(), FileErr>(e) && final(self).error() == Some(e.duplicate()),
    {
        take_latched(&mut self.latched)
    }
}

fn take_latched(slot: &mut Option<FileErr>) -> (r: Result<(), FileErr>)
    ensures
        *old(slot) is None ==> r is Ok && *final(slot) is None,
        *old(slot) matches Some(e) ==> r == Err::<(), FileErr>(e) && *final(slot) == Some(e.duplicate()),
{
    match slot {
        None => Ok(()),
        Some(e) => Err(e.take()),
    }
}

/// The outcome of a flush with `marker` on the sink's next update: `None`
/// when the sink task is gone.
pub fn flush_progress(marker: u32, update: Option<SinkUpdate>) -> (r: Progress)
    ensures
        match update {
            Some(SinkUpdate::Receipt(m)) => if m == marker {
                r == Progress::Done(Ok(()))
            } else {
                r == Progress::Wait
            },
            Some(SinkUpdate::FileErr(e)) => r == Progress::Done(Err(e)),
            None => r == Progress::Done(Err(FileErr::TaskDead("sink"))),
        },
{
    match update {
        Some(SinkUpdate::Receipt(m)) => if m == marker {
            Progress::Done(Ok(()))
        } else {
            Progress::Wait
        },
        Some(SinkUpdate::FileErr(e)) => Progress::Done(Err(e)),
        None => Progress::Done(Err(FileErr::TaskDead("sink"))),
    }
}

/// The outcome of a full sync on the sink's next update.
pub fn sync_progress(update: Option<SinkUpdate>) -> (r: Progress)
    ensures
        r == flush_progress_spec(SYNC_MARKER, update),
{
    flush_progress(SYNC_MARKER, update)
}

/// What `flush_progress` returns.
pub open spec fn flush_progress_spec(marker: u32, update: Option<SinkUpdate>) -> Progress {
    match update {
        Some(SinkUpdate::Receipt(m)) => if m == marker {
            Progress::Done(Ok(()))
        } else {
            Progress::Wait
        },
        Some(SinkUpdate::FileErr(e)) => Progress::Done(Err(e)),
        None => Progress::Done(Err(FileErr::TaskDead("sink"))),
    }
}

/// The index of the first error among `us`, if there is one.
pub open spec fn first_error_at(us: Seq<SinkUpdate>, i: int) -> bool {
    0 <= i < us.len() && us[i] is FileErr && forall|j: int| 0 <= j < i ==> !(#[trigger] us[j] is FileErr)
}

/// The error that a sink which has stopped taking requests left among its
/// pending updates, which this drains: the first `FileErr` among them, the
/// receipts before it skipped, or `TaskDead` when there is none.
pub fn stored_error(pending: &mut Vec<SinkUpdate>) -> (r: FileErr)
    ensures
        (exists|i: int| first_error_at(old(pending)@, i)) ==> exists|i: int|
            first_error_at(old(pending)@, i) && old(pending)@[i] == SinkUpdate::FileErr(r),
        (forall|i: int| 0 <= i < old(pending)@.len() ==> !(#[trigger] old(pending)@[i] is FileErr))
            ==> r == FileErr::TaskDead("sink"),
{
    let ghost us = pending@;
    let n = pending.len();
    let mut k: usize = 0;
    while pending.len() > 0
        invariant
            k <= us.len(),
            us.len() == n,
            us == old(pending)@,
            pending@ == us.subrange(k as int, us.len() as int),
            forall|j: int| 0 <= j < k ==> !(#[trigger] us[j] is FileErr),
        decreases pending@.len(),
    {
        let u = pending.remove(0);
        assert(u == us[k as int]);
        let ghost gu = u;
        match u {
            SinkUpdate::FileErr(e) => {
                assert(gu == SinkUpdate::FileErr(e));
                assert(us[k as int] is FileErr);
                assert(first_error_at(us, k as int));
                assert(us[k as int] == SinkUpdate::FileErr(e));
                return e;
            },
            SinkUpdate::Receipt(_) => {},
        }
        k = k + 1;
        assert(pending@ =~= us.subrange(k as int, us.len() as int));
    }
    assert forall|i: int| 0 <= i < us.len() implies !first_error_at(us, i) by {}
    FileErr::TaskDead("sink")
}

} // verus!
