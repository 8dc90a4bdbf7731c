use vstd::prelude::*;

use crate::error::{FileErr, FormatErr};
use crate::sink::FileEvent;

verus! {

/// What a reader that tails a file does next.
#[derive(Debug)]
pub enum TailStep {
    /// More bytes are there: read on from the current position.
    Read,
    /// Everything has been read: wait for the watcher.
    Wait,
    /// The stream ends with this error.
    Stop(FileErr),
}

/// The next step of a reader that has read up to `position` of a file that
/// is now `file_len` bytes long, given the watcher's latest event (`None`
/// when there is none). Removal ends the stream with `FileRemoved`, a watch
/// error with `WatchError`, and a file shrunk below the position with
/// `FormatErr::Truncated` at the position; otherwise the reader reads while
/// there are bytes past its position, and waits when there are none.
pub fn tail_step(position: u64, file_len: u64, event: Option<FileEvent>) -> (r: TailStep)
    ensures
        event matches Some(FileEvent::Remove) ==> r == TailStep::Stop(FileErr::FileRemoved),
        event matches Some(FileEvent::Error(m)) ==> r == TailStep::Stop(FileErr::WatchError(m)),
        !(event matches Some(FileEvent::Remove)) && !(event matches Some(FileEvent::Error(_)))
            ==> r == if file_len < position {
            TailStep::Stop(FileErr::FormatErr(FormatErr::Truncated(position)))
        } else if file_len > position {
            TailStep::Read
        } else {
            TailStep::Wait
        },
{
    match event {
        Some(FileEvent::Remove) => {
            return TailStep::Stop(FileErr::FileRemoved);
        },
        Some(FileEvent::Error(m)) => {
            return TailStep::Stop(FileErr::WatchError(m));
        },
        _ => {},
    }
    if file_len < position {
        TailStep::Stop(FileErr::FormatErr(FormatErr::Truncated(position)))
    } else if file_len > position {
        TailStep::Read
    } else {
        TailStep::Wait
    }
}

} // verus!
