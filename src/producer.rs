use vstd::prelude::*;

use crate::dispatcher::FileId;
use crate::error::FileErr;
use crate::format::{MessageHeader, StreamKey};

verus! {

/// The errors of the producer interface.
#[derive(Debug)]
pub enum StreamErr {
    /// The producer already has a default stream.
    AlreadyAnchored,
    /// The producer has no default stream.
    NotAnchored,
    Backend(FileErr),
}

/// A cheap handle to the writer of one file. It may carry a default stream,
/// set once.
#[derive(Debug)]
pub struct FileProducer {
    file_id: FileId,
    stream: Option<StreamKey>,
}

impl FileProducer {
    /// The file this handle writes to.
    pub closed spec fn file(&self) -> Seq<char> {
        self.file_id@
    }

    /// The key of the default stream, if one is set.
    pub closed spec fn anchor_key(&self) -> Option<Seq<u8>> {
        match self.stream {
            Some(k) => Some(k@),
            None => None,
        }
    }

    /// A handle to the writer of `file_id`, without a default stream.
    pub fn new(file_id: FileId) -> (r: FileProducer)
        ensures
            r.file() == file_id@,
            r.anchor_key() is None,
    {
        FileProducer { file_id, stream: None }
    }

    /// The file this handle writes to.
    pub fn file_id(&self) -> (r: &FileId)
        ensures
            r@ == self.file(),
    {
        &self.file_id
    }

    /// Sets the default stream; fails with `AlreadyAnchored`, changing
    /// nothing, if one is set.
    pub fn anchor(&mut self, stream: StreamKey) -> (r: Result<(), StreamErr>)
        ensures
            final(self).file() == old(self).file(),
            old(self).anchor_key() is None ==> r is Ok && final(self).anchor_key() == Some(stream@),
            old(self).anchor_key() is Some ==> (r matches Err(StreamErr::AlreadyAnchored))
                && final(self).anchor_key() == old(self).anchor_key(),
    {
        if self.stream.is_none() {
            self.stream = Some(stream);
            Ok(())
        } else {
            Err(StreamErr::AlreadyAnchored)
        }
    }

    /// The default stream; `NotAnchored` if none is set.
    pub fn anchored(&self) -> (r: Result<&StreamKey, StreamErr>)
        ensures
            match self.anchor_key() {
                Some(k) => r matches Ok(s) && s@ == k,
                None => r matches Err(StreamErr::NotAnchored),
            },
    {
        match &self.stream {
            Some(s) => Ok(s),
            None => Err(StreamErr::NotAnchored),
        }
    }
}

impl Clone for FileProducer {
    /// A second handle to the same writer, with the same default stream.
    fn clone(&self) -> (r: Self)
        ensures
            r.file() == self.file(),
            r.anchor_key() == self.anchor_key(),
    {
        let stream = match &self.stream {
            Some(k) => Some(k.copied()),
            None => None,
        };
        FileProducer { file_id: self.file_id.copied(), stream }
    }
}

/// What a send resolves to, from the writer's reply: `None` when the writer
/// went away without answering, which reads as `ProducerEnded`.
pub fn send_outcome(reply: Option<Result<MessageHeader, FileErr>>) -> (r: Result<
    MessageHeader,
    StreamErr,
>)
    ensures
        match reply {
            Some(Ok(h)) => r == Ok::<MessageHeader, StreamErr>(h),
            Some(Err(e)) => r == Err::<MessageHeader, StreamErr>(StreamErr::Backend(e)),
            None => r == Err::<MessageHeader, StreamErr>(StreamErr::Backend(FileErr::ProducerEnded)),
        },
{
    match reply {
        Some(Ok(h)) => Ok(h),
        Some(Err(e)) => Err(StreamErr::Backend(e)),
        None => Err(StreamErr::Backend(FileErr::ProducerEnded)),
    }
}

/// What a flush or an end resolves to: `delivered` says whether the request
/// reached the writer, and `reply` is its answer, `None` when it went away
/// without one. Both failures read as `ProducerEnded`.
pub fn reply_outcome(delivered: bool, reply: Option<Result<(), FileErr>>) -> (r: Result<(), StreamErr>)
    ensures
        !delivered ==> r == Err::<(), StreamErr>(StreamErr::Backend(FileErr::ProducerEnded)),
        delivered ==> match reply {
            Some(Ok(())) => r is Ok,
            Some(Err(e)) => r == Err::<(), StreamErr>(StreamErr::Backend(e)),
            None => r == Err::<(), StreamErr>(StreamErr::Backend(FileErr::ProducerEnded)),
        },
{
    if !delivered {
        return Err(StreamErr::Backend(FileErr::ProducerEnded));
    }
    match reply {
        Some(Ok(())) => Ok(()),
        Some(Err(e)) => Err(StreamErr::Backend(e)),
        None => Err(StreamErr::Backend(FileErr::ProducerEnded)),
    }
}

} // verus!
