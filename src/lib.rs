//! A streaming log kept in a regular file: one writer per file, any number
//! of readers. The modules hold the on-disk format and the decisions of the
//! writer, the sink and the registry of writers; the tasks and I/O around
//! them belong to the program that uses the library.

pub mod bytes;
pub mod codec;
pub mod dispatcher;
pub mod duration;
pub mod error;
pub mod format;
pub mod kafka;
pub mod producer;
pub mod reader;
pub mod sequence;
pub mod sink;
pub mod stdio;
pub mod writer;
