//! File objects of `open()`.

use vstd::prelude::*;

use crate::exception::{ExcType, RunError, RunResult};
use crate::heap::HeapId;
use crate::types::file_mode::FileMode;
use crate::types::py_type::Type;

verus! {

/// What a buffered read or seek asks for.
#[derive(Clone, Copy, Debug, PartialEq, Eq, Structural)]
pub enum ReadSpec {
    /// Everything from the position on.
    All,
    /// At most this many characters or bytes.
    Size(usize),
    /// One line.
    Line,
    /// All remaining lines.
    Lines,
    /// A new position.
    Seek { offset: i64, whence: i64 },
}

/// What is left to do for a file when a call to the host returns.
#[derive(Clone, Copy, Debug, PartialEq, Eq, Structural)]
pub enum PendingFileEffect {
    /// Store the content that was read, then compute the pending read.
    BufferStore { file_id: HeapId },
    /// Move the position by what was written.
    WritePosition { file_id: HeapId, previous_position: u64, previous_length: u64 },
}

/// What is remembered about a loaded buffer.
#[derive(Clone, Copy, Debug, PartialEq, Eq, Structural)]
pub struct BufferMeta {
    /// Byte offset of the position, at most the length of the buffer.
    pub byte_position: u64,
    /// Length of the buffer in characters for text and in bytes for binary files.
    pub buffer_total: u64,
}

/// A file object. It holds no native handle: every access is one call to the host.
#[derive(Debug)]
pub struct OpenFile {
    pub path: String,
    pub mode: FileMode,
    pub first_write_done: bool,
    pub closed: bool,
    pub position: u64,
    pub buffer: Option<HeapId>,
    pub buffer_meta: Option<BufferMeta>,
    pub pending_read: Option<ReadSpec>,
    pub eof: bool,
    pub file_length: u64,
}

impl OpenFile {
    /// A file at a position. A truncating mode has already emptied the file.
    pub fn with_state(path: String, mode: FileMode, position: u64) -> (r: OpenFile)
        ensures
            r == (OpenFile {
                path,
                mode,
                first_write_done: mode.truncates(),
                closed: false,
                position,
                buffer: None,
                buffer_meta: None,
                pending_read: None,
                eof: false,
                file_length: position,
            }),
    {
        OpenFile {
            path,
            mode,
            first_write_done: mode.truncate(),
            closed: false,
            position,
            buffer: None,
            buffer_meta: None,
            pending_read: None,
            eof: false,
            file_length: position,
        }
    }

    /// A copy of the file's state.
    pub fn duplicate(&self) -> (r: OpenFile)
        ensures
            r == *self,
    {
        OpenFile {
            path: self.path.clone(),
            mode: self.mode,
            first_write_done: self.first_write_done,
            closed: self.closed,
            position: self.position,
            buffer: self.buffer,
            buffer_meta: self.buffer_meta,
            pending_read: self.pending_read,
            eof: self.eof,
            file_length: self.file_length,
        }
    }

    /// The path.
    pub fn path(&self) -> (r: &str)
        ensures
            r@ == self.path@,
    {
        self.path.as_str()
    }

    /// The canonical mode string.
    pub fn mode(&self) -> (r: &'static str)
        ensures
            r@ == self.mode.text(),
    {
        self.mode.as_str()
    }

    /// The mode.
    pub fn file_mode(&self) -> (r: &FileMode)
        ensures
            *r == self.mode,
    {
        &self.mode
    }

    /// The position.
    pub fn position(&self) -> (r: u64)
        ensures
            r == self.position,
    {
        self.position
    }

    /// The heap entry of the loaded content, if any.
    pub fn buffer_id(&self) -> (r: Option<HeapId>)
        ensures
            r == self.buffer,
    {
        self.buffer
    }

    /// The type of the file object.
    pub fn file_type(&self) -> (r: Type)
        ensures
            r == self.mode.object_type(),
    {
        self.mode.file_type()
    }

    /// Raises when the file is closed.
    pub fn ensure_open(&self) -> (r: RunResult<()>)
        ensures
            match r {
                Ok(_) => !self.closed,
                Err(e) => self.closed && e.says(
                    ExcType::ValueError,
                    "I/O operation on closed file."@,
                ),
            },
    {
        if self.closed {
            Err(RunError::new(ExcType::ValueError, "I/O operation on closed file."))
        } else {
            Ok(())
        }
    }

    /// Forgets a pending read, after the host raised.
    pub fn clear_pending_read(&mut self)
        ensures
            *final(self) == (OpenFile { pending_read: None, ..*old(self) }),
    {
        self.pending_read = None;
    }

    /// Puts the position back, after the host raised during a write.
    pub fn rollback_write_position(&mut self, previous_position: u64, previous_length: u64)
        ensures
            *final(self) == (OpenFile {
                position: previous_position,
                file_length: previous_length,
                eof: previous_position >= previous_length,
                ..*old(self)
            }),
    {
        self.position = previous_position;
        self.file_length = previous_length;
        self.eof = previous_position >= previous_length;
    }

    /// Puts the heap entry of the loaded content on the stack.
    pub fn py_dec_ref_ids(&self, stack: &mut Vec<HeapId>)
        ensures
            final(stack)@ == old(stack)@ + (match self.buffer {
                Some(id) => seq![id],
                None => Seq::empty(),
            }),
    {
        match self.buffer {
            Some(id) => {
                stack.push(id);
                assert(stack@ =~= old(stack)@ + seq![id]);
            },
            None => {
                assert(stack@ =~= old(stack)@ + Seq::<HeapId>::empty());
            },
        }
    }
}

} // verus!
