use vstd::prelude::*;
use crate::CopyError;
use crate::window::{diff_runs, runs_total, valid_runs, windows_equal, lemma_equal_windows_write_nothing, written_bytes};

verus! {

/// How the two windows of one iteration are read.
#[derive(Clone, Copy, Debug, PartialEq, Eq, Structural)]
pub enum ReadMode {
    /// The source window is read on a worker while the caller reads the
    /// destination window; the worker is joined before the step.
    Concurrent,
    /// Source, then destination, on the caller.
    Sequential,
}

/// State of one differential copy between a source and a destination.
#[derive(Clone, Copy, Debug, PartialEq, Eq, Structural)]
pub struct CopySession {
    pub src_size: u64,
    pub buffer_capacity: usize,
    pub block_size: usize,
    pub threaded: bool,
    /// Bytes read and compared so far.
    pub cursor: u64,
    /// Bytes written to the destination so far.
    pub bytes_written: u64,
}

/// What the caller does after a step.
#[derive(Debug)]
pub enum Step {
    /// One side is exhausted: the copy is over.
    Done,
    /// Write `src_window[a..b]` at `offset + a` for each `(a, b)` of `runs`,
    /// then read the next windows.
    Write { offset: u64, runs: Vec<(usize, usize)> },
}

impl CopySession {
    pub open spec fn wf(&self) -> bool {
        &&& self.bytes_written <= self.cursor <= self.src_size
        &&& 0 < self.block_size <= self.buffer_capacity
    }

    /// The session after a window pair of `n` bytes whose runs write `w` bytes.
    pub open spec fn advanced(&self, n: int, w: int) -> CopySession {
        CopySession { cursor: (self.cursor + n) as u64, bytes_written: (self.bytes_written + w) as u64, ..*self }
    }

    /// A session at the start of a copy.
    pub fn new(src_size: u64, buffer_capacity: usize, block_size: usize, threaded: bool) -> (r: CopySession)
        requires
            0 < block_size <= buffer_capacity,
        ensures
            r.wf(),
            r == (CopySession { src_size, buffer_capacity, block_size, threaded, cursor: 0, bytes_written: 0 }),
    {
        CopySession { src_size, buffer_capacity, block_size, threaded, cursor: 0, bytes_written: 0 }
    }

    pub fn read_mode(&self) -> (r: ReadMode)
        ensures
            r == (if self.threaded { ReadMode::Concurrent } else { ReadMode::Sequential }),
    {
        if self.threaded {
            ReadMode::Concurrent
        } else {
            ReadMode::Sequential
        }
    }

    /// Compares one pair of windows read at the cursor and decides the writes.
    /// Unequal read lengths, or a source longer than it was sized, stop the
    /// copy with `LengthMismatch`; the counts then stay as they were.
    pub fn step(&mut self, src: &[u8], dst: &[u8]) -> (r: Result<Step, CopyError>)
        requires
            old(self).wf(),
        ensures
            final(self).wf(),
            src@.len() == 0 || dst@.len() == 0 ==> r is Ok && r->Ok_0 is Done && *final(self) == *old(self),
            src@.len() > 0 && dst@.len() > 0 && (src@.len() != dst@.len()
                || old(self).cursor + src@.len() > old(self).src_size) ==> r == Err::<Step, CopyError>(
                CopyError::LengthMismatch,
            ) && *final(self) == *old(self),
            src@.len() > 0 && src@.len() == dst@.len() && old(self).cursor + src@.len() <= old(self).src_size ==> {
                &&& r is Ok
                &&& r->Ok_0 is Write
                &&& r->Ok_0->offset == old(self).cursor
                &&& valid_runs(src@, dst@, old(self).block_size as int, r->Ok_0->runs@)
                &&& (src@ == dst@ ==> r->Ok_0->runs@.len() == 0)
                &&& *final(self) == old(self).advanced(src@.len() as int, runs_total(r->Ok_0->runs@))
            },
    {
        let n = src.len();
        if n == 0 || dst.len() == 0 {
            return Ok(Step::Done);
        }
        if n != dst.len() || n as u64 > self.src_size - self.cursor {
            return Err(CopyError::LengthMismatch);
        }
        let runs = if windows_equal(src, dst) {
            Vec::new()
        } else {
            diff_runs(src, dst, self.block_size)
        };
        proof {
            if src@ == dst@ {
                lemma_equal_windows_write_nothing(src@, self.block_size as int, runs@);
            }
        }
        let w = written_bytes(&runs);
        let offset = self.cursor;
        self.cursor = self.cursor + n as u64;
        self.bytes_written = self.bytes_written + w;
        Ok(Step::Write { offset, runs })
    }
}

/// How far a step advances the counts does not depend on the read mode.
pub proof fn lemma_read_mode_does_not_change_counts(a: CopySession, b: CopySession, n: int, w: int)
    requires
        a == (CopySession { threaded: a.threaded, ..b }),
    ensures
        a.advanced(n, w).cursor == b.advanced(n, w).cursor,
        a.advanced(n, w).bytes_written == b.advanced(n, w).bytes_written,
        a.advanced(n, w) == (CopySession { threaded: a.threaded, ..b.advanced(n, w) }),
{
}

} // verus!
