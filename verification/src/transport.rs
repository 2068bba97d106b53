use vstd::prelude::*;

use crate::errors::LensError;

verus! {

/// The byte-oriented duplex channel a session drives: blocking write-all,
/// read-exact and read-until-timeout primitives, plus the pause taken between
/// ramp steps. The real serial port lives outside the verified crate and
/// implements this trait there; [`ScriptedTransport`] implements it here over
/// canned device traffic.
pub trait Transport: Sized {
    /// All bytes written to the channel so far, oldest first. An
    /// implementation verified in this crate must track its writes, or
    /// `write_all`'s contract is unsatisfiable; the default stands only for
    /// implementations outside the verified boundary, which these contracts
    /// never bind.
    open spec fn written(&self) -> Seq<u8> {
        Seq::empty()
    }

    /// Every pause taken so far, in milliseconds, oldest first. As with
    /// `written`, the default stands only for implementations outside the
    /// verified boundary.
    open spec fn paused(&self) -> Seq<u64> {
        Seq::empty()
    }

    /// Writes all of `data`, or fails at the channel level. On failure some
    /// prefix of `data` may have left the host; never more than was asked.
    fn write_all(&mut self, data: &[u8]) -> (r: Result<(), LensError>)
        ensures
            final(self).paused() == old(self).paused(),
            r matches Ok(_) ==> final(self).written() == old(self).written() + data@,
            r matches Err(e) ==> e == LensError::Transport,
            r matches Err(_) ==> exists|k: int|
                0 <= k <= data@.len() && final(self).written() == old(self).written() + #[trigger] data@.subrange(0, k),
    ;

    /// Reads exactly `n` bytes, or fails at the channel level (a timeout that
    /// expires before `n` bytes arrived is such a failure).
    fn read_exact(&mut self, n: usize) -> (r: Result<Vec<u8>, LensError>)
        ensures
            final(self).written() == old(self).written(),
            final(self).paused() == old(self).paused(),
            r matches Ok(v) ==> v@.len() == n,
            r matches Err(e) ==> e == LensError::Transport,
    ;

    /// Reads whatever arrives before the channel's timeout, at most `max`
    /// bytes; used by the framing variant that ends on a timeout rather than
    /// a known length.
    fn read_available(&mut self, max: usize) -> (r: Result<Vec<u8>, LensError>)
        ensures
            final(self).written() == old(self).written(),
            final(self).paused() == old(self).paused(),
            r matches Ok(v) ==> v@.len() <= max,
            r matches Err(e) ==> e == LensError::Transport,
    ;

    /// Blocks the calling thread for `millis` milliseconds.
    fn pause(&mut self, millis: u64)
        ensures
            final(self).written() == old(self).written(),
            final(self).paused() == old(self).paused().push(millis),
    ;
}

/// A transport that replays a canned byte sequence to reads and records every
/// byte written and every pause taken: the stand-in for the device side of
/// the link in tests.
pub struct ScriptedTransport {
    input: Vec<u8>,
    cursor: usize,
    log: Vec<u8>,
    pauses: Vec<u64>,
    fail_writes: bool,
    write_budget: Option<usize>,
}

impl ScriptedTransport {
    /// The input bytes not yet served to reads.
    pub closed spec fn spec_remaining(&self) -> int {
        self.input@.len() - self.cursor
    }

    /// A transport that serves `input` to reads and accepts every write.
    pub fn new(input: Vec<u8>) -> (r: ScriptedTransport)
        ensures
            r.written() == Seq::<u8>::empty(),
            r.paused() == Seq::<u64>::empty(),
            r.spec_remaining() == input@.len(),
    {
        ScriptedTransport {
            input,
            cursor: 0,
            log: Vec::new(),
            pauses: Vec::new(),
            fail_writes: false,
            write_budget: None,
        }
    }

    /// A transport whose writes all fail at the channel level.
    pub fn failing_writes() -> (r: ScriptedTransport)
        ensures
            r.written() == Seq::<u8>::empty(),
            r.paused() == Seq::<u64>::empty(),
    {
        ScriptedTransport {
            input: Vec::new(),
            cursor: 0,
            log: Vec::new(),
            pauses: Vec::new(),
            fail_writes: true,
            write_budget: None,
        }
    }

    /// A transport whose first `writes` write calls succeed and whose later
    /// ones fail at the channel level, for driving a session into a
    /// mid-sequence fault.
    pub fn failing_writes_after(input: Vec<u8>, writes: usize) -> (r: ScriptedTransport)
        ensures
            r.written() == Seq::<u8>::empty(),
            r.paused() == Seq::<u64>::empty(),
            r.spec_remaining() == input@.len(),
    {
        ScriptedTransport {
            input,
            cursor: 0,
            log: Vec::new(),
            pauses: Vec::new(),
            fail_writes: false,
            write_budget: Some(writes),
        }
    }

    /// The bytes written so far.
    pub fn written_bytes(&self) -> (r: &Vec<u8>)
        ensures
            r@ == self.written(),
    {
        &self.log
    }

    /// The pauses taken so far, in milliseconds.
    pub fn paused_millis(&self) -> (r: &Vec<u64>)
        ensures
            r@ == self.paused(),
    {
        &self.pauses
    }

    /// How many input bytes reads have not consumed yet.
    pub fn remaining(&self) -> (r: usize)
        ensures
            r == self.spec_remaining() || self.spec_remaining() < 0 && r == 0,
    {
        if self.cursor <= self.input.len() {
            self.input.len() - self.cursor
        } else {
            0
        }
    }
}

impl Transport for ScriptedTransport {
    closed spec fn written(&self) -> Seq<u8> {
        self.log@
    }

    closed spec fn paused(&self) -> Seq<u64> {
        self.pauses@
    }

    fn write_all(&mut self, data: &[u8]) -> (r: Result<(), LensError>) {
        if self.fail_writes {
            proof {
                assert(self.log@ =~= old(self).log@ + data@.subrange(0, 0));
            }
            return Err(LensError::Transport);
        }
        match self.write_budget {
            Some(0) => {
                proof {
                    assert(self.log@ =~= old(self).log@ + data@.subrange(0, 0));
                }
                return Err(LensError::Transport);
            },
            Some(b) => {
                self.write_budget = Some(b - 1);
            },
            None => {},
        }
        let mut i: usize = 0;
        while i < data.len()
            invariant
                0 <= i <= data@.len(),
                self.log@ == old(self).log@ + data@.subrange(0, i as int),
                self.pauses == old(self).pauses,
            decreases data@.len() - i,
        {
            self.log.push(data[i]);
            proof {
                assert(self.log@ =~= old(self).log@ + data@.subrange(0, i + 1 as int));
            }
            i = i + 1;
        }
        proof {
            assert(self.log@ =~= old(self).log@ + data@);
        }
        Ok(())
    }

    fn read_exact(&mut self, n: usize) -> (r: Result<Vec<u8>, LensError>) {
        if self.cursor > self.input.len() || self.input.len() - self.cursor < n {
            return Err(LensError::Transport);
        }
        let mut out: Vec<u8> = Vec::new();
        let mut i: usize = 0;
        while i < n
            invariant
                0 <= i <= n,
                self.cursor + n <= self.input@.len(),
                self.cursor + n <= usize::MAX,
                out@.len() == i,
                self == old(self),
            decreases n - i,
        {
            out.push(self.input[self.cursor + i]);
            i = i + 1;
        }
        self.cursor = self.cursor + n;
        Ok(out)
    }

    fn read_available(&mut self, max: usize) -> (r: Result<Vec<u8>, LensError>) {
        if self.cursor > self.input.len() {
            return Err(LensError::Transport);
        }
        let available: usize = self.input.len() - self.cursor;
        let n: usize = if available < max {
            available
        } else {
            max
        };
        let mut out: Vec<u8> = Vec::new();
        let mut i: usize = 0;
        while i < n
            invariant
                0 <= i <= n,
                self.cursor + n <= self.input@.len(),
                self.cursor + n <= usize::MAX,
                out@.len() == i,
                self == old(self),
                n <= max,
            decreases n - i,
        {
            out.push(self.input[self.cursor + i]);
            i = i + 1;
        }
        self.cursor = self.cursor + n;
        Ok(out)
    }

    fn pause(&mut self, millis: u64) {
        self.pauses.push(millis);
    }
}

} // verus!
