//! The synchronized sink: a console behind a mutual-exclusion flag, with a
//! record-oriented `log` entry point and a panic-path escape hatch.

use vstd::prelude::*;

use crate::logger::{
    clear_spec, fb_area, info_wf, lemma_steps_ok_linear, lemma_write_seq_y_bound, state_wf,
    step_char, vspace_spec, write_seq, LogState, Logger, LINE_SPACING,
};
use crate::pixel::FrameBufferInfo;

verus! {

/// Extra vertical space, in pixel rows, between separate log records.
pub const LOG_SPACING: usize = 2;

/// What logging one record does to the console: the record's text, a line
/// feed, then the record separator space.
pub open spec fn log_spec(s: LogState, cs: Seq<char>) -> LogState {
    vspace_spec(step_char(write_seq(s, cs), '\n'), LOG_SPACING as int)
}

/// A console guarded by an exclusion flag, so that at most one writer is
/// inside the renderer for the whole of a record.
pub struct LockedLogger {
    logger: Logger,
    locked: bool,
}

impl LockedLogger {
    /// The state of the wrapped console.
    pub closed spec fn view(&self) -> LogState {
        self.logger@
    }

    /// Whether the lock is currently held.
    pub closed spec fn held(&self) -> bool {
        self.locked
    }

    /// The sink's invariant: the wrapped console's.
    pub open spec fn wf(&self) -> bool {
        state_wf(self@)
    }

    /// Creates an unlocked sink that logs to the given buffer and geometry;
    /// the screen starts cleared.
    pub fn new(framebuffer: Vec<u8>, info: FrameBufferInfo) -> (r: LockedLogger)
        requires
            info_wf(info),
            fb_area(info) <= framebuffer@.len(),
        ensures
            r.wf(),
            !r.held(),
            r@ == clear_spec(LogState { fb: framebuffer@, info, x: 0, y: 0 }),
    {
        LockedLogger { logger: Logger::new(framebuffer, info), locked: false }
    }

    /// Acquires the lock if it is free, and reports whether it was acquired.
    pub fn try_lock(&mut self) -> (acquired: bool)
        ensures
            acquired == !old(self).held(),
            final(self).held(),
            final(self)@ == old(self)@,
    {
        if self.locked {
            false
        } else {
            self.locked = true;
            true
        }
    }

    /// Releases a held lock.
    pub fn unlock(&mut self)
        requires
            old(self).held(),
        ensures
            !final(self).held(),
            final(self)@ == old(self)@,
    {
        self.locked = false;
    }

    /// Unconditionally marks the lock free, whoever held it: the recovery
    /// hatch for a fault handler that may have interrupted a holder. The
    /// exclusive reference taken here already rules out a concurrent
    /// holder, so the console state itself is left intact.
    pub fn force_unlock(&mut self)
        ensures
            !final(self).held(),
            final(self)@ == old(self)@,
    {
        self.locked = false;
    }

    /// Whether the lock is currently held.
    pub fn is_locked(&self) -> (r: bool)
        ensures
            r == self.held(),
    {
        self.locked
    }

    /// The wrapped console, for inspection.
    pub fn inner(&self) -> (r: &Logger)
        ensures
            r@ == self@,
    {
        &self.logger
    }

    /// Logs one record under the lock: the record's text, a line feed, and
    /// the record separator space — if the cursor stays within `usize`
    /// range throughout, which `ok` reports. On `false` nothing is drawn.
    /// The lock is free again when the call returns.
    pub fn log(&mut self, s: &str) -> (ok: bool)
        requires
            old(self).wf(),
            !old(self).held(),
        ensures
            final(self).wf(),
            !final(self).held(),
            ok == (old(self)@.y + (8 + LINE_SPACING as int) * (s@.len() + 1) + (
            LOG_SPACING as int) <= usize::MAX as int),
            ok ==> final(self)@ == log_spec(old(self)@, s@),
            !ok ==> final(self)@ == old(self)@,
    {
        let _acquired = self.try_lock();
        let n = s.unicode_len();
        let y = self.logger.y_pos();
        let ok = y <= usize::MAX - LOG_SPACING - 8 - LINE_SPACING && n <= (usize::MAX - LOG_SPACING
            - y) / (8 + LINE_SPACING) - 1;
        if ok {
            proof {
                lemma_steps_ok_linear(self@, s@);
                lemma_write_seq_y_bound(self@, s@);
            }
            self.logger.write_str(s);
            self.logger.write_char('\n');
            self.logger.add_vspace(LOG_SPACING);
            self.unlock();
            true
        } else {
            self.unlock();
            false
        }
    }
}

} // verus!
