//! Signals: the pending-signal bitmask of a task, job-control stop and
//! continue, and which pending signal is delivered next and how.
//!
//! A task's signal state is held in [`TaskSignals`]; the scheduler applies
//! the decided delivery (switching tasks, closing descriptors) itself.
use vstd::prelude::*;

verus! {

pub const SIGHUP: u32 = 1;
pub const SIGINT: u32 = 2;
pub const SIGQUIT: u32 = 3;
pub const SIGKILL: u32 = 9;
pub const SIGTERM: u32 = 15;
pub const SIGCONT: u32 = 18;
pub const SIGSTOP: u32 = 19;
pub const SIGTSTP: u32 = 20;
pub const SIGTTIN: u32 = 21;
pub const SIGTTOU: u32 = 22;

pub const SIG_DFL: u32 = 0;
pub const SIG_IGN: u32 = 1;

/// Bit of signal `sig` (1..=31) in a mask; 0 for any other number.
pub open spec fn spec_sigbit(sig: u32) -> u32 {
    if sig == 0 || sig > 31 { 0 } else { (1u32 << ((sig - 1) as u32)) as u32 }
}

pub fn sigbit(sig: u32) -> (r: u32)
    ensures
        r == spec_sigbit(sig),
{
    if sig == 0 || sig > 31 {
        0
    } else {
        1u32 << (sig - 1)
    }
}

/// Signals whose default action terminates the task.
pub open spec fn default_terminate() -> u32 {
    spec_sigbit(SIGHUP) | spec_sigbit(SIGINT) | spec_sigbit(SIGQUIT) | spec_sigbit(SIGKILL) | spec_sigbit(SIGTERM)
}

pub fn default_terminate_mask() -> (r: u32)
    ensures
        r == default_terminate(),
{
    sigbit(SIGHUP) | sigbit(SIGINT) | sigbit(SIGQUIT) | sigbit(SIGKILL) | sigbit(SIGTERM)
}

/// Bit `i` of `mask` is set.
pub open spec fn bit_set(mask: u32, i: u32) -> bool {
    i < 32 && (mask >> i) & 1u32 == 1u32
}

/// The lowest signal number pending in `mask`.
pub fn lowest_sig(mask: u32) -> (r: Option<u32>)
    ensures
        mask == 0 ==> r is None,
        mask != 0 ==> (r matches Some(s) && 1 <= s <= 32 && bit_set(mask, (s - 1) as u32)
            && forall|j: u32| j < s - 1 ==> !bit_set(mask, j)),
{
    if mask == 0 {
        return None;
    }
    proof {
        vstd::std_specs::bits::axiom_u32_trailing_zeros(mask);
    }
    let tz = mask.trailing_zeros();
    proof {
        assert forall|j: u32| j < tz implies !bit_set(mask, j) by {
            assert((mask >> j) & 1u32 == 0u32);
        }
    }
    Some(tz + 1)
}

/// The signal-related state of one task.
#[derive(Debug, Clone, Copy, PartialEq, Eq, Structural)]
pub struct TaskSignals {
    pub running: bool,
    pub stopped: bool,
    pub zombie: bool,
    pub stop_signal: u32,
    pub wait_stopped_pending: bool,
    pub wait_continued_pending: bool,
    pub term_signal: u32,
    pub exit_code: i32,
    pub pending_signals: u32,
}

/// Queue `sig` on the live task in `slot` (slot 0 is the kernel and takes
/// none).
pub fn send_signal(task: &mut Option<TaskSignals>, slot: i8, sig: u32) -> (r: bool)
    ensures
        r == (slot > 0 && 1 <= sig <= 31 && (*old(task) matches Some(t) && !t.zombie)),
        r ==> *final(task) == Some(TaskSignals {
            pending_signals: (*old(task))->0.pending_signals | spec_sigbit(sig),
            ..(*old(task))->0
        }),
        !r ==> *final(task) == *old(task),
{
    if slot <= 0 || sig == 0 || sig > 31 {
        return false;
    }
    match task {
        Some(t) => {
            if t.zombie {
                return false;
            }
            t.pending_signals = t.pending_signals | sigbit(sig);
            true
        },
        None => false,
    }
}

/// Stop the task in `slot` with signal `sig`, latching the event for
/// `waitpid`; a stop discards a pending SIGCONT and the stop signal itself.
pub fn stop_task_with_signal(task: &mut Option<TaskSignals>, slot: i8, sig: u32) -> (r: bool)
    ensures
        r == (slot > 0 && (*old(task) matches Some(t) && !t.zombie && !t.stopped)),
        r ==> *final(task) == Some(TaskSignals {
            running: false,
            stopped: true,
            stop_signal: sig,
            wait_stopped_pending: true,
            pending_signals: (*old(task))->0.pending_signals & !(spec_sigbit(sig) | spec_sigbit(SIGCONT)),
            ..(*old(task))->0
        }),
        !r ==> *final(task) == *old(task),
{
    if slot <= 0 {
        return false;
    }
    match task {
        Some(t) => {
            if t.zombie || t.stopped {
                return false;
            }
            t.running = false;
            t.stopped = true;
            t.stop_signal = sig;
            t.wait_stopped_pending = true;
            t.pending_signals = t.pending_signals & !(sigbit(sig) | sigbit(SIGCONT));
            true
        },
        None => false,
    }
}

/// Stop with SIGSTOP.
pub fn stop_task(task: &mut Option<TaskSignals>, slot: i8) -> (r: bool)
    ensures
        r == (slot > 0 && (*old(task) matches Some(t) && !t.zombie && !t.stopped)),
        r ==> *final(task) == Some(TaskSignals {
            running: false,
            stopped: true,
            stop_signal: SIGSTOP,
            wait_stopped_pending: true,
            pending_signals: (*old(task))->0.pending_signals & !(spec_sigbit(SIGSTOP) | spec_sigbit(SIGCONT)),
            ..(*old(task))->0
        }),
        !r ==> *final(task) == *old(task),
{
    stop_task_with_signal(task, slot, SIGSTOP)
}

/// Job-control signals that SIGCONT discards.
pub open spec fn continue_discards() -> u32 {
    spec_sigbit(SIGCONT) | spec_sigbit(SIGSTOP) | spec_sigbit(SIGTSTP) | spec_sigbit(SIGTTIN) | spec_sigbit(SIGTTOU)
}

/// Resume the task in `slot`; a task that was stopped latches the
/// continue event for `waitpid`.
pub fn continue_task(task: &mut Option<TaskSignals>, slot: i8) -> (r: bool)
    ensures
        r == (slot > 0 && (*old(task) matches Some(t) && !t.zombie)),
        r ==> *final(task) == Some(TaskSignals {
            stopped: false,
            running: true,
            wait_continued_pending: (*old(task))->0.wait_continued_pending || (*old(task))->0.stopped,
            pending_signals: (*old(task))->0.pending_signals & !continue_discards(),
            ..(*old(task))->0
        }),
        !r ==> *final(task) == *old(task),
{
    if slot <= 0 {
        return false;
    }
    match task {
        Some(t) => {
            if t.zombie {
                return false;
            }
            let was_stopped = t.stopped;
            t.stopped = false;
            t.running = true;
            if was_stopped {
                t.wait_continued_pending = true;
            }
            t.pending_signals = t.pending_signals
                & !(sigbit(SIGCONT) | sigbit(SIGSTOP) | sigbit(SIGTSTP) | sigbit(SIGTTIN) | sigbit(SIGTTOU));
            true
        },
        None => false,
    }
}

/// Exit status of a task killed by `sig`.
pub open spec fn killed_by(t: TaskSignals, sig: u32) -> TaskSignals {
    TaskSignals {
        running: false,
        stopped: false,
        zombie: true,
        term_signal: sig,
        exit_code: (128 + sig) as i32,
        ..t
    }
}

/// Kill the task in `slot` at once (signal 0 counts as SIGKILL); its pending
/// signals are dropped.
pub fn force_kill(task: &mut Option<TaskSignals>, slot: i8, sig: u32) -> (r: bool)
    requires
        sig <= 0x7fff_ff00,
    ensures
        r == (slot > 0 && (*old(task) matches Some(t) && !t.zombie)),
        r ==> *final(task) == Some(TaskSignals {
            pending_signals: 0,
            ..killed_by((*old(task))->0, if sig == 0 { SIGKILL } else { sig })
        }),
        !r ==> *final(task) == *old(task),
{
    if slot <= 0 {
        return false;
    }
    match task {
        Some(t) => {
            if t.zombie {
                return false;
            }
            t.pending_signals = 0;
            t.running = false;
            t.stopped = false;
            t.zombie = true;
            t.term_signal = if sig == 0 { SIGKILL } else { sig };
            t.exit_code = 128 + t.term_signal as i32;
            true
        },
        None => false,
    }
}

/// What delivering the pending signals of the current task comes to.
#[derive(Debug, Clone, Copy, PartialEq, Eq, Structural)]
pub enum Delivery {
    /// Nothing (more) to deliver; the task resumes where it was.
    Resume,
    /// Enter the user handler at `handler` with `sig` as its argument.
    Handler { sig: u32, handler: u32 },
    /// The default action of `sig` terminates the task.
    Terminate { sig: u32 },
}

/// Delivery of the signals pending in `remaining`, lowest first: ignored
/// signals and signals without a terminating default are dropped; the first
/// one with a handler or a terminating default decides. Returns the pending
/// mask after delivery and the decision.
pub open spec fn spec_deliver(pending: u32, handlers: Seq<u32>, i: nat) -> (u32, Delivery)
    decreases 32 - i,
{
    if i >= 32 {
        (pending, Delivery::Resume)
    } else if !bit_set(pending, i as u32) {
        spec_deliver(pending, handlers, i + 1)
    } else {
        let sig = (i + 1) as u32;
        let cleared = pending & !spec_sigbit(sig);
        let h = handlers[i as int];
        if h == SIG_IGN {
            spec_deliver(cleared, handlers, i + 1)
        } else if h != SIG_DFL {
            (cleared, Delivery::Handler { sig, handler: h })
        } else if default_terminate() & spec_sigbit(sig) != 0 {
            (cleared, Delivery::Terminate { sig })
        } else {
            spec_deliver(cleared, handlers, i + 1)
        }
    }
}

/// Decide how the pending signals of a running task are delivered, given
/// its 32 handler slots (0 = default, 1 = ignore, else a user address).
pub fn deliver_pending(pending: u32, handlers: &[u32; 32]) -> (r: (u32, Delivery))
    ensures
        r == spec_deliver(pending, handlers@, 0),
{
    let mut remaining = pending;
    let mut i: u32 = 0;
    while i < 32
        invariant
            0 <= i <= 32,
            spec_deliver(remaining, handlers@, i as nat) == spec_deliver(pending, handlers@, 0),
        decreases 32 - i,
    {
        if (remaining >> i) & 1u32 == 1u32 {
            let sig = i + 1;
            let cleared = remaining & !sigbit(sig);
            let h = handlers[i as usize];
            if h == SIG_IGN {
                remaining = cleared;
            } else if h != SIG_DFL {
                return (cleared, Delivery::Handler { sig, handler: h });
            } else if default_terminate_mask() & sigbit(sig) != 0 {
                return (cleared, Delivery::Terminate { sig });
            } else {
                remaining = cleared;
            }
        }
        i = i + 1;
    }
    (remaining, Delivery::Resume)
}


/// A pending signal `j + 1` that delivery passes over: it is ignored, or
/// its default action does not terminate.
pub open spec fn passed_over(handlers: Seq<u32>, j: u32) -> bool {
    handlers[j as int] == SIG_IGN || (handlers[j as int] == SIG_DFL
        && default_terminate() & spec_sigbit((j + 1) as u32) == 0)
}

/// Delivery from bit `i` on, all lower bits already consumed.
proof fn lemma_deliver_from(p: u32, h: Seq<u32>, i: nat)
    requires
        h.len() == 32,
        i <= 32,
        !bit_set(p, 31),
        forall|j: u32| j < i ==> !#[trigger] bit_set(p, j),
    ensures
        ({
            let (rem, d) = spec_deliver(p, h, i);
            &&& d is Resume ==> (forall|j: u32| j < 32 ==> !#[trigger] bit_set(rem, j))
                && (forall|j: u32| i <= j < 32 && #[trigger] bit_set(p, j) ==> passed_over(h, j))
            &&& d matches Delivery::Handler { sig, handler } ==> {
                &&& i < sig <= 31
                &&& bit_set(p, (sig - 1) as u32)
                &&& handler == h[sig - 1] && handler != SIG_DFL && handler != SIG_IGN
                &&& forall|j: u32| j < 32 ==> #[trigger] bit_set(rem, j) == (bit_set(p, j) && j >= sig)
                &&& forall|j: u32| i <= j < sig - 1 && #[trigger] bit_set(p, j) ==> passed_over(h, j)
            }
            &&& d matches Delivery::Terminate { sig } ==> {
                &&& i < sig <= 31
                &&& bit_set(p, (sig - 1) as u32)
                &&& h[sig - 1] == SIG_DFL && default_terminate() & spec_sigbit(sig) != 0
                &&& forall|j: u32| j < 32 ==> #[trigger] bit_set(rem, j) == (bit_set(p, j) && j >= sig)
                &&& forall|j: u32| i <= j < sig - 1 && #[trigger] bit_set(p, j) ==> passed_over(h, j)
            }
        }),
    decreases 32 - i,
{
    if i >= 32 {
        return;
    }
    if !bit_set(p, i as u32) {
        lemma_deliver_from(p, h, i + 1);
        return;
    }
    let sig = (i + 1) as u32;
    let cleared = p & !spec_sigbit(sig);
    assert(i < 31);
    assert(spec_sigbit(sig) == 1u32 << (i as u32));
    assert forall|j: u32| j < 32 implies #[trigger] bit_set(cleared, j) == (bit_set(p, j) && j != i) by {
        crate::util::lemma_bit_facts(p, i as u32, j);
    }
    let hd = h[i as int];
    if hd == SIG_IGN || (hd == SIG_DFL && default_terminate() & spec_sigbit(sig) == 0) {
        assert(!bit_set(cleared, 31));
        assert(spec_deliver(p, h, i) == spec_deliver(cleared, h, i + 1));
        lemma_deliver_from(cleared, h, i + 1);
        assert(passed_over(h, i as u32));
        assert forall|j: u32| i < j < 32 && #[trigger] bit_set(p, j) implies bit_set(cleared, j) by {
            assert(bit_set(cleared, j) == (bit_set(p, j) && j != i));
        }
    } else {
        assert forall|j: u32| j < 32 implies #[trigger] bit_set(cleared, j) == (bit_set(p, j) && j >= sig) by {
            assert(bit_set(cleared, j) == (bit_set(p, j) && j != i));
            if j < i {
                assert(!bit_set(p, j));
            }
        }
    }
}

/// What delivery decides, over every pending mask (bit 31, which no signal
/// number sets, clear) and every handler table: the signals below the one
/// that decides are exactly those passed over (ignored, or with a default
/// that does not terminate); a handler or a terminating default decides on
/// a pending signal, which leaves the pending mask together with every
/// signal below it, while the signals above stay pending; and when nothing
/// decides, no signal stays pending.
pub proof fn law_delivery_consumes_what_it_passes(pending: u32, handlers: Seq<u32>)
    requires
        handlers.len() == 32,
        !bit_set(pending, 31),
    ensures
        ({
            let (rem, d) = spec_deliver(pending, handlers, 0);
            &&& d is Resume ==> forall|j: u32| j < 32 ==> !#[trigger] bit_set(rem, j)
            &&& d is Resume ==> forall|j: u32| j < 32 && #[trigger] bit_set(pending, j) ==> passed_over(handlers, j)
            &&& d matches Delivery::Handler { sig, handler } ==> {
                &&& 1 <= sig <= 31
                &&& bit_set(pending, (sig - 1) as u32)
                &&& !bit_set(rem, (sig - 1) as u32)
                &&& handler == handlers[sig - 1] && handler != SIG_DFL && handler != SIG_IGN
                &&& forall|j: u32| j < 32 ==> #[trigger] bit_set(rem, j) == (bit_set(pending, j) && j >= sig)
                &&& forall|j: u32| j < sig - 1 && #[trigger] bit_set(pending, j) ==> passed_over(handlers, j)
            }
            &&& d matches Delivery::Terminate { sig } ==> {
                &&& 1 <= sig <= 31
                &&& bit_set(pending, (sig - 1) as u32)
                &&& !bit_set(rem, (sig - 1) as u32)
                &&& handlers[sig - 1] == SIG_DFL && default_terminate() & spec_sigbit(sig) != 0
                &&& forall|j: u32| j < 32 ==> #[trigger] bit_set(rem, j) == (bit_set(pending, j) && j >= sig)
                &&& forall|j: u32| j < sig - 1 && #[trigger] bit_set(pending, j) ==> passed_over(handlers, j)
            }
        }),
{
    lemma_deliver_from(pending, handlers, 0);
    let (rem, d) = spec_deliver(pending, handlers, 0);
    if let Delivery::Handler { sig, handler } = d {
        assert(bit_set(rem, (sig - 1) as u32) == (bit_set(pending, (sig - 1) as u32) && (sig - 1) as u32 >= sig));
    }
    if let Delivery::Terminate { sig } = d {
        assert(bit_set(rem, (sig - 1) as u32) == (bit_set(pending, (sig - 1) as u32) && (sig - 1) as u32 >= sig));
    }
}

/// After a switch caused by a fatal signal, the newly current task is only
/// checked for terminating signals: the lowest of them kills it and they are
/// all cleared; otherwise all its pending signals are dropped.
pub fn deliver_pending_after_switch(pending: u32) -> (r: (u32, Delivery))
    ensures
        pending & default_terminate() != 0 ==> r.0 == pending & !default_terminate()
            && (r.1 matches Delivery::Terminate { sig } && bit_set(pending & default_terminate(), (sig - 1) as u32)
            && forall|j: u32| j < sig - 1 ==> !bit_set(pending & default_terminate(), j)),
        pending & default_terminate() == 0 ==> r == (0u32, Delivery::Resume),
{
    let mask = default_terminate_mask();
    let fatal = pending & mask;
    assert(pending & !(pending & mask) == pending & !mask) by (bit_vector);
    if fatal != 0 {
        let sig = match lowest_sig(fatal) {
            Some(s) => s,
            None => SIGINT,
        };
        (pending & !fatal, Delivery::Terminate { sig })
    } else {
        (0, Delivery::Resume)
    }
}

/// The user stack after entering a handler: the signal number and then the
/// interrupted `eip` are pushed (cdecl), and execution goes to the handler.
/// Returns the new stack pointer and the two stores, highest address first.
pub fn handler_frame(esp: u32, eip: u32, sig: u32) -> (r: (u32, (u32, u32), (u32, u32)))
    ensures
        r.1 == (esp.wrapping_sub(4), sig),
        r.2 == (esp.wrapping_sub(4).wrapping_sub(4), eip),
        r.0 == esp.wrapping_sub(4).wrapping_sub(4),
{
    let a = esp.wrapping_sub(4);
    let b = a.wrapping_sub(4);
    (b, (a, sig), (b, eip))
}


/// What kill(2) does to a live slot with signal `sig` (1..=31), given the
/// task's handler for it: whether the signal was taken, and the task after.
pub open spec fn kill_effect(t: Option<TaskSignals>, sig: u32, handler: u32) -> (bool, Option<TaskSignals>) {
    let live = t matches Some(x) && !x.zombie;
    let x = t->0;
    let queued = (live, if live { Some(TaskSignals { pending_signals: x.pending_signals | spec_sigbit(sig), ..x }) } else { t });
    let can_stop = live && !x.stopped;
    let stopped = (can_stop, if can_stop {
        Some(TaskSignals {
            running: false,
            stopped: true,
            stop_signal: SIGSTOP,
            wait_stopped_pending: true,
            pending_signals: x.pending_signals & !(spec_sigbit(SIGSTOP) | spec_sigbit(SIGCONT)),
            ..x
        })
    } else { t });
    if sig == SIGKILL {
        (live, if live { Some(TaskSignals { pending_signals: 0, ..killed_by(x, sig) }) } else { t })
    } else if sig == SIGSTOP {
        stopped
    } else if sig == SIGTSTP || sig == SIGTTIN || sig == SIGTTOU {
        if handler == SIG_IGN {
            (true, t)
        } else if handler != SIG_DFL {
            queued
        } else {
            stopped
        }
    } else if sig == SIGCONT {
        (live, if live {
            Some(TaskSignals {
                stopped: false,
                running: true,
                wait_continued_pending: x.wait_continued_pending || x.stopped,
                pending_signals: x.pending_signals & !continue_discards(),
                ..x
            })
        } else { t })
    } else {
        queued
    }
}

/// Deliver `sig` (1..=31) to slot `slot` the way kill(2) does (see
/// [`kill_effect`]); slot 0 and slots past the table take nothing.
/// `handler` is the task's handler for `sig`.
pub fn signal_slot(task: &mut Option<TaskSignals>, slot: usize, sig: u32, handler: u32) -> (r: bool)
    requires
        1 <= sig <= 31,
    ensures
        (slot == 0 || slot >= 32) ==> !r && *final(task) == *old(task),
        1 <= slot < 32 ==> (r, *final(task)) == kill_effect(*old(task), sig, handler),
{
    if slot == 0 || slot >= 32 {
        return false;
    }
    let s = slot as i8;
    if sig == SIGKILL {
        force_kill(task, s, sig)
    } else if sig == SIGSTOP {
        stop_task(task, s)
    } else if sig == SIGTSTP || sig == SIGTTIN || sig == SIGTTOU {
        if handler == SIG_IGN {
            true
        } else if handler != SIG_DFL {
            send_signal(task, s, sig)
        } else {
            stop_task(task, s)
        }
    } else if sig == SIGCONT {
        continue_task(task, s)
    } else {
        send_signal(task, s, sig)
    }
}

/// sigaction(sig, act, oldact) on the caller's handler table (`None` when
/// it has no task): SIGKILL, SIGSTOP and numbers outside 1..=31 are
/// refused with `usize::MAX`. Returns the result and the old handler when
/// `want_old`; installs `act` when given.
pub fn sys_sigaction(handlers: &mut Option<[u32; 32]>, sig: u32, act: Option<u32>, want_old: bool) -> (r: (usize, Option<u32>))
    ensures
        (sig == 0 || sig > 31 || sig == SIGKILL || sig == SIGSTOP || *old(handlers) is None)
            ==> r == (usize::MAX, None::<u32>) && *final(handlers) == *old(handlers),
        !(sig == 0 || sig > 31 || sig == SIGKILL || sig == SIGSTOP) && *old(handlers) is Some ==> ({
            let h = (*old(handlers))->0;
            &&& r.0 == 0
            &&& r.1 == (if want_old { Some(h@[sig - 1]) } else { None })
            &&& *final(handlers) is Some
            &&& (*final(handlers))->0@ == (match act { Some(a) => h@.update(sig - 1, a), None => h@ })
        }),
{
    if sig == 0 || sig > 31 || sig == SIGKILL || sig == SIGSTOP {
        return (usize::MAX, None);
    }
    let idx = (sig - 1) as usize;
    match handlers {
        Some(h) => {
            let old_h = if want_old { Some(h[idx]) } else { None };
            match act {
                Some(a) => {
                    h[idx] = a;
                },
                None => {},
            }
            (0, old_h)
        },
        None => (usize::MAX, None),
    }
}

} // verus!
