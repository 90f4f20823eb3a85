//! Software breakpoints and the protocol that counts a hit and steps past it.
use vstd::prelude::*;
use crate::tracee::{Action, ThreadId, TRAP_BYTE};

verus! {

/// A trap instruction patched over one byte of the tracee.
#[derive(Debug)]
pub struct Breakpoint {
    /// Where the trap stands.
    address: u64,
    /// The byte the trap replaced.
    original: u8,
    /// Whether the trap byte is in place.
    armed: bool,
    /// Threads that hit the breakpoint and have not yet stepped past it.
    pending: Vec<ThreadId>,
}

proof fn lemma_push_contains<A>(s: Seq<A>, a: A, x: A)
    ensures
        s.push(a).contains(x) == (s.contains(x) || x == a),
{
    if s.contains(x) {
        let j = choose|j: int| 0 <= j < s.len() && #[trigger] s[j] == x;
        assert(s.push(a)[j] == x);
    }
    if x == a {
        assert(s.push(a)[s.len() as int] == x);
    }
    if s.push(a).contains(x) && x != a {
        let j = choose|j: int| 0 <= j < s.len() + 1 && #[trigger] s.push(a)[j] == x;
        assert(s[j] == x);
    }
}

/// `new` is `old` once `t` hit it: the trap is out and `t` is pending.
pub open spec fn taken(old: Breakpoint, new: Breakpoint, t: ThreadId) -> bool {
    &&& new.addr() == old.addr()
    &&& new.orig() == old.orig()
    &&& !new.is_armed()
    &&& new.pending_threads() == old.pending_threads().push(t)
}

/// The requests after a hit on `b` by `t`: put the original byte back, move
/// the thread onto it and step it.
pub open spec fn hit_requests(b: Breakpoint, t: ThreadId) -> Seq<Action> {
    seq![Action::WriteByte(b.addr(), b.orig()), Action::SetPc(t, b.addr()), Action::SingleStep(t)]
}

/// `new` is `old` once `t` stepped past it: `t` is no longer pending and the
/// trap is back exactly when `refire` holds and no thread is pending.
pub open spec fn stepped(old: Breakpoint, new: Breakpoint, t: ThreadId, refire: bool) -> bool {
    &&& new.addr() == old.addr()
    &&& new.orig() == old.orig()
    &&& forall|x: ThreadId|
        #[trigger] new.pending_threads().contains(x) == (old.pending_threads().contains(x) && x != t)
    &&& new.is_armed() == (refire && new.pending_threads().len() == 0)
}

/// The requests once `t` stepped past `b`: the trap back in if `b` is armed
/// again, then the thread resumed.
pub open spec fn step_requests(b: Breakpoint, t: ThreadId) -> Seq<Action> {
    if b.is_armed() {
        seq![Action::WriteByte(b.addr(), TRAP_BYTE), Action::Continue(t, None)]
    } else {
        seq![Action::Continue(t, None)]
    }
}

impl Breakpoint {
    pub closed spec fn addr(&self) -> u64 {
        self.address
    }

    pub closed spec fn orig(&self) -> u8 {
        self.original
    }

    /// Where the trap stands.
    pub fn address(&self) -> (r: u64)
        ensures
            r == self.addr(),
    {
        self.address
    }

    pub closed spec fn is_armed(&self) -> bool {
        self.armed
    }

    /// Whether the trap byte is in place.
    pub fn armed(&self) -> (r: bool)
        ensures
            r == self.is_armed(),
    {
        self.armed
    }

    pub closed spec fn pending_threads(&self) -> Seq<ThreadId> {
        self.pending@
    }

    /// The byte that the tracee holds at the breakpoint's address.
    pub open spec fn byte_in_tracee(&self) -> u8 {
        if self.is_armed() {
            TRAP_BYTE
        } else {
            self.orig()
        }
    }

    /// No thread is pending twice, and the trap is out while one is pending.
    pub open spec fn wf(&self) -> bool {
        &&& self.pending_threads().no_duplicates()
        &&& self.pending_threads().len() > 0 ==> !self.is_armed()
    }

    /// A breakpoint over `original`, the byte read at `address`, with the
    /// write that installs the trap.
    pub fn install(address: u64, original: u8) -> (r: (Breakpoint, Action))
        ensures
            r.0.wf(),
            r.0.addr() == address,
            r.0.orig() == original,
            r.0.is_armed(),
            r.0.pending_threads().len() == 0,
            r.0.byte_in_tracee() == TRAP_BYTE,
            r.1 == Action::WriteByte(address, TRAP_BYTE),
    {
        (Breakpoint { address, original, armed: true, pending: Vec::new() }, Action::WriteByte(address, TRAP_BYTE))
    }

    /// Whether `thread` hit this breakpoint and has not finished its step.
    pub fn is_pending(&self, thread: ThreadId) -> (r: bool)
        ensures
            r == self.pending_threads().contains(thread),
    {
        let mut i: usize = 0;
        while i < self.pending.len()
            invariant
                0 <= i <= self.pending@.len(),
                forall|j: int| 0 <= j < i ==> self.pending@[j] != thread,
            decreases self.pending@.len() - i,
        {
            if self.pending[i] == thread {
                return true;
            }
            i = i + 1;
        }
        false
    }

    /// `thread` stopped on the trap. An armed breakpoint takes the trap out,
    /// moves the thread back onto the original instruction and steps it; the
    /// result is then true, the hit is to be counted. Otherwise the thread is
    /// resumed and nothing is counted.
    pub fn on_hit(&mut self, thread: ThreadId) -> (r: (bool, Vec<Action>))
        requires
            old(self).wf(),
            !old(self).pending_threads().contains(thread),
        ensures
            final(self).wf(),
            r.0 == old(self).is_armed(),
            r.0 ==> taken(*old(self), *final(self), thread) && r.1@ == hit_requests(*old(self), thread),
            r.0 ==> final(self).byte_in_tracee() == old(self).orig(),
            !r.0 ==> *final(self) == *old(self) && r.1@ == seq![Action::Continue(thread, None)],
    {
        if self.armed {
            self.armed = false;
            self.pending.push(thread);
            let mut acts: Vec<Action> = Vec::new();
            acts.push(Action::WriteByte(self.address, self.original));
            acts.push(Action::SetPc(thread, self.address));
            acts.push(Action::SingleStep(thread));
            proof {
                assert(acts@ =~= seq![
                    Action::WriteByte(old(self).addr(), old(self).orig()),
                    Action::SetPc(thread, old(self).addr()),
                    Action::SingleStep(thread),
                ]);
                assert forall|i: int, j: int|
                    0 <= i < j < self.pending@.len() implies self.pending@[i] != self.pending@[j] by {
                    if j == self.pending@.len() - 1 {
                        assert(old(self).pending@[i] != thread);
                    }
                }
            }
            (true, acts)
        } else {
            let mut acts: Vec<Action> = Vec::new();
            acts.push(Action::Continue(thread, None));
            proof {
                assert(acts@ =~= seq![Action::Continue(thread, None)]);
            }
            (false, acts)
        }
    }

    /// Removes `thread` from the pending threads.
    fn drop_pending(&mut self, thread: ThreadId)
        requires
            old(self).wf(),
        ensures
            final(self).addr() == old(self).addr(),
            final(self).orig() == old(self).orig(),
            final(self).is_armed() == old(self).is_armed(),
            final(self).pending_threads().no_duplicates(),
            forall|t: ThreadId|
                final(self).pending_threads().contains(t) == (old(self).pending_threads().contains(t)
                    && t != thread),
            final(self).pending_threads().len() <= old(self).pending_threads().len(),
    {
        let mut kept: Vec<ThreadId> = Vec::new();
        let mut i: usize = 0;
        while i < self.pending.len()
            invariant
                0 <= i <= self.pending@.len(),
                self.pending@ == old(self).pending@,
                self.pending@.no_duplicates(),
                kept@.no_duplicates(),
                kept@.len() <= i,
                forall|t: ThreadId|
                    #[trigger] kept@.contains(t) == (self.pending@.take(i as int).contains(t) && t != thread),
            decreases self.pending@.len() - i,
        {
            let t = self.pending[i];
            let ghost prev = kept@;
            let ghost p = self.pending@.take(i as int);
            proof {
                assert(self.pending@.take(i + 1) =~= p.push(t));
                assert(!p.contains(t)) by {
                    if p.contains(t) {
                        let j = choose|j: int| 0 <= j < p.len() && #[trigger] p[j] == t;
                        assert(self.pending@[j] == self.pending@[i as int]);
                    }
                }
            }
            if t != thread {
                kept.push(t);
                proof {
                    assert forall|x: ThreadId|
                        #[trigger] kept@.contains(x) == (self.pending@.take(i + 1).contains(x) && x != thread) by {
                        lemma_push_contains(prev, t, x);
                        lemma_push_contains(p, t, x);
                    }
                    assert forall|m: int, n: int| 0 <= m < n < kept@.len() implies kept@[m] != kept@[n] by {
                        if n == kept@.len() - 1 {
                            assert(prev.contains(prev[m]));
                        }
                    }
                }
            } else {
                proof {
                    assert forall|x: ThreadId|
                        #[trigger] kept@.contains(x) == (self.pending@.take(i + 1).contains(x) && x != thread) by {
                        lemma_push_contains(p, t, x);
                    }
                }
            }
            i = i + 1;
        }
        proof {
            assert(self.pending@.take(self.pending@.len() as int) =~= self.pending@);
        }
        self.pending = kept;
    }

    /// `thread` finished the step past the original instruction. With
    /// `refire`, the trap goes back in once no thread is pending; without it
    /// the breakpoint stays out. The thread is resumed either way.
    pub fn step_done(&mut self, thread: ThreadId, refire: bool) -> (r: Vec<Action>)
        requires
            old(self).wf(),
            old(self).pending_threads().contains(thread),
        ensures
            final(self).wf(),
            stepped(*old(self), *final(self), thread, refire),
            final(self).byte_in_tracee() == if refire && final(self).pending_threads().len() == 0 {
                TRAP_BYTE
            } else {
                old(self).orig()
            },
            r@ == step_requests(*final(self), thread),
    {
        self.drop_pending(thread);
        let mut acts: Vec<Action> = Vec::new();
        if refire && self.pending.len() == 0 {
            self.armed = true;
            acts.push(Action::WriteByte(self.address, TRAP_BYTE));
        }
        acts.push(Action::Continue(thread, None));
        proof {
            if self.armed {
                assert(acts@ =~= seq![
                    Action::WriteByte(old(self).addr(), TRAP_BYTE),
                    Action::Continue(thread, None),
                ]);
            } else {
                assert(acts@ =~= seq![Action::Continue(thread, None)]);
            }
        }
        acts
    }

    /// Leaves the trap out: its write did not take.
    pub fn disarm(&mut self)
        requires
            old(self).wf(),
        ensures
            final(self).wf(),
            final(self).addr() == old(self).addr(),
            final(self).orig() == old(self).orig(),
            final(self).pending_threads() == old(self).pending_threads(),
            !final(self).is_armed(),
    {
        self.armed = false;
    }

    /// Forgets `thread`, which has exited, if it was pending.
    pub fn thread_killed(&mut self, thread: ThreadId)
        requires
            old(self).wf(),
        ensures
            final(self).wf(),
            final(self).addr() == old(self).addr(),
            final(self).orig() == old(self).orig(),
            final(self).is_armed() == old(self).is_armed(),
            forall|t: ThreadId|
                final(self).pending_threads().contains(t) == (old(self).pending_threads().contains(t)
                    && t != thread),
    {
        self.drop_pending(thread);
        proof {
            if self.pending@.len() > 0 {
                let t = self.pending@[0];
                assert(self.pending@.contains(t));
                assert(old(self).pending@.contains(t));
            }
        }
    }
}

} // verus!
