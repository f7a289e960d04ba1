//! Termination of an external process and its descendant tree.
//!
//! The walk works against snapshots of the operating system's process
//! table, supplied fresh at every step — never cached, so a terminated
//! and reused process id is not acted on from stale data. For each
//! process the ladder is: soft signal, bounded wait, liveness recheck,
//! forceful kill, final recheck; a process that cannot be found is
//! simply skipped, and one that survives both signals is recorded as a
//! failure rather than aborting the walk. Direct children found in the
//! snapshot are queued and walked the same way.

use vstd::prelude::*;

verus! {

/// One row of a process-table snapshot.
#[derive(Debug, Clone)]
pub struct ProcessInfo {
    pub pid: u64,
    pub parent: Option<u64>,
    pub name: String,
}

/// The direct children of `pid` in a snapshot, in snapshot order.
pub open spec fn children_spec(snap: Seq<ProcessInfo>, pid: u64) -> Seq<u64>
    decreases snap.len(),
{
    if snap.len() == 0 {
        Seq::<u64>::empty()
    } else {
        children_spec(snap.drop_last(), pid) + (if snap.last().parent == Some(pid) {
            seq![snap.last().pid]
        } else {
            Seq::<u64>::empty()
        })
    }
}

/// Whether the snapshot holds a row for this process id.
pub open spec fn snapshot_has(snap: Seq<ProcessInfo>, pid: u64) -> bool {
    exists|i: int| 0 <= i < snap.len() && (#[trigger] snap[i]).pid == pid
}

/// Lists the direct children of one process in a snapshot.
pub fn direct_children(snapshot: &Vec<ProcessInfo>, pid: u64) -> (r: Vec<u64>)
    ensures
        r@ == children_spec(snapshot@, pid),
{
    let mut out: Vec<u64> = Vec::new();
    let n = snapshot.len();
    let mut i: usize = 0;
    proof {
        assert(snapshot@.subrange(0, 0) =~= Seq::<ProcessInfo>::empty());
        assert(out@ =~= children_spec(snapshot@.subrange(0, 0), pid));
    }
    while i < n
        invariant
            0 <= i <= n,
            n == snapshot@.len(),
            out@ =~= children_spec(snapshot@.subrange(0, i as int), pid),
        decreases n - i,
    {
        proof {
            assert(snapshot@.subrange(0, i as int + 1).drop_last() =~= snapshot@.subrange(
                0,
                i as int,
            ));
            assert(snapshot@.subrange(0, i as int + 1).last() == snapshot@[i as int]);
        }
        let row = &snapshot[i];
        match row.parent {
            Some(pp) => {
                if pp == pid {
                    out.push(row.pid);
                }
            },
            None => {},
        }
        proof {
            assert(out@ =~= children_spec(snapshot@.subrange(0, i as int + 1), pid));
        }
        i = i + 1;
    }
    proof {
        assert(snapshot@.subrange(0, n as int) =~= snapshot@);
    }
    out
}

/// Whether a process id is present in a snapshot.
pub fn is_alive(snapshot: &Vec<ProcessInfo>, pid: u64) -> (r: bool)
    ensures
        r == snapshot_has(snapshot@, pid),
{
    let n = snapshot.len();
    let mut i: usize = 0;
    while i < n
        invariant
            0 <= i <= n,
            n == snapshot@.len(),
            forall|k: int| 0 <= k < i ==> (#[trigger] snapshot@[k]).pid != pid,
        decreases n - i,
    {
        if snapshot[i].pid == pid {
            return true;
        }
        i = i + 1;
    }
    false
}

/// Whether a name is one of the given names.
pub open spec fn name_among(names: Seq<Seq<char>>, name: Seq<char>) -> bool {
    exists|i: int| 0 <= i < names.len() && names[i] == name
}

/// The process ids in a snapshot whose name is among `names`, in
/// snapshot order — the final sweep for descendants that detached from
/// their parent before it exited.
pub open spec fn named_pids_spec(snap: Seq<ProcessInfo>, names: Seq<Seq<char>>) -> Seq<u64>
    decreases snap.len(),
{
    if snap.len() == 0 {
        Seq::<u64>::empty()
    } else {
        named_pids_spec(snap.drop_last(), names) + (if name_among(names, snap.last().name@) {
            seq![snap.last().pid]
        } else {
            Seq::<u64>::empty()
        })
    }
}

/// Lists the processes whose executable name matches one of the known
/// external tool names.
pub fn processes_named(snapshot: &Vec<ProcessInfo>, names: &Vec<String>) -> (r: Vec<u64>)
    ensures
        r@ == named_pids_spec(snapshot@, names.deep_view()),
{
    let mut out: Vec<u64> = Vec::new();
    let n = snapshot.len();
    let mut i: usize = 0;
    proof {
        assert(snapshot@.subrange(0, 0) =~= Seq::<ProcessInfo>::empty());
        assert(out@ =~= named_pids_spec(snapshot@.subrange(0, 0), names.deep_view()));
    }
    while i < n
        invariant
            0 <= i <= n,
            n == snapshot@.len(),
            out@ =~= named_pids_spec(snapshot@.subrange(0, i as int), names.deep_view()),
        decreases n - i,
    {
        proof {
            assert(snapshot@.subrange(0, i as int + 1).drop_last() =~= snapshot@.subrange(
                0,
                i as int,
            ));
            assert(snapshot@.subrange(0, i as int + 1).last() == snapshot@[i as int]);
        }
        let row = &snapshot[i];
        let mut hit = false;
        let m = names.len();
        let mut j: usize = 0;
        while j < m
            invariant
                0 <= j <= m,
                m == names@.len(),
                hit ==> name_among(names.deep_view(), snapshot@[i as int].name@),
                !hit ==> forall|k: int|
                    0 <= k < j ==> names.deep_view()[k] != snapshot@[i as int].name@,
                i < snapshot@.len(),
                row.name@ == snapshot@[i as int].name@,
            decreases m - j,
        {
            if crate::strnum::str_eq(names[j].as_str(), row.name.as_str()) {
                proof {
                    assert(names.deep_view()[j as int] == snapshot@[i as int].name@);
                }
                hit = true;
            }
            j = j + 1;
        }
        if hit {
            out.push(row.pid);
        }
        proof {
            if !hit {
                assert(!name_among(names.deep_view(), snapshot@[i as int].name@));
            }
            assert(out@ =~= named_pids_spec(snapshot@.subrange(0, i as int + 1), names.deep_view()));
        }
        i = i + 1;
    }
    proof {
        assert(snapshot@.subrange(0, n as int) =~= snapshot@);
    }
    out
}

/// Where the walk stands with respect to its current process.
#[derive(Debug, Clone, Copy, PartialEq, Eq, Structural)]
pub enum KillPhase {
    /// No process in flight; the next pending one is taken up.
    Ready,
    /// A soft signal went out; waiting for the recheck snapshot.
    SoftWait,
    /// The forceful kill went out; waiting for the confirm snapshot.
    ForceWait,
}

/// What the driving loop is asked to do between snapshots.
#[derive(Debug, Clone, Copy)]
pub enum KillAction {
    /// Send the graceful stop signal to this process, wait a bounded
    /// interval, then call again with a fresh snapshot.
    SoftKill(u64),
    /// Send the unconditional kill to this process, then call again
    /// with a fresh snapshot.
    ForceKill(u64),
    /// Nothing to signal right now; call again with a fresh snapshot.
    Proceed,
    /// The walk is over; `ok` is false when some process survived both
    /// signals.
    Done { ok: bool },
}

/// The walk over one process tree: a stack of pending ids, the id in
/// flight, and the record of what was signalled, skipped and lost.
#[derive(Debug)]
pub struct Terminator {
    pub pending: Vec<u64>,
    pub current: Option<u64>,
    pub phase: KillPhase,
    pub visited: Vec<u64>,
    pub soft_sent: Vec<u64>,
    pub force_sent: Vec<u64>,
    pub failed: Vec<u64>,
}

/// The escalation order is kept: nothing is force killed that was not
/// first asked to stop, nothing fails that was not force killed, the
/// process in flight has been soft signalled, and no process is taken
/// up twice.
pub open spec fn terminator_wf(t: Terminator) -> bool {
    (forall|p: u64| t.force_sent@.contains(p) ==> t.soft_sent@.contains(p)) && (forall|p: u64|
        t.failed@.contains(p) ==> t.force_sent@.contains(p)) && (forall|p: u64|
        t.soft_sent@.contains(p) ==> t.visited@.contains(p)) && (match t.current {
        Some(p) => t.soft_sent@.contains(p) && (t.phase is SoftWait || t.phase is ForceWait) && (
        t.phase is ForceWait ==> t.force_sent@.contains(p)),
        None => t.phase is Ready,
    })
}

proof fn lemma_push_contains(s: Seq<u64>, x: u64, q: u64)
    ensures
        s.push(x).contains(q) <==> (s.contains(q) || q == x),
{
    if s.contains(q) {
        let i = choose|i: int| 0 <= i < s.len() && s[i] == q;
        assert(s.push(x)[i] == q);
    }
    if q == x {
        assert(s.push(x).last() == x);
    }
    if s.push(x).contains(q) {
        let i = choose|i: int| 0 <= i < s.push(x).len() && s.push(x)[i] == q;
        if i < s.len() {
            assert(s[i] == q);
        }
    }
}

/// The walk's state at the specification level: the sequence view of
/// every list, with the in-flight process and phase.
pub struct TermView {
    pub pending: Seq<u64>,
    pub current: Option<u64>,
    pub phase: KillPhase,
    pub visited: Seq<u64>,
    pub soft_sent: Seq<u64>,
    pub force_sent: Seq<u64>,
    pub failed: Seq<u64>,
}

/// The specification view of a walk state.
pub open spec fn term_view(t: Terminator) -> TermView {
    TermView {
        pending: t.pending@,
        current: t.current,
        phase: t.phase,
        visited: t.visited@,
        soft_sent: t.soft_sent@,
        force_sent: t.force_sent@,
        failed: t.failed@,
    }
}

/// One step while a process is in flight: a process still alive after
/// the soft signal is escalated; otherwise — gone, or already past the
/// forceful kill — it is finished (recorded as failed when it survived
/// the kill), its children found in the snapshot are queued, and the
/// walk returns to its pending stack.
pub open spec fn signalled_step(s: TermView, snap: Seq<ProcessInfo>) -> (TermView, KillAction)
    recommends
        s.current is Some,
{
    let p = s.current->0;
    if s.phase is SoftWait && snapshot_has(snap, p) {
        (
            TermView { phase: KillPhase::ForceWait, force_sent: s.force_sent.push(p), ..s },
            KillAction::ForceKill(p),
        )
    } else {
        let failed = if !(s.phase is SoftWait) && snapshot_has(snap, p) {
            s.failed.push(p)
        } else {
            s.failed
        };
        (
            TermView {
                pending: s.pending + children_spec(snap, p),
                current: None,
                phase: KillPhase::Ready,
                failed,
                ..s
            },
            KillAction::Proceed,
        )
    }
}

/// One step while no process is in flight: pending ids are taken from
/// the top of the stack; one already walked is dropped, one absent from
/// the snapshot is marked walked and dropped without error, and the
/// first live unwalked one is soft signalled and becomes current. An
/// exhausted stack ends the walk, successfully exactly when nothing
/// failed.
pub open spec fn scan_step(s: TermView, snap: Seq<ProcessInfo>) -> (TermView, KillAction)
    recommends
        s.current is None,
    decreases s.pending.len(),
{
    if s.pending.len() == 0 {
        (s, KillAction::Done { ok: s.failed.len() == 0 })
    } else {
        let p = s.pending.last();
        let rest = s.pending.drop_last();
        if s.visited.contains(p) {
            scan_step(TermView { pending: rest, ..s }, snap)
        } else {
            let s2 = TermView { pending: rest, visited: s.visited.push(p), ..s };
            if snapshot_has(snap, p) {
                (
                    TermView {
                        soft_sent: s2.soft_sent.push(p),
                        current: Some(p),
                        phase: KillPhase::SoftWait,
                        ..s2
                    },
                    KillAction::SoftKill(p),
                )
            } else {
                scan_step(s2, snap)
            }
        }
    }
}

/// The transition relation of the walk against one fresh snapshot.
pub open spec fn terminator_step_spec(s: TermView, snap: Seq<ProcessInfo>) -> (
    TermView,
    KillAction,
) {
    match s.current {
        Some(_) => signalled_step(s, snap),
        None => scan_step(s, snap),
    }
}

fn pids_contain(v: &Vec<u64>, p: u64) -> (r: bool)
    ensures
        r == v@.contains(p),
{
    let n = v.len();
    let mut i: usize = 0;
    while i < n
        invariant
            0 <= i <= n,
            n == v@.len(),
            forall|k: int| 0 <= k < i ==> v@[k] != p,
        decreases n - i,
    {
        if v[i] == p {
            proof {
                assert(v@.contains(p)) by {
                    assert(v@[i as int] == p);
                }
            }
            return true;
        }
        i = i + 1;
    }
    false
}

impl Terminator {
    /// A walk rooted at one tracked process.
    pub fn new(root: u64) -> (r: Terminator)
        ensures
            terminator_wf(r),
            r.pending@ == seq![root],
            r.current is None,
            r.failed@.len() == 0,
            r.soft_sent@.len() == 0,
    {
        let mut pending: Vec<u64> = Vec::new();
        pending.push(root);
        proof {
            assert(pending@ =~= seq![root]);
        }
        Terminator {
            pending,
            current: None,
            phase: KillPhase::Ready,
            visited: Vec::new(),
            soft_sent: Vec::new(),
            force_sent: Vec::new(),
            failed: Vec::new(),
        }
    }

    /// Queues more processes to walk — the final sweep hands in the
    /// ids still matching the external tool's names.
    pub fn enqueue(&mut self, pids: &Vec<u64>)
        requires
            terminator_wf(*old(self)),
        ensures
            terminator_wf(*final(self)),
            final(self).pending@ == old(self).pending@ + pids@,
            final(self).current == old(self).current,
            final(self).failed@ == old(self).failed@,
    {
        let mut copy: Vec<u64> = Vec::new();
        let n = pids.len();
        let mut i: usize = 0;
        while i < n
            invariant
                0 <= i <= n,
                n == pids@.len(),
                copy@ =~= pids@.subrange(0, i as int),
            decreases n - i,
        {
            copy.push(pids[i]);
            proof {
                assert(copy@ =~= pids@.subrange(0, i as int + 1));
            }
            i = i + 1;
        }
        proof {
            assert(pids@.subrange(0, n as int) =~= pids@);
        }
        self.pending.append(&mut copy);
    }

    /// Advances the walk one step against a fresh snapshot of the
    /// process table and says what to signal next, exactly as the
    /// transition relation decides it: a pending process absent from
    /// the snapshot is skipped without error, one still alive after the
    /// soft signal is force killed, one still alive after that is
    /// recorded as failed, and the children found for a finished
    /// process are appended to the pending stack.
    pub fn next(&mut self, snapshot: &Vec<ProcessInfo>) -> (r: KillAction)
        requires
            terminator_wf(*old(self)),
        ensures
            terminator_wf(*final(self)),
            (term_view(*final(self)), r) == terminator_step_spec(
                term_view(*old(self)),
                snapshot@,
            ),
    {
        let cur = self.current;
        match cur {
            Some(p) => {
                let alive = is_alive(snapshot, p);
                match self.phase {
                    KillPhase::SoftWait => {
                        if alive {
                            self.phase = KillPhase::ForceWait;
                            let ghost prevf = self.force_sent@;
                            self.force_sent.push(p);
                            proof {
                                assert forall|q: u64|
                                    self.force_sent@.contains(q) implies self.soft_sent@.contains(
                                    q,
                                ) by {
                                    lemma_push_contains(prevf, p, q);
                                }
                                assert(self.force_sent@.contains(p)) by {
                                    lemma_push_contains(prevf, p, p);
                                }
                                assert forall|q: u64|
                                    self.failed@.contains(q) implies self.force_sent@.contains(
                                    q,
                                ) by {
                                    lemma_push_contains(prevf, p, q);
                                }
                                assert((term_view(*self), KillAction::ForceKill(p))
                                    == signalled_step(term_view(*old(self)), snapshot@));
                            }
                            return KillAction::ForceKill(p);
                        }
                    },
                    _ => {
                        if alive {
                            let ghost prevfail = self.failed@;
                            self.failed.push(p);
                            proof {
                                assert forall|q: u64|
                                    self.failed@.contains(q) implies self.force_sent@.contains(
                                    q,
                                ) by {
                                    lemma_push_contains(prevfail, p, q);
                                }
                            }
                        }
                    },
                }
                let mut kids = direct_children(snapshot, p);
                self.pending.append(&mut kids);
                self.current = None;
                self.phase = KillPhase::Ready;
                proof {
                    assert((term_view(*self), KillAction::Proceed) == signalled_step(
                        term_view(*old(self)),
                        snapshot@,
                    ));
                }
                KillAction::Proceed
            },
            None => {
                loop
                    invariant
                        terminator_wf(*self),
                        self.current is None,
                        self.soft_sent@ == old(self).soft_sent@,
                        self.force_sent@ == old(self).force_sent@,
                        self.failed@ == old(self).failed@,
                        self.phase is Ready,
                        old(self).current is None,
                        forall|q: u64|
                            old(self).visited@.contains(q) ==> self.visited@.contains(q),
                        scan_step(term_view(*self), snapshot@) == scan_step(
                            term_view(*old(self)),
                            snapshot@,
                        ),
                    decreases self.pending@.len(),
                {
                    let ghost vstart = term_view(*self);
                    let popped = self.pending.pop();
                    match popped {
                        None => {
                            proof {
                                assert(term_view(*self) == vstart);
                                assert(scan_step(vstart, snapshot@) == (
                                    vstart,
                                    KillAction::Done { ok: vstart.failed.len() == 0 },
                                ));
                            }
                            return KillAction::Done { ok: self.failed.len() == 0 };
                        },
                        Some(p) => {
                            proof {
                                assert(vstart.pending.len() > 0);
                                assert(p == vstart.pending.last());
                                assert(self.pending@ =~= vstart.pending.drop_last());
                            }
                            if !pids_contain(&self.visited, p) {
                                let ghost prevvis = self.visited@;
                                self.visited.push(p);
                                proof {
                                    assert forall|q: u64|
                                        prevvis.contains(q) implies self.visited@.contains(q) by {
                                        lemma_push_contains(prevvis, p, q);
                                    }
                                    assert(self.visited@.contains(p)) by {
                                        lemma_push_contains(prevvis, p, p);
                                    }
                                }
                                if is_alive(snapshot, p) {
                                    let ghost prevsoft = self.soft_sent@;
                                    self.soft_sent.push(p);
                                    self.current = Some(p);
                                    self.phase = KillPhase::SoftWait;
                                    proof {
                                        assert(self.soft_sent@.contains(p)) by {
                                            lemma_push_contains(prevsoft, p, p);
                                        }
                                        assert forall|q: u64|
                                            self.soft_sent@.contains(q)
                                                implies self.visited@.contains(q) by {
                                            lemma_push_contains(prevsoft, p, q);
                                        }
                                        assert forall|q: u64|
                                            self.force_sent@.contains(q)
                                                implies self.soft_sent@.contains(q) by {
                                            lemma_push_contains(prevsoft, p, q);
                                        }
                                        assert(scan_step(vstart, snapshot@) == (
                                            term_view(*self),
                                            KillAction::SoftKill(p),
                                        ));
                                    }
                                    return KillAction::SoftKill(p);
                                } else {
                                    proof {
                                        assert(scan_step(vstart, snapshot@) == scan_step(
                                            term_view(*self),
                                            snapshot@,
                                        ));
                                    }
                                }
                            } else {
                                proof {
                                    assert(scan_step(vstart, snapshot@) == scan_step(
                                        term_view(*self),
                                        snapshot@,
                                    ));
                                }
                            }
                        },
                    }
                }
            },
        }
    }
}

} // verus!