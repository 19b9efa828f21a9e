//! One submission/completion queue pair: the ring cursors, the phase tag and
//! the shadow doorbell check.
//!
//! The rings are the memory that the device reads and writes. The queue never
//! touches a register itself: when a doorbell has to be rung it returns the
//! register offset and the value, and the caller performs the write.
//!
//! Every operation takes the queue by `&mut`. Submitters serialise through one
//! short-held lock around the queue and never sleep under it; when the queue
//! is drained from its interrupt handler, that lock is taken with local
//! interrupts masked so that the handler cannot spin on a lock its own CPU
//! holds. A queue is either interrupt driven or polled, so only one caller
//! drains it at a time.
//!
//! There is no timeout or cancellation here: a submitted command stays in
//! flight until the device posts its completion.

use crate::command::{NvmeCommand, NvmeCompletion};
use crate::request::NvmeRequest;
use vstd::prelude::*;

verus! {

/// Offset of the first doorbell register in the controller's register space.
pub const DOORBELL_BASE: usize = 4096;

/// A doorbell register write that the caller has to perform.
#[derive(Clone, Copy, Debug, PartialEq, Eq, Structural)]
pub struct DoorbellWrite {
    /// Register offset, relative to the controller's register space.
    pub offset: usize,
    pub value: u32,
}

/// Shadow doorbell buffers shared with the device: `dbs` mirrors the doorbell
/// values written by the driver, `eis` holds the event indexes written by the
/// device.
pub struct ShadowDoorbells {
    dbs: Vec<u32>,
    eis: Vec<u32>,
}

impl View for ShadowDoorbells {
    /// The doorbell mirror and the event indexes.
    type V = (Seq<u32>, Seq<u32>);

    closed spec fn view(&self) -> (Seq<u32>, Seq<u32>) {
        (self.dbs@, self.eis@)
    }
}

impl ShadowDoorbells {
    /// Zeroed buffers of `entries` slots each.
    pub fn new(entries: usize) -> (r: ShadowDoorbells)
        ensures
            r@.0 == Seq::new(entries as nat, |i: int| 0u32),
            r@.1 == Seq::new(entries as nat, |i: int| 0u32),
    {
        let mut dbs: Vec<u32> = Vec::new();
        let mut eis: Vec<u32> = Vec::new();
        let mut i: usize = 0;
        while i < entries
            invariant
                i <= entries,
                dbs@ == Seq::new(i as nat, |k: int| 0u32),
                eis@ == Seq::new(i as nat, |k: int| 0u32),
            decreases entries - i,
        {
            dbs.push(0);
            eis.push(0);
            i += 1;
        }
        ShadowDoorbells { dbs, eis }
    }

    /// The doorbell value mirrored in slot `i`.
    pub fn doorbell(&self, i: usize) -> (r: u32)
        requires
            i < self@.0.len(),
        ensures
            r == self@.0[i as int],
    {
        self.dbs[i]
    }

    /// The event index that the device posted in slot `i`.
    pub fn event_index(&self, i: usize) -> (r: u32)
        requires
            i < self@.1.len(),
        ensures
            r == self@.1[i as int],
    {
        self.eis[i]
    }

    /// Stores an event index in slot `i`, as the device does.
    pub fn set_event_index(&mut self, i: usize, value: u32)
        requires
            i < old(self)@.1.len(),
        ensures
            final(self)@.0 == old(self)@.0,
            final(self)@.1 == old(self)@.1.update(i as int, value),
    {
        self.eis.set(i, value);
    }
}

/// `true` when the device asked to be notified of a doorbell move from `old`
/// to `new_idx`, that is when `event_idx` lies in `[old, new_idx)` modulo 2^16.
pub open spec fn need_event(event_idx: u16, new_idx: u16, old: u16) -> bool {
    (new_idx - event_idx - 1) % 0x10000int < (new_idx - old) % 0x10000int
}

/// Shadow doorbell update for slot `index` to `value` on a queue with id `qid`:
/// `sh1` is the buffer afterwards and `ring` tells whether the device has to be
/// notified through the register.
pub open spec fn shadow_step(
    qid: u16,
    sh0: Option<ShadowDoorbells>,
    sh1: Option<ShadowDoorbells>,
    index: int,
    value: u16,
    ring: bool,
) -> bool {
    if qid == 0 || sh0 is None {
        ring && sh1 == sh0
    } else {
        let s = sh0->Some_0@;
        &&& sh1 is Some
        &&& sh1->Some_0@.0 == s.0.update(index, value as u32)
        &&& sh1->Some_0@.1 == s.1
        &&& ring == need_event(s.1[index] as u16, value, s.0[index] as u16)
    }
}

/// Decides whether a doorbell write from `old` to `new_idx` must reach the
/// register, given the event index `event_idx` posted by the device.
pub fn dbbuf_need_event(event_idx: u16, new_idx: u16, old: u16) -> (r: bool)
    ensures
        r == need_event(event_idx, new_idx, old),
{
    new_idx.wrapping_sub(event_idx).wrapping_sub(1) < new_idx.wrapping_sub(old)
}

/// Issues a full memory fence.
///
/// Relies on `std::sync::atomic::fence` with `SeqCst` ordering: every memory
/// access before it is globally visible before any access after it.
#[verifier::external_body]
fn full_fence() {
    std::sync::atomic::fence(std::sync::atomic::Ordering::SeqCst);
}

/// Abstract state of a queue pair.
pub struct QueueView {
    pub qid: u16,
    pub depth: nat,
    pub cq_vector: u16,
    pub polled: bool,
    pub db_stride: nat,
    /// Offset of the submission queue tail doorbell.
    pub db_offset: nat,
    /// Shadow doorbell slot of the submission queue tail.
    pub sdb_index: nat,
    pub sq: Seq<NvmeCommand>,
    pub cq: Seq<NvmeCompletion>,
    pub sq_tail: nat,
    /// Tail value last written to the doorbell.
    pub last_sq_tail: nat,
    pub cq_head: nat,
    /// Phase tag that marks a freshly posted completion.
    pub cq_phase: nat,
}

/// Index after `i` in a ring of `depth` slots.
pub open spec fn next_index(i: nat, depth: nat) -> nat {
    if i + 1 == depth {
        0
    } else {
        i + 1
    }
}

impl QueueView {
    pub open spec fn wf(self) -> bool {
        &&& 1 <= self.depth <= u16::MAX
        &&& self.sq.len() == self.depth
        &&& self.cq.len() == self.depth
        &&& self.sq_tail < self.depth
        &&& self.last_sq_tail < self.depth
        &&& self.cq_head < self.depth
        &&& self.cq_phase <= 1
        &&& self.db_offset + self.db_stride <= usize::MAX
        &&& self.sdb_index + self.db_stride / 4 <= usize::MAX
    }

    /// The fixed part of the queue is the same in `self` and `w`.
    pub open spec fn same_config(self, w: QueueView) -> bool {
        &&& w.qid == self.qid
        &&& w.depth == self.depth
        &&& w.cq_vector == self.cq_vector
        &&& w.polled == self.polled
        &&& w.db_stride == self.db_stride
        &&& w.db_offset == self.db_offset
        &&& w.sdb_index == self.sdb_index
    }

    /// The shadow buffer, if any, has the slots of this queue.
    pub open spec fn shadow_covers(self, sh: Option<ShadowDoorbells>) -> bool {
        sh is Some ==> {
            &&& self.sdb_index + self.db_stride / 4 < sh->Some_0@.0.len()
            &&& self.sdb_index + self.db_stride / 4 < sh->Some_0@.1.len()
        }
    }

    /// Completion slot `j` places after the head, for `j <= depth`.
    pub open spec fn cq_slot(self, j: nat) -> nat {
        if self.cq_head + j < self.depth {
            self.cq_head + j
        } else {
            (self.cq_head + j - self.depth) as nat
        }
    }

    /// Phase tag expected `j` places after the head: it flips once the ring
    /// wraps.
    pub open spec fn expected_phase(self, j: nat) -> nat {
        if self.cq_head + j < self.depth {
            self.cq_phase
        } else {
            (1 - self.cq_phase) as nat
        }
    }

    /// The entry `j` places after the head has been posted by the device.
    pub open spec fn is_posted(self, j: nat) -> bool {
        self.cq[self.cq_slot(j) as int].phase() == self.expected_phase(j)
    }

    /// Length of the run of posted entries that starts `j` places after the
    /// head.
    pub open spec fn posted_run(self, j: nat) -> nat
        decreases self.depth - j,
    {
        if j < self.depth && self.is_posted(j) {
            self.posted_run(j + 1)
        } else {
            j
        }
    }

    /// Number of entries that a drain consumes.
    pub open spec fn drain_count(self) -> nat {
        self.posted_run(0)
    }

    /// The entries that a drain consumes, in order.
    pub open spec fn drained(self) -> Seq<NvmeCompletion> {
        Seq::new(self.drain_count(), |j: int| self.cq[self.cq_slot(j as nat) as int])
    }
}

/// `reqs` after recording completion `e` in the request its identifier names.
pub open spec fn record_completion(reqs: Seq<NvmeRequest>, e: NvmeCompletion) -> Seq<NvmeRequest> {
    if (e.command_id as int) < reqs.len() {
        reqs.update(
            e.command_id as int,
            NvmeRequest { result: e.result, status: e.status_code(), ..reqs[e.command_id as int] },
        )
    } else {
        reqs
    }
}

/// `reqs` after recording the completions `es` in order.
pub open spec fn record_all(reqs: Seq<NvmeRequest>, es: Seq<NvmeCompletion>) -> Seq<NvmeRequest>
    decreases es.len(),
{
    if es.len() == 0 {
        reqs
    } else {
        record_completion(record_all(reqs, es.drop_last()), es.last())
    }
}

/// Identifiers of the entries of `es` that name a request below `n`
/// (`matched`), or that name none (`!matched`), in order.
pub open spec fn tags_where(es: Seq<NvmeCompletion>, n: nat, matched: bool) -> Seq<u16>
    decreases es.len(),
{
    if es.len() == 0 {
        Seq::empty()
    } else {
        let p = tags_where(es.drop_last(), n, matched);
        if ((es.last().command_id as nat) < n) == matched {
            p.push(es.last().command_id)
        } else {
            p
        }
    }
}

/// Whether an interrupt was for this queue.
#[derive(Clone, Copy, Debug, PartialEq, Eq, Structural)]
pub enum IrqReturn {
    /// No completion was waiting.
    NotHandled,
    Handled,
}

/// What a drain of the completion queue did.
pub struct DrainOutcome {
    /// At least one entry was consumed.
    pub processed: bool,
    /// Identifiers of the requests that were completed, in order.
    pub completed: Vec<u16>,
    /// Identifiers that named no request; they were dropped.
    pub unmatched: Vec<u16>,
    /// Head doorbell write to perform, if any.
    pub doorbell: Option<DoorbellWrite>,
}

/// A submission/completion queue pair.
pub struct NvmeQueue {
    qid: u16,
    q_depth: u16,
    cq_vector: u16,
    polled: bool,
    db_stride: usize,
    db_offset: usize,
    sdb_index: usize,
    sq: Vec<NvmeCommand>,
    cq: Vec<NvmeCompletion>,
    sq_tail: u16,
    last_sq_tail: u16,
    cq_head: u16,
    cq_phase: u16,
}

impl View for NvmeQueue {
    type V = QueueView;

    closed spec fn view(&self) -> QueueView {
        QueueView {
            qid: self.qid,
            depth: self.q_depth as nat,
            cq_vector: self.cq_vector,
            polled: self.polled,
            db_stride: self.db_stride as nat,
            db_offset: self.db_offset as nat,
            sdb_index: self.sdb_index as nat,
            sq: self.sq@,
            cq: self.cq@,
            sq_tail: self.sq_tail as nat,
            last_sq_tail: self.last_sq_tail as nat,
            cq_head: self.cq_head as nat,
            cq_phase: self.cq_phase as nat,
        }
    }
}

impl NvmeQueue {
    /// Creates queue pair `qid` with `depth` slots in each ring. Completion
    /// entries start zeroed and the expected phase starts at 1, so that no
    /// entry counts as posted until the device writes it.
    pub fn try_new(qid: u16, depth: u16, vector: u16, db_stride: usize, polled: bool) -> (r:
        NvmeQueue)
        requires
            depth >= 1,
            qid as int * db_stride * 2 + DOORBELL_BASE + db_stride <= usize::MAX,
        ensures
            r@.wf(),
            r@.qid == qid,
            r@.depth == depth,
            r@.cq_vector == vector,
            r@.polled == polled,
            r@.db_stride == db_stride,
            r@.db_offset == qid as int * db_stride * 2 + DOORBELL_BASE,
            r@.sdb_index == (qid as int * db_stride * 2) / 4,
            r@.sq == Seq::new(depth as nat, |i: int| NvmeCommand::spec_zeroed()),
            r@.cq == Seq::new(depth as nat, |i: int| NvmeCompletion::spec_zeroed()),
            r@.sq_tail == 0,
            r@.last_sq_tail == 0,
            r@.cq_head == 0,
            r@.cq_phase == 1,
    {
        let mut sq: Vec<NvmeCommand> = Vec::new();
        let mut cq: Vec<NvmeCompletion> = Vec::new();
        let mut i: u16 = 0;
        while i < depth
            invariant
                i <= depth,
                sq@ == Seq::new(i as nat, |k: int| NvmeCommand::spec_zeroed()),
                cq@ == Seq::new(i as nat, |k: int| NvmeCompletion::spec_zeroed()),
            decreases depth - i,
        {
            sq.push(NvmeCommand::zeroed());
            cq.push(NvmeCompletion::zeroed());
            i += 1;
        }
        proof {
            assert(qid as int * db_stride * 2 <= usize::MAX);
        }
        let sdb_offset = (qid as usize) * db_stride * 2;
        let db_offset = sdb_offset + DOORBELL_BASE;
        NvmeQueue {
            qid,
            q_depth: depth,
            cq_vector: vector,
            polled,
            db_stride,
            db_offset,
            sdb_index: sdb_offset / 4,
            sq,
            cq,
            sq_tail: 0,
            last_sq_tail: 0,
            cq_head: 0,
            cq_phase: 1,
        }
    }

    pub fn qid(&self) -> (r: u16)
        ensures
            r == self@.qid,
    {
        self.qid
    }

    pub fn q_depth(&self) -> (r: u16)
        ensures
            r == self@.depth,
    {
        self.q_depth
    }

    pub fn polled(&self) -> (r: bool)
        ensures
            r == self@.polled,
    {
        self.polled
    }

    pub fn sq_tail(&self) -> (r: u16)
        ensures
            r == self@.sq_tail,
    {
        self.sq_tail
    }

    pub fn cq_head(&self) -> (r: u16)
        ensures
            r == self@.cq_head,
    {
        self.cq_head
    }

    pub fn cq_phase(&self) -> (r: u16)
        ensures
            r == self@.cq_phase,
    {
        self.cq_phase
    }

    /// The command in submission slot `i`, as the device reads it.
    pub fn sq_entry(&self, i: u16) -> (r: NvmeCommand)
        requires
            self@.wf(),
            i < self@.depth,
        ensures
            r == self@.sq[i as int],
    {
        self.sq[i as usize]
    }

    /// Writes completion slot `i`, as the device does when it posts an entry.
    pub fn post_completion(&mut self, i: u16, cqe: NvmeCompletion)
        requires
            old(self)@.wf(),
            i < old(self)@.depth,
        ensures
            final(self)@ == (QueueView { cq: old(self)@.cq.update(i as int, cqe), ..old(self)@ }),
    {
        self.cq.set(i as usize, cqe);
    }

    /// Mirrors `value` into shadow slot `sdb_index + extra_index` and tells
    /// whether the device must also be told through the doorbell register.
    /// The administrative queue, and every queue when no shadow buffer is
    /// configured, always needs the register write.
    pub fn dbbuf_update_and_check_event(
        &self,
        shadow: &mut Option<ShadowDoorbells>,
        value: u16,
        extra_index: usize,
    ) -> (r: bool)
        requires
            self@.wf(),
            extra_index <= self@.db_stride / 4,
            self@.shadow_covers(*old(shadow)),
        ensures
            shadow_step(
                self@.qid,
                *old(shadow),
                *final(shadow),
                self@.sdb_index + extra_index,
                value,
                r,
            ),
    {
        if self.qid == 0 {
            return true;
        }
        match shadow {
            None => true,
            Some(s) => {
                let index = self.sdb_index + extra_index;
                // The queue entries must be visible before the doorbell mirror.
                full_fence();
                let old_value = s.dbs[index];
                s.dbs.set(index, value as u32);
                // The mirror must be visible before the event index is read;
                // the device orders its own accesses the same way.
                full_fence();
                let ei = s.eis[index];
                dbbuf_need_event(ei as u16, value, old_value as u16)
            },
        }
    }

    /// Rings the submission doorbell for the current tail when `write_sq` is
    /// set, or when the next submission would fill the ring up to the tail
    /// last rung.
    fn write_sq_db_locked(&mut self, write_sq: bool, shadow: &mut Option<ShadowDoorbells>) -> (r:
        Option<DoorbellWrite>)
        requires
            old(self)@.wf(),
            old(self)@.shadow_covers(*old(shadow)),
        ensures
            final(self)@.wf(),
            final(self)@.shadow_covers(*final(shadow)),
            sq_doorbell_step(old(self)@, final(self)@, write_sq, *old(shadow), *final(shadow), r),
    {
        if !write_sq {
            let mut next_tail = self.sq_tail + 1;
            if next_tail == self.q_depth {
                next_tail = 0;
            }
            if next_tail != self.last_sq_tail {
                return None;
            }
        }
        let ring = self.dbbuf_update_and_check_event(shadow, self.sq_tail, 0);
        let r = if ring {
            Some(DoorbellWrite { offset: self.db_offset, value: self.sq_tail as u32 })
        } else {
            None
        };
        self.last_sq_tail = self.sq_tail;
        r
    }

    /// Rings the submission doorbell for the current tail (`write_sq`), or
    /// only when the ring is about to fill up (`!write_sq`).
    pub fn write_sq_db(&mut self, write_sq: bool, shadow: &mut Option<ShadowDoorbells>) -> (r:
        Option<DoorbellWrite>)
        requires
            old(self)@.wf(),
            old(self)@.shadow_covers(*old(shadow)),
        ensures
            final(self)@.wf(),
            final(self)@.shadow_covers(*final(shadow)),
            sq_doorbell_step(old(self)@, final(self)@, write_sq, *old(shadow), *final(shadow), r),
    {
        self.write_sq_db_locked(write_sq, shadow)
    }

    /// Writes `cmd` into the submission slot at the tail, advances the tail
    /// and rings the doorbell when `is_last` is set or the shadow doorbell
    /// check asks for it. The caller must not have more commands outstanding
    /// than the ring has slots.
    pub fn submit_command(
        &mut self,
        cmd: &NvmeCommand,
        is_last: bool,
        shadow: &mut Option<ShadowDoorbells>,
    ) -> (r: Option<DoorbellWrite>)
        requires
            old(self)@.wf(),
            old(self)@.shadow_covers(*old(shadow)),
        ensures
            final(self)@.wf(),
            final(self)@.shadow_covers(*final(shadow)),
            sq_doorbell_step(
                submitted(old(self)@, *cmd),
                final(self)@,
                is_last,
                *old(shadow),
                *final(shadow),
                r,
            ),
    {
        self.sq.set(self.sq_tail as usize, *cmd);
        self.sq_tail = self.sq_tail + 1;
        if self.sq_tail == self.q_depth {
            self.sq_tail = 0;
        }
        self.write_sq_db_locked(is_last, shadow)
    }
    /// Consumes every completion the device has posted since the last drain:
    /// starting at the head, while the entry's phase tag matches the expected
    /// phase, records its result and status in the request its identifier
    /// names, advances the head and flips the expected phase when the ring
    /// wraps. An identifier that names no request is reported and dropped.
    /// Stops at the first entry whose phase tag does not match.
    ///
    /// Only one caller may drain a given queue at a time.
    pub fn process_completions(
        &mut self,
        requests: &mut Vec<NvmeRequest>,
        shadow: &mut Option<ShadowDoorbells>,
    ) -> (r: DrainOutcome)
        requires
            old(self)@.wf(),
            old(self)@.shadow_covers(*old(shadow)),
        ensures
            final(self)@.wf(),
            final(self)@.shadow_covers(*final(shadow)),
            drain_step(
                old(self)@,
                final(self)@,
                old(requests)@,
                final(requests)@,
                *old(shadow),
                *final(shadow),
                r,
            ),
    {
        let ghost v = self@;
        let mut head = self.cq_head;
        let mut phase = self.cq_phase;
        let mut found: u16 = 0;
        let mut completed: Vec<u16> = Vec::new();
        let mut unmatched: Vec<u16> = Vec::new();
        let ghost n = requests@.len();
        loop
            invariant
                self@ == v,
                v.wf(),
                found <= v.depth,
                head == v.cq_slot(found as nat),
                phase == v.expected_phase(found as nat),
                v.posted_run(0) == v.posted_run(found as nat),
                found >= 1 ==> v.cq[v.cq_head as int].phase() == v.cq_phase,
                requests@.len() == n,
                requests@ == record_all(
                    old(requests)@,
                    Seq::new(found as nat, |j: int| v.cq[v.cq_slot(j as nat) as int]),
                ),
                completed@ == tags_where(
                    Seq::new(found as nat, |j: int| v.cq[v.cq_slot(j as nat) as int]),
                    n,
                    true,
                ),
                unmatched@ == tags_where(
                    Seq::new(found as nat, |j: int| v.cq[v.cq_slot(j as nat) as int]),
                    n,
                    false,
                ),
            ensures
                !v.is_posted(found as nat),
            decreases v.depth - found,
        {
            let cqe = self.cq[head as usize];
            let st = cqe.status;
            let tag_bit = st & 1;
            assert(st & 1 == st % 2) by (bit_vector);
            if tag_bit != phase {
                break;
            }
            proof {
                if found as nat == v.depth {
                    assert(v.cq_slot(found as nat) == v.cq_head);
                    assert(false);
                }
            }
            let ghost es0 = Seq::new(found as nat, |j: int| v.cq[v.cq_slot(j as nat) as int]);
            let ghost es1 = Seq::new((found + 1) as nat, |j: int| v.cq[v.cq_slot(j as nat) as int]);
            assert(es1.drop_last() =~= es0);
            assert(es1.last() == cqe);
            found += 1;
            head += 1;
            if head == self.q_depth {
                head = 0;
                phase = 1 - phase;
            }
            let tag = cqe.command_id;
            if (tag as usize) < requests.len() {
                requests[tag as usize].result = cqe.result;
                let code = st >> 1;
                assert(st >> 1 == st / 2) by (bit_vector);
                requests[tag as usize].status = code;
                completed.push(tag);
            } else {
                unmatched.push(tag);
            }
            assert(requests@ =~= record_all(old(requests)@, es1));
        }
        assert(v.posted_run(found as nat) == found);
        if found == 0 {
            return DrainOutcome { processed: false, completed, unmatched, doorbell: None };
        }
        let ring = self.dbbuf_update_and_check_event(shadow, head, self.db_stride / 4);
        let doorbell = if ring {
            Some(DoorbellWrite { offset: self.db_offset + self.db_stride, value: head as u32 })
        } else {
            None
        };
        self.cq_head = head;
        self.cq_phase = phase;
        DrainOutcome { processed: true, completed, unmatched, doorbell }
    }

    /// Interrupt handler of an interrupt-driven queue: drains the completion
    /// queue and reports the interrupt as handled when it consumed an entry.
    pub fn handle_irq(
        &mut self,
        requests: &mut Vec<NvmeRequest>,
        shadow: &mut Option<ShadowDoorbells>,
    ) -> (r: (IrqReturn, DrainOutcome))
        requires
            old(self)@.wf(),
            old(self)@.shadow_covers(*old(shadow)),
        ensures
            final(self)@.wf(),
            final(self)@.shadow_covers(*final(shadow)),
            drain_step(
                old(self)@,
                final(self)@,
                old(requests)@,
                final(requests)@,
                *old(shadow),
                *final(shadow),
                r.1,
            ),
            r.0 == (if r.1.processed {
                IrqReturn::Handled
            } else {
                IrqReturn::NotHandled
            }),
    {
        let outcome = self.process_completions(requests, shadow);
        if outcome.processed {
            (IrqReturn::Handled, outcome)
        } else {
            (IrqReturn::NotHandled, outcome)
        }
    }
}

/// The queue right after `cmd` was written at the tail and the tail advanced.
pub open spec fn submitted(v: QueueView, cmd: NvmeCommand) -> QueueView {
    QueueView {
        sq: v.sq.update(v.sq_tail as int, cmd),
        sq_tail: next_index(v.sq_tail, v.depth),
        ..v
    }
}

/// Doorbell step on the submission side, from `v` to `w`: nothing happens
/// unless `write_sq` is set or the next tail reaches the tail last rung; else
/// the shadow slot of the queue takes the tail, the register write `r` is
/// returned when the device asked for it, and the tail counts as rung.
pub open spec fn sq_doorbell_step(
    v: QueueView,
    w: QueueView,
    write_sq: bool,
    sh0: Option<ShadowDoorbells>,
    sh1: Option<ShadowDoorbells>,
    r: Option<DoorbellWrite>,
) -> bool {
    if !write_sq && next_index(v.sq_tail, v.depth) != v.last_sq_tail {
        &&& w == v
        &&& sh1 == sh0
        &&& r is None
    } else {
        &&& w == QueueView { last_sq_tail: v.sq_tail, ..v }
        &&& shadow_step(v.qid, sh0, sh1, v.sdb_index as int, v.sq_tail as u16, r is Some)
        &&& r is Some ==> r->Some_0 == DoorbellWrite { offset: v.db_offset as usize, value: v.sq_tail as u32 }
    }
}

/// Drain of the completion queue, from `v` to `w`: the entries of
/// `v.drained()` are consumed, recorded in the requests in order and reported
/// by identifier; when there was at least one, the head moves past them, the
/// expected phase flips if the ring wrapped, and the head doorbell is checked
/// against the shadow buffer. The submission side is untouched.
pub open spec fn drain_step(
    v: QueueView,
    w: QueueView,
    reqs0: Seq<NvmeRequest>,
    reqs1: Seq<NvmeRequest>,
    sh0: Option<ShadowDoorbells>,
    sh1: Option<ShadowDoorbells>,
    r: DrainOutcome,
) -> bool {
    let k = v.drain_count();
    let es = v.drained();
    &&& reqs1 == record_all(reqs0, es)
    &&& r.completed@ == tags_where(es, reqs0.len(), true)
    &&& r.unmatched@ == tags_where(es, reqs0.len(), false)
    &&& r.processed == (k > 0)
    &&& if k == 0 {
        &&& w == v
        &&& sh1 == sh0
        &&& r.doorbell is None
    } else {
        &&& w == QueueView { cq_head: v.cq_slot(k), cq_phase: v.expected_phase(k), ..v }
        &&& shadow_step(
            v.qid,
            sh0,
            sh1,
            (v.sdb_index + v.db_stride / 4) as int,
            v.cq_slot(k) as u16,
            r.doorbell is Some,
        )
        &&& r.doorbell is Some ==> r.doorbell->Some_0 == DoorbellWrite {
            offset: (v.db_offset + v.db_stride) as usize,
            value: v.cq_slot(k) as u32,
        }
    }
}

/// Slot `k` places after slot `t` in a ring of `depth` slots.
pub open spec fn ring_slot(t: nat, k: int, depth: nat) -> int {
    (t + k) % (depth as int)
}

/// `vs` is a run of submissions of `cmds`: each `vs[k + 1]` holds the
/// submission ring and tail that submitting `cmds[k]` to `vs[k]` leaves, whatever
/// doorbell step came with it.
pub open spec fn is_submit_run(vs: Seq<QueueView>, cmds: Seq<NvmeCommand>) -> bool {
    &&& vs.len() == cmds.len() + 1
    &&& forall|k: int|
        0 <= k < cmds.len() ==> {
            &&& #[trigger] vs[k + 1].sq == submitted(vs[k], cmds[k]).sq
            &&& vs[k + 1].sq_tail == submitted(vs[k], cmds[k]).sq_tail
            &&& vs[k + 1].depth == vs[k].depth
        }
}

/// Submissions on one queue, serialised by its lock, advance the tail once
/// each, modulo the depth, and while they do not outnumber the slots each
/// lands in a slot of its own that keeps it: the `k`-th of a run that starts at
/// tail `t` sits in slot `(t + k) mod depth`. In particular `depth`
/// submissions from tail 0 bring the tail back to 0, after passing through
/// `1, 2, ..., depth - 1`.
pub proof fn lemma_submit_run(vs: Seq<QueueView>, cmds: Seq<NvmeCommand>)
    requires
        vs.len() >= 1,
        vs[0].wf(),
        is_submit_run(vs, cmds),
    ensures
        forall|m: int|
            0 <= m <= cmds.len() ==> #[trigger] vs[m].sq_tail == ring_slot(
                vs[0].sq_tail,
                m,
                vs[0].depth,
            ),
        cmds.len() <= vs[0].depth ==> forall|k: int|
            0 <= k < cmds.len() ==> vs[cmds.len() as int].sq[#[trigger] ring_slot(
                vs[0].sq_tail,
                k,
                vs[0].depth,
            )] == cmds[k],
        cmds.len() <= vs[0].depth ==> forall|i: int, j: int|
            0 <= i < j < cmds.len() ==> #[trigger] ring_slot(vs[0].sq_tail, i, vs[0].depth)
                != #[trigger] ring_slot(vs[0].sq_tail, j, vs[0].depth),
{
    let n = cmds.len() as int;
    let t = vs[0].sq_tail as int;
    let d = vs[0].depth as int;
    lemma_submit_prefix(vs, cmds, n);
    if n <= d {
        assert forall|i: int, j: int| 0 <= i < j < n implies #[trigger] ring_slot(
            vs[0].sq_tail,
            i,
            vs[0].depth,
        ) != #[trigger] ring_slot(vs[0].sq_tail, j, vs[0].depth) by {
            lemma_distinct_offsets(t, i, j, d);
        }
    }
}

/// From tail 0, a ring of `depth` slots takes `depth` submissions: the tail
/// moves through `1, 2, ..., depth - 1` and the last of them wraps it to 0.
pub proof fn lemma_full_ring_of_submissions(vs: Seq<QueueView>, cmds: Seq<NvmeCommand>)
    requires
        vs.len() >= 1,
        vs[0].wf(),
        vs[0].sq_tail == 0,
        cmds.len() == vs[0].depth,
        is_submit_run(vs, cmds),
    ensures
        forall|k: int| 0 <= k < cmds.len() ==> #[trigger] vs[k].sq_tail == k,
        vs[cmds.len() as int].sq_tail == 0,
{
    lemma_submit_run(vs, cmds);
    let d = vs[0].depth as int;
    assert forall|k: int| 0 <= k < cmds.len() implies #[trigger] vs[k].sq_tail == k by {
        assert(vs[k].sq_tail == ring_slot(0, k, vs[0].depth));
        vstd::arithmetic::div_mod::lemma_small_mod(k as nat, d as nat);
    }
    assert(vs[cmds.len() as int].sq_tail == ring_slot(0, d, vs[0].depth));
    vstd::arithmetic::div_mod::lemma_mod_self_0(d);
}

proof fn lemma_submit_prefix(vs: Seq<QueueView>, cmds: Seq<NvmeCommand>, m: int)
    requires
        vs.len() >= 1,
        vs[0].wf(),
        is_submit_run(vs, cmds),
        0 <= m <= cmds.len(),
    ensures
        forall|i: int|
            0 <= i <= m ==> #[trigger] vs[i].sq_tail == (vs[0].sq_tail + i) % (vs[0].depth as int),
        forall|i: int| 0 <= i <= m ==> #[trigger] vs[i].depth == vs[0].depth,
        forall|i: int| 0 <= i <= m ==> #[trigger] vs[i].sq.len() == vs[0].depth,
        m <= vs[0].depth ==> forall|k: int|
            0 <= k < m ==> #[trigger] vs[m].sq[(vs[0].sq_tail + k) % (vs[0].depth as int)]
                == cmds[k],
    decreases m,
{
    let t = vs[0].sq_tail as int;
    let d = vs[0].depth as int;
    if m == 0 {
        vstd::arithmetic::div_mod::lemma_small_mod(t as nat, d as nat);
    } else {
        let p = m - 1;
        lemma_submit_prefix(vs, cmds, p);
        let a = vs[p];
        assert(vs[p + 1].sq == submitted(vs[p], cmds[p]).sq);
        assert(a.sq_tail == (t + p) % d);
        assert(vs[m].sq_tail == (t + m) % d) by {
            vstd::arithmetic::div_mod::lemma_add_mod_noop(t + p, 1, d);
            vstd::arithmetic::div_mod::lemma_mod_bound(t + p, d);
            if d > 1 {
                vstd::arithmetic::div_mod::lemma_small_mod(1, d as nat);
            } else {
                vstd::arithmetic::div_mod::lemma_mod_self_0(d);
            }
            if a.sq_tail + 1 < d {
                vstd::arithmetic::div_mod::lemma_small_mod((a.sq_tail + 1) as nat, d as nat);
            } else {
                vstd::arithmetic::div_mod::lemma_mod_self_0(d);
            }
        }
        if m <= d {
            assert forall|k: int| 0 <= k < m implies #[trigger] vs[m].sq[(t + k) % d]
                == cmds[k] by {
                vstd::arithmetic::div_mod::lemma_mod_bound(t + k, d);
                if k < p {
                    lemma_distinct_offsets(t, k, p, d);
                }
            }
        }
    }
}

proof fn lemma_distinct_offsets(t: int, i: int, j: int, d: int)
    requires
        0 <= t,
        0 <= i < j < d,
    ensures
        (t + i) % d != (t + j) % d,
{
    vstd::arithmetic::div_mod::lemma_fundamental_div_mod(t + i, d);
    vstd::arithmetic::div_mod::lemma_fundamental_div_mod(t + j, d);
    let qi = (t + i) / d;
    let qj = (t + j) / d;
    if (t + i) % d == (t + j) % d {
        assert(j - i == d * (qj - qi)) by (nonlinear_arith)
            requires
                t + i == d * qi + (t + i) % d,
                t + j == d * qj + (t + j) % d,
                (t + i) % d == (t + j) % d,
        ;
        assert(false) by (nonlinear_arith)
            requires
                j - i == d * (qj - qi),
                0 < j - i < d,
        ;
    }
}

/// A drain consumes exactly the entries from the head up to, and not
/// including, the first one whose phase tag differs from the phase expected at
/// its place; it never consumes more than the ring holds.
pub proof fn lemma_drain_stops_at_first_unposted(v: QueueView)
    requires
        v.wf(),
    ensures
        v.drain_count() <= v.depth,
        forall|j: nat| j < v.drain_count() ==> #[trigger] v.is_posted(j),
        v.drain_count() < v.depth ==> !v.is_posted(v.drain_count()),
{
    lemma_posted_run(v, 0);
}

proof fn lemma_posted_run(v: QueueView, j: nat)
    requires
        v.wf(),
        j <= v.depth,
    ensures
        j <= v.posted_run(j) <= v.depth,
        forall|i: nat| j <= i < v.posted_run(j) ==> #[trigger] v.is_posted(i),
        v.posted_run(j) < v.depth ==> !v.is_posted(v.posted_run(j)),
    decreases v.depth - j,
{
    if j < v.depth && v.is_posted(j) {
        lemma_posted_run(v, j + 1);
    }
}

/// When the device has posted a whole ring of entries, a drain consumes all
/// of them, comes back to the same head, and the expected phase has flipped
/// exactly once.
pub proof fn lemma_full_drain_flips_phase_once(v: QueueView)
    requires
        v.wf(),
        forall|j: nat| j < v.depth ==> #[trigger] v.is_posted(j),
    ensures
        v.drain_count() == v.depth,
        v.cq_slot(v.drain_count()) == v.cq_head,
        v.expected_phase(v.drain_count()) == 1 - v.cq_phase,
{
    lemma_posted_run(v, 0);
    if v.drain_count() < v.depth {
        assert(v.is_posted(v.drain_count()));
    }
}

/// A drain reads no completion slot past the first one whose phase tag
/// differs from the phase expected there. Two queues that differ only in
/// their completion rings, and agree on the slots from the head up to and
/// including that first unposted one, drain the same entries and end at the
/// same head and phase; `drain_step` then fixes the same requests, reported
/// identifiers and doorbell for both.
pub proof fn lemma_drain_reads_only_up_to_first_unposted(v: QueueView, w: QueueView)
    requires
        v.wf(),
        w == (QueueView { cq: w.cq, ..v }),
        w.cq.len() == v.cq.len(),
        forall|j: nat|
            j <= v.drain_count() && j < v.depth ==> w.cq[v.cq_slot(j) as int] == #[trigger] v.cq[v.cq_slot(
                j,
            ) as int],
    ensures
        w.drain_count() == v.drain_count(),
        w.drained() == v.drained(),
        w.cq_slot(w.drain_count()) == v.cq_slot(v.drain_count()),
        w.expected_phase(w.drain_count()) == v.expected_phase(v.drain_count()),
{
    lemma_posted_run(v, 0);
    lemma_same_run(v, w, 0);
    assert(w.drained() =~= v.drained());
}

proof fn lemma_same_run(v: QueueView, w: QueueView, j: nat)
    requires
        v.wf(),
        w == (QueueView { cq: w.cq, ..v }),
        w.cq.len() == v.cq.len(),
        j <= v.depth,
        v.posted_run(j) == v.drain_count(),
        forall|i: nat|
            i <= v.drain_count() && i < v.depth ==> w.cq[v.cq_slot(i) as int] == #[trigger] v.cq[v.cq_slot(
                i,
            ) as int],
    ensures
        w.posted_run(j) == v.posted_run(j),
    decreases v.depth - j,
{
    lemma_posted_run(v, j);
    if j < v.depth {
        assert(w.cq[v.cq_slot(j) as int] == v.cq[v.cq_slot(j) as int]);
        if v.is_posted(j) {
            lemma_same_run(v, w, j + 1);
        }
    }
}

} // verus!
