use rnvme::command::{NvmeCommand, NvmeCompletion};
use rnvme::queue::{dbbuf_need_event, DoorbellWrite, IrqReturn, NvmeQueue, ShadowDoorbells};
use rnvme::request::NvmeRequest;

fn cmd(id: u16) -> NvmeCommand {
    let mut c = NvmeCommand::zeroed();
    c.command_id = id;
    c.opcode = 0x02;
    c
}

fn cqe(id: u16, phase: u16, status: u16, result: u32) -> NvmeCompletion {
    let mut e = NvmeCompletion::zeroed();
    e.command_id = id;
    e.status = (status << 1) | phase;
    e.result = result;
    e
}

fn requests(n: usize) -> Vec<NvmeRequest> {
    (0..n).map(|_| NvmeRequest::new_request_data()).collect()
}

#[test]
fn need_event_crossed() {
    assert!(dbbuf_need_event(5, 10, 3));
}

#[test]
fn need_event_not_yet_crossed() {
    assert!(!dbbuf_need_event(5, 4, 3));
}

#[test]
fn need_event_across_wraparound() {
    // old = 65534, new = 2: the doorbell moved over 65534, 65535, 0, 1.
    assert!(dbbuf_need_event(0, 2, 65534));
    assert!(dbbuf_need_event(65535, 2, 65534));
    assert!(dbbuf_need_event(1, 2, 65534));
    assert!(!dbbuf_need_event(2, 2, 65534));
    assert!(!dbbuf_need_event(3, 2, 65534));
    assert!(!dbbuf_need_event(65533, 2, 65534));
}

#[test]
fn new_queue_starts_empty() {
    let q = NvmeQueue::try_new(1, 8, 1, 4, false);
    assert_eq!(q.qid(), 1);
    assert_eq!(q.q_depth(), 8);
    assert_eq!(q.sq_tail(), 0);
    assert_eq!(q.cq_head(), 0);
    assert_eq!(q.cq_phase(), 1);
    assert!(!q.polled());
}

#[test]
fn submit_depth_commands_wraps_tail_to_zero() {
    let depth: u16 = 4;
    let mut q = NvmeQueue::try_new(1, depth, 1, 4, false);
    let mut shadow = None;
    for k in 0..depth {
        assert_eq!(q.sq_tail(), k);
        q.submit_command(&cmd(k), true, &mut shadow);
        assert_eq!(q.sq_entry(k).command_id, k);
    }
    assert_eq!(q.sq_tail(), 0);
    q.submit_command(&cmd(9), true, &mut shadow);
    assert_eq!(q.sq_tail(), 1);
    assert_eq!(q.sq_entry(0).command_id, 9);
}

#[test]
fn serialised_submissions_use_distinct_slots() {
    let mut q = NvmeQueue::try_new(1, 4, 1, 4, false);
    let mut shadow = None;
    q.submit_command(&cmd(100), true, &mut shadow);
    q.submit_command(&cmd(101), true, &mut shadow);
    // Three submitters, one after the other under the queue's lock.
    let mut slots = Vec::new();
    for id in [7u16, 8, 9] {
        slots.push(q.sq_tail());
        q.submit_command(&cmd(id), false, &mut shadow);
    }
    assert_eq!(slots, vec![2, 3, 0]);
    assert_eq!(q.sq_entry(2).command_id, 7);
    assert_eq!(q.sq_entry(3).command_id, 8);
    assert_eq!(q.sq_entry(0).command_id, 9);
    assert_eq!(q.sq_tail(), 1);
}

#[test]
fn submit_last_rings_doorbell() {
    let mut q = NvmeQueue::try_new(1, 8, 1, 4, false);
    let mut shadow = None;
    let r = q.submit_command(&cmd(1), true, &mut shadow);
    assert_eq!(r, Some(DoorbellWrite { offset: 4096 + 8, value: 1 }));
}

#[test]
fn submit_not_last_defers_doorbell_until_ring_fills() {
    let mut q = NvmeQueue::try_new(1, 4, 1, 4, false);
    let mut shadow = None;
    assert_eq!(q.submit_command(&cmd(1), false, &mut shadow), None);
    assert_eq!(q.submit_command(&cmd(2), false, &mut shadow), None);
    // The next tail would reach the tail last rung (0): ring now.
    assert_eq!(
        q.submit_command(&cmd(3), false, &mut shadow),
        Some(DoorbellWrite { offset: 4096 + 8, value: 3 })
    );
    assert_eq!(q.write_sq_db(true, &mut shadow), Some(DoorbellWrite { offset: 4096 + 8, value: 3 }));
}

#[test]
fn admin_queue_always_rings() {
    let q = NvmeQueue::try_new(0, 4, 0, 4, false);
    let mut shadow = Some(ShadowDoorbells::new(16));
    assert!(q.dbbuf_update_and_check_event(&mut shadow, 3, 0));
    assert_eq!(shadow.as_ref().unwrap().doorbell(0), 0);
}

#[test]
fn shadow_doorbell_skips_register_until_event_index_is_crossed() {
    let q = NvmeQueue::try_new(1, 16, 1, 4, false);
    let mut shadow = Some(ShadowDoorbells::new(16));
    // Queue 1 uses shadow slot 2 for its tail.
    shadow.as_mut().unwrap().set_event_index(2, 5);
    assert!(!q.dbbuf_update_and_check_event(&mut shadow, 4, 0));
    assert_eq!(shadow.as_ref().unwrap().doorbell(2), 4);
    assert!(q.dbbuf_update_and_check_event(&mut shadow, 10, 0));
    assert_eq!(shadow.as_ref().unwrap().doorbell(2), 10);
    assert_eq!(shadow.as_ref().unwrap().event_index(2), 5);
}

#[test]
fn submit_through_shadow_doorbell() {
    let mut q = NvmeQueue::try_new(1, 16, 1, 4, false);
    let mut shadow = Some(ShadowDoorbells::new(16));
    shadow.as_mut().unwrap().set_event_index(2, 1);
    // Tail 0 -> 1: the event index 1 is not crossed yet.
    assert_eq!(q.submit_command(&cmd(1), true, &mut shadow), None);
    // Tail 1 -> 2: it is.
    assert_eq!(
        q.submit_command(&cmd(2), true, &mut shadow),
        Some(DoorbellWrite { offset: 4096 + 8, value: 2 })
    );
}

#[test]
fn drain_consumes_posted_entries() {
    let mut q = NvmeQueue::try_new(1, 4, 1, 4, false);
    let mut reqs = requests(8);
    let mut shadow = None;
    q.post_completion(0, cqe(3, 1, 0, 77));
    q.post_completion(1, cqe(5, 1, 2, 88));
    let out = q.process_completions(&mut reqs, &mut shadow);
    assert!(out.processed);
    assert_eq!(out.completed, vec![3, 5]);
    assert!(out.unmatched.is_empty());
    assert_eq!(out.doorbell, Some(DoorbellWrite { offset: 4096 + 8 + 4, value: 2 }));
    assert_eq!(q.cq_head(), 2);
    assert_eq!(q.cq_phase(), 1);
    assert_eq!(reqs[3].result, 77);
    assert_eq!(reqs[3].status, 0);
    assert_eq!(reqs[5].result, 88);
    assert_eq!(reqs[5].status, 2);
}

#[test]
fn drain_with_nothing_posted() {
    let mut q = NvmeQueue::try_new(1, 4, 1, 4, false);
    let mut reqs = requests(4);
    let mut shadow = None;
    let out = q.process_completions(&mut reqs, &mut shadow);
    assert!(!out.processed);
    assert!(out.completed.is_empty());
    assert_eq!(out.doorbell, None);
    assert_eq!(q.cq_head(), 0);
    assert_eq!(q.cq_phase(), 1);
}

#[test]
fn drain_stops_at_first_stale_entry() {
    let mut q = NvmeQueue::try_new(1, 4, 1, 4, false);
    let mut reqs = requests(4);
    let mut shadow = None;
    q.post_completion(0, cqe(1, 1, 0, 0));
    // Slot 1 still holds phase 0; slot 2 holds a phase-1 entry behind it.
    q.post_completion(2, cqe(2, 1, 0, 0));
    let out = q.process_completions(&mut reqs, &mut shadow);
    assert_eq!(out.completed, vec![1]);
    assert_eq!(q.cq_head(), 1);
}

#[test]
fn drain_full_ring_flips_phase_once() {
    let mut q = NvmeQueue::try_new(1, 4, 1, 4, false);
    let mut reqs = requests(4);
    let mut shadow = None;
    for i in 0..4u16 {
        q.post_completion(i, cqe(i, 1, 0, i as u32));
    }
    let out = q.process_completions(&mut reqs, &mut shadow);
    assert_eq!(out.completed, vec![0, 1, 2, 3]);
    assert_eq!(q.cq_head(), 0);
    assert_eq!(q.cq_phase(), 0);
    // The old entries no longer count as posted.
    let again = q.process_completions(&mut reqs, &mut shadow);
    assert!(!again.processed);
    // The device's next lap writes phase 0.
    q.post_completion(0, cqe(2, 0, 0, 9));
    let next = q.process_completions(&mut reqs, &mut shadow);
    assert_eq!(next.completed, vec![2]);
    assert_eq!(reqs[2].result, 9);
    assert_eq!(q.cq_head(), 1);
    assert_eq!(q.cq_phase(), 0);
}

#[test]
fn drain_drops_unmatched_identifier() {
    let mut q = NvmeQueue::try_new(1, 4, 1, 4, false);
    let mut reqs = requests(2);
    let mut shadow = None;
    q.post_completion(0, cqe(40, 1, 0, 0));
    q.post_completion(1, cqe(1, 1, 0, 5));
    let out = q.process_completions(&mut reqs, &mut shadow);
    assert_eq!(out.unmatched, vec![40]);
    assert_eq!(out.completed, vec![1]);
    assert_eq!(q.cq_head(), 2);
}

#[test]
fn interrupt_handled_only_with_posted_entries() {
    let mut q = NvmeQueue::try_new(2, 4, 2, 4, false);
    let mut reqs = requests(4);
    let mut shadow = None;
    let (ret, out) = q.handle_irq(&mut reqs, &mut shadow);
    assert_eq!(ret, IrqReturn::NotHandled);
    assert!(!out.processed);
    q.post_completion(0, cqe(1, 1, 0, 4));
    let (ret, out) = q.handle_irq(&mut reqs, &mut shadow);
    assert_eq!(ret, IrqReturn::Handled);
    assert_eq!(out.completed, vec![1]);
    assert_eq!(out.doorbell, Some(DoorbellWrite { offset: 4096 + 16 + 4, value: 1 }));
}
