use rnvme::command::{NvmeCommand, NvmeCompletion, NVME_CMD_FLUSH, NVME_CMD_READ, NVME_CMD_WRITE};
use rnvme::defs::NvmeError;
use rnvme::dispatch::{
    complete, dispatch_path, queue_rq, BlockRequest, DispatchPath, DmaMapping, NvmeData,
    NvmeNamespace, ReqOp, Unmap,
};
use rnvme::prp::PrpPool;
use rnvme::queue::{DoorbellWrite, NvmeQueue};
use rnvme::request::{DmaDirection, NvmeRequest, ScatterEntry};

const POOL_BASE: u64 = 0x8000_0000;

fn rq(op: ReqOp, tag: u16, bytes: u32, segments: u32, offset: u32) -> BlockRequest {
    BlockRequest {
        op,
        tag,
        payload_bytes: bytes,
        sector: 2048,
        nr_phys_segments: segments,
        first_offset: offset,
    }
}

fn setup() -> (NvmeQueue, NvmeData, NvmeNamespace) {
    let q = NvmeQueue::try_new(1, 16, 1, 4, false);
    let data = NvmeData { shadow: None, dma_pool: PrpPool::new(POOL_BASE, 4) };
    let ns = NvmeNamespace { id: 1, lba_shift: 12 };
    (q, data, ns)
}

fn in_use_count(pool: &PrpPool) -> usize {
    (0..pool.capacity()).filter(|&i| pool.is_in_use(i)).count()
}

#[test]
fn single_segment_within_two_pages_takes_single_page_path() {
    assert_eq!(dispatch_path(&rq(ReqOp::Read, 0, 8192, 1, 0)), DispatchPath::SinglePage);
    assert_eq!(dispatch_path(&rq(ReqOp::Write, 0, 4096, 1, 4096 + 4000)), DispatchPath::SinglePage);
    assert_eq!(dispatch_path(&rq(ReqOp::Write, 0, 4192, 1, 4000)), DispatchPath::SinglePage);
}

#[test]
fn other_reads_and_writes_take_scatter_gather_path() {
    assert_eq!(dispatch_path(&rq(ReqOp::Read, 0, 4193, 1, 4000)), DispatchPath::ScatterGather);
    assert_eq!(dispatch_path(&rq(ReqOp::Read, 0, 12288, 1, 0)), DispatchPath::ScatterGather);
    assert_eq!(dispatch_path(&rq(ReqOp::Write, 0, 4096, 2, 0)), DispatchPath::ScatterGather);
}

#[test]
fn other_operations_paths() {
    assert_eq!(dispatch_path(&rq(ReqOp::Flush, 0, 0, 0, 0)), DispatchPath::Flush);
    assert_eq!(dispatch_path(&rq(ReqOp::DrvIn, 0, 0, 0, 0)), DispatchPath::PassThrough);
    assert_eq!(dispatch_path(&rq(ReqOp::DrvOut, 0, 0, 0, 0)), DispatchPath::PassThrough);
    assert_eq!(dispatch_path(&rq(ReqOp::Other(3), 0, 0, 0, 0)), DispatchPath::Unsupported);
}

#[test]
fn unsupported_operation_is_rejected() {
    let (mut q, mut data, ns) = setup();
    let mut pdu = NvmeRequest::new_request_data();
    let r = queue_rq(&mut q, &mut data, &ns, &rq(ReqOp::Other(5), 1, 0, 0, 0), &mut pdu, DmaMapping::Unmapped, true);
    assert_eq!(r, Err(NvmeError::Io));
    assert_eq!(q.sq_tail(), 0);
}

#[test]
fn flush_is_submitted_with_request_tag() {
    let (mut q, mut data, ns) = setup();
    let mut pdu = NvmeRequest::new_request_data();
    let r = queue_rq(&mut q, &mut data, &ns, &rq(ReqOp::Flush, 7, 0, 0, 0), &mut pdu, DmaMapping::Unmapped, true);
    assert_eq!(r, Ok(Some(DoorbellWrite { offset: 4096 + 8, value: 1 })));
    let c = q.sq_entry(0);
    assert_eq!(c.opcode, NVME_CMD_FLUSH);
    assert_eq!(c.command_id, 7);
    assert_eq!(c.nsid, 1);
}

#[test]
fn pass_through_sends_stored_command_under_request_tag() {
    let (mut q, mut data, ns) = setup();
    let mut pdu = NvmeRequest::new_request_data();
    let mut admin = NvmeCommand::zeroed();
    admin.opcode = 0x06;
    admin.nsid = 9;
    admin.command_id = 999;
    pdu.cmd = admin;
    let r = queue_rq(&mut q, &mut data, &ns, &rq(ReqOp::DrvIn, 3, 0, 0, 0), &mut pdu, DmaMapping::Unmapped, false);
    assert_eq!(r, Ok(None));
    let c = q.sq_entry(0);
    assert_eq!(c.opcode, 0x06);
    assert_eq!(c.nsid, 9);
    assert_eq!(c.command_id, 3);
}

#[test]
fn single_page_read() {
    let (mut q, mut data, ns) = setup();
    let mut pdu = NvmeRequest::new_request_data();
    let r = queue_rq(&mut q, &mut data, &ns, &rq(ReqOp::Read, 4, 8192, 1, 0), &mut pdu, DmaMapping::Page(0x50000), true);
    assert!(r.is_ok());
    let c = q.sq_entry(0);
    assert_eq!(c.opcode, NVME_CMD_READ);
    assert_eq!(c.command_id, 4);
    assert_eq!(c.slba, 2048 >> 3);
    assert_eq!(c.length, 1);
    assert_eq!(c.prp1, 0x50000);
    assert_eq!(c.prp2, 0x51000);
    assert_eq!(pdu.dma_addr, 0x50000);
    assert_eq!(pdu.len, 8192);
    assert_eq!(pdu.direction, DmaDirection::FromDevice);
    assert!(pdu.mapping_data.is_none());
    assert_eq!(in_use_count(&data.dma_pool), 0);
}

#[test]
fn single_page_mapping_failure() {
    let (mut q, mut data, ns) = setup();
    let mut pdu = NvmeRequest::new_request_data();
    let r = queue_rq(&mut q, &mut data, &ns, &rq(ReqOp::Read, 4, 4096, 1, 0), &mut pdu, DmaMapping::Page(u64::MAX), true);
    assert_eq!(r, Err(NvmeError::NoMemory));
    let r = queue_rq(&mut q, &mut data, &ns, &rq(ReqOp::Read, 4, 4096, 1, 0), &mut pdu, DmaMapping::Failed, true);
    assert_eq!(r, Err(NvmeError::NoMemory));
    assert_eq!(q.sq_tail(), 0);
    assert_eq!(pdu.dma_addr, u64::MAX);
}

#[test]
fn scatter_gather_mapping_failure() {
    let (mut q, mut data, ns) = setup();
    let mut pdu = NvmeRequest::new_request_data();
    let r = queue_rq(&mut q, &mut data, &ns, &rq(ReqOp::Write, 4, 16384, 3, 0), &mut pdu, DmaMapping::Failed, true);
    assert_eq!(r, Err(NvmeError::NoMemory));
    assert_eq!(q.sq_tail(), 0);
}

#[test]
fn single_page_request_completes_without_mapping_data() {
    let (mut q, mut data, ns) = setup();
    let mut pdu = NvmeRequest::new_request_data();
    queue_rq(&mut q, &mut data, &ns, &rq(ReqOp::Write, 0, 4096, 1, 0), &mut pdu, DmaMapping::Page(0x50000), true).unwrap();
    pdu.result = 11;
    let out = complete(ReqOp::Write, &mut pdu, &mut data.dma_pool);
    assert_eq!(out.unmap, Unmap::Page { dma_addr: 0x50000, len: 4096, direction: DmaDirection::ToDevice });
    assert_eq!(out.status, Ok(11));
}

#[test]
fn device_error_completes_with_io_error_after_teardown() {
    let (mut q, mut data, ns) = setup();
    let mut pdu = NvmeRequest::new_request_data();
    let sg = vec![ScatterEntry { dma_address: 0x100000, length: 16384 }];
    queue_rq(&mut q, &mut data, &ns, &rq(ReqOp::Read, 0, 16384, 1, 0), &mut pdu, DmaMapping::Scatter(sg), true).unwrap();
    assert_eq!(in_use_count(&data.dma_pool), 1);
    pdu.status = 0x2;
    let out = complete(ReqOp::Read, &mut pdu, &mut data.dma_pool);
    assert_eq!(out.status, Err(NvmeError::Io));
    assert_eq!(in_use_count(&data.dma_pool), 0);
    assert!(pdu.mapping_data.is_none());
}

#[test]
fn flush_completes_at_once() {
    let mut pool = PrpPool::new(POOL_BASE, 1);
    let mut pdu = NvmeRequest::new_request_data();
    pdu.result = 3;
    pdu.status = 1;
    let out = complete(ReqOp::Flush, &mut pdu, &mut pool);
    assert_eq!(out.unmap, Unmap::Nothing);
    assert_eq!(out.status, Ok(3));
}

#[test]
fn three_segment_write_end_to_end() {
    let (mut q, mut data, _) = setup();
    let ns = NvmeNamespace { id: 2, lba_shift: 9 };
    let mut pdu = NvmeRequest::new_request_data();
    let sg = vec![
        ScatterEntry { dma_address: 0x100000, length: 4096 },
        ScatterEntry { dma_address: 0x200000, length: 8192 },
        ScatterEntry { dma_address: 0x300000, length: 4096 },
    ];
    let request = rq(ReqOp::Write, 5, 16384, 3, 0);
    assert_eq!(dispatch_path(&request), DispatchPath::ScatterGather);
    let r = queue_rq(&mut q, &mut data, &ns, &request, &mut pdu, DmaMapping::Scatter(sg), true);
    assert_eq!(r, Ok(Some(DoorbellWrite { offset: 4096 + 8, value: 1 })));

    // 16 KiB: the first page in the command, three more in one list page.
    let c = q.sq_entry(0);
    assert_eq!(c.opcode, NVME_CMD_WRITE);
    assert_eq!(c.command_id, 5);
    assert_eq!(c.nsid, 2);
    assert_eq!(c.slba, 2048);
    assert_eq!(c.length, 31);
    assert_eq!(c.prp1, 0x100000);
    assert_eq!(pdu.page_count, 1);
    assert_eq!(pdu.sg_count, 3);
    assert_eq!(pdu.first_dma, c.prp2);
    assert_eq!(pdu.direction, DmaDirection::ToDevice);
    let page = pdu.mapping_data.as_ref().unwrap().pages[0];
    assert_eq!(c.prp2, data.dma_pool.dma_addr(page));
    assert_eq!(data.dma_pool.read(page, 0), 0x200000);
    assert_eq!(data.dma_pool.read(page, 1), 0x201000);
    assert_eq!(data.dma_pool.read(page, 2), 0x300000);
    assert_eq!(in_use_count(&data.dma_pool), 1);

    // The device completes it with status 0.
    let mut e = NvmeCompletion::zeroed();
    e.command_id = 5;
    e.status = 1;
    e.result = 0xabcd;
    q.post_completion(0, e);
    let mut reqs: Vec<NvmeRequest> = (0..8).map(|_| NvmeRequest::new_request_data()).collect();
    reqs[5] = pdu;
    let drained = q.process_completions(&mut reqs, &mut data.shadow);
    assert_eq!(drained.completed, vec![5]);

    let out = complete(ReqOp::Write, &mut reqs[5], &mut data.dma_pool);
    assert_eq!(out.status, Ok(0xabcd));
    match out.unmap {
        Unmap::Scatter { sg, direction } => {
            assert_eq!(sg.len(), 3);
            assert_eq!(direction, DmaDirection::ToDevice);
        }
        _ => panic!("scatter list to unmap expected"),
    }
    assert_eq!(in_use_count(&data.dma_pool), 0);
}
