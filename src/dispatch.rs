//! Turning block requests into commands, and tearing them down on completion.

use crate::command::{NvmeCommand, NVME_CMD_READ, NVME_CMD_WRITE};
use crate::defs::{NvmeError, NPAGES_PRP, NVME_CTRL_PAGE_SIZE, NVME_MAX_SEGS};
use crate::prp::{
    built, chain_ok, free_prps, in_chain, lemma_build_then_free, prp_layout, prp_outcome, prp_pages, released, restored, setup_prps,
    sg_fits, PoolView, PrpLayout, PrpPool, NVME_MAX_TRANSFER,
};
use crate::queue::{sq_doorbell_step, submitted, DoorbellWrite, NvmeQueue, ShadowDoorbells};
use crate::request::{DmaDirection, MappingData, NvmeRequest, ScatterEntry};
use vstd::prelude::*;

verus! {

/// log2 of the block layer's sector size.
pub const SECTOR_SHIFT: u32 = 9;

/// Operation of a block request.
#[derive(Clone, Copy, Debug, PartialEq, Eq, Structural)]
pub enum ReqOp {
    Read,
    Write,
    Flush,
    /// Driver-private command that reads from the device.
    DrvIn,
    /// Driver-private command that writes to the device.
    DrvOut,
    /// Any other operation code of the block layer.
    Other(u32),
}

/// What the driver needs of a block request.
#[derive(Clone, Copy, Debug, PartialEq, Eq, Structural)]
pub struct BlockRequest {
    pub op: ReqOp,
    /// Command identifier of the request, unique among those in flight.
    pub tag: u16,
    /// Number of bytes to transfer.
    pub payload_bytes: u32,
    /// Starting sector, in 512-byte units.
    pub sector: u64,
    /// Number of physical segments of the buffer.
    pub nr_phys_segments: u32,
    /// Offset of the first segment within its page.
    pub first_offset: u32,
}

/// Namespace a request is addressed to.
#[derive(Clone, Copy, Debug, PartialEq, Eq, Structural)]
pub struct NvmeNamespace {
    pub id: u32,
    /// log2 of the logical block size.
    pub lba_shift: u32,
}

/// How a request reaches the device.
#[derive(Clone, Copy, Debug, PartialEq, Eq, Structural)]
pub enum DispatchPath {
    /// The command handed in by the caller is sent as it is.
    PassThrough,
    Flush,
    /// One mapped page range, described by the two entries of the command.
    SinglePage,
    /// A mapped scatter list, described through PRP entries.
    ScatterGather,
    Unsupported,
}

/// What the DMA layer returned for the path of a request.
pub enum DmaMapping {
    /// Nothing was mapped (pass-through and flush requests).
    Unmapped,
    /// Bus address of the single mapped page range; `u64::MAX` means that the
    /// mapping failed.
    Page(u64),
    /// The mapped scatter list.
    Scatter(Vec<ScatterEntry>),
    /// The scatter list could not be mapped.
    Failed,
}

/// Per-controller state the data path shares between its queues.
pub struct NvmeData {
    pub shadow: Option<ShadowDoorbells>,
    pub dma_pool: PrpPool,
}

/// A single segment whose data stays within two controller pages takes the
/// single-page path; every other read or write takes the scatter-gather path.
pub open spec fn spec_dispatch_path(rq: BlockRequest) -> DispatchPath {
    match rq.op {
        ReqOp::DrvIn | ReqOp::DrvOut => DispatchPath::PassThrough,
        ReqOp::Flush => DispatchPath::Flush,
        ReqOp::Read | ReqOp::Write => {
            if rq.nr_phys_segments == 1 && (rq.first_offset % NVME_CTRL_PAGE_SIZE as u32)
                + rq.payload_bytes <= 2 * NVME_CTRL_PAGE_SIZE {
                DispatchPath::SinglePage
            } else {
                DispatchPath::ScatterGather
            }
        },
        ReqOp::Other(_) => DispatchPath::Unsupported,
    }
}

/// Chooses how request `rq` reaches the device.
pub fn dispatch_path(rq: &BlockRequest) -> (r: DispatchPath)
    ensures
        r == spec_dispatch_path(*rq),
{
    match rq.op {
        ReqOp::DrvIn | ReqOp::DrvOut => DispatchPath::PassThrough,
        ReqOp::Flush => DispatchPath::Flush,
        ReqOp::Read | ReqOp::Write => {
            let offset = (rq.first_offset % NVME_CTRL_PAGE_SIZE as u32) as u64;
            if rq.nr_phys_segments == 1 && offset + rq.payload_bytes as u64 <= 2
                * NVME_CTRL_PAGE_SIZE as u64 {
                DispatchPath::SinglePage
            } else {
                DispatchPath::ScatterGather
            }
        },
        ReqOp::Other(_) => DispatchPath::Unsupported,
    }
}

/// Direction of the data of a read or write request.
pub open spec fn spec_direction(op: ReqOp) -> DmaDirection {
    if op == ReqOp::Read {
        DmaDirection::FromDevice
    } else {
        DmaDirection::ToDevice
    }
}

/// A read or write request that the namespace can express: a logical block
/// size of at least one sector and a length of 1 to 65535 logical blocks.
pub open spec fn rw_request_ok(rq: BlockRequest, ns: NvmeNamespace) -> bool {
    &&& SECTOR_SHIFT <= ns.lba_shift < 32
    &&& 1 <= (rq.payload_bytes >> ns.lba_shift) <= u16::MAX
    &&& rq.payload_bytes <= NVME_MAX_TRANSFER
}

/// The read or write command for `rq`, before its data pointers are set.
pub open spec fn rw_command(rq: BlockRequest, ns: NvmeNamespace) -> NvmeCommand {
    NvmeCommand {
        opcode: if rq.op == ReqOp::Read {
            NVME_CMD_READ
        } else {
            NVME_CMD_WRITE
        },
        command_id: rq.tag,
        nsid: ns.id,
        slba: rq.sector >> ((ns.lba_shift - SECTOR_SHIFT) as u64),
        length: ((rq.payload_bytes >> ns.lba_shift) - 1) as u16,
        ..NvmeCommand::spec_zeroed()
    }
}

/// Builds the read or write command for `rq`, before its data pointers are set.
fn new_rw_command(rq: &BlockRequest, ns: &NvmeNamespace) -> (r: NvmeCommand)
    requires
        rq.op == ReqOp::Read || rq.op == ReqOp::Write,
        rw_request_ok(*rq, *ns),
    ensures
        r == rw_command(*rq, *ns),
{
    let opcode = if rq.op == ReqOp::Read {
        NVME_CMD_READ
    } else {
        NVME_CMD_WRITE
    };
    let blocks = rq.payload_bytes >> ns.lba_shift;
    NvmeCommand {
        opcode,
        command_id: rq.tag,
        nsid: ns.id,
        slba: rq.sector >> ((ns.lba_shift - SECTOR_SHIFT) as u64),
        length: (blocks - 1) as u16,
        ..NvmeCommand::zeroed()
    }
}

/// `mapping` is what the DMA layer can return for the path of `rq`.
pub open spec fn mapping_fits(rq: BlockRequest, mapping: DmaMapping) -> bool {
    match spec_dispatch_path(rq) {
        DispatchPath::SinglePage => match mapping {
            DmaMapping::Page(a) => a == u64::MAX || a + rq.payload_bytes <= u64::MAX,
            DmaMapping::Failed => true,
            _ => false,
        },
        DispatchPath::ScatterGather => match mapping {
            DmaMapping::Scatter(sg) => 1 <= sg@.len() <= NVME_MAX_SEGS && sg_fits(sg@),
            DmaMapping::Failed => true,
            _ => false,
        },
        _ => true,
    }
}

/// The second data pointer that the PRP setup leaves in a command whose
/// second pointer was zero, for the PRP layout `layout` and the list pages
/// `pages` of pool `p`.
pub open spec fn layout_prp2(layout: PrpLayout, p: PoolView, pages: Seq<usize>) -> u64 {
    match layout {
        PrpLayout::Second(a) => a,
        PrpLayout::List(_, _) => p.dma_of(pages[0] as int) as u64,
        _ => 0,
    }
}

/// `cmd` went into the submission ring of `q0`, giving `q1`, with the
/// doorbell step that `is_last` and the shadow buffer call for.
pub open spec fn submits(
    q0: NvmeQueue,
    q1: NvmeQueue,
    cmd: NvmeCommand,
    is_last: bool,
    sh0: Option<ShadowDoorbells>,
    sh1: Option<ShadowDoorbells>,
    r: Option<DoorbellWrite>,
) -> bool {
    sq_doorbell_step(submitted(q0@, cmd), q1@, is_last, sh0, sh1, r)
}

/// Sends request `rq` to the device through `queue`.
///
/// Pass-through requests send the command stored in `pdu`, flushes a flush
/// of the namespace, both under the request's identifier. Reads and writes
/// send a command for the request's blocks whose data pointers describe the
/// mapping the DMA layer returned: directly for the single-page path, through
/// PRP entries for the scatter-gather path, whose mapping data is then kept in
/// `pdu` until completion. Other operations fail with `Io`, a failed mapping
/// with `NoMemory`, and a failed PRP setup with its error; on failure nothing
/// is submitted and `pdu` is left as it was.
///
/// Returns the doorbell write to perform, if any.
#[verifier::rlimit(30)]
pub fn queue_rq(
    queue: &mut NvmeQueue,
    data: &mut NvmeData,
    ns: &NvmeNamespace,
    rq: &BlockRequest,
    pdu: &mut NvmeRequest,
    mapping: DmaMapping,
    is_last: bool,
) -> (r: Result<Option<DoorbellWrite>, NvmeError>)
    requires
        old(queue)@.wf(),
        old(queue)@.shadow_covers(old(data).shadow),
        old(data).dma_pool@.wf(),
        rq.op == ReqOp::Read || rq.op == ReqOp::Write ==> rw_request_ok(*rq, *ns),
        mapping_fits(*rq, mapping),
    ensures
        final(queue)@.wf(),
        final(queue)@.shadow_covers(final(data).shadow),
        final(data).dma_pool@.wf(),
        r is Ok && (spec_dispatch_path(*rq) is SinglePage || spec_dispatch_path(*rq) is ScatterGather)
            ==> pdu_mapping_ok(*final(pdu), final(data).dma_pool@),
        r is Err ==> {
            &&& final(queue)@ == old(queue)@
            &&& final(data).shadow == old(data).shadow
            &&& restored(old(data).dma_pool@, final(data).dma_pool@)
            &&& *final(pdu) == *old(pdu)
        },
        match spec_dispatch_path(*rq) {
            DispatchPath::Unsupported => r == Err::<Option<DoorbellWrite>, NvmeError>(NvmeError::Io),
            DispatchPath::PassThrough => {
                &&& r is Ok
                &&& submits(
                    *old(queue),
                    *final(queue),
                    NvmeCommand { command_id: rq.tag, ..old(pdu).cmd },
                    is_last,
                    old(data).shadow,
                    final(data).shadow,
                    r->Ok_0,
                )
                &&& final(data).dma_pool@ == old(data).dma_pool@
                &&& *final(pdu) == *old(pdu)
            },
            DispatchPath::Flush => {
                &&& r is Ok
                &&& submits(
                    *old(queue),
                    *final(queue),
                    NvmeCommand {
                        opcode: crate::command::NVME_CMD_FLUSH,
                        command_id: rq.tag,
                        nsid: ns.id,
                        ..NvmeCommand::spec_zeroed()
                    },
                    is_last,
                    old(data).shadow,
                    final(data).shadow,
                    r->Ok_0,
                )
                &&& final(data).dma_pool@ == old(data).dma_pool@
                &&& *final(pdu) == *old(pdu)
            },
            DispatchPath::SinglePage => match mapping {
                DmaMapping::Page(a) => if a == u64::MAX {
                    r == Err::<Option<DoorbellWrite>, NvmeError>(NvmeError::NoMemory)
                } else {
                    &&& r is Ok
                    &&& submits(
                        *old(queue),
                        *final(queue),
                        NvmeCommand {
                            prp1: a,
                            prp2: if rq.payload_bytes > NVME_CTRL_PAGE_SIZE {
                                (a + NVME_CTRL_PAGE_SIZE) as u64
                            } else {
                                0
                            },
                            ..rw_command(*rq, *ns)
                        },
                        is_last,
                        old(data).shadow,
                        final(data).shadow,
                        r->Ok_0,
                    )
                    &&& final(data).dma_pool@ == old(data).dma_pool@
                    &&& *final(pdu) == NvmeRequest {
                        dma_addr: a,
                        direction: spec_direction(rq.op),
                        len: rq.payload_bytes,
                        mapping_data: None,
                        ..*old(pdu)
                    }
                },
                _ => r == Err::<Option<DoorbellWrite>, NvmeError>(NvmeError::NoMemory),
            },
            DispatchPath::ScatterGather => match mapping {
                DmaMapping::Scatter(sg) => {
                    let p0 = old(data).dma_pool@;
                    let p1 = final(data).dma_pool@;
                    let outcome = prp_outcome(sg@, rq.payload_bytes as int, p0.free_count());
                    match outcome {
                        Err(e) => r == Err::<Option<DoorbellWrite>, NvmeError>(e),
                        Ok(n) => {
                            &&& r is Ok
                            &&& final(pdu).mapping_data is Some
                            &&& ({
                                let md = final(pdu).mapping_data->Some_0;
                                let layout = prp_layout(sg@, rq.payload_bytes as int);
                                &&& md.sg@ == sg@
                                &&& md.pages@.len() == NPAGES_PRP
                                &&& (layout is List ==> built(p0, p1, md.pages@, n as nat, layout->List_0))
                                &&& (!(layout is List) ==> p1 == p0)
                                &&& *final(pdu) == NvmeRequest {
                                    sg_count: sg@.len() as u32,
                                    page_count: n,
                                    first_dma: layout_prp2(layout, p1, md.pages@),
                                    direction: spec_direction(rq.op),
                                    mapping_data: final(pdu).mapping_data,
                                    ..*old(pdu)
                                }
                                &&& submits(
                                    *old(queue),
                                    *final(queue),
                                    NvmeCommand {
                                        prp1: sg@[0].dma_address,
                                        prp2: layout_prp2(layout, p1, md.pages@),
                                        ..rw_command(*rq, *ns)
                                    },
                                    is_last,
                                    old(data).shadow,
                                    final(data).shadow,
                                    r->Ok_0,
                                )
                            })
                        },
                    }
                },
                _ => r == Err::<Option<DoorbellWrite>, NvmeError>(NvmeError::NoMemory),
            },
        },
{
    let path = dispatch_path(rq);
    match path {
        DispatchPath::PassThrough => {
            let mut cmd = pdu.cmd;
            cmd.command_id = rq.tag;
            Ok(queue.submit_command(&cmd, is_last, &mut data.shadow))
        },
        DispatchPath::Flush => {
            let mut cmd = NvmeCommand::new_flush(ns.id);
            cmd.command_id = rq.tag;
            Ok(queue.submit_command(&cmd, is_last, &mut data.shadow))
        },
        DispatchPath::SinglePage => {
            let dma_addr = match mapping {
                DmaMapping::Page(a) => a,
                _ => return Err(NvmeError::NoMemory),
            };
            if dma_addr == u64::MAX {
                return Err(NvmeError::NoMemory);
            }
            let direction = if rq.op == ReqOp::Read {
                DmaDirection::FromDevice
            } else {
                DmaDirection::ToDevice
            };
            let mut cmd = new_rw_command(rq, ns);
            cmd.prp1 = dma_addr;
            if rq.payload_bytes > NVME_CTRL_PAGE_SIZE as u32 {
                cmd.prp2 = dma_addr + NVME_CTRL_PAGE_SIZE as u64;
            }
            pdu.dma_addr = dma_addr;
            pdu.direction = direction;
            pdu.len = rq.payload_bytes;
            pdu.mapping_data = None;
            Ok(queue.submit_command(&cmd, is_last, &mut data.shadow))
        },
        DispatchPath::ScatterGather => {
            let sg = match mapping {
                DmaMapping::Scatter(sg) => sg,
                _ => return Err(NvmeError::NoMemory),
            };
            let direction = if rq.op == ReqOp::Read {
                DmaDirection::FromDevice
            } else {
                DmaDirection::ToDevice
            };
            let mut cmd = new_rw_command(rq, ns);
            let count = sg.len() as u32;
            let mut md = MappingData::new(sg);
            let page_count = match setup_prps(&mut data.dma_pool, &mut cmd, &mut md, rq.payload_bytes) {
                Ok(n) => n,
                Err(e) => return Err(e),
            };
            pdu.sg_count = count;
            pdu.page_count = page_count;
            pdu.first_dma = cmd.prp2;
            pdu.direction = direction;
            pdu.mapping_data = Some(md);
            Ok(queue.submit_command(&cmd, is_last, &mut data.shadow))
        },
        DispatchPath::Unsupported => Err(NvmeError::Io),
    }
}

/// DMA mapping that the caller has to undo when a request completes.
#[derive(Debug, PartialEq, Eq)]
pub enum Unmap {
    Nothing,
    /// The single page range of the single-page path.
    Page { dma_addr: u64, len: u32, direction: DmaDirection },
    /// The mapped scatter list of the scatter-gather path.
    Scatter { sg: Vec<ScatterEntry>, direction: DmaDirection },
}

/// How a request ends.
pub struct CompletionOutcome {
    pub unmap: Unmap,
    /// The result of the completion, or `Io` when the device reported an error.
    pub status: Result<u32, NvmeError>,
}

/// The mapping data of `pdu`, if any, describes a PRP chain that `pool`
/// holds, and its scatter list has the recorded length.
pub open spec fn pdu_mapping_ok(pdu: NvmeRequest, pool: PoolView) -> bool {
    pdu.mapping_data is Some ==> {
        let md = pdu.mapping_data->Some_0;
        &&& pdu.sg_count <= md.sg@.len()
        &&& chain_ok(pool, md.pages@, pdu.page_count as nat, pdu.first_dma as int)
    }
}

/// Ends request `pdu`, whose operation is `op`, after its completion has been
/// recorded. Flushes and pass-through requests end at once with their
/// result; their status stays in `pdu` for the submitter. A read or write
/// first tears down what dispatch set up: the single page range is to be
/// unmapped, or the scatter list is to be unmapped and its PRP list pages go
/// back to the pool. It then ends with its result when the device reported
/// status 0, and with `Io` otherwise.
pub fn complete(op: ReqOp, pdu: &mut NvmeRequest, pool: &mut PrpPool) -> (r: CompletionOutcome)
    requires
        old(pool)@.wf(),
        pdu_mapping_ok(*old(pdu), old(pool)@),
    ensures
        final(pool)@.wf(),
        match op {
            ReqOp::DrvIn | ReqOp::DrvOut | ReqOp::Flush => {
                &&& r.unmap is Nothing
                &&& r.status == Ok::<u32, NvmeError>(old(pdu).result)
                &&& final(pool)@ == old(pool)@
                &&& *final(pdu) == *old(pdu)
            },
            _ => {
                &&& r.status == if old(pdu).status != 0 {
                    Err::<u32, NvmeError>(NvmeError::Io)
                } else {
                    Ok(old(pdu).result)
                }
                &&& match old(pdu).mapping_data {
                    Some(md) => {
                        &&& r.unmap matches Unmap::Scatter { sg, direction }
                            && sg@ == md.sg@.subrange(0, old(pdu).sg_count as int) && direction
                            == old(pdu).direction
                        &&& released(old(pool)@, final(pool)@, md.pages@, old(pdu).page_count as nat)
                        &&& *final(pdu) == NvmeRequest { mapping_data: None, ..*old(pdu) }
                    },
                    None => {
                        &&& r.unmap == Unmap::Page {
                            dma_addr: old(pdu).dma_addr,
                            len: old(pdu).len,
                            direction: old(pdu).direction,
                        }
                        &&& final(pool)@ == old(pool)@
                        &&& *final(pdu) == *old(pdu)
                    },
                }
            },
        },
{
    match op {
        ReqOp::DrvIn | ReqOp::DrvOut | ReqOp::Flush => {
            return CompletionOutcome { unmap: Unmap::Nothing, status: Ok(pdu.result) };
        },
        _ => {},
    }
    let unmap = match pdu.mapping_data.take() {
        Some(md) => {
            free_prps(pdu.page_count as usize, &md.pages, pdu.first_dma, pool);
            let mut sg = md.sg;
            sg.truncate(pdu.sg_count as usize);
            Unmap::Scatter { sg, direction: pdu.direction }
        },
        None => Unmap::Page { dma_addr: pdu.dma_addr, len: pdu.len, direction: pdu.direction },
    };
    let status = if pdu.status != 0 {
        Err(NvmeError::Io)
    } else {
        Ok(pdu.result)
    };
    CompletionOutcome { unmap, status }
}

/// A read or write that took the scatter-gather path gives back, when it
/// completes, every descriptor page its dispatch took: with `p1` the pool
/// after `queue_rq` (its PRP layout `layout`, list pages `pages`, page count
/// `n`) and `p2` the pool after `complete`, the pool hands out exactly what it
/// handed out before the dispatch.
pub proof fn lemma_dispatch_then_complete(
    p0: PoolView,
    p1: PoolView,
    p2: PoolView,
    layout: PrpLayout,
    pages: Seq<usize>,
    n: nat,
)
    requires
        p0.wf(),
        layout is List ==> built(p0, p1, pages, n, layout->List_0),
        !(layout is List) ==> p1 == p0 && n == 0,
        released(p1, p2, pages, n),
    ensures
        p2.in_use == p0.in_use,
{
    if layout is List {
        lemma_build_then_free(p0, p1, p2, pages, n, layout->List_0);
    } else {
        assert forall|k: int| 0 <= k < p0.in_use.len() implies #[trigger] p2.in_use[k]
            == p0.in_use[k] by {
            assert(!in_chain(pages, 0, k));
        }
        assert(p2.in_use =~= p0.in_use);
    }
}

} // verus!
