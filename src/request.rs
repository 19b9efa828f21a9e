//! Per-request state kept between dispatch and completion.

use crate::command::NvmeCommand;
use crate::defs::NPAGES_PRP;
use vstd::prelude::*;

verus! {

/// Direction of a DMA transfer.
#[derive(Clone, Copy, Debug, PartialEq, Eq, Structural)]
pub enum DmaDirection {
    /// The device reads host memory (a write request).
    ToDevice,
    /// The device writes host memory (a read request).
    FromDevice,
}

/// One mapped segment of a scatter list: a bus address and a length in bytes.
#[derive(Clone, Copy, Debug, PartialEq, Eq, Structural)]
pub struct ScatterEntry {
    pub dma_address: u64,
    pub length: u32,
}

/// Resources of a request that took the scatter-gather path: its mapped
/// scatter list and the PRP list pages built for it.
pub struct MappingData {
    pub sg: Vec<ScatterEntry>,
    /// Pool slots of the PRP list pages, in chain order.
    pub pages: Vec<usize>,
}

impl MappingData {
    /// Mapping data for the mapped scatter list `sg`, with no PRP list page yet.
    pub fn new(sg: Vec<ScatterEntry>) -> (r: MappingData)
        ensures
            r.sg@ == sg@,
            r.pages@ == Seq::new(NPAGES_PRP as nat, |i: int| 0usize),
    {
        let mut pages: Vec<usize> = Vec::new();
        let mut i: usize = 0;
        while i < NPAGES_PRP
            invariant
                i <= NPAGES_PRP,
                pages@ == Seq::new(i as nat, |k: int| 0usize),
            decreases NPAGES_PRP - i,
        {
            pages.push(0);
            i += 1;
        }
        MappingData { sg, pages }
    }
}

impl Default for MappingData {
    fn default() -> (r: MappingData)
        ensures
            r.sg@.len() == 0,
            r.pages@ == Seq::new(NPAGES_PRP as nat, |i: int| 0usize),
    {
        MappingData::new(Vec::new())
    }
}

/// State of one in-flight request, kept per command identifier.
pub struct NvmeRequest {
    /// Bus address of the single mapped page (fast path).
    pub dma_addr: u64,
    /// Command specific result of the completion.
    pub result: u32,
    /// Status field of the completion, without the phase tag.
    pub status: u16,
    pub direction: DmaDirection,
    /// Length of the single mapped page (fast path).
    pub len: u32,
    /// Command handed in by the caller for pass-through requests.
    pub cmd: NvmeCommand,
    /// Number of mapped scatter-list segments (scatter-gather path).
    pub sg_count: u32,
    /// Number of PRP list pages (scatter-gather path).
    pub page_count: u32,
    /// Bus address of the first PRP list page (scatter-gather path).
    pub first_dma: u64,
    /// Present exactly when the request took the scatter-gather path.
    pub mapping_data: Option<MappingData>,
}

impl NvmeRequest {
    /// Fresh state for a request slot.
    pub fn new_request_data() -> (r: NvmeRequest)
        ensures
            r.dma_addr == u64::MAX,
            r.result == 0,
            r.status == 0,
            r.direction == DmaDirection::FromDevice,
            r.len == 0,
            r.cmd == NvmeCommand::spec_zeroed(),
            r.sg_count == 0,
            r.page_count == 0,
            r.first_dma == 0,
            r.mapping_data is None,
    {
        NvmeRequest {
            dma_addr: u64::MAX,
            result: 0,
            status: 0,
            direction: DmaDirection::FromDevice,
            len: 0,
            cmd: NvmeCommand::zeroed(),
            sg_count: 0,
            page_count: 0,
            first_dma: 0,
            mapping_data: None,
        }
    }
}

} // verus!
