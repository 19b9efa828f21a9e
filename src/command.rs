//! Submission and completion queue entries.

use vstd::prelude::*;

verus! {

/// I/O command set opcode: flush.
pub const NVME_CMD_FLUSH: u8 = 0x00;

/// I/O command set opcode: write.
pub const NVME_CMD_WRITE: u8 = 0x01;

/// I/O command set opcode: read.
pub const NVME_CMD_READ: u8 = 0x02;

/// A 64-byte submission queue entry.
///
/// The command-specific dwords 10 to 15 are named after their meaning in read
/// and write commands; other commands use them as raw dwords.
#[derive(Clone, Copy, Debug, PartialEq, Eq, Structural)]
pub struct NvmeCommand {
    pub opcode: u8,
    pub flags: u8,
    pub command_id: u16,
    pub nsid: u32,
    pub cdw2: u32,
    pub cdw3: u32,
    pub metadata: u64,
    /// First PRP entry.
    pub prp1: u64,
    /// Second PRP entry, or the address of a PRP list.
    pub prp2: u64,
    /// Starting logical block (dwords 10 and 11).
    pub slba: u64,
    /// Number of logical blocks, zero based (low half of dword 12).
    pub length: u16,
    /// High half of dword 12.
    pub control: u16,
    pub cdw13: u32,
    pub cdw14: u32,
    pub cdw15: u32,
}

/// A 16-byte completion queue entry.
#[derive(Clone, Copy, Debug, PartialEq, Eq, Structural)]
pub struct NvmeCompletion {
    pub result: u32,
    pub rsvd: u32,
    pub sq_head: u16,
    pub sq_id: u16,
    pub command_id: u16,
    /// Phase tag in bit 0, status field in bits 1 to 15.
    pub status: u16,
}

impl NvmeCommand {
    /// A command with every field zero.
    pub fn zeroed() -> (r: NvmeCommand)
        ensures
            r == NvmeCommand::spec_zeroed(),
    {
        NvmeCommand {
            opcode: 0,
            flags: 0,
            command_id: 0,
            nsid: 0,
            cdw2: 0,
            cdw3: 0,
            metadata: 0,
            prp1: 0,
            prp2: 0,
            slba: 0,
            length: 0,
            control: 0,
            cdw13: 0,
            cdw14: 0,
            cdw15: 0,
        }
    }

    pub open spec fn spec_zeroed() -> NvmeCommand {
        NvmeCommand {
            opcode: 0,
            flags: 0,
            command_id: 0,
            nsid: 0,
            cdw2: 0,
            cdw3: 0,
            metadata: 0,
            prp1: 0,
            prp2: 0,
            slba: 0,
            length: 0,
            control: 0,
            cdw13: 0,
            cdw14: 0,
            cdw15: 0,
        }
    }

    /// A flush of namespace `nsid`.
    pub fn new_flush(nsid: u32) -> (r: NvmeCommand)
        ensures
            r == (NvmeCommand { opcode: NVME_CMD_FLUSH, nsid, ..NvmeCommand::spec_zeroed() }),
    {
        NvmeCommand { opcode: NVME_CMD_FLUSH, nsid, ..NvmeCommand::zeroed() }
    }
}

impl NvmeCompletion {
    /// An entry with every field zero, as a completion queue starts.
    pub fn zeroed() -> (r: NvmeCompletion)
        ensures
            r == NvmeCompletion::spec_zeroed(),
    {
        NvmeCompletion { result: 0, rsvd: 0, sq_head: 0, sq_id: 0, command_id: 0, status: 0 }
    }

    pub open spec fn spec_zeroed() -> NvmeCompletion {
        NvmeCompletion { result: 0, rsvd: 0, sq_head: 0, sq_id: 0, command_id: 0, status: 0 }
    }

    /// The phase tag of this entry.
    pub open spec fn phase(self) -> u16 {
        (self.status % 2) as u16
    }

    /// The status field of this entry, without the phase tag.
    pub open spec fn status_code(self) -> u16 {
        (self.status / 2) as u16
    }
}

/// The `n` least significant bytes of `v`, least significant first.
pub open spec fn le_bytes(v: nat, n: nat) -> Seq<u8>
    decreases n,
{
    if n == 0 {
        Seq::empty()
    } else {
        seq![(v % 256) as u8] + le_bytes(v / 256, (n - 1) as nat)
    }
}

/// The number whose bytes, least significant first, are `b`.
pub open spec fn le_value(b: Seq<u8>) -> nat
    decreases b.len(),
{
    if b.len() == 0 {
        0
    } else {
        (b[0] + 256 * le_value(b.drop_first())) as nat
    }
}

/// `256^n`.
pub open spec fn pow256(n: nat) -> nat
    decreases n,
{
    if n == 0 {
        1
    } else {
        256 * pow256((n - 1) as nat)
    }
}

proof fn lemma_le_value_bound(b: Seq<u8>)
    ensures
        le_value(b) < pow256(b.len()),
    decreases b.len(),
{
    if b.len() > 0 {
        lemma_le_value_bound(b.drop_first());
    }
}

/// Appends the `n` least significant bytes of `v`, least significant first.
fn push_le(out: &mut Vec<u8>, v: u64, n: usize)
    ensures
        final(out)@ == old(out)@ + le_bytes(v as nat, n as nat),
{
    let mut x = v;
    let mut i: usize = 0;
    while i < n
        invariant
            i <= n,
            old(out)@ + le_bytes(v as nat, n as nat) == out@ + le_bytes(x as nat, (n - i) as nat),
        decreases n - i,
    {
        let ghost before = out@;
        out.push((x % 256) as u8);
        assert(le_bytes(x as nat, (n - i) as nat) == seq![(x % 256) as u8] + le_bytes(
            (x / 256) as nat,
            (n - i - 1) as nat,
        ));
        assert(out@ + le_bytes((x / 256) as nat, (n - i - 1) as nat) =~= before + le_bytes(
            x as nat,
            (n - i) as nat,
        ));
        x = x / 256;
        i += 1;
    }
    assert(out@ + le_bytes(x as nat, 0) =~= out@);
}

/// The number stored least significant byte first in `b[start..start + n]`.
fn read_le(b: &[u8], start: usize, n: usize) -> (r: u64)
    requires
        n <= 8,
        start + n <= b@.len(),
    ensures
        r == le_value(b@.subrange(start as int, start + n)),
{
    let total = b.len();
    assert(start + n <= total);
    let end = start + n;
    let mut v: u64 = 0;
    let mut i = end;
    assert(b@.subrange(end as int, end as int) =~= Seq::<u8>::empty());
    while i > start
        invariant
            start <= i <= end <= b@.len(),
            end == start + n,
            n <= 8,
            v == le_value(b@.subrange(i as int, end as int)),
        decreases i - start,
    {
        let ghost tail = b@.subrange(i as int, end as int);
        let ghost next = b@.subrange(i - 1, end as int);
        assert(next.drop_first() =~= tail);
        proof {
            lemma_le_value_bound(tail);
            reveal_with_fuel(pow256, 9);
            assert(pow256(tail.len()) <= pow256(7)) by {
                lemma_pow256_mono(tail.len(), 7);
            }
        }
        v = v * 256 + b[i - 1] as u64;
        i -= 1;
    }
    v
}

proof fn lemma_pow256_mono(a: nat, b: nat)
    requires
        a <= b,
    ensures
        pow256(a) <= pow256(b),
    decreases b,
{
    if a < b {
        lemma_pow256_mono(a, (b - 1) as nat);
    }
}

impl NvmeCommand {
    /// The 64-byte little-endian layout of the command.
    pub open spec fn spec_to_bytes(self) -> Seq<u8> {
        le_bytes(self.opcode as nat, 1) + le_bytes(self.flags as nat, 1) + le_bytes(
            self.command_id as nat,
            2,
        ) + le_bytes(self.nsid as nat, 4) + le_bytes(self.cdw2 as nat, 4) + le_bytes(
            self.cdw3 as nat,
            4,
        ) + le_bytes(self.metadata as nat, 8) + le_bytes(self.prp1 as nat, 8) + le_bytes(
            self.prp2 as nat,
            8,
        ) + le_bytes(self.slba as nat, 8) + le_bytes(self.length as nat, 2) + le_bytes(
            self.control as nat,
            2,
        ) + le_bytes(self.cdw13 as nat, 4) + le_bytes(self.cdw14 as nat, 4) + le_bytes(
            self.cdw15 as nat,
            4,
        )
    }

    /// The submission queue entry as the device reads it: 64 bytes, each
    /// field little-endian at its offset.
    pub fn to_bytes(&self) -> (r: Vec<u8>)
        ensures
            r@ == self.spec_to_bytes(),
    {
        let mut out: Vec<u8> = Vec::new();
        push_le(&mut out, self.opcode as u64, 1);
        push_le(&mut out, self.flags as u64, 1);
        push_le(&mut out, self.command_id as u64, 2);
        push_le(&mut out, self.nsid as u64, 4);
        push_le(&mut out, self.cdw2 as u64, 4);
        push_le(&mut out, self.cdw3 as u64, 4);
        push_le(&mut out, self.metadata, 8);
        push_le(&mut out, self.prp1, 8);
        push_le(&mut out, self.prp2, 8);
        push_le(&mut out, self.slba, 8);
        push_le(&mut out, self.length as u64, 2);
        push_le(&mut out, self.control as u64, 2);
        push_le(&mut out, self.cdw13 as u64, 4);
        push_le(&mut out, self.cdw14 as u64, 4);
        push_le(&mut out, self.cdw15 as u64, 4);
        assert(out@ =~= self.spec_to_bytes());
        out
    }
}

impl NvmeCompletion {
    /// Reads a completion queue entry from the 16 bytes the device wrote.
    pub fn from_bytes(b: &[u8]) -> (r: NvmeCompletion)
        requires
            b@.len() == 16,
        ensures
            r.result == le_value(b@.subrange(0, 4)),
            r.rsvd == le_value(b@.subrange(4, 8)),
            r.sq_head == le_value(b@.subrange(8, 10)),
            r.sq_id == le_value(b@.subrange(10, 12)),
            r.command_id == le_value(b@.subrange(12, 14)),
            r.status == le_value(b@.subrange(14, 16)),
    {
        proof {
            reveal_with_fuel(pow256, 5);
            lemma_le_value_bound(b@.subrange(0, 4));
            lemma_le_value_bound(b@.subrange(4, 8));
            lemma_le_value_bound(b@.subrange(8, 10));
            lemma_le_value_bound(b@.subrange(10, 12));
            lemma_le_value_bound(b@.subrange(12, 14));
            lemma_le_value_bound(b@.subrange(14, 16));
        }
        NvmeCompletion {
            result: read_le(b, 0, 4) as u32,
            rsvd: read_le(b, 4, 4) as u32,
            sq_head: read_le(b, 8, 2) as u16,
            sq_id: read_le(b, 10, 2) as u16,
            command_id: read_le(b, 12, 2) as u16,
            status: read_le(b, 14, 2) as u16,
        }
    }
}

} // verus!
