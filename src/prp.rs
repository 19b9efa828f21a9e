//! PRP lists: the chain of descriptor pages that describes a buffer spanning
//! more than two controller pages, and the pool those pages come from.

use crate::command::NvmeCommand;
use crate::defs::{spec_div_round_up, NvmeError, NPAGES_PRP, NVME_CTRL_PAGE_SIZE, PRP_ENTRIES_PER_PAGE};
use crate::request::{MappingData, ScatterEntry};
use vstd::prelude::*;

verus! {

/// Abstract state of a descriptor page pool.
pub struct PoolView {
    /// Bus address of page 0; page `i` sits `i` controller pages above it.
    pub base: nat,
    /// The entries of each page.
    pub pages: Seq<Seq<u64>>,
    /// Which pages are handed out.
    pub in_use: Seq<bool>,
}

impl PoolView {
    pub open spec fn wf(self) -> bool {
        &&& self.pages.len() == self.in_use.len()
        &&& self.base + self.pages.len() * NVME_CTRL_PAGE_SIZE <= u64::MAX
        &&& forall|i: int|
            0 <= i < self.pages.len() ==> #[trigger] self.pages[i].len() == PRP_ENTRIES_PER_PAGE
    }

    /// Bus address of page `i`.
    pub open spec fn dma_of(self, i: int) -> int {
        self.base + i * NVME_CTRL_PAGE_SIZE
    }

    /// Number of pages not handed out.
    pub open spec fn free_count(self) -> nat {
        count_free(self.in_use)
    }
}

/// Number of `false` entries of `s`.
pub open spec fn count_free(s: Seq<bool>) -> nat
    decreases s.len(),
{
    if s.len() == 0 {
        0
    } else {
        count_free(s.drop_last()) + if s.last() {
            0nat
        } else {
            1nat
        }
    }
}

/// Handing out free entry `i` lowers the count of free entries by one.
proof fn lemma_count_free_take(s: Seq<bool>, i: int)
    requires
        0 <= i < s.len(),
        !s[i],
    ensures
        count_free(s.update(i, true)) + 1 == count_free(s),
    decreases s.len(),
{
    let t = s.update(i, true);
    if i == s.len() - 1 {
        assert(t.drop_last() =~= s.drop_last());
    } else {
        assert(t.drop_last() =~= s.drop_last().update(i, true));
        lemma_count_free_take(s.drop_last(), i);
    }
}

/// With every entry handed out, none is free.
proof fn lemma_count_free_none(s: Seq<bool>)
    requires
        forall|i: int| 0 <= i < s.len() ==> #[trigger] s[i],
    ensures
        count_free(s) == 0,
    decreases s.len(),
{
    if s.len() > 0 {
        lemma_count_free_none(s.drop_last());
    }
}

/// A fixed set of controller-page-sized descriptor pages in DMA memory.
pub struct PrpPool {
    base_dma: u64,
    pages: Vec<Vec<u64>>,
    in_use: Vec<bool>,
}

impl View for PrpPool {
    type V = PoolView;

    closed spec fn view(&self) -> PoolView {
        PoolView {
            base: self.base_dma as nat,
            pages: Seq::new(self.pages@.len(), |i: int| self.pages@[i]@),
            in_use: self.in_use@,
        }
    }
}

/// A zeroed descriptor page.
fn zeroed_page() -> (r: Vec<u64>)
    ensures
        r@ == Seq::new(PRP_ENTRIES_PER_PAGE as nat, |i: int| 0u64),
{
    let mut v: Vec<u64> = Vec::new();
    let mut i: usize = 0;
    while i < PRP_ENTRIES_PER_PAGE
        invariant
            i <= PRP_ENTRIES_PER_PAGE,
            v@ == Seq::new(i as nat, |k: int| 0u64),
        decreases PRP_ENTRIES_PER_PAGE - i,
    {
        v.push(0);
        i += 1;
    }
    v
}

impl PrpPool {
    /// A pool of `count` free pages whose first page sits at bus address
    /// `base_dma`.
    pub fn new(base_dma: u64, count: usize) -> (r: PrpPool)
        requires
            base_dma + count * NVME_CTRL_PAGE_SIZE <= u64::MAX,
        ensures
            r@.wf(),
            r@.base == base_dma,
            r@.pages == Seq::new(
                count as nat,
                |i: int| Seq::new(PRP_ENTRIES_PER_PAGE as nat, |k: int| 0u64),
            ),
            r@.in_use == Seq::new(count as nat, |i: int| false),
    {
        let mut pages: Vec<Vec<u64>> = Vec::new();
        let mut in_use: Vec<bool> = Vec::new();
        let mut i: usize = 0;
        while i < count
            invariant
                i <= count,
                pages@.len() == i,
                forall|k: int|
                    0 <= k < i ==> #[trigger] pages@[k]@ == Seq::new(
                        PRP_ENTRIES_PER_PAGE as nat,
                        |j: int| 0u64,
                    ),
                in_use@ == Seq::new(i as nat, |k: int| false),
            decreases count - i,
        {
            pages.push(zeroed_page());
            in_use.push(false);
            i += 1;
        }
        let r = PrpPool { base_dma, pages, in_use };
        assert(r@.pages =~= Seq::new(
            count as nat,
            |i: int| Seq::new(PRP_ENTRIES_PER_PAGE as nat, |k: int| 0u64),
        ));
        r
    }

    /// Number of pages, free or not.
    pub fn capacity(&self) -> (r: usize)
        ensures
            r == self@.pages.len(),
    {
        self.pages.len()
    }

    /// Whether page `i` is handed out.
    pub fn is_in_use(&self, i: usize) -> (r: bool)
        requires
            i < self@.in_use.len(),
        ensures
            r == self@.in_use[i as int],
    {
        self.in_use[i]
    }

    /// Bus address of page `i`.
    pub fn dma_addr(&self, i: usize) -> (r: u64)
        requires
            self@.wf(),
            i < self@.pages.len(),
        ensures
            r == self@.dma_of(i as int),
    {
        proof {
            assert(i * NVME_CTRL_PAGE_SIZE <= self@.pages.len() * NVME_CTRL_PAGE_SIZE) by (
            nonlinear_arith)
                requires
                    i < self@.pages.len(),
            ;
        }
        self.base_dma + (i as u64) * (NVME_CTRL_PAGE_SIZE as u64)
    }

    /// Entry `slot` of page `i`.
    pub fn read(&self, i: usize, slot: usize) -> (r: u64)
        requires
            self@.wf(),
            i < self@.pages.len(),
            slot < PRP_ENTRIES_PER_PAGE,
        ensures
            r == self@.pages[i as int][slot as int],
    {
        assert(self.pages@[i as int]@ == self@.pages[i as int]);
        self.pages[i][slot]
    }

    /// Stores `value` in entry `slot` of page `i`.
    pub fn write(&mut self, i: usize, slot: usize, value: u64)
        requires
            old(self)@.wf(),
            i < old(self)@.pages.len(),
            slot < PRP_ENTRIES_PER_PAGE,
        ensures
            final(self)@ == (PoolView {
                pages: old(self)@.pages.update(
                    i as int,
                    old(self)@.pages[i as int].update(slot as int, value),
                ),
                ..old(self)@
            }),
    {
        assert(self.pages@[i as int]@ == self@.pages[i as int]);
        self.pages[i].set(slot, value);
        assert(self@.pages =~= old(self)@.pages.update(
            i as int,
            old(self)@.pages[i as int].update(slot as int, value),
        ));
    }

    /// Hands out the first free page, zeroed, or `None` when every page is
    /// handed out.
    pub fn try_alloc(&mut self) -> (r: Option<usize>)
        requires
            old(self)@.wf(),
        ensures
            final(self)@.wf(),
            match r {
                None => {
                    &&& final(self)@ == old(self)@
                    &&& forall|k: int| 0 <= k < old(self)@.in_use.len() ==> #[trigger] old(self)@.in_use[k]
                },
                Some(i) => {
                    &&& i < old(self)@.in_use.len()
                    &&& !old(self)@.in_use[i as int]
                    &&& forall|k: int| 0 <= k < i ==> #[trigger] old(self)@.in_use[k]
                    &&& final(self)@ == PoolView {
                        pages: old(self)@.pages.update(
                            i as int,
                            Seq::new(PRP_ENTRIES_PER_PAGE as nat, |k: int| 0u64),
                        ),
                        in_use: old(self)@.in_use.update(i as int, true),
                        ..old(self)@
                    }
                },
            },
    {
        let mut i: usize = 0;
        while i < self.in_use.len()
            invariant
                self@ == old(self)@,
                self@.wf(),
                i <= self.in_use@.len(),
                forall|k: int| 0 <= k < i ==> #[trigger] self.in_use@[k],
            decreases self.in_use@.len() - i,
        {
            if !self.in_use[i] {
                self.in_use.set(i, true);
                self.pages.set(i, zeroed_page());
                assert(self@.pages =~= old(self)@.pages.update(
                    i as int,
                    Seq::new(PRP_ENTRIES_PER_PAGE as nat, |k: int| 0u64),
                ));
                return Some(i);
            }
            i += 1;
        }
        None
    }

    /// Returns page `i`, whose bus address is `dma`, to the pool.
    pub fn free(&mut self, i: usize, dma: u64)
        requires
            old(self)@.wf(),
            i < old(self)@.in_use.len(),
            old(self)@.in_use[i as int],
            dma == old(self)@.dma_of(i as int),
        ensures
            final(self)@ == (PoolView { in_use: old(self)@.in_use.update(i as int, false), ..old(self)@ }),
    {
        self.in_use.set(i, false);
    }
}

/// `pages[0..count]` form a PRP chain in `p` that starts at bus address
/// `first`: the pages are handed out and distinct, the first sits at `first`,
/// and the last entry of each page but the last holds the bus address of the
/// next one.
pub open spec fn chain_ok(p: PoolView, pages: Seq<usize>, count: nat, first: int) -> bool {
    &&& count <= pages.len()
    &&& forall|q: int|
        0 <= q < count ==> #[trigger] pages[q] < p.pages.len() && p.in_use[pages[q] as int]
    &&& forall|q1: int, q2: int|
        0 <= q1 < q2 < count ==> #[trigger] pages[q1] != #[trigger] pages[q2]
    &&& count > 0 ==> first == p.dma_of(pages[0] as int)
    &&& forall|q: int|
        0 <= q < count - 1 ==> #[trigger] p.pages[pages[q] as int][PRP_ENTRIES_PER_PAGE - 1]
            == p.dma_of(pages[q + 1] as int)
}

/// Page `i` is one of `pages[0..count]`.
pub open spec fn in_chain(pages: Seq<usize>, count: nat, i: int) -> bool {
    exists|q: int| 0 <= q < count && pages[q] == i
}

/// `p1` is `p0` with `pages[0..count]` handed back, and nothing else changed.
pub open spec fn released(p0: PoolView, p1: PoolView, pages: Seq<usize>, count: nat) -> bool {
    &&& p1.base == p0.base
    &&& p1.pages == p0.pages
    &&& p1.in_use.len() == p0.in_use.len()
    &&& forall|i: int|
        0 <= i < p0.in_use.len() ==> #[trigger] p1.in_use[i] == (p0.in_use[i] && !in_chain(
            pages,
            count,
            i,
        ))
}

/// Hands back to the pool the `count` pages of the PRP chain that starts at
/// bus address `first_dma`, following the chain through the last entry of each
/// page. `count` and `pages` must be those the chain was built with.
pub fn free_prps(count: usize, pages: &Vec<usize>, first_dma: u64, pool: &mut PrpPool)
    requires
        old(pool)@.wf(),
        chain_ok(old(pool)@, pages@, count as nat, first_dma as int),
    ensures
        final(pool)@.wf(),
        released(old(pool)@, final(pool)@, pages@, count as nat),
{
    let mut dma_addr = first_dma;
    let mut k: usize = 0;
    while k < count
        invariant
            pool@.wf(),
            chain_ok(old(pool)@, pages@, count as nat, first_dma as int),
            k <= count,
            pool@.base == old(pool)@.base,
            pool@.pages == old(pool)@.pages,
            pool@.in_use.len() == old(pool)@.in_use.len(),
            k < count ==> dma_addr == old(pool)@.dma_of(pages@[k as int] as int),
            forall|i: int|
                0 <= i < old(pool)@.in_use.len() ==> #[trigger] pool@.in_use[i] == (
                old(pool)@.in_use[i] && !in_chain(pages@, k as nat, i)),
        decreases count - k,
    {
        let page = pages[k];
        assert(page < pool@.pages.len() && old(pool)@.in_use[page as int]);
        assert(!in_chain(pages@, k as nat, page as int));
        let next = pool.read(page, PRP_ENTRIES_PER_PAGE - 1);
        pool.free(page, dma_addr);
        dma_addr = next;
        k += 1;
        assert forall|i: int| 0 <= i < old(pool)@.in_use.len() implies #[trigger] pool@.in_use[i]
            == (old(pool)@.in_use[i] && !in_chain(pages@, k as nat, i)) by {
            if i == page {
                assert(in_chain(pages@, k as nat, i));
            } else if in_chain(pages@, k as nat, i) {
                let q = choose|q: int| 0 <= q < k && pages@[q] == i;
                assert(in_chain(pages@, (k - 1) as nat, i));
            }
        }
    }
}

/// Largest transfer of one request, in bytes.
pub const NVME_MAX_TRANSFER: u32 = 4194304;

/// `a - b`, or 0 when `b` is larger.
pub open spec fn sat_sub(a: int, b: int) -> int {
    if a > b {
        a - b
    } else {
        0
    }
}

/// PRP entries that describe `rem` more bytes, starting at bus address
/// `addr` with `len` bytes left in segment `i` of `sg`: one entry per
/// controller page, moving a page further inside the segment while it has
/// more than a page left, and on to the next segment when exactly a page is
/// left. The flag is `false` when the scatter list cannot be described this
/// way: a segment ends inside a page while more bytes are needed, or the list
/// ends early. The entries then stop with the last one that could be written.
pub open spec fn prp_walk(sg: Seq<ScatterEntry>, i: nat, addr: int, len: int, rem: int) -> (
    Seq<u64>,
    bool,
)
    decreases rem,
{
    if rem <= 0 {
        (Seq::empty(), true)
    } else {
        let page = NVME_CTRL_PAGE_SIZE as int;
        let rem2 = sat_sub(rem, page);
        let head = seq![addr as u64];
        if rem2 == 0 {
            (head, len >= rem)
        } else if len > page {
            let w = prp_walk(sg, i, addr + page, len - page, rem2);
            (head + w.0, w.1)
        } else if len < page || i + 1 >= sg.len() {
            (head, false)
        } else {
            let next = sg[i + 1 as int];
            let w = prp_walk(sg, i + 1, next.dma_address as int, next.length as int, rem2);
            (head + w.0, w.1)
        }
    }
}

/// How `length` bytes described by `sg` are laid out in a command.
pub enum PrpLayout {
    /// The first entry covers everything; the second is left as it was.
    First,
    /// The second entry points at the rest directly.
    Second(u64),
    /// The second entry points at a PRP list with these entries.
    List(Seq<u64>, bool),
    /// A segment ends inside a page while more bytes are needed, or the
    /// scatter list ends early.
    Malformed,
}

/// Bytes of the first segment up to the next controller page boundary.
pub open spec fn first_consumed(sg: Seq<ScatterEntry>) -> int {
    NVME_CTRL_PAGE_SIZE - (sg[0].dma_address as int % NVME_CTRL_PAGE_SIZE as int)
}

/// Layout of `length` bytes of `sg`: the first entry takes the first segment
/// up to a page boundary, then the rest either fits one more page or goes to a
/// PRP list. A segment that ends inside a page while more bytes are needed
/// makes the scatter list malformed.
pub open spec fn prp_layout(sg: Seq<ScatterEntry>, length: int) -> PrpLayout {
    let consumed = first_consumed(sg);
    let rem = sat_sub(length, consumed);
    let len0 = sg[0].length - consumed;
    if rem == 0 {
        PrpLayout::First
    } else if len0 < 0 || (len0 == 0 && sg.len() < 2) {
        PrpLayout::Malformed
    } else {
        let i: nat = if len0 != 0 { 0 } else { 1 };
        let addr = if len0 != 0 { sg[0].dma_address + consumed } else { sg[1].dma_address as int };
        let len = if len0 != 0 { len0 } else { sg[1].length as int };
        if rem <= NVME_CTRL_PAGE_SIZE {
            if len < rem {
                PrpLayout::Malformed
            } else {
                PrpLayout::Second(addr as u64)
            }
        } else {
            let w = prp_walk(sg, i, addr, len, rem);
            PrpLayout::List(w.0, w.1)
        }
    }
}

/// Number of PRP list pages that hold `m` entries: a page holds 512 entries
/// when it is the last one, and 511 and the address of the next page
/// otherwise.
pub open spec fn prp_pages(m: nat) -> nat {
    if m <= PRP_ENTRIES_PER_PAGE {
        1
    } else {
        (1 + (m - 2) / (PRP_ENTRIES_PER_PAGE - 1) as int) as nat
    }
}

/// Page, within a chain of `n` pages, of entry `e`.
pub open spec fn prp_page_of(e: int, n: nat) -> int {
    let q = e / (PRP_ENTRIES_PER_PAGE - 1) as int;
    if q < n - 1 {
        q
    } else {
        n - 1
    }
}

/// Slot, within its page, of entry `e` in a chain of `n` pages.
pub open spec fn prp_slot_of(e: int, n: nat) -> int {
    e - prp_page_of(e, n) * (PRP_ENTRIES_PER_PAGE - 1)
}

/// `p1` is `p0` after `pages[0..n]` were handed out and filled with a PRP
/// chain holding `entries`.
pub open spec fn built(p0: PoolView, p1: PoolView, pages: Seq<usize>, n: nat, entries: Seq<u64>) -> bool {
    &&& n >= 1
    &&& chain_ok(p1, pages, n, p1.dma_of(pages[0] as int))
    &&& p1.base == p0.base
    &&& p1.in_use.len() == p0.in_use.len()
    &&& p1.pages.len() == p0.pages.len()
    &&& forall|q: int| 0 <= q < n ==> !p0.in_use[#[trigger] pages[q] as int]
    &&& forall|i: int|
        0 <= i < p0.in_use.len() ==> #[trigger] p1.in_use[i] == (p0.in_use[i] || in_chain(
            pages,
            n,
            i,
        ))
    &&& forall|i: int|
        0 <= i < p0.pages.len() && !in_chain(pages, n, i) ==> #[trigger] p1.pages[i] == p0.pages[i]
    &&& forall|e: int|
        0 <= e < entries.len() ==> #[trigger] p1.pages[pages[prp_page_of(e, n)] as int][prp_slot_of(
            e,
            n,
        )] == entries[e]
}

/// Every segment of `sg` ends inside the 64-bit bus address space.
pub open spec fn sg_fits(sg: Seq<ScatterEntry>) -> bool {
    forall|k: int| 0 <= k < sg.len() ==> #[trigger] sg[k].dma_address + sg[k].length <= u64::MAX
}

/// `p1` hands out the same pages as `p0`, whatever their contents became.
pub open spec fn restored(p0: PoolView, p1: PoolView) -> bool {
    &&& p1.base == p0.base
    &&& p1.in_use == p0.in_use
    &&& p1.pages.len() == p0.pages.len()
}

proof fn lemma_walk_len(sg: Seq<ScatterEntry>, i: nat, addr: int, len: int, rem: int)
    requires
        rem > 0,
    ensures
        1 <= prp_walk(sg, i, addr, len, rem).0.len() <= (rem + 4095) / 4096,
    decreases rem,
{
    let rem2 = sat_sub(rem, 4096);
    if rem2 > 0 {
        if len > 4096 {
            lemma_walk_len(sg, i, addr + 4096, len - 4096, rem2);
        } else if len >= 4096 && i + 1 < sg.len() {
            let next = sg[i + 1 as int];
            lemma_walk_len(sg, i + 1, next.dma_address as int, next.length as int, rem2);
        }
    }
}

proof fn lemma_prp_pages(m: nat, c: nat)
    requires
        c >= 1,
        (c == 1 && 1 <= m <= 512) || (c >= 2 && (c - 1) * 511 + 2 <= m <= c * 511 + 1),
    ensures
        prp_pages(m) == c,
{
    if c >= 2 {
        assert((m - 2) / 511 == c - 1) by (nonlinear_arith)
            requires
                (c - 1) * 511 <= m - 2 < c * 511,
        ;
    }
}

proof fn lemma_prp_pages_grow(m: nat, c: nat)
    requires
        c >= 1,
        m >= c * 511 + 2,
    ensures
        prp_pages(m) >= c + 1,
{
    assert((m - 2) / 511 >= c) by (nonlinear_arith)
        requires
            m - 2 >= c * 511,
    ;
}

proof fn lemma_prp_pages_max(m: nat)
    requires
        m <= 1024,
    ensures
        prp_pages(m) <= NPAGES_PRP,
{
}

/// Position of entry `e` in a chain of `c` pages, when entry `e` is one of
/// the first `c * 511 + 1`.
proof fn lemma_prp_pos(e: int, c: nat)
    requires
        c >= 1,
        0 <= e <= c * 511,
    ensures
        e < c * 511 ==> prp_page_of(e, c) == e / 511 && 0 <= prp_slot_of(e, c) <= 510,
        e == c * 511 ==> prp_page_of(e, c) == c - 1 && prp_slot_of(e, c) == 511,
        0 <= prp_page_of(e, c) < c,
        e >= (c - 1) * 511 ==> prp_page_of(e, c) == c - 1,
        e < (c - 1) * 511 ==> prp_page_of(e, c) < c - 1,
{
    assert(e / 511 <= c) by (nonlinear_arith)
        requires
            e <= c * 511,
            e >= 0,
    ;
    if e < c * 511 {
        assert(e / 511 < c) by (nonlinear_arith)
            requires
                e < c * 511,
                e >= 0,
        ;
    } else {
        assert(e / 511 == c) by (nonlinear_arith)
            requires
                e == c * 511,
        ;
    }
    if e >= (c - 1) * 511 && e < c * 511 {
        assert(e / 511 == c - 1) by (nonlinear_arith)
            requires
                (c - 1) * 511 <= e < c * 511,
        ;
    }
    if e < (c - 1) * 511 {
        assert(e / 511 < c - 1) by (nonlinear_arith)
            requires
                e < (c - 1) * 511,
                e >= 0,
        ;
    }
}

/// Allocates the PRP list pages for `rem` bytes that start at bus address
/// `addr` with `len` bytes left in segment `i` of `sg`, and fills them. On
/// failure every page taken is handed back before the error is returned.
/// On success returns the number of pages; the first is `pages[0]`.
#[verifier::rlimit(40)]
fn fill_prp_list(
    pool: &mut PrpPool,
    pages: &mut Vec<usize>,
    sg: &Vec<ScatterEntry>,
    i0: usize,
    addr0: u64,
    len0: u32,
    rem0: u32,
) -> (r: Result<u32, NvmeError>)
    requires
        old(pool)@.wf(),
        old(pages)@.len() == NPAGES_PRP,
        i0 < sg@.len(),
        sg_fits(sg@),
        addr0 + len0 <= u64::MAX,
        NVME_CTRL_PAGE_SIZE < rem0 < NVME_MAX_TRANSFER,
    ensures
        final(pages)@.len() == NPAGES_PRP,
        final(pool)@.wf(),
        ({
            let w = prp_walk(sg@, i0 as nat, addr0 as int, len0 as int, rem0 as int);
            let n = prp_pages(w.0.len());
            if n > old(pool)@.free_count() {
                r == Err::<u32, NvmeError>(NvmeError::NoMemory) && restored(old(pool)@, final(pool)@)
            } else if !w.1 {
                r == Err::<u32, NvmeError>(NvmeError::Io) && restored(old(pool)@, final(pool)@)
            } else {
                r == Ok::<u32, NvmeError>(n as u32) && built(old(pool)@, final(pool)@, final(pages)@, n, w.0)
            }
        }),
{
    let ghost p0 = pool@;
    let ghost w0 = prp_walk(sg@, i0 as nat, addr0 as int, len0 as int, rem0 as int);
    proof {
        lemma_walk_len(sg@, i0 as nat, addr0 as int, len0 as int, rem0 as int);
        lemma_prp_pages_max(w0.0.len());
    }
    let first = match pool.try_alloc() {
        Some(page) => page,
        None => {
            proof {
                lemma_count_free_none(p0.in_use);
            }
            return Err(NvmeError::NoMemory);
        },
    };
    proof {
        lemma_count_free_take(p0.in_use, first as int);
    }
    let first_dma = pool.dma_addr(first);
    pages.set(0, first);
    let mut cur = first;
    let mut page_count: usize = 1;
    let mut j: usize = 0;
    let mut i = i0;
    let mut dma_addr = addr0;
    let mut dma_len = len0;
    let mut length = rem0;
    let mut last_dma_addr: u64 = 0;
    let ghost mut emitted: Seq<u64> = Seq::empty();
    assert(chain_ok(pool@, pages@, 1, first_dma as int));
    loop
        invariant_except_break
            length > 0,
            old(pool)@ == p0,
            w0 == prp_walk(sg@, i0 as nat, addr0 as int, len0 as int, rem0 as int),
            w0 == (emitted + prp_walk(sg@, i as nat, dma_addr as int, dma_len as int, length as int).0,
                prp_walk(sg@, i as nat, dma_addr as int, dma_len as int, length as int).1),
        invariant
            pool@.wf(),
            pages@.len() == NPAGES_PRP,
            i < sg@.len(),
            sg_fits(sg@),
            dma_addr + dma_len <= u64::MAX,
            w0.0.len() <= 1024,
            1 <= page_count <= NPAGES_PRP,
            cur == pages@[page_count - 1],
            first == pages@[0],
            first_dma == pool@.dma_of(first as int),
            (emitted.len() == 0 && j == 0 && page_count == 1) || (emitted.len() >= 1 && 1 <= j
                <= 512 && j == emitted.len() - (page_count - 1) * 511),
            emitted.len() >= 1 ==> last_dma_addr == emitted.last(),
            page_count >= 2 ==> j >= 2,
            chain_ok(pool@, pages@, page_count as nat, first_dma as int),
            pool@.base == p0.base,
            pool@.in_use.len() == p0.in_use.len(),
            pool@.pages.len() == p0.pages.len(),
            forall|q: int| 0 <= q < page_count ==> !p0.in_use[#[trigger] pages@[q] as int],
            forall|k: int|
                0 <= k < p0.in_use.len() ==> #[trigger] pool@.in_use[k] == (p0.in_use[k]
                    || in_chain(pages@, page_count as nat, k)),
            forall|k: int|
                0 <= k < p0.pages.len() && !in_chain(pages@, page_count as nat, k)
                    ==> #[trigger] pool@.pages[k] == p0.pages[k],
            count_free(pool@.in_use) + page_count == count_free(p0.in_use),
            forall|e: int|
                0 <= e < emitted.len() ==> #[trigger] pool@.pages[pages@[prp_page_of(
                    e,
                    page_count as nat,
                )] as int][prp_slot_of(e, page_count as nat)] == emitted[e],
        ensures
            w0 == (emitted, true),
            emitted.len() >= 1,
        decreases length,
    {
        let ghost wc = prp_walk(sg@, i as nat, dma_addr as int, dma_len as int, length as int);
        proof {
            lemma_walk_len(sg@, i as nat, dma_addr as int, dma_len as int, length as int);
        }
        if j == PRP_ENTRIES_PER_PAGE {
            proof {
                lemma_prp_pages_grow(w0.0.len(), page_count as nat);
            }
            let ghost pre = pool@;
            let ghost pre_pages = pages@;
            let ghost c = page_count as nat;
            let new_page = match pool.try_alloc() {
                Some(page) => page,
                None => {
                    proof {
                        lemma_count_free_none(pool@.in_use);
                    }
                    let ghost before = pool@;
                    free_prps(page_count, pages, first_dma, pool);
                    proof {
                        lemma_rollback(p0, before, pool@, pages@, page_count as nat);
                    }
                    return Err(NvmeError::NoMemory);
                },
            };
            proof {
                lemma_count_free_take(pre.in_use, new_page as int);
                if in_chain(pre_pages, c, new_page as int) {
                    let q = choose|q: int| 0 <= q < c && pre_pages[q] == new_page;
                    assert(pre.in_use[pre_pages[q] as int]);
                }
            }
            let new_dma = pool.dma_addr(new_page);
            pool.write(cur, PRP_ENTRIES_PER_PAGE - 1, new_dma);
            pool.write(new_page, 0, last_dma_addr);
            pages.set(page_count, new_page);
            cur = new_page;
            page_count += 1;
            j = 1;
            proof {
                lemma_in_chain_push(pre_pages, c, new_page);
                assert(pages@ == pre_pages.update(c as int, new_page));
                assert forall|k: int|
                    0 <= k < p0.in_use.len() implies #[trigger] pool@.in_use[k] == (p0.in_use[k]
                        || in_chain(pages@, page_count as nat, k)) by {
                    assert(in_chain(pages@, page_count as nat, k) == (in_chain(pre_pages, c, k) || k
                        == new_page));
                }
                assert forall|k: int|
                    0 <= k < p0.pages.len() && !in_chain(pages@, page_count as nat, k)
                        implies #[trigger] pool@.pages[k] == p0.pages[k] by {
                    assert(in_chain(pages@, page_count as nat, k) == (in_chain(pre_pages, c, k) || k
                        == new_page));
                    assert(in_chain(pre_pages, c, pre_pages[c - 1] as int));
                }
                assert forall|q: int| 0 <= q < page_count implies !p0.in_use[#[trigger] pages@[q] as int] by {
                    if q < c {
                        assert(pages@[q] == pre_pages[q]);
                    }
                }
                assert forall|e: int| 0 <= e < emitted.len() implies #[trigger] pool@.pages[pages@[prp_page_of(
                    e,
                    page_count as nat,
                )] as int][prp_slot_of(e, page_count as nat)] == emitted[e] by {
                    lemma_prp_pos(e, c);
                    lemma_prp_pos(e, c + 1);
                    if e < c * 511 {
                        let q = prp_page_of(e, c);
                        assert(pre_pages[q] != new_page);
                        assert(pages@[q] == pre_pages[q]);
                    }
                }
                assert forall|q1: int, q2: int|
                    0 <= q1 < q2 < page_count implies #[trigger] pages@[q1] != #[trigger] pages@[q2] by {
                    if q2 == c {
                        assert(in_chain(pre_pages, c, pre_pages[q1] as int));
                    }
                }
                assert forall|q: int|
                    0 <= q < page_count - 1 implies #[trigger] pool@.pages[pages@[q] as int][PRP_ENTRIES_PER_PAGE - 1]
                        == pool@.dma_of(pages@[q + 1] as int) by {
                    assert(in_chain(pre_pages, c, pre_pages[q] as int));
                    if q < c - 1 {
                        assert(pre_pages[q] != pre_pages[c - 1]);
                    }
                }
                assert(chain_ok(pool@, pages@, page_count as nat, first_dma as int));
            }
        }
        last_dma_addr = dma_addr;
        pool.write(cur, j, dma_addr);
        j += 1;
        proof {
            emitted = emitted.push(dma_addr);
        }
        if length <= NVME_CTRL_PAGE_SIZE as u32 {
            if dma_len < length {
                proof {
                    assert(w0.0 =~= emitted);
                    lemma_prp_pages(emitted.len(), page_count as nat);
                }
                let ghost before = pool@;
                free_prps(page_count, pages, first_dma, pool);
                proof {
                    lemma_rollback(p0, before, pool@, pages@, page_count as nat);
                }
                return Err(NvmeError::Io);
            }
            break;
        }
        length = length - NVME_CTRL_PAGE_SIZE as u32;
        if dma_len > NVME_CTRL_PAGE_SIZE as u32 {
            dma_addr += NVME_CTRL_PAGE_SIZE as u64;
            dma_len -= NVME_CTRL_PAGE_SIZE as u32;
            continue;
        }
        if dma_len < NVME_CTRL_PAGE_SIZE as u32 || i >= sg.len() - 1 {
            proof {
                assert(w0.0 =~= emitted);
                lemma_prp_pages(emitted.len(), page_count as nat);
                assert(count_free(p0.in_use) >= page_count);
            }
            let ghost before = pool@;
            free_prps(page_count, pages, first_dma, pool);
            proof {
                lemma_rollback(p0, before, pool@, pages@, page_count as nat);
            }
            return Err(NvmeError::Io);
        }
        i += 1;
        dma_addr = sg[i].dma_address;
        dma_len = sg[i].length;
    }
    proof {
        lemma_prp_pages(emitted.len(), page_count as nat);
    }
    Ok(page_count as u32)
}

proof fn lemma_in_chain_push(pages: Seq<usize>, c: nat, v: usize)
    requires
        c < pages.len(),
    ensures
        forall|k: int|
            #[trigger] in_chain(pages.update(c as int, v), c + 1, k) == (in_chain(pages, c, k) || k
                == v),
{
    let p2 = pages.update(c as int, v);
    assert forall|k: int| #[trigger] in_chain(p2, c + 1, k) == (in_chain(pages, c, k) || k == v) by {
        if in_chain(pages, c, k) {
            let q = choose|q: int| 0 <= q < c && pages[q] == k;
            assert(p2[q] == k);
        }
        if k == v {
            assert(p2[c as int] == k);
        }
        if in_chain(p2, c + 1, k) {
            let q = choose|q: int| 0 <= q < c + 1 && p2[q] == k;
            if q < c {
                assert(pages[q] == k);
            }
        }
    }
}

/// Handing back a partly built chain leaves the pool handing out what it
/// handed out before the build.
proof fn lemma_rollback(p0: PoolView, p1: PoolView, p2: PoolView, pages: Seq<usize>, c: nat)
    requires
        p1.in_use.len() == p0.in_use.len(),
        forall|q: int| 0 <= q < c ==> !p0.in_use[#[trigger] pages[q] as int],
        forall|k: int|
            0 <= k < p0.in_use.len() ==> #[trigger] p1.in_use[k] == (p0.in_use[k] || in_chain(
                pages,
                c,
                k,
            )),
        released(p1, p2, pages, c),
    ensures
        p2.in_use == p0.in_use,
{
    assert forall|k: int| 0 <= k < p0.in_use.len() implies #[trigger] p2.in_use[k]
        == p0.in_use[k] by {
        if in_chain(pages, c, k) {
            let q = choose|q: int| 0 <= q < c && pages[q] == k;
            assert(!p0.in_use[pages[q] as int]);
        }
    }
    assert(p2.in_use =~= p0.in_use);
}

/// Fills the data pointers of `cmd` for `length` bytes of the mapped scatter
/// list of `md`. The first entry takes the first segment up to the next
/// controller page boundary; if more than one further page remains, a PRP
/// list is built from pool pages, recorded in `md.pages`, and pointed at by
/// the second entry. Returns the number of PRP list pages.
///
/// Fails with `Io` when the scatter list cannot be described by PRP entries,
/// and with `NoMemory` when the pool runs out; either way every page taken
/// has been handed back.
pub fn setup_prps(
    pool: &mut PrpPool,
    cmd: &mut NvmeCommand,
    md: &mut MappingData,
    length: u32,
) -> (r: Result<u32, NvmeError>)
    requires
        old(pool)@.wf(),
        old(md).sg@.len() >= 1,
        sg_fits(old(md).sg@),
        old(md).pages@.len() == NPAGES_PRP,
        length <= NVME_MAX_TRANSFER,
    ensures
        final(pool)@.wf(),
        final(md).sg@ == old(md).sg@,
        final(md).pages@.len() == NPAGES_PRP,
        r == prp_outcome(old(md).sg@, length as int, old(pool)@.free_count()),
        final(cmd).prp1 == old(md).sg@[0].dma_address,
        *final(cmd) == (NvmeCommand {
            prp1: final(cmd).prp1,
            prp2: final(cmd).prp2,
            ..*old(cmd)
        }),
        ({
            let sg = old(md).sg@;
            match prp_layout(sg, length as int) {
                PrpLayout::First => {
                    &&& r == Ok::<u32, NvmeError>(0)
                    &&& final(pool)@ == old(pool)@
                    &&& final(md).pages@ == old(md).pages@
                    &&& final(cmd).prp2 == old(cmd).prp2
                },
                PrpLayout::Second(a) => {
                    &&& r == Ok::<u32, NvmeError>(0)
                    &&& final(pool)@ == old(pool)@
                    &&& final(md).pages@ == old(md).pages@
                    &&& final(cmd).prp2 == a
                },
                PrpLayout::Malformed => {
                    &&& r == Err::<u32, NvmeError>(NvmeError::Io)
                    &&& final(pool)@ == old(pool)@
                    &&& final(md).pages@ == old(md).pages@
                },
                PrpLayout::List(entries, ok) => {
                    let n = prp_pages(entries.len());
                    if n > old(pool)@.free_count() {
                        r == Err::<u32, NvmeError>(NvmeError::NoMemory) && restored(old(pool)@, final(pool)@)
                    } else if !ok {
                        r == Err::<u32, NvmeError>(NvmeError::Io) && restored(old(pool)@, final(pool)@)
                    } else {
                        &&& r == Ok::<u32, NvmeError>(n as u32)
                        &&& built(old(pool)@, final(pool)@, final(md).pages@, n, entries)
                        &&& final(cmd).prp2 == final(pool)@.dma_of(final(md).pages@[0] as int)
                    }
                },
            }
        }),
{
    let ghost sg = md.sg@;
    let first = md.sg[0];
    let mut dma_addr = first.dma_address;
    let mut dma_len = first.length;
    let offset = dma_addr & ((NVME_CTRL_PAGE_SIZE - 1) as u64);
    assert(dma_addr & 4095u64 == dma_addr % 4096) by (bit_vector);
    let consumed = ((NVME_CTRL_PAGE_SIZE as u64) - offset) as u32;
    cmd.prp1 = dma_addr;
    let length = length.saturating_sub(consumed);
    if length == 0 {
        return Ok(0);
    }
    let mut i: usize = 0;
    if dma_len < consumed {
        // The first segment ends inside its page, yet more bytes follow.
        return Err(NvmeError::Io);
    }
    dma_len = dma_len - consumed;
    if dma_len != 0 {
        dma_addr += consumed as u64;
    } else {
        if md.sg.len() < 2 {
            return Err(NvmeError::Io);
        }
        i = 1;
        let next = md.sg[1];
        dma_addr = next.dma_address;
        dma_len = next.length;
    }
    if length <= NVME_CTRL_PAGE_SIZE as u32 {
        if dma_len < length {
            // The rest does not lie in one segment up to a page boundary.
            return Err(NvmeError::Io);
        }
        cmd.prp2 = dma_addr;
        return Ok(0);
    }
    match fill_prp_list(pool, &mut md.pages, &md.sg, i, dma_addr, dma_len, length) {
        Ok(n) => {
            cmd.prp2 = pool.dma_addr(md.pages[0]);
            Ok(n)
        },
        Err(e) => Err(e),
    }
}

/// `s` with the entries `pages[0..n]` set.
pub open spec fn mark_used(s: Seq<bool>, pages: Seq<usize>, n: nat) -> Seq<bool> {
    Seq::new(s.len(), |i: int| s[i] || in_chain(pages, n, i))
}

proof fn lemma_count_free_mark(s: Seq<bool>, pages: Seq<usize>, n: nat)
    requires
        n <= pages.len(),
        forall|q: int| 0 <= q < n ==> #[trigger] pages[q] < s.len() && !s[pages[q] as int],
        forall|q1: int, q2: int| 0 <= q1 < q2 < n ==> #[trigger] pages[q1] != #[trigger] pages[q2],
    ensures
        count_free(mark_used(s, pages, n)) + n == count_free(s),
    decreases n,
{
    if n == 0 {
        assert(mark_used(s, pages, 0) =~= s);
    } else {
        let m = (n - 1) as nat;
        lemma_count_free_mark(s, pages, m);
        let mid = mark_used(s, pages, m);
        let last = pages[m as int] as int;
        assert(!in_chain(pages, m, last)) by {
            if in_chain(pages, m, last) {
                let q = choose|q: int| 0 <= q < m && pages[q] == last;
                assert(pages[q] != pages[m as int]);
            }
        }
        lemma_count_free_take(mid, last);
        assert forall|i: int| 0 <= i < s.len() implies #[trigger] in_chain(pages, n, i) == (in_chain(
            pages,
            m,
            i,
        ) || i == last) by {
            if in_chain(pages, n, i) {
                let q = choose|q: int| 0 <= q < n && pages[q] == i;
                if q < m {
                    assert(in_chain(pages, m, i));
                }
            }
            if in_chain(pages, m, i) {
                let q = choose|q: int| 0 <= q < m && pages[q] == i;
                assert(in_chain(pages, n, i));
            }
            if i == last {
                assert(in_chain(pages, n, i));
            }
        }
        assert(mid.update(last, true) =~= mark_used(s, pages, n));
    }
}

/// Building a PRP chain and then freeing it with the page count and pages the
/// build returned takes `n` pages from the pool and gives the same `n` back:
/// the pool hands out exactly what it handed out before. The chain that the
/// free follows is the one the build wrote: the first page sits at the
/// address the command points at, and the last entry of each page but the
/// last holds the address of the next page.
pub proof fn lemma_build_then_free(
    p0: PoolView,
    p1: PoolView,
    p2: PoolView,
    pages: Seq<usize>,
    n: nat,
    entries: Seq<u64>,
)
    requires
        p0.wf(),
        built(p0, p1, pages, n, entries),
        released(p1, p2, pages, n),
    ensures
        chain_ok(p1, pages, n, p1.dma_of(pages[0] as int)),
        forall|q: int|
            0 <= q < n - 1 ==> #[trigger] p1.pages[pages[q] as int][PRP_ENTRIES_PER_PAGE - 1]
                == p1.dma_of(pages[q + 1] as int),
        count_free(p1.in_use) + n == count_free(p0.in_use),
        count_free(p2.in_use) == count_free(p1.in_use) + n,
        p2.in_use == p0.in_use,
{
    lemma_count_free_mark(p0.in_use, pages, n);
    assert(p1.in_use =~= mark_used(p0.in_use, pages, n));
    assert forall|k: int| 0 <= k < p0.in_use.len() implies #[trigger] p2.in_use[k]
        == p0.in_use[k] by {
        if in_chain(pages, n, k) {
            let q = choose|q: int| 0 <= q < n && pages[q] == k;
            assert(!p0.in_use[pages[q] as int]);
        }
    }
    assert(p2.in_use =~= p0.in_use);
}

/// What `setup_prps` returns for `length` bytes of `sg` from a pool with
/// `free` free pages.
pub open spec fn prp_outcome(sg: Seq<ScatterEntry>, length: int, free: nat) -> Result<u32, NvmeError> {
    match prp_layout(sg, length) {
        PrpLayout::First => Ok(0),
        PrpLayout::Second(_) => Ok(0),
        PrpLayout::Malformed => Err(NvmeError::Io),
        PrpLayout::List(entries, ok) => {
            if prp_pages(entries.len()) > free {
                Err(NvmeError::NoMemory)
            } else if !ok {
                Err(NvmeError::Io)
            } else {
                Ok(prp_pages(entries.len()) as u32)
            }
        },
    }
}

proof fn lemma_walk_ok_len(sg: Seq<ScatterEntry>, i: nat, addr: int, len: int, rem: int)
    requires
        rem > 0,
        prp_walk(sg, i, addr, len, rem).1,
    ensures
        prp_walk(sg, i, addr, len, rem).0.len() == (rem + 4095) / 4096,
    decreases rem,
{
    let rem2 = sat_sub(rem, 4096);
    if rem2 > 0 {
        if len > 4096 {
            lemma_walk_ok_len(sg, i, addr + 4096, len - 4096, rem2);
        } else {
            let next = sg[i + 1 as int];
            lemma_walk_ok_len(sg, i + 1, next.dma_address as int, next.length as int, rem2);
        }
    }
}

/// The number of PRP list pages that a successful build of `length` bytes
/// returns has a closed form: with `off` the offset of the first address
/// within its controller page, no list page when the data spans at most two
/// controller pages, and `ceil((ceil((length + off) / P) - 2) / (P / 8 - 1))`
/// pages otherwise, `P` being the controller page size.
pub proof fn lemma_prp_page_count(sg: Seq<ScatterEntry>, length: int, free: nat, n: u32)
    requires
        sg.len() >= 1,
        0 <= length <= NVME_MAX_TRANSFER,
        prp_outcome(sg, length, free) == Ok::<u32, NvmeError>(n),
    ensures
        ({
            let page = NVME_CTRL_PAGE_SIZE as int;
            let off = sg[0].dma_address as int % page;
            n == if length + off <= 2 * page {
                0
            } else {
                spec_div_round_up(spec_div_round_up(length + off, page) - 2, page / 8 - 1)
            }
        }),
{
    let page = NVME_CTRL_PAGE_SIZE as int;
    let off = sg[0].dma_address as int % page;
    let consumed = first_consumed(sg);
    let rem = sat_sub(length, consumed);
    assert(0 <= off < 4096);
    match prp_layout(sg, length) {
        PrpLayout::List(entries, ok) => {
            let len0 = sg[0].length - consumed;
            let i: nat = if len0 != 0 { 0 } else { 1 };
            let addr = if len0 != 0 { sg[0].dma_address + consumed } else { sg[1].dma_address as int };
            let len = if len0 != 0 { len0 } else { sg[1].length as int };
            lemma_walk_ok_len(sg, i, addr, len, rem);
            let m = entries.len() as int;
            assert(rem == length + off - 4096);
            assert(m == (rem + 4095) / 4096);
            assert((length + off + 4095) / 4096 == m + 1) by {
                assert(length + off + 4095 == rem + 4095 + 4096);
            }
            assert(m >= 2);
            assert(length + off > 2 * page);
            assert(spec_div_round_up(length + off, page) == m + 1);
            if m > 512 {
                assert((m - 2) / 511 + 1 == (m - 1 + 510) / 511);
            } else {
                assert((m - 1 + 510) / 511 == 1);
            }
        },
        _ => {
            assert(consumed == page - off);
            assert(rem <= page);
            assert(length + off <= 2 * page);
            assert(n == 0);
        },
    }
}

} // verus!
