use rnvme::command::NvmeCommand;
use rnvme::defs::{calculate_max_blocks, div_round_up, npages_prp, NvmeError, NPAGES_PRP};
use rnvme::prp::{free_prps, setup_prps, PrpPool};
use rnvme::request::{MappingData, ScatterEntry};

const PAGE: u64 = 4096;
const POOL_BASE: u64 = 0x8000_0000;

fn seg(dma_address: u64, length: u32) -> ScatterEntry {
    ScatterEntry { dma_address, length }
}

fn in_use_count(pool: &PrpPool) -> usize {
    (0..pool.capacity()).filter(|&i| pool.is_in_use(i)).count()
}

#[test]
fn div_round_up_rounds_up() {
    assert_eq!(div_round_up(10, 4), 3);
    assert_eq!(div_round_up(8, 4), 2);
    assert_eq!(div_round_up(0, 4), 0);
}

#[test]
fn prp_list_capacity_for_largest_transfer() {
    assert_eq!(npages_prp(), 3);
    assert_eq!(NPAGES_PRP, 3);
}

#[test]
fn max_blocks_from_capability() {
    // MPSMIN 0 (4 KiB pages), MDTS 5: 2^5 pages of 8 blocks.
    assert_eq!(calculate_max_blocks(0, 5), Some(256));
    // MPSMIN 1 (8 KiB pages), MDTS 2.
    assert_eq!(calculate_max_blocks(1u64 << 48, 2), Some(64));
    assert_eq!(calculate_max_blocks(0, 0), None);
    assert_eq!(calculate_max_blocks(0, 32), None);
    // 2^(15 + 3) * 2^20 does not fit in 32 bits.
    assert_eq!(calculate_max_blocks(0xf << 48, 20), None);
    assert_eq!(calculate_max_blocks(0xf << 48, 13), Some(1u32 << 31));
}

#[test]
fn pool_hands_out_first_free_page() {
    let mut pool = PrpPool::new(POOL_BASE, 3);
    assert_eq!(pool.try_alloc(), Some(0));
    assert_eq!(pool.try_alloc(), Some(1));
    pool.free(0, POOL_BASE);
    assert_eq!(pool.try_alloc(), Some(0));
    assert_eq!(pool.try_alloc(), Some(2));
    assert_eq!(pool.try_alloc(), None);
    assert_eq!(pool.dma_addr(2), POOL_BASE + 2 * PAGE);
}

#[test]
fn one_page_needs_only_first_entry() {
    let mut pool = PrpPool::new(POOL_BASE, 2);
    let mut cmd = NvmeCommand::zeroed();
    cmd.prp2 = 0x55;
    let mut md = MappingData::new(vec![seg(0x10000, 4096)]);
    assert_eq!(setup_prps(&mut pool, &mut cmd, &mut md, 4096), Ok(0));
    assert_eq!(cmd.prp1, 0x10000);
    assert_eq!(cmd.prp2, 0x55);
    assert_eq!(in_use_count(&pool), 0);
}

#[test]
fn two_pages_use_second_entry() {
    let mut pool = PrpPool::new(POOL_BASE, 2);
    let mut cmd = NvmeCommand::zeroed();
    // 0x10200..0x12000 touches two pages.
    let mut md = MappingData::new(vec![seg(0x10200, 7680)]);
    assert_eq!(setup_prps(&mut pool, &mut cmd, &mut md, 7680), Ok(0));
    assert_eq!(cmd.prp1, 0x10200);
    assert_eq!(cmd.prp2, 0x11000);
    assert_eq!(in_use_count(&pool), 0);
}

#[test]
fn second_entry_from_next_segment() {
    let mut pool = PrpPool::new(POOL_BASE, 2);
    let mut cmd = NvmeCommand::zeroed();
    let mut md = MappingData::new(vec![seg(0x10000, 4096), seg(0x40000, 4096)]);
    assert_eq!(setup_prps(&mut pool, &mut cmd, &mut md, 8192), Ok(0));
    assert_eq!(cmd.prp2, 0x40000);
}

#[test]
fn unaligned_start_needs_list_for_third_page() {
    // 0x10200..0x12200 touches three pages.
    let mut pool = PrpPool::new(POOL_BASE, 2);
    let mut cmd = NvmeCommand::zeroed();
    let mut md = MappingData::new(vec![seg(0x10200, 8192)]);
    assert_eq!(setup_prps(&mut pool, &mut cmd, &mut md, 8192), Ok(1));
    let page = md.pages[0];
    assert_eq!(pool.read(page, 0), 0x11000);
    assert_eq!(pool.read(page, 1), 0x12000);
}

#[test]
fn list_for_three_pages() {
    let mut pool = PrpPool::new(POOL_BASE, 2);
    let mut cmd = NvmeCommand::zeroed();
    let mut md = MappingData::new(vec![seg(0x10000, 16384)]);
    assert_eq!(setup_prps(&mut pool, &mut cmd, &mut md, 16384), Ok(1));
    let page = md.pages[0];
    assert_eq!(cmd.prp1, 0x10000);
    assert_eq!(cmd.prp2, pool.dma_addr(page));
    assert_eq!(pool.read(page, 0), 0x11000);
    assert_eq!(pool.read(page, 1), 0x12000);
    assert_eq!(pool.read(page, 2), 0x13000);
    assert_eq!(in_use_count(&pool), 1);
}

#[test]
fn chained_list_pages() {
    // 3 MiB from an aligned address: 767 list entries, in two chained pages.
    let mut pool = PrpPool::new(POOL_BASE, 4);
    let mut cmd = NvmeCommand::zeroed();
    let base = 0x1000_0000u64;
    let len: u32 = 3 * 1024 * 1024;
    let mut md = MappingData::new(vec![seg(base, len)]);
    assert_eq!(setup_prps(&mut pool, &mut cmd, &mut md, len), Ok(2));
    let (p0, p1) = (md.pages[0], md.pages[1]);
    assert_ne!(p0, p1);
    assert_eq!(cmd.prp2, pool.dma_addr(p0));
    for k in 0..511usize {
        assert_eq!(pool.read(p0, k), base + (k as u64 + 1) * PAGE);
    }
    // The last entry of the first page points at the second page, which
    // starts with the entry that the pointer displaced.
    assert_eq!(pool.read(p0, 511), pool.dma_addr(p1));
    for k in 0..256usize {
        assert_eq!(pool.read(p1, k), base + (k as u64 + 512) * PAGE);
    }
    assert_eq!(in_use_count(&pool), 2);
}

#[test]
fn build_then_free_returns_every_page() {
    let mut pool = PrpPool::new(POOL_BASE, 4);
    let taken = pool.try_alloc().unwrap();
    let mut cmd = NvmeCommand::zeroed();
    let len: u32 = 3 * 1024 * 1024;
    let mut md = MappingData::new(vec![seg(0x1000_0000, len)]);
    let count = setup_prps(&mut pool, &mut cmd, &mut md, len).unwrap();
    assert_eq!(count, 2);
    assert_eq!(in_use_count(&pool), 3);
    free_prps(count as usize, &md.pages, cmd.prp2, &mut pool);
    assert_eq!(in_use_count(&pool), 1);
    assert!(pool.is_in_use(taken));
}

#[test]
fn segment_ending_inside_a_page_is_rejected() {
    let mut pool = PrpPool::new(POOL_BASE, 2);
    let mut cmd = NvmeCommand::zeroed();
    let mut md = MappingData::new(vec![
        seg(0x10000, 4096),
        seg(0x20000, 6000),
        seg(0x30000, 8192),
    ]);
    assert_eq!(setup_prps(&mut pool, &mut cmd, &mut md, 18288), Err(NvmeError::Io));
    assert_eq!(in_use_count(&pool), 0);
}

#[test]
fn scatter_list_shorter_than_length_is_rejected() {
    let mut pool = PrpPool::new(POOL_BASE, 2);
    let mut cmd = NvmeCommand::zeroed();
    let mut md = MappingData::new(vec![seg(0x10000, 4096)]);
    assert_eq!(setup_prps(&mut pool, &mut cmd, &mut md, 8192), Err(NvmeError::Io));
    let mut md = MappingData::new(vec![seg(0x10000, 4096), seg(0x20000, 4096)]);
    assert_eq!(setup_prps(&mut pool, &mut cmd, &mut md, 16384), Err(NvmeError::Io));
    assert_eq!(in_use_count(&pool), 0);
}

#[test]
fn empty_pool_fails_with_no_memory() {
    let mut pool = PrpPool::new(POOL_BASE, 0);
    let mut cmd = NvmeCommand::zeroed();
    let mut md = MappingData::new(vec![seg(0x10000, 16384)]);
    assert_eq!(setup_prps(&mut pool, &mut cmd, &mut md, 16384), Err(NvmeError::NoMemory));
}

#[test]
fn running_out_mid_chain_gives_pages_back() {
    let mut pool = PrpPool::new(POOL_BASE, 1);
    let mut cmd = NvmeCommand::zeroed();
    let len: u32 = 3 * 1024 * 1024;
    let mut md = MappingData::new(vec![seg(0x1000_0000, len)]);
    assert_eq!(setup_prps(&mut pool, &mut cmd, &mut md, len), Err(NvmeError::NoMemory));
    assert_eq!(in_use_count(&pool), 0);
}

#[test]
fn short_first_segment_is_rejected() {
    // Segment 0 ends 100 bytes into its page while more bytes follow.
    let mut pool = PrpPool::new(POOL_BASE, 2);
    let mut cmd = NvmeCommand::zeroed();
    let mut md = MappingData::new(vec![seg(0, 100), seg(8192, 4096)]);
    assert_eq!(setup_prps(&mut pool, &mut cmd, &mut md, 4196), Err(NvmeError::Io));
    assert_eq!(md.pages, vec![0, 0, 0]);
    assert_eq!(in_use_count(&pool), 0);
}

#[test]
fn second_entry_segment_ending_mid_page_is_rejected() {
    // Only 100 bytes of segment 0 lie in the second page, 3904 are needed.
    let mut pool = PrpPool::new(POOL_BASE, 2);
    let mut cmd = NvmeCommand::zeroed();
    let mut md = MappingData::new(vec![seg(0, 4196), seg(16384, 4096)]);
    assert_eq!(setup_prps(&mut pool, &mut cmd, &mut md, 8000), Err(NvmeError::Io));
    assert_eq!(in_use_count(&pool), 0);
}

#[test]
fn list_segment_ending_mid_page_is_rejected() {
    // The last list entry needs 4096 bytes but segment 1 holds 100.
    let mut pool = PrpPool::new(POOL_BASE, 2);
    let mut cmd = NvmeCommand::zeroed();
    let mut md = MappingData::new(vec![seg(0, 8192), seg(0x20000, 100), seg(0x30000, 4096)]);
    assert_eq!(setup_prps(&mut pool, &mut cmd, &mut md, 12288), Err(NvmeError::Io));
    assert_eq!(in_use_count(&pool), 0);
}

#[test]
fn last_segment_shorter_than_page_is_accepted() {
    let mut pool = PrpPool::new(POOL_BASE, 2);
    let mut cmd = NvmeCommand::zeroed();
    let mut md = MappingData::new(vec![seg(0x10000, 4096), seg(0x40000, 100)]);
    assert_eq!(setup_prps(&mut pool, &mut cmd, &mut md, 4196), Ok(0));
    assert_eq!(cmd.prp2, 0x40000);
}
