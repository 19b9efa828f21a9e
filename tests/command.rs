use rnvme::command::{NvmeCommand, NvmeCompletion, NVME_CMD_FLUSH};

#[test]
fn command_layout_is_little_endian_at_fixed_offsets() {
    let mut c = NvmeCommand::zeroed();
    c.opcode = 0x02;
    c.flags = 0x40;
    c.command_id = 0x1234;
    c.nsid = 0x0102_0304;
    c.prp1 = 0x1122_3344_5566_7788;
    c.prp2 = 0x99aa_bbcc_ddee_ff00;
    c.slba = 0x0000_0001_0000_0002;
    c.length = 0x0007;
    c.cdw15 = 0xdead_beef;
    let b = c.to_bytes();
    assert_eq!(b.len(), 64);
    assert_eq!(b[0], 0x02);
    assert_eq!(b[1], 0x40);
    assert_eq!(&b[2..4], &[0x34, 0x12]);
    assert_eq!(&b[4..8], &[0x04, 0x03, 0x02, 0x01]);
    assert_eq!(&b[8..24], &[0u8; 16]);
    assert_eq!(&b[24..32], &0x1122_3344_5566_7788u64.to_le_bytes());
    assert_eq!(&b[32..40], &0x99aa_bbcc_ddee_ff00u64.to_le_bytes());
    assert_eq!(&b[40..48], &[2, 0, 0, 0, 1, 0, 0, 0]);
    assert_eq!(&b[48..50], &[7, 0]);
    assert_eq!(&b[60..64], &[0xef, 0xbe, 0xad, 0xde]);
}

#[test]
fn flush_command() {
    let c = NvmeCommand::new_flush(3);
    assert_eq!(c.opcode, NVME_CMD_FLUSH);
    assert_eq!(c.nsid, 3);
    assert_eq!(c.prp1, 0);
}

#[test]
fn completion_from_device_bytes() {
    let b = [
        0x78, 0x56, 0x34, 0x12, 0, 0, 0, 0, 0x05, 0x00, 0x01, 0x00, 0x2a, 0x00, 0x03, 0x00,
    ];
    let e = NvmeCompletion::from_bytes(&b);
    assert_eq!(e.result, 0x1234_5678);
    assert_eq!(e.sq_head, 5);
    assert_eq!(e.sq_id, 1);
    assert_eq!(e.command_id, 42);
    assert_eq!(e.status, 3);
    // Phase tag 1, status code 1.
    assert_eq!(e.status & 1, 1);
    assert_eq!(e.status >> 1, 1);
}
