use pixel_fluter::{
    read_layout, ConfigError, FrameLayout, MacAddr, Statistics, MAX_PORTS, PORT_STATS_SIZE,
    STATISTICS_SIZE,
};

#[test]
fn layout_sizes() {
    assert_eq!(PORT_STATS_SIZE, 712);
    assert_eq!(STATISTICS_SIZE, MAX_PORTS * PORT_STATS_SIZE);
}

#[test]
fn layout_of_a_valid_memory() {
    let mut mem = vec![0u8; 4 + 3 * 2 * 4 + STATISTICS_SIZE];
    mem[0] = 3;
    mem[2] = 2;
    assert_eq!(
        read_layout(&mem),
        Ok(FrameLayout { width: 3, height: 2, pixels_offset: 4, cells: 6, stats_offset: 28 })
    );
}

#[test]
fn layout_reads_little_endian_dimensions() {
    let mut mem = vec![0u8; 4 + 0x0102 * 1 * 4 + STATISTICS_SIZE];
    mem[0] = 0x02;
    mem[1] = 0x01;
    mem[2] = 1;
    let layout = read_layout(&mem).unwrap();
    assert_eq!(layout.width, 0x0102);
    assert_eq!(layout.height, 1);
    assert_eq!(layout.stats_offset, 4 + 0x0102 * 4);
}

#[test]
fn layout_rejects_a_short_header() {
    assert_eq!(read_layout(&[1, 0, 1]), Err(ConfigError::HeaderTooShort { len: 3 }));
}

#[test]
fn layout_rejects_an_empty_framebuffer() {
    let mem = vec![0u8, 0, 5, 0];
    assert_eq!(read_layout(&mem), Err(ConfigError::EmptyFramebuffer { width: 0, height: 5 }));
}

#[test]
fn layout_rejects_a_memory_too_small() {
    let mut mem = vec![0u8; 100];
    mem[0] = 2;
    mem[2] = 2;
    assert_eq!(
        read_layout(&mem),
        Err(ConfigError::MemoryTooSmall { len: 100, needed: (4 + 16 + STATISTICS_SIZE) as u64 })
    );
}

#[test]
fn statistics_from_bytes() {
    let mut b = vec![0u8; STATISTICS_SIZE];
    let base = 3 * PORT_STATS_SIZE;
    b[base..base + 6].copy_from_slice(&[0xAA, 0xBB, 0xCC, 0xDD, 0xEE, 0x01]);
    b[base + 8..base + 16].copy_from_slice(&0x0102030405060708u64.to_le_bytes());
    b[base + 64..base + 72].copy_from_slice(&9u64.to_le_bytes());
    b[base + 72 + 8 * 2..base + 72 + 8 * 3].copy_from_slice(&33u64.to_le_bytes());
    b[base + 584 + 8 * 15..base + 712].copy_from_slice(&u64::MAX.to_le_bytes());
    let s = Statistics::from_bytes(&b).unwrap();
    let p = &s.port_stats[3];
    assert_eq!(p.mac_addr, MacAddr([0xAA, 0xBB, 0xCC, 0xDD, 0xEE, 0x01]));
    assert_eq!(p.ipackets, 0x0102030405060708);
    assert_eq!(p.rx_nombuf, 9);
    assert_eq!(p.q_ipackets[2], 33);
    assert_eq!(p.q_errors[15], u64::MAX);
    assert_eq!(p.opackets, 0);
    assert!(s.port_stats[0].mac_addr.is_nil());
    assert_eq!(s.active_ports().len(), 1);
}

#[test]
fn statistics_from_too_few_bytes() {
    let b = vec![0u8; STATISTICS_SIZE - 1];
    assert!(Statistics::from_bytes(&b).is_none());
}
