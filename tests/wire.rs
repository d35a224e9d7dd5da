use pixel_fluter::{
    encode_binary_pixel, encode_binary_sync, encode_sync_frame, encode_text, partition,
    u32_to_u8, Geometry, Region, UNSET_PIXEL,
};

fn whole(g: &Geometry) -> Region {
    let regions = partition(g, 1);
    assert_eq!(regions.len(), 1);
    regions[0]
}

fn sync_frame(x0: u16, y0: u16, cells: &[u32]) -> Vec<u8> {
    let mut out = b"PXMULTI".to_vec();
    out.extend_from_slice(&x0.to_le_bytes());
    out.extend_from_slice(&y0.to_le_bytes());
    out.extend_from_slice(&(cells.len() as u32).to_le_bytes());
    for c in cells {
        out.extend_from_slice(&c.to_le_bytes());
    }
    out
}

#[test]
fn text_pixel_end_to_end_scenario() {
    let g = Geometry::new(4, 2, 1, 1).unwrap();
    let region = whole(&g);
    let mut fb = vec![0, 0x00FF0000, 0, 0x0000FF00, 0, 0, 0x000000FF, 0];
    let out = encode_text(&mut fb, &g, &region);
    assert_eq!(String::from_utf8(out).unwrap(), "PX 1 0 00ff00\nPX 3 0 0000ff\n");
    // the sent cells are cleared; the cell with only a tag byte is neither sent nor cleared
    assert_eq!(fb, vec![0, 0, 0, 0, 0, 0, 0x000000FF, 0]);
}

#[test]
fn text_pixel_second_pass_sends_nothing() {
    let g = Geometry::new(4, 2, 1, 1).unwrap();
    let region = whole(&g);
    let mut fb = vec![0x01020300, 0, 0, 0, 0, 0, 0, 0xFFFFFFFF];
    let first = encode_text(&mut fb, &g, &region);
    assert_eq!(String::from_utf8(first).unwrap(), "PX 0 0 010203\nPX 3 1 ffffff\n");
    let second = encode_text(&mut fb, &g, &region);
    assert!(second.is_empty());
    fb[2] = 0xABCDEF00;
    let third = encode_text(&mut fb, &g, &region);
    assert_eq!(String::from_utf8(third).unwrap(), "PX 2 0 abcdef\n");
}

#[test]
fn text_pixel_multi_digit_coordinates() {
    let g = Geometry::new(12, 11, 1, 1).unwrap();
    let region = whole(&g);
    let mut fb = vec![0u32; 132];
    fb[10 * 12 + 10] = 0x12345678;
    let out = encode_text(&mut fb, &g, &region);
    assert_eq!(String::from_utf8(out).unwrap(), "PX 10 10 123456\n");
    assert_eq!(fb[130], 0);
}

#[test]
fn text_pixel_only_touches_its_region() {
    let g = Geometry::new(4, 2, 1, 1).unwrap();
    let regions = partition(&g, 2);
    assert_eq!(regions.len(), 2);
    let mut fb = vec![0x100u32; 8];
    let out = encode_text(&mut fb, &g, &regions[1]);
    assert_eq!(
        String::from_utf8(out).unwrap(),
        "PX 0 1 000001\nPX 1 1 000001\nPX 2 1 000001\nPX 3 1 000001\n"
    );
    assert_eq!(fb, vec![0x100, 0x100, 0x100, 0x100, 0, 0, 0, 0]);
}

#[test]
fn text_pixel_in_a_shard_uses_framebuffer_columns() {
    let g = Geometry::new(4, 2, 2, 2).unwrap();
    let region = whole(&g);
    let mut fb = vec![0x100, 0x200, 0x300, 0x400, 0x500, 0x600, 0x700, 0x800];
    let out = encode_text(&mut fb, &g, &region);
    assert_eq!(
        String::from_utf8(out).unwrap(),
        "PX 2 0 000003\nPX 3 0 000004\nPX 2 1 000007\nPX 3 1 000008\n"
    );
    assert_eq!(fb, vec![0x100, 0x200, 0, 0, 0x500, 0x600, 0, 0]);
}

#[test]
fn text_pixel_region_past_the_end_is_cut() {
    let g = Geometry::new(2, 1, 1, 1).unwrap();
    let region = Region { start: 1, len: 10, x0: 1, y0: 0 };
    let mut fb = vec![0x100, 0x200];
    let out = encode_text(&mut fb, &g, &region);
    assert_eq!(String::from_utf8(out).unwrap(), "PX 1 0 000002\n");
    let beyond = Region { start: 5, len: 1, x0: 0, y0: 0 };
    assert!(encode_text(&mut fb, &g, &beyond).is_empty());
}

#[test]
fn binary_pixel_frame_layout() {
    let g = Geometry::new(4, 2, 1, 1).unwrap();
    let region = whole(&g);
    let mut fb = vec![UNSET_PIXEL; 8];
    fb[5] = 0x11223344;
    let out = encode_binary_pixel(&fb, &g, &region);
    assert_eq!(out, vec![b'P', b'B', 1, 0, 1, 0, 0x44, 0x33, 0x22, 0]);
}

#[test]
fn binary_pixel_is_resent_every_tick() {
    let g = Geometry::new(400, 1, 1, 1).unwrap();
    let region = whole(&g);
    let mut fb = vec![UNSET_PIXEL; 400];
    fb[300] = 0x00AABBCC;
    fb[2] = 0xFF000001;
    let first = encode_binary_pixel(&fb, &g, &region);
    let second = encode_binary_pixel(&fb, &g, &region);
    assert_eq!(first.len(), 20);
    assert_eq!(first, second);
    assert_eq!(&first[..10], &[b'P', b'B', 2, 0, 0, 0, 0x01, 0, 0, 0]);
    assert_eq!(&first[10..], &[b'P', b'B', 0x2C, 0x01, 0, 0, 0xCC, 0xBB, 0xAA, 0]);
    assert_eq!(fb[300], 0x00AABBCC);
}

#[test]
fn binary_pixel_skips_unset_cells() {
    let g = Geometry::new(4, 2, 1, 1).unwrap();
    let region = whole(&g);
    let fb = vec![UNSET_PIXEL; 8];
    assert!(encode_binary_pixel(&fb, &g, &region).is_empty());
}

#[test]
fn binary_sync_without_shards_is_one_frame() {
    let g = Geometry::new(2, 2, 1, 1).unwrap();
    let region = whole(&g);
    let fb = vec![1, 2, 3, 0x0A0B0C0D];
    let out = encode_binary_sync(&fb, &g, &region);
    let expected = vec![
        b'P', b'X', b'M', b'U', b'L', b'T', b'I', 0, 0, 0, 0, 4, 0, 0, 0, 1, 0, 0, 0, 2, 0, 0,
        0, 3, 0, 0, 0, 0x0D, 0x0C, 0x0B, 0x0A,
    ];
    assert_eq!(out, expected);
}

#[test]
fn binary_sync_sends_unchanged_cells_again() {
    let g = Geometry::new(2, 2, 1, 1).unwrap();
    let regions = partition(&g, 2);
    let fb = vec![0, 0, 7, 0];
    let first = encode_binary_sync(&fb, &g, &regions[1]);
    let second = encode_binary_sync(&fb, &g, &regions[1]);
    assert_eq!(first, sync_frame(0, 1, &[7, 0]));
    assert_eq!(first, second);
}

#[test]
fn binary_sync_with_shards_sends_one_frame_per_row() {
    let g = Geometry::new(4, 2, 2, 2).unwrap();
    let region = whole(&g);
    let fb = vec![0, 1, 2, 3, 4, 5, 6, 7];
    let out = encode_binary_sync(&fb, &g, &region);
    let mut expected = sync_frame(2, 0, &[2, 3]);
    expected.extend(sync_frame(2, 1, &[6, 7]));
    assert_eq!(out, expected);
    assert_eq!(out.len(), 2 * (15 + 2 * 4));
}

#[test]
fn binary_sync_with_shards_splits_a_region_at_row_ends() {
    let g = Geometry::new(6, 2, 1, 2).unwrap();
    let regions = partition(&g, 4);
    assert_eq!(regions.len(), 3);
    let fb: Vec<u32> = (0..12).collect();
    let out = encode_binary_sync(&fb, &g, &regions[1]);
    let mut expected = sync_frame(2, 0, &[2]);
    expected.extend(sync_frame(0, 1, &[6]));
    assert_eq!(out, expected);
}

#[test]
fn sync_frame_bytes() {
    let out = encode_sync_frame(0x0102, 0x0304, &[0xDEADBEEF]).unwrap();
    assert_eq!(
        out,
        vec![
            b'P', b'X', b'M', b'U', b'L', b'T', b'I', 0x02, 0x01, 0x04, 0x03, 1, 0, 0, 0, 0xEF,
            0xBE, 0xAD, 0xDE,
        ]
    );
    let empty = encode_sync_frame(0, 0, &[]).unwrap();
    assert_eq!(empty, b"PXMULTI\0\0\0\0\0\0\0\0".to_vec());
}

#[test]
fn words_as_little_endian_bytes() {
    assert_eq!(u32_to_u8(&[0x04030201, 0xFF]), vec![1, 2, 3, 4, 0xFF, 0, 0, 0]);
    assert!(u32_to_u8(&[]).is_empty());
}
