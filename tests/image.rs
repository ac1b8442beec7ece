use cros_p9::image::{
    detile_plane, extend_border_nv12, y410_to_i410, i420_to_nv12, i420_to_nv12_chroma, i4xx_copy, mm21_to_nv12, nv12_copy,
    nv12_to_i420, nv12_to_i420_chroma,
};

#[test]
fn nv12_copy_removes_padding() {
    // 2x2 image in planes with a stride of 3.
    let src_y = [1u8, 2, 99, 3, 4, 99];
    let src_uv = [5u8, 6, 99];
    let mut dst_y = [0u8; 4];
    let mut dst_uv = [0u8; 2];
    nv12_copy(&src_y, 3, &mut dst_y, 2, &src_uv, 3, &mut dst_uv, 2, 2, 2);
    assert_eq!(dst_y, [1, 2, 3, 4]);
    assert_eq!(dst_uv, [5, 6]);
}

#[test]
fn nv12_copy_keeps_destination_padding() {
    let src_y = [1u8, 2, 3, 4];
    let src_uv = [5u8, 6];
    let mut dst_y = [9u8; 6];
    let mut dst_uv = [9u8; 3];
    nv12_copy(&src_y, 2, &mut dst_y, 3, &src_uv, 2, &mut dst_uv, 3, 2, 2);
    assert_eq!(dst_y, [1, 2, 9, 3, 4, 9]);
    assert_eq!(dst_uv, [5, 6, 9]);
}

#[test]
fn chroma_split_and_merge() {
    let uv = [1u8, 2, 3, 4, 5, 6];
    let mut u = [0u8; 3];
    let mut v = [0u8; 3];
    nv12_to_i420_chroma(&uv, &mut u, &mut v);
    assert_eq!(u, [1, 3, 5]);
    assert_eq!(v, [2, 4, 6]);
    let mut back = [0u8; 6];
    i420_to_nv12_chroma(&u, &v, &mut back);
    assert_eq!(back, uv);
}

#[test]
fn nv12_i420_round_trip() {
    let y = [10u8, 20, 30, 40];
    let uv = [1u8, 2];
    let mut y2 = [0u8; 4];
    let mut u = [0u8; 1];
    let mut v = [0u8; 1];
    nv12_to_i420(&y, &mut y2, &uv, &mut u, &mut v);
    assert_eq!(y2, y);
    assert_eq!((u[0], v[0]), (1, 2));
    let mut y3 = [0u8; 4];
    let mut uv2 = [0u8; 2];
    i420_to_nv12(&y2, &mut y3, &u, &v, &mut uv2);
    assert_eq!(y3, y);
    assert_eq!(uv2, uv);
}

#[test]
fn i4xx_copy_420() {
    // 2x2 luma with stride 4 at offset 0, 1x1 chroma planes at offsets 8 and 10.
    let src = [1u8, 2, 0, 0, 3, 4, 0, 0, 5, 0, 6, 0];
    let mut dst = [0u8; 7];
    i4xx_copy(&src, &mut dst, 2, 2, [4, 2, 2], [0, 8, 10], (true, true));
    assert_eq!(dst, [1, 2, 3, 4, 5, 6, 0]);
}

#[test]
fn i4xx_copy_444() {
    let src = [1u8, 2, 3, 4, 5, 6];
    let mut dst = [0u8; 6];
    i4xx_copy(&src, &mut dst, 2, 1, [2, 2, 2], [0, 2, 4], (false, false));
    assert_eq!(dst, src);
}

#[test]
fn detile_two_tiles() {
    // Two 2x2 tiles side by side make a 4x2 plane.
    let src = [1u8, 2, 5, 6, 3, 4, 7, 8];
    let mut dst = [0u8; 8];
    detile_plane(&src, &mut dst, 4, 2, 2, 2).expect("aligned");
    assert_eq!(dst, [1, 2, 3, 4, 5, 6, 7, 8]);
}

#[test]
fn detile_rejects_unaligned() {
    let src = [0u8; 6];
    let mut dst = [7u8; 6];
    assert!(detile_plane(&src, &mut dst, 3, 2, 2, 2).is_err());
    assert_eq!(dst, [7u8; 6]);
}

#[test]
fn mm21_single_tile() {
    let src_y: Vec<u8> = (0..512u32).map(|i| (i % 251) as u8).collect();
    let src_uv: Vec<u8> = (0..256u32).map(|i| (i % 13) as u8).collect();
    let mut dst_y = vec![0u8; 512];
    let mut dst_uv = vec![0u8; 256];
    mm21_to_nv12(&src_y, &mut dst_y, &src_uv, &mut dst_uv, 16, 32).expect("aligned");
    // A plane one tile wide is already linear.
    assert_eq!(dst_y, src_y);
    assert_eq!(dst_uv, src_uv);
    assert!(mm21_to_nv12(&src_y, &mut dst_y, &src_uv, &mut dst_uv, 8, 32).is_err());
}

#[test]
fn extend_border_repeats_last_pixels() {
    // Visible 2x2 in a coded 4x4 luma plane; chroma is 4x2 with 1 visible row.
    let mut y = [1u8, 2, 0, 0, 3, 4, 0, 0, 0, 0, 0, 0, 0, 0, 0, 0];
    let mut uv = [5u8, 6, 0, 0, 0, 0, 0, 0];
    extend_border_nv12(&mut y, &mut uv, 2, 2, 4, 4);
    assert_eq!(y, [1, 2, 2, 2, 3, 4, 4, 4, 3, 4, 4, 4, 3, 4, 4, 4]);
    assert_eq!(uv, [5, 6, 5, 6, 5, 6, 5, 6]);
}

#[test]
fn extend_border_odd_padding() {
    let mut y = [1u8, 2, 3, 0, 0, 4, 5, 6, 0, 0];
    let mut uv = [7u8, 8, 9, 0, 0];
    extend_border_nv12(&mut y, &mut uv, 3, 2, 5, 2);
    assert_eq!(y, [1, 2, 3, 3, 3, 4, 5, 6, 6, 6]);
    assert_eq!(uv, [7, 8, 9, 8, 9]);
}

#[test]
fn y410_unpacks_samples() {
    // u = 0x3ff, y = 0x155, v = 0x2aa, alpha = 3, packed in 32 bits.
    let packed: u32 = 0x3ff | (0x155 << 10) | (0x2aa << 20) | (3 << 30);
    let src = packed.to_le_bytes();
    let mut dst = [0u8; 6];
    y410_to_i410(&src, &mut dst, 1, 1, [4, 0, 0], [0, 0, 0]);
    assert_eq!(u16::from_le_bytes([dst[0], dst[1]]), 0x155);
    assert_eq!(u16::from_le_bytes([dst[2], dst[3]]), 0x3ff);
    assert_eq!(u16::from_le_bytes([dst[4], dst[5]]), 0x2aa);
}
