use jietu_viewer::hybrid::prep_bases;

/// Three by two blocks in two groups of two by two blocks: DCT8 starts at (0,0), (1,0)
/// and (2,1); a 2×2 varblock at (2,0) and a kind-1 block at (1,1).
fn strategy() -> Vec<u8> {
    vec![1, 1, 9, 0, 3, 1]
}

#[test]
fn bases_follow_group_offsets() {
    let r = prep_bases(&strategy(), 2, 16, 2, 3, 2, 3, 2);
    assert_eq!(r, Ok(vec![0u32, 64, 512]));
}

#[test]
fn bases_report_block_outside_dc() {
    let r = prep_bases(&strategy(), 2, 16, 2, 3, 2, 2, 2);
    assert_eq!(r, Err("DC 坐标越界: abs (2,1) dc 2x2".to_string()));
}

#[test]
fn bases_need_a_dct8_block() {
    let r = prep_bases(&[0u8, 2, 4, 0, 0, 0], 2, 16, 2, 3, 2, 3, 2);
    assert_eq!(r, Err("无 DCT8 块".to_string()));
    let none = prep_bases(&[], 0, 16, 0, 0, 0, 0, 0);
    assert_eq!(none, Err("无 DCT8 块".to_string()));
}
