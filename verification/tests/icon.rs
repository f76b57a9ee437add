use usagi::icon::{scale_nearest, tile_origin};

#[test]
fn scale_nearest_doubles_a_2x2_to_4x4() {
    let src: Vec<u8> = vec![
        255, 0, 0, 255, 0, 255, 0, 255, //
        0, 0, 255, 255, 255, 255, 255, 255,
    ];
    let dst = scale_nearest(&src, 2, 2, 4, 4);
    assert_eq!(dst.len(), 4 * 4 * 4);
    for y in 0..2 {
        for x in 0..2 {
            let i = (y * 4 + x) * 4;
            assert_eq!(&dst[i..i + 4], &[255, 0, 0, 255]);
        }
    }
    for y in 2..4 {
        for x in 2..4 {
            let i = (y * 4 + x) * 4;
            assert_eq!(&dst[i..i + 4], &[255, 255, 255, 255]);
        }
    }
}

#[test]
fn scale_nearest_downscales_by_sampling() {
    let src: Vec<u8> = (0..16u8).flat_map(|p| [p, p, p, 255]).collect();
    let dst = scale_nearest(&src, 4, 4, 2, 2);
    let firsts: Vec<u8> = dst.chunks(4).map(|c| c[0]).collect();
    assert_eq!(firsts, vec![0, 2, 8, 10]);
}

#[test]
fn tile_origin_counts_row_major_from_one() {
    assert_eq!(tile_origin(64, 32, 1), Some((0, 0)));
    assert_eq!(tile_origin(64, 32, 4), Some((48, 0)));
    assert_eq!(tile_origin(64, 32, 5), Some((0, 16)));
    assert_eq!(tile_origin(64, 32, 8), Some((48, 16)));
    assert_eq!(tile_origin(64, 32, 9), None);
    assert_eq!(tile_origin(64, 32, 0), None);
    assert_eq!(tile_origin(15, 32, 1), None);
    assert_eq!(tile_origin(40, 40, 4), Some((16, 16)));
}
