use rpeg::array2::Array2;
use rpeg::conversions::{
    component_video_to_blocks, fix_pixel_poss, from_blocks_to_component_format, get_block,
    pack_values_into_word, unpack_values,
};
use rpeg::structs::{Block, DCTCoefficient};

fn coefficient(a: u64, b: i64, c: i64, d: i64, pb: usize, pr: usize) -> DCTCoefficient {
    DCTCoefficient { a, b, c, d, index_of_pb: pb, index_of_pr: pr }
}

fn words_of(bytes: &[[u8; 4]]) -> Vec<u32> {
    bytes.iter().map(|b| u32::from_be_bytes(*b)).collect()
}

#[test]
fn pack_gives_layout_bytes() {
    let coeffs = vec![coefficient(511, -16, -1, -5, 8, 10), coefficient(256, 3, -2, 0, 7, 15)];
    let packed = pack_values_into_word(Array2::from_row_major(4, 2, coeffs)).unwrap();
    assert_eq!(packed.get_width(), 4);
    assert_eq!(packed.get_height(), 2);
    assert_eq!(packed.data, vec![[255, 195, 251, 138], [128, 15, 192, 127]]);
}

#[test]
fn pack_starts_from_an_empty_word() {
    let packed =
        pack_values_into_word(Array2::from_row_major(2, 2, vec![coefficient(0, 0, 0, 0, 0, 0)]))
            .unwrap();
    assert_eq!(packed.data, vec![[0, 0, 0, 0]]);
}

#[test]
fn pack_rejects_overflowing_fields() {
    let too_bright = vec![coefficient(512, 0, 0, 0, 0, 0)];
    assert!(pack_values_into_word(Array2::from_row_major(2, 2, too_bright)).is_none());
    let too_steep = vec![coefficient(0, 0, 17, 0, 0, 0)];
    assert!(pack_values_into_word(Array2::from_row_major(2, 2, too_steep)).is_none());
    let bad_chroma = vec![coefficient(0, 0, 0, 0, 0, 16)];
    assert!(pack_values_into_word(Array2::from_row_major(2, 2, bad_chroma)).is_none());
    let second_bad = vec![coefficient(1, 1, 1, 1, 1, 1), coefficient(0, -17, 0, 0, 0, 0)];
    assert!(pack_values_into_word(Array2::from_row_major(4, 2, second_bad)).is_none());
}

#[test]
fn unpack_reads_layout_fields() {
    let grid = unpack_values(vec![0xffc3fb8a, 0x800fc07f], 4, 2);
    assert_eq!(grid.get_width(), 4);
    assert_eq!(grid.get_height(), 2);
    assert_eq!(
        grid.data,
        vec![coefficient(511, -16, -1, -5, 8, 10), coefficient(256, 3, -2, 0, 7, 15)]
    );
}

#[test]
fn pack_unpack_round_trip() {
    let coeffs = vec![
        coefficient(0, -16, -16, -16, 0, 0),
        coefficient(511, 15, 15, 15, 15, 15),
        coefficient(137, -3, 9, 0, 4, 11),
        coefficient(42, 0, -1, 1, 7, 8),
    ];
    let packed = pack_values_into_word(Array2::from_row_major(4, 4, coeffs.clone())).unwrap();
    let grid = unpack_values(words_of(&packed.data), 4, 4);
    assert_eq!(grid.data, coeffs);
}

#[test]
fn difference_at_top_of_closed_range_wraps() {
    let packed =
        pack_values_into_word(Array2::from_row_major(2, 2, vec![coefficient(0, 16, 0, 0, 0, 0)]))
            .unwrap();
    let grid = unpack_values(words_of(&packed.data), 2, 2);
    assert_eq!(grid.data[0].b, -16);
}

#[test]
fn block_corners() {
    let grid = Array2::from_row_major(4, 2, vec![1, 2, 3, 4, 5, 6, 7, 8]);
    assert_eq!(get_block(&grid, 0, 2), Block { y1: 3, y2: 4, y3: 7, y4: 8 });
}

#[test]
fn blocks_in_scan_order() {
    let grid = Array2::from_row_major(4, 4, (1..=16).collect::<Vec<i32>>());
    let blocks = component_video_to_blocks(grid);
    assert_eq!(blocks.get_width(), 4);
    assert_eq!(blocks.get_height(), 4);
    assert_eq!(
        blocks.data,
        vec![
            Block { y1: 1, y2: 2, y3: 5, y4: 6 },
            Block { y1: 3, y2: 4, y3: 7, y4: 8 },
            Block { y1: 9, y2: 10, y3: 13, y4: 14 },
            Block { y1: 11, y2: 12, y3: 15, y4: 16 },
        ]
    );
}

#[test]
fn blocks_flatten_in_corner_order() {
    let blocks = Array2::from_row_major(
        4,
        2,
        vec![Block { y1: 1, y2: 2, y3: 5, y4: 6 }, Block { y1: 3, y2: 4, y3: 7, y4: 8 }],
    );
    let flat = from_blocks_to_component_format(blocks);
    assert_eq!(flat.get_width(), 4);
    assert_eq!(flat.get_height(), 2);
    assert_eq!(flat.data, vec![1, 2, 5, 6, 3, 4, 7, 8]);
}

#[test]
fn scatter_restores_raster_order() {
    let flat = Array2::from_row_major(4, 2, vec![1, 2, 5, 6, 3, 4, 7, 8]);
    assert_eq!(fix_pixel_poss(flat), vec![1, 2, 3, 4, 5, 6, 7, 8]);
}

#[test]
fn empty_grid_through_block_stages() {
    let grid: Array2<u8> = Array2::new();
    let blocks = component_video_to_blocks(grid);
    assert!(blocks.data.is_empty());
    let flat = from_blocks_to_component_format(blocks);
    assert!(fix_pixel_poss(flat).is_empty());
}

#[test]
fn block_layout_round_trip() {
    let data: Vec<u32> = (0..24).collect();
    let grid = Array2::from_row_major(6, 4, data.clone());
    let flat = from_blocks_to_component_format(component_video_to_blocks(grid));
    assert_eq!(fix_pixel_poss(flat), data);
}

#[test]
fn odd_dimensions_are_trimmed_through_the_pipeline() {
    let data: Vec<u32> = (1..=15).collect();
    let trimmed = Array2::from_even_dimension(5, 3, data);
    let blocks = component_video_to_blocks(trimmed.clone());
    assert_eq!((blocks.get_width(), blocks.get_height()), (4, 2));
    let coeffs: Vec<DCTCoefficient> =
        blocks.data.iter().map(|b| coefficient(b.y1 as u64, 0, 0, 0, 0, 0)).collect();
    let packed = pack_values_into_word(Array2::from_row_major(4, 2, coeffs)).unwrap();
    assert_eq!((packed.get_width(), packed.get_height()), (4, 2));
    let unpacked = unpack_values(words_of(&packed.data), packed.get_width(), packed.get_height());
    assert_eq!((unpacked.get_width(), unpacked.get_height()), (4, 2));
    let flat = from_blocks_to_component_format(component_video_to_blocks(trimmed.clone()));
    let restored = fix_pixel_poss(flat);
    assert_eq!(restored.len(), 8);
    assert_eq!(restored, trimmed.data);
}
