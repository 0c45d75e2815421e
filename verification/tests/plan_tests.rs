//! Tests of the capacity search on bare dimensions, and of error messages.

use sprite_atlas::{plan_pack, AtlasError};

#[test]
fn small_set_plans_at_full_scale_in_first_bin() {
    let dims = vec![(100u32, 100u32), (50, 50), (30, 30)];
    let lay = plan_pack(&dims, 2).unwrap();
    assert_eq!(lay.scale_pct, 100);
    assert_eq!(lay.bin_size, 256);
    assert_eq!(lay.sizes, vec![(100, 100), (50, 50), (30, 30)]);
    assert!(lay.canvas_w <= 256 && lay.canvas_h <= 256);
}

#[test]
fn oversized_square_is_scaled_to_forty_percent() {
    // A 5000-pixel square exceeds the 2048 ceiling down to 50 percent; at
    // 40 percent it becomes 2000 and fits the largest bin, so the fallback
    // accepts 0.4 rather than failing.
    let dims = vec![(5000u32, 5000u32)];
    let lay = plan_pack(&dims, 0).unwrap();
    assert_eq!(lay.scale_pct, 40);
    assert_eq!(lay.bin_size, 2048);
    assert_eq!(lay.sizes, vec![(2000, 2000)]);
    assert_eq!((lay.canvas_w, lay.canvas_h), (2000, 2000));
}

#[test]
fn padding_beyond_ceiling_is_infeasible() {
    // Padding is not scaled: 2 * 1025 alone exceeds the 2048 ceiling at
    // every scale factor.
    let dims = vec![(10u32, 10u32)];
    let r = plan_pack(&dims, 1025);
    assert!(matches!(r, Err(AtlasError::PackingInfeasible)));
}

#[test]
fn plan_is_deterministic() {
    let dims = vec![(300u32, 200u32), (120, 450), (77, 33), (500, 500)];
    let l1 = plan_pack(&dims, 4).unwrap();
    let l2 = plan_pack(&dims, 4).unwrap();
    assert_eq!(l1.scale_pct, l2.scale_pct);
    assert_eq!(l1.bin_size, l2.bin_size);
    assert_eq!(l1.sizes, l2.sizes);
    assert_eq!(l1.spots, l2.spots);
    assert_eq!((l1.canvas_w, l1.canvas_h), (l2.canvas_w, l2.canvas_h));
}

#[test]
fn canvas_is_tight_bounding_box() {
    let dims = vec![(100u32, 100u32), (50, 50)];
    let padding = 2u32;
    let lay = plan_pack(&dims, padding).unwrap();
    let mut max_r = 0;
    let mut max_b = 0;
    for i in 0..dims.len() {
        let (x, y) = lay.spots[i];
        let (w, h) = lay.sizes[i];
        max_r = max_r.max(x + w + 2 * padding);
        max_b = max_b.max(y + h + 2 * padding);
    }
    assert_eq!(lay.canvas_w, max_r);
    assert_eq!(lay.canvas_h, max_b);
}

#[test]
fn error_messages() {
    assert_eq!(AtlasError::EmptyInput.message(), "No images to pack");
    assert_eq!(
        AtlasError::PackingInfeasible.message(),
        "Images too large to pack even at 20% scale"
    );
    assert_eq!(
        AtlasError::DecodeError.message(),
        "Failed to decode an input image"
    );
}

#[test]
fn grid_cells_row_major() {
    let xs = vec![0u32, 10, 30];
    let ys = vec![0u32, 5, 25];
    let cells = sprite_atlas::grid_cells(&xs, &ys).unwrap();
    assert_eq!(
        cells,
        vec![
            (0, 0, 10, 5),
            (10, 0, 20, 5),
            (0, 5, 10, 20),
            (10, 5, 20, 20),
        ]
    );
}

#[test]
fn grid_cells_reject_unsorted_lines() {
    let xs = vec![0u32, 30, 10];
    let ys = vec![0u32, 5];
    assert!(sprite_atlas::grid_cells(&xs, &ys).is_none());
}

#[test]
fn grid_cells_empty_lines() {
    let cells = sprite_atlas::grid_cells(&Vec::new(), &Vec::new()).unwrap();
    assert!(cells.is_empty());
}

#[test]
fn payload_size_counts_decoded_bytes() {
    // "AAAA" decodes to three zero bytes; the data-URL prefix is dropped.
    assert_eq!(sprite_atlas::payload_size(&"AAAA".to_string()), Some(3));
    assert_eq!(
        sprite_atlas::payload_size(&"data:image/png;base64,AAAA".to_string()),
        Some(3)
    );
    assert_eq!(sprite_atlas::payload_size(&"!!!".to_string()), None);
}
