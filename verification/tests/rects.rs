use bitmap2ttf::collect_pixel_rects;

fn covered(rects: &[(u32, u32, u32, u32)], x: u32, y: u32) -> usize {
    rects
        .iter()
        .filter(|(rx, ry, rw, rh)| *rx <= x && x < rx + rw && *ry <= y && y < ry + rh)
        .count()
}

#[test]
fn single_pixel_rects_are_row_major() {
    let pixels = vec![0, 1, 1, 0, 0, 1];
    let rects = collect_pixel_rects(3, 2, &pixels, false);
    assert_eq!(rects, vec![(1, 0, 1, 1), (2, 0, 1, 1), (2, 1, 1, 1)]);
}

#[test]
fn empty_bitmap_has_no_rects() {
    assert!(collect_pixel_rects(4, 3, &[0; 12], true).is_empty());
    assert!(collect_pixel_rects(4, 3, &[0; 12], false).is_empty());
    assert!(collect_pixel_rects(0, 0, &[], true).is_empty());
}

#[test]
fn short_buffer_counts_missing_pixels_as_empty() {
    let rects = collect_pixel_rects(2, 2, &[1, 1, 1], true);
    assert_eq!(rects, vec![(0, 0, 2, 1), (0, 1, 1, 1)]);
    let single = collect_pixel_rects(2, 2, &[1, 1, 1], false);
    assert_eq!(single, vec![(0, 0, 1, 1), (1, 0, 1, 1), (0, 1, 1, 1)]);
}

#[test]
fn merged_cover_of_an_l_shape() {
    // X . .
    // X . .
    // X X X
    let pixels = vec![1, 0, 0, 1, 0, 0, 1, 1, 1];
    let rects = collect_pixel_rects(3, 3, &pixels, true);
    assert_eq!(rects, vec![(0, 0, 1, 2), (0, 2, 3, 1)]);
}

#[test]
fn merged_rects_cover_each_filled_pixel_once() {
    let width = 5;
    let height = 4;
    let pixels: Vec<u8> = vec![
        1, 1, 0, 1, 1, //
        1, 1, 0, 1, 0, //
        0, 1, 1, 1, 0, //
        1, 0, 0, 1, 1,
    ];
    let rects = collect_pixel_rects(width, height, &pixels, true);
    for y in 0..height {
        for x in 0..width {
            let expected = usize::from(pixels[(y * width + x) as usize] != 0);
            assert_eq!(covered(&rects, x, y), expected, "pixel ({x}, {y})");
        }
    }
    let single = collect_pixel_rects(width, height, &pixels, false);
    assert_eq!(single.len(), pixels.iter().filter(|p| **p != 0).count());
    assert!(rects.len() <= single.len());
}

#[test]
fn merged_rects_are_ordered_by_bottom_then_left() {
    // . X .
    // X X X
    let pixels = vec![0, 1, 0, 1, 1, 1];
    let rects = collect_pixel_rects(3, 2, &pixels, true);
    assert_eq!(rects, vec![(1, 0, 1, 1), (0, 1, 3, 1)]);
    // X . X
    // X . X
    let pixels = vec![1, 0, 1, 1, 0, 1];
    let rects = collect_pixel_rects(3, 2, &pixels, true);
    assert_eq!(rects, vec![(0, 0, 1, 2), (2, 0, 1, 2)]);
}

#[test]
fn covers_depend_only_on_filled_pixels() {
    let exact = vec![1, 0, 1, 1];
    let padded_short = vec![9, 0, 3];
    let short = vec![1, 0, 1];
    let long = vec![1, 0, 1, 1, 7, 7, 7];
    assert_eq!(collect_pixel_rects(2, 2, &exact, true), collect_pixel_rects(2, 2, &long, true));
    assert_eq!(collect_pixel_rects(2, 2, &exact, false), collect_pixel_rects(2, 2, &long, false));
    assert_eq!(collect_pixel_rects(2, 2, &short, true), collect_pixel_rects(2, 2, &padded_short, true));
    assert_eq!(collect_pixel_rects(2, 2, &[1, 0, 1, 0], true), collect_pixel_rects(2, 2, &short, true));
}

#[test]
fn merged_areas_add_up_to_filled_pixels() {
    let pixels = vec![
        1, 1, 0, 1, //
        1, 1, 0, 1, //
        0, 1, 1, 1, //
        1, 0, 0, 1, //
    ];
    let single = collect_pixel_rects(4, 4, &pixels, false);
    let merged = collect_pixel_rects(4, 4, &pixels, true);
    let area: u64 = merged.iter().map(|r| u64::from(r.2) * u64::from(r.3)).sum();
    assert_eq!(single.len(), 11);
    assert_eq!(area, 11);
    assert!(merged.len() <= single.len());
}
