use framer::blend::{blend_color, blend_opacity, composite};
use framer::duration_ext::{format_elapsed, DurationExt};
use framer::encode::{oxipng_optimize, pngquant_optimize};
use framer::fit::{crop_top_left, fit, scaled_size};
use framer::pipeline::{frame_screenshot, overlay_image};
use framer::raster::Image;
use framer::bounds::{find_first_last, find_transparent_pixels, transpose};
use framer::rays::{detect_region, find_rect_by_rays, Strategy};
use framer::region::{filled_grid, find_contiguous_area, FramerError};
use std::time::Duration;

fn solid(width: u32, height: u32, px: [u8; 4]) -> Image {
    let mut data = Vec::new();
    for _ in 0..(width * height) {
        data.extend_from_slice(&px);
    }
    Image::from_raw(width, height, data).unwrap()
}

fn get(img: &Image, x: u32, y: u32) -> [u8; 4] {
    let i = 4 * (y as usize * img.width as usize + x as usize);
    [img.data[i], img.data[i + 1], img.data[i + 2], img.data[i + 3]]
}

fn put(img: &mut Image, x: u32, y: u32, px: [u8; 4]) {
    let i = 4 * (y as usize * img.width as usize + x as usize);
    img.data[i..i + 4].copy_from_slice(&px);
}

/// An opaque frame with a transparent hole covering columns `l..=r` and rows `t..=b`.
fn frame_with_hole(width: u32, height: u32, l: u32, t: u32, r: u32, b: u32) -> Image {
    let mut img = solid(width, height, [20, 20, 20, 255]);
    for y in t..=b {
        for x in l..=r {
            put(&mut img, x, y, [0, 0, 0, 0]);
        }
    }
    img
}

#[test]
fn transpose_swaps_rows_and_columns() {
    let m = vec![vec![true, false, false], vec![false, false, true]];
    let t = transpose(&m);
    assert_eq!(t, vec![vec![true, false], vec![false, false], vec![false, true]]);
}

#[test]
fn transpose_of_empty_is_empty() {
    assert!(transpose(&vec![]).is_empty());
    assert!(transpose(&vec![vec![], vec![]]).is_empty());
}

#[test]
fn find_first_last_over_rows() {
    let g = vec![
        vec![false, false, true, true, false],
        vec![false, true, false, false, false],
        vec![false, false, false, false, false],
    ];
    assert_eq!(find_first_last(&g, 0, 4), (1, 3));
}

#[test]
fn find_first_last_defaults() {
    assert_eq!(find_first_last(&vec![], 3, 9), (3, 9));
    let g = vec![vec![false, false], vec![false, false]];
    assert_eq!(find_first_last(&g, 0, 1), (1, 0));
}

#[test]
fn flood_fill_marks_hole_only() {
    let img = frame_with_hole(10, 8, 2, 3, 6, 5);
    let (grid, visits) = find_contiguous_area(&img, 4, 4);
    assert_eq!(visits, 5 * 3);
    assert!(visits <= 10 * 8);
    for x in 0..10usize {
        for y in 0..8usize {
            let inside = (2..=6).contains(&x) && (3..=5).contains(&y);
            assert_eq!(grid[x][y], inside);
        }
    }
}

#[test]
fn flood_fill_visits_each_pixel_once() {
    let img = solid(6, 5, [0, 0, 0, 0]);
    let (grid, visits) = find_contiguous_area(&img, 0, 0);
    assert_eq!(visits, 30);
    assert!(grid.iter().all(|col| col.iter().all(|&c| c)));
}

#[test]
fn flood_fill_stops_at_opaque_seed() {
    let img = frame_with_hole(10, 8, 2, 3, 6, 5);
    let (grid, visits) = find_contiguous_area(&img, 0, 0);
    assert_eq!(visits, 0);
    assert!(grid.iter().all(|col| col.iter().all(|&c| !c)));
}

#[test]
fn flood_fill_follows_a_notched_region() {
    // An L-shaped hole: the fill reaches round the corner.
    let mut img = frame_with_hole(12, 12, 2, 2, 4, 9);
    for x in 5..=9 {
        for y in 7..=9 {
            put(&mut img, x, y, [0, 0, 0, 10]);
        }
    }
    let (grid, visits) = find_contiguous_area(&img, 3, 3);
    assert_eq!(visits, 3 * 8 + 5 * 3);
    assert!(grid[9][9]);
    assert!(!grid[9][6]);
}

#[test]
fn detects_rectangle_bounds() {
    let img = frame_with_hole(20, 30, 4, 6, 15, 25);
    let (top, bottom, left, right, mask) = find_transparent_pixels(&img, 50, 50).ok().unwrap();
    assert_eq!((top, bottom, left, right), (5, 26, 3, 16));
    assert!(mask[4][6]);
    assert!(!mask[3][6]);
}

#[test]
fn opaque_seed_is_region_not_found() {
    let img = frame_with_hole(20, 30, 4, 6, 15, 25);
    assert!(matches!(find_transparent_pixels(&img, 0, 0), Err(FramerError::RegionNotFound)));
    assert!(matches!(find_transparent_pixels(&img, 100, 50), Err(FramerError::RegionNotFound)));
}

#[test]
fn scaled_size_covers_target() {
    assert_eq!(scaled_size(300, 600, 302, 602), (302, 604));
    assert_eq!(scaled_size(400, 100, 50, 50), (200, 50));
    assert_eq!(scaled_size(100, 100, 30, 20), (30, 30));
}

#[test]
fn crop_keeps_top_left() {
    let mut img = solid(3, 3, [1, 2, 3, 4]);
    put(&mut img, 1, 1, [9, 9, 9, 9]);
    put(&mut img, 2, 2, [7, 7, 7, 7]);
    let c = crop_top_left(&img, 2, 2);
    assert_eq!((c.width, c.height), (2, 2));
    assert_eq!(get(&c, 1, 1), [9, 9, 9, 9]);
    assert_eq!(get(&c, 0, 0), [1, 2, 3, 4]);
}

#[test]
fn fit_gives_requested_size_for_any_aspect() {
    let wide = solid(40, 10, [10, 200, 30, 255]);
    let tall = solid(10, 40, [10, 200, 30, 255]);
    for (tw, th) in [(7u32, 9u32), (20, 5), (1, 1), (33, 12)] {
        let a = fit(&wide, tw, th);
        let b = fit(&tall, tw, th);
        assert_eq!((a.width, a.height), (tw, th));
        assert_eq!((b.width, b.height), (tw, th));
        assert_eq!(a.data.len(), (4 * tw * th) as usize);
    }
}

#[test]
fn fit_never_pads() {
    let overlay = solid(30, 10, [200, 10, 10, 255]);
    let f = fit(&overlay, 8, 8);
    for y in 0..8 {
        for x in 0..8 {
            assert_eq!(get(&f, x, y)[3], 255);
        }
    }
}

#[test]
fn fit_resamples_the_overlay() {
    // A two-colour overlay scaled up: the fitted image is not the input.
    let mut overlay = solid(2, 2, [0, 0, 0, 255]);
    put(&mut overlay, 1, 0, [255, 255, 255, 255]);
    put(&mut overlay, 1, 1, [255, 255, 255, 255]);
    let f = fit(&overlay, 6, 6);
    assert_eq!((f.width, f.height), (6, 6));
    assert!(get(&f, 0, 0)[0] < 128);
    assert!(get(&f, 5, 0)[0] > 128);
}

#[test]
fn blend_formulas() {
    assert_eq!(blend_color(0, 10, 255, 200), 200);
    assert_eq!(blend_color(255, 10, 255, 200), 10);
    assert_eq!(blend_color(128, 100, 255, 200), 149);
    assert_eq!(blend_color(200, 50, 128, 90), 48);
    assert_eq!(blend_opacity(200, 100), 255);
    assert_eq!(blend_opacity(10, 20), 30);
}

#[test]
fn composite_skips_unmasked_and_opaque() {
    let mut base = solid(3, 1, [5, 5, 5, 0]);
    put(&mut base, 2, 0, [5, 5, 5, 255]);
    let mask = vec![vec![true], vec![false], vec![true]];
    let overlay = solid(3, 1, [100, 100, 100, 255]);
    let out = composite(&base, &mask, &overlay, 0, 0);
    assert_eq!(get(&out, 0, 0), [100, 100, 100, 255]);
    assert_eq!(get(&out, 1, 0), [5, 5, 5, 0]);
    assert_eq!(get(&out, 2, 0), [5, 5, 5, 255]);
}

#[test]
fn composite_never_lowers_alpha() {
    let base = solid(2, 2, [50, 60, 70, 120]);
    let mask = vec![vec![true, true], vec![true, true]];
    let overlay = solid(1, 1, [1, 2, 3, 40]);
    let out = composite(&base, &mask, &overlay, 1, 1);
    assert_eq!(get(&out, 1, 1)[3], 160);
    assert_eq!(get(&out, 0, 0), [50, 60, 70, 120]);
    for y in 0..2 {
        for x in 0..2 {
            assert!(get(&out, x, y)[3] >= 120);
        }
    }
}

#[test]
fn composite_opaque_overlay_over_clear_base() {
    let mut base = solid(3, 2, [9, 9, 9, 0]);
    put(&mut base, 1, 1, [1, 1, 1, 255]);
    let mask = vec![vec![true; 2]; 3];
    let mut overlay = solid(3, 2, [30, 60, 90, 255]);
    put(&mut overlay, 2, 0, [200, 100, 0, 255]);
    let out = composite(&base, &mask, &overlay, 0, 0);
    assert_eq!(get(&out, 0, 0), [30, 60, 90, 255]);
    assert_eq!(get(&out, 2, 0), [200, 100, 0, 255]);
    assert_eq!(get(&out, 1, 1), [1, 1, 1, 255]);
}

#[test]
fn end_to_end_phone_frame() {
    let frame = frame_with_hole(400, 800, 50, 100, 350, 700);
    let (top, bottom, left, right, mask) = find_transparent_pixels(&frame, 50, 50).ok().unwrap();
    assert_eq!((top, bottom, left, right), (99, 701, 49, 351));
    let shot = solid(300, 600, [255, 0, 0, 255]);
    let out = overlay_image(&frame, &mask, &shot, left, top, right - left, bottom - top)
        .ok()
        .unwrap();
    assert_eq!((right - left, bottom - top), (302, 602));
    for y in 0..800 {
        for x in 0..400 {
            let inside = (50..=350).contains(&x) && (100..=700).contains(&y);
            if inside {
                assert_eq!(get(&out, x, y), [255, 0, 0, 255]);
            } else {
                assert_eq!(get(&out, x, y), get(&frame, x, y));
            }
        }
    }
    let whole = frame_screenshot(&frame, &shot, Strategy::FloodFill, 50, 50).ok().unwrap();
    assert_eq!(whole.data, out.data);
}

#[test]
fn pipeline_errors() {
    let frame = frame_with_hole(40, 40, 5, 5, 30, 30);
    let shot = solid(10, 10, [1, 1, 1, 255]);
    assert!(matches!(frame_screenshot(&frame, &shot, Strategy::FloodFill, 0, 0), Err(FramerError::RegionNotFound)));
    let empty = Image::from_raw(0, 5, vec![]).unwrap();
    assert!(matches!(frame_screenshot(&frame, &empty, Strategy::RayScan, 50, 50), Err(FramerError::GeometryError)));
    let mask = vec![vec![true; 40]; 40];
    assert!(matches!(
        overlay_image(&frame, &mask, &shot, 30, 30, 20, 20),
        Err(FramerError::GeometryError)
    ));
}

#[test]
fn image_from_raw_checks_length() {
    assert!(Image::from_raw(2, 2, vec![0; 16]).is_some());
    assert!(Image::from_raw(2, 2, vec![0; 15]).is_none());
}

#[test]
fn elapsed_text_formats() {
    assert_eq!(format_elapsed(0, 250), "250ms");
    assert_eq!(format_elapsed(0, 0), "0ms");
    assert_eq!(format_elapsed(3, 245), "3.2s");
    assert_eq!(format_elapsed(12, 5), "12.5s");
    assert_eq!(Duration::from_millis(3250).display(), "3.2s");
    assert_eq!(Duration::from_millis(42).display(), "42ms");
}

#[test]
fn ray_scan_finds_rectangle_bounds() {
    let img = frame_with_hole(20, 30, 4, 6, 15, 25);
    assert_eq!(find_rect_by_rays(&img, 50, 50).ok(), Some((5, 26, 3, 16)));
    let frame = frame_with_hole(400, 800, 50, 100, 350, 700);
    assert_eq!(find_rect_by_rays(&frame, 50, 50).ok(), Some((99, 701, 49, 351)));
}

#[test]
fn ray_scan_stops_at_image_edge_and_opaque_seed() {
    let clear = solid(10, 6, [0, 0, 0, 0]);
    assert_eq!(find_rect_by_rays(&clear, 50, 50).ok(), Some((0, 6, 0, 10)));
    let img = frame_with_hole(20, 30, 4, 6, 15, 25);
    assert!(matches!(find_rect_by_rays(&img, 0, 0), Err(FramerError::RegionNotFound)));
}

#[test]
fn ray_scan_is_cut_short_by_a_notch() {
    // An opaque notch hanging into the hole right above the seed.
    let mut img = frame_with_hole(20, 20, 2, 2, 17, 17);
    for y in 2..=6 {
        put(&mut img, 10, y, [0, 0, 0, 255]);
    }
    assert_eq!(find_rect_by_rays(&img, 50, 50).ok(), Some((6, 18, 1, 18)));
    let (top, bottom, left, right, _) = find_transparent_pixels(&img, 50, 50).ok().unwrap();
    assert_eq!((top, bottom, left, right), (1, 18, 1, 18));
}

#[test]
fn strategies_agree_on_plain_rectangle() {
    let img = frame_with_hole(30, 40, 3, 5, 20, 33);
    let (t1, b1, l1, r1, _) = detect_region(&img, Strategy::FloodFill, 40, 60).ok().unwrap();
    let (t2, b2, l2, r2, mask) = detect_region(&img, Strategy::RayScan, 40, 60).ok().unwrap();
    assert_eq!((t1, b1, l1, r1), (t2, b2, l2, r2));
    assert!(mask.iter().all(|col| col.len() == 40 && col.iter().all(|&c| c)));
}

#[test]
fn ray_scan_end_to_end() {
    let frame = frame_with_hole(60, 80, 5, 10, 54, 69);
    let shot = solid(30, 40, [0, 0, 255, 255]);
    let out = frame_screenshot(&frame, &shot, Strategy::RayScan, 50, 50).ok().unwrap();
    assert_eq!(get(&out, 5, 10), [0, 0, 255, 255]);
    assert_eq!(get(&out, 54, 69), [0, 0, 255, 255]);
    assert_eq!(get(&out, 4, 10), get(&frame, 4, 10));
}

#[test]
fn filled_grid_shape() {
    let g = filled_grid(3, 2, true);
    assert_eq!(g, vec![vec![true, true]; 3]);
    assert_eq!(filled_grid(2, 1, false), vec![vec![false]; 2]);
}

#[test]
fn oxipng_keeps_pixels() {
    let mut rgba = Vec::new();
    for y in 0..16u32 {
        for x in 0..16u32 {
            rgba.extend_from_slice(&[(x * 16) as u8, (y * 16) as u8, 7, 255]);
        }
    }
    let png = lodepng::encode32(&rgba, 16, 16).unwrap();
    let out = oxipng_optimize(&png, 2).ok().unwrap();
    assert!(out.starts_with(&[0x89, b'P', b'N', b'G']));
    let back = lodepng::decode32(&out).unwrap();
    assert_eq!((back.width, back.height), (16, 16));
    let bytes: Vec<u8> = back.buffer.iter().flat_map(|p| [p.r, p.g, p.b, p.a]).collect();
    assert_eq!(bytes, rgba);
}

#[test]
fn oxipng_rejects_non_png() {
    let junk = vec![1u8, 2, 3, 4, 5, 6, 7, 8, 9];
    assert!(matches!(oxipng_optimize(&junk, 4), Err(FramerError::CompressionError)));
}

#[test]
fn pngquant_makes_palette_png() {
    let mut img = solid(8, 8, [10, 20, 30, 255]);
    for x in 0..8 {
        put(&mut img, x, 0, [250, 0, 0, 255]);
    }
    let png = pngquant_optimize(&img, 4).ok().unwrap();
    assert!(png.starts_with(&[0x89, b'P', b'N', b'G']));
    let back = lodepng::decode32(&png).unwrap();
    assert_eq!((back.width, back.height), (8, 8));
    let top = back.buffer[3];
    let rest = back.buffer[60];
    assert_eq!((top.r, top.g, top.b, top.a), (250, 0, 0, 255));
    assert_eq!((rest.r, rest.g, rest.b, rest.a), (10, 20, 30, 255));
}

#[test]
fn transpose_keeps_first_row_width() {
    let m = vec![vec![true, false], vec![false, true, true]];
    assert_eq!(transpose(&m), vec![vec![true, false], vec![false, true]]);
}
