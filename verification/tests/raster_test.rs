use rustyray::raster::{border_pixels, paint, zone_pixels, zone_traversal, Pixel, Rgb};

fn px(i: usize, j: usize) -> Pixel {
    Pixel { i, j }
}

#[test]
fn zone_pixels_column_major() {
    assert_eq!(
        zone_pixels(2, 3),
        vec![px(0, 0), px(0, 1), px(0, 2), px(1, 0), px(1, 1), px(1, 2)]
    );
    assert!(zone_pixels(0, 5).is_empty());
}

#[test]
fn border_pixels_order() {
    assert_eq!(
        border_pixels(3, 4),
        vec![
            px(0, 0), px(0, 3), px(1, 0), px(1, 3), px(2, 0), px(2, 3),
            px(0, 1), px(0, 2), px(2, 1), px(2, 2)
        ]
    );
}

#[test]
fn border_pixels_single_row_repeats() {
    assert_eq!(border_pixels(2, 1), vec![px(0, 0), px(0, 0), px(1, 0), px(1, 0)]);
    assert_eq!(border_pixels(1, 2), vec![px(0, 0), px(0, 1)]);
}

#[test]
fn border_pixels_texture_size() {
    let b = border_pixels(16, 16);
    assert_eq!(b.len(), 2 * 16 + 2 * 14);
    for p in b.iter() {
        assert!(p.i == 0 || p.i == 15 || p.j == 0 || p.j == 15);
    }
    let mut seen = vec![false; 256];
    for p in b.iter() {
        seen[p.j * 16 + p.i] = true;
    }
    for j in 0..16 {
        for i in 0..16 {
            let on_border = i == 0 || i == 15 || j == 0 || j == 15;
            assert_eq!(seen[j * 16 + i], on_border);
        }
    }
}

#[test]
fn traversal_dispatches_on_border() {
    assert_eq!(zone_traversal(3, 4, true), border_pixels(3, 4));
    assert_eq!(zone_traversal(3, 4, false), zone_pixels(3, 4));
}

#[test]
fn paint_whole_zone_gives_each_pixel_its_colour() {
    let (w, h) = (4usize, 3usize);
    let pixels = zone_pixels(w, h);
    let colors: Vec<Rgb> = (0..pixels.len())
        .map(|k| Rgb { r: k as u8, g: 100 + k as u8, b: 200 + k as u8 })
        .collect();
    let mut buffer = vec![7u8; w * h * 3 + 5];
    paint(&mut buffer[..], w * 3, &pixels, &colors);
    for i in 0..w {
        for j in 0..h {
            let off = (j * w + i) * 3;
            let c = colors[i * h + j];
            assert_eq!(&buffer[off..off + 3], &[c.r, c.g, c.b]);
        }
    }
    assert_eq!(&buffer[w * h * 3..], &[7u8; 5]);
}

#[test]
fn paint_last_write_wins_and_rest_kept() {
    let mut buffer = [0u8; 12];
    let pixels = vec![px(1, 0), px(0, 1), px(1, 0)];
    let colors = vec![
        Rgb { r: 1, g: 2, b: 3 },
        Rgb { r: 4, g: 5, b: 6 },
        Rgb { r: 7, g: 8, b: 9 },
    ];
    paint(&mut buffer, 6, &pixels, &colors);
    assert_eq!(buffer, [0, 0, 0, 7, 8, 9, 4, 5, 6, 0, 0, 0]);
}

#[test]
fn paint_texture_sized_zone() {
    let pixels = zone_pixels(16, 16);
    let colors = vec![Rgb { r: 255, g: 0, b: 128 }; pixels.len()];
    let mut buffer = [0u8; 768];
    paint(&mut buffer, 48, &pixels, &colors);
    for k in 0..256 {
        assert_eq!(&buffer[k * 3..k * 3 + 3], &[255, 0, 128]);
    }
}

#[test]
fn paint_with_wider_row_pitch() {
    // Rows 8 bytes apart, as a texture with padding at the end of each row.
    let mut buffer = [0u8; 16];
    let pixels = zone_pixels(2, 2);
    let colors = vec![
        Rgb { r: 1, g: 1, b: 1 },
        Rgb { r: 2, g: 2, b: 2 },
        Rgb { r: 3, g: 3, b: 3 },
        Rgb { r: 4, g: 4, b: 4 },
    ];
    paint(&mut buffer, 8, &pixels, &colors);
    assert_eq!(buffer, [1, 1, 1, 3, 3, 3, 0, 0, 2, 2, 2, 4, 4, 4, 0, 0]);
}
