use hwb::{hue_palette, hwb_to_rgb, palette, palette_grid, Hwb, Pixels};

fn pixel(p: &Pixels, x: u32, y: u32) -> [u8; 3] {
    let i = ((y * p.width() + x) * 3) as usize;
    let d = p.data();
    [d[i], d[i + 1], d[i + 2]]
}

#[test]
fn test_palettes() {
    for hue in (0..360).step_by(30) {
        let color: Hwb = (hue * 10, 0, 0);
        let pixels = palette(color);
        assert!(pixels.to_png().is_ok());
    }
}

#[test]
fn test_hue_palette() {
    let pixels = hue_palette();
    assert!(pixels.to_png().is_ok());
}

#[test]
fn palette_cells_hold_their_step_colors() {
    let p = palette((600, 0, 0));
    assert_eq!(p.width(), 128);
    assert_eq!(p.height(), 128);
    assert_eq!(p.data().len(), 128 * 128 * 3);
    for row in 0..8u32 {
        for col in 0..8u32 {
            let expected = hwb_to_rgb((600, (1000 * row / 7) as u16, (1000 * col / 7) as u16));
            assert_eq!(pixel(&p, col * 16 + 8, row * 16 + 8), expected);
            assert_eq!(pixel(&p, col * 16, row * 16), expected);
            assert_eq!(pixel(&p, col * 16 + 15, row * 16 + 15), expected);
        }
    }
}

#[test]
fn palette_grid_size_follows_steps_and_scale() {
    let p = palette_grid(1200, 3, 3, 5);
    assert_eq!(p.width(), 15);
    assert_eq!(p.height(), 15);
    assert_eq!(p.data().len(), 15 * 15 * 3);
    assert_eq!(pixel(&p, 2, 2), [0, 255, 0]);
    assert_eq!(pixel(&p, 12, 2), [0, 0, 0]);
    assert_eq!(pixel(&p, 2, 12), [255, 255, 255]);
    assert_eq!(pixel(&p, 7, 7), hwb_to_rgb((1200, 500, 500)));
}

#[test]
fn hue_palette_rows_run_from_black_to_white() {
    let p = hue_palette();
    assert_eq!(p.width(), 384);
    assert_eq!(p.height(), 160);
    assert_eq!(pixel(&p, 8, 8), hwb_to_rgb((0, 0, 900)));
    assert_eq!(pixel(&p, 8, 5 * 16 + 8), [255, 0, 0]);
    assert_eq!(pixel(&p, 8 * 16 + 8, 5 * 16 + 8), hue_to_rgb_at(1200));
    assert_eq!(pixel(&p, 383, 159), hwb_to_rgb((3450, 800, 0)));
}

fn hue_to_rgb_at(hue: u32) -> [u8; 3] {
    hwb_to_rgb((hue, 0, 0))
}

#[test]
fn palette_grid_steps_rows_and_columns_apart() {
    let p = palette_grid(0, 2, 3, 4);
    assert_eq!(p.width(), 12);
    assert_eq!(p.height(), 8);
    assert_eq!(p.data().len(), 12 * 8 * 3);
    assert_eq!(pixel(&p, 1, 1), [255, 0, 0]);
    assert_eq!(pixel(&p, 5, 1), hwb_to_rgb((0, 0, 500)));
    assert_eq!(pixel(&p, 11, 1), [0, 0, 0]);
    assert_eq!(pixel(&p, 5, 6), hwb_to_rgb((0, 1000, 500)));
    assert_eq!(pixel(&p, 1, 7), [255, 255, 255]);
}
