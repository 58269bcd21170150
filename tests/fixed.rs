use hwb::{gray, hue_to_rgb, hwb_to_rgb, mix, rgb, rgb_to_hue, rgb_to_hwb};

#[test]
fn test_convert() {
    assert_eq!(rgb_to_hwb(rgb(0xff0000)), (0, 0, 0));
    // 128 and the chroma 255 both scale by 1000/256, to 500 and 996, and 600 * 500 / 996 is 301.
    assert_eq!(rgb_to_hwb(rgb(0xff8000)), (301, 0, 0));
    assert_eq!(rgb_to_hwb(rgb(0x00ff00)), (1200, 0, 0));
    assert_eq!(rgb_to_hwb(rgb(0x0000ff)), (2400, 0, 0));
    assert_eq!(rgb_to_hwb(rgb(0xffff00)), (600, 0, 0));
    assert_eq!(rgb_to_hwb(rgb(0x00ffff)), (1800, 0, 0));
    assert_eq!(rgb_to_hwb(rgb(0xff00ff)), (3000, 0, 0));

    assert_eq!(rgb_to_hwb(rgb(0xcc3333)), (0, 200, 200));
    // 128 * 1000 / 255 truncates to 501 and 127 * 1000 / 255 to 498.
    assert_eq!(rgb_to_hwb(rgb(0x808080)), (0, 501, 498));
}

#[test]
fn test_hue_to_rgb() {
    assert_eq!(hue_to_rgb(0), rgb(0xff0000));
    assert_eq!(hue_to_rgb(600), rgb(0xffff00));
    assert_eq!(hue_to_rgb(1200), rgb(0x00ff00));
    assert_eq!(hue_to_rgb(1800), rgb(0x00ffff));
    assert_eq!(hue_to_rgb(2400), rgb(0x0000ff));
    assert_eq!(hue_to_rgb(3000), rgb(0xff00ff));
}

#[test]
fn test_hwb_block_red() {
    assert_eq!(hwb_to_rgb((0, 0, 0)), rgb(0xff0000));
    assert_eq!(hwb_to_rgb((0, 200, 0)), rgb(0xff3333));
    assert_eq!(hwb_to_rgb((0, 400, 0)), rgb(0xff6666));
    assert_eq!(hwb_to_rgb((0, 600, 0)), rgb(0xff9999));
    assert_eq!(hwb_to_rgb((0, 800, 0)), rgb(0xffcccc));
    assert_eq!(hwb_to_rgb((0, 1000, 0)), rgb(0xffffff));

    assert_eq!(hwb_to_rgb((0, 0, 0)), rgb(0xff0000));
    assert_eq!(hwb_to_rgb((0, 0, 200)), rgb(0xcc0000));
    assert_eq!(hwb_to_rgb((0, 0, 400)), rgb(0x990000));
    assert_eq!(hwb_to_rgb((0, 0, 600)), rgb(0x660000));
    assert_eq!(hwb_to_rgb((0, 0, 800)), rgb(0x330000));
    assert_eq!(hwb_to_rgb((0, 0, 1000)), rgb(0x000000));

    assert_eq!(hwb_to_rgb((0, 0, 1000)), rgb(0x000000));
    assert_eq!(hwb_to_rgb((0, 200, 1000)), rgb(0x2a2a2a));
    assert_eq!(hwb_to_rgb((0, 400, 1000)), rgb(0x484848));
    assert_eq!(hwb_to_rgb((0, 600, 1000)), rgb(0x5f5f5f));
    assert_eq!(hwb_to_rgb((0, 800, 1000)), rgb(0x717171));
    assert_eq!(hwb_to_rgb((0, 1000, 1000)), rgb(0x7f7f7f));

    assert_eq!(hwb_to_rgb((0, 1000, 1000)), rgb(0x7f7f7f));
    assert_eq!(hwb_to_rgb((0, 1000, 800)), rgb(0x8d8d8d));
    assert_eq!(hwb_to_rgb((0, 1000, 600)), rgb(0x9f9f9f));
    assert_eq!(hwb_to_rgb((0, 1000, 400)), rgb(0xb6b6b6));
    assert_eq!(hwb_to_rgb((0, 1000, 200)), rgb(0xd4d4d4));
    assert_eq!(hwb_to_rgb((0, 1000, 0)), rgb(0xffffff));

    assert_eq!(hwb_to_rgb((0, 0, 200)), rgb(0xcc0000));
    assert_eq!(hwb_to_rgb((0, 200, 200)), rgb(0xcc3333));
    assert_eq!(hwb_to_rgb((0, 400, 200)), rgb(0xcc6666));
    assert_eq!(hwb_to_rgb((0, 600, 200)), rgb(0xcc9999));
    assert_eq!(hwb_to_rgb((0, 800, 200)), rgb(0xcccccc));
    assert_eq!(hwb_to_rgb((0, 1000, 200)), rgb(0xd4d4d4));

    assert_eq!(hwb_to_rgb((0, 0, 400)), rgb(0x990000));
    assert_eq!(hwb_to_rgb((0, 200, 400)), rgb(0x993333));
    assert_eq!(hwb_to_rgb((0, 400, 400)), rgb(0x996666));
    assert_eq!(hwb_to_rgb((0, 600, 400)), rgb(0x999999));
    assert_eq!(hwb_to_rgb((0, 800, 400)), rgb(0xa9a9a9));
    assert_eq!(hwb_to_rgb((0, 1000, 400)), rgb(0xb6b6b6));

    assert_eq!(hwb_to_rgb((0, 0, 600)), rgb(0x660000));
    assert_eq!(hwb_to_rgb((0, 200, 600)), rgb(0x663333));
    assert_eq!(hwb_to_rgb((0, 400, 600)), rgb(0x666666));
    assert_eq!(hwb_to_rgb((0, 600, 600)), rgb(0x7f7f7f));
    assert_eq!(hwb_to_rgb((0, 800, 600)), rgb(0x919191));
    assert_eq!(hwb_to_rgb((0, 1000, 600)), rgb(0x9f9f9f));

    assert_eq!(hwb_to_rgb((0, 0, 800)), rgb(0x330000));
    assert_eq!(hwb_to_rgb((0, 200, 800)), rgb(0x333333));
    assert_eq!(hwb_to_rgb((0, 400, 800)), rgb(0x545454));
    assert_eq!(hwb_to_rgb((0, 600, 800)), rgb(0x6d6d6d));
    assert_eq!(hwb_to_rgb((0, 800, 800)), rgb(0x7f7f7f));
    assert_eq!(hwb_to_rgb((0, 1000, 800)), rgb(0x8d8d8d));
}

#[test]
fn test_hwb_block_orange() {
    assert_eq!(hwb_to_rgb((300, 0, 0)), rgb(0xff7f00));
    assert_eq!(hwb_to_rgb((300, 200, 0)), rgb(0xff9933));
    assert_eq!(hwb_to_rgb((300, 400, 0)), rgb(0xffb266));
    assert_eq!(hwb_to_rgb((300, 600, 0)), rgb(0xffcc99));
    assert_eq!(hwb_to_rgb((300, 800, 0)), rgb(0xffe5cc));
    assert_eq!(hwb_to_rgb((300, 1000, 0)), rgb(0xffffff));
}

#[test]
fn test_gray() {
    assert_eq!(gray(500), [127, 127, 127]);
}

#[test]
fn test_mix() {
    assert_eq!(mix(500, [255, 0, 127], [0, 255, 127]), [127, 127, 127]);
}

#[test]
fn rgb_ignores_bits_above_the_channels() {
    assert_eq!(rgb(0xff123456), [0x12, 0x34, 0x56]);
    assert_eq!(rgb(0), [0, 0, 0]);
}

#[test]
fn hue_to_rgb_ramps_within_sectors() {
    assert_eq!(hue_to_rgb(300), [255, 127, 0]);
    assert_eq!(hue_to_rgb(900), [128, 255, 0]);
    assert_eq!(hue_to_rgb(3599), [255, 0, 1]);
    assert_eq!(hue_to_rgb(3600), [255, 0, 0]);
}

#[test]
fn gray_ends_and_middle() {
    assert_eq!(gray(0), [0, 0, 0]);
    assert_eq!(gray(1000), [255, 255, 255]);
    assert_eq!(gray(500), [127, 127, 127]);
}

#[test]
fn mix_ends_keep_the_endpoints() {
    let a = [10, 200, 30];
    let b = [250, 0, 31];
    assert_eq!(mix(0, a, b), a);
    assert_eq!(mix(1000, a, b), b);
    assert_eq!(mix(250, a, b), [70, 150, 30]);
}

#[test]
fn hwb_to_rgb_corners() {
    assert_eq!(hwb_to_rgb((0, 0, 0)), [255, 0, 0]);
    assert_eq!(hwb_to_rgb((0, 1000, 0)), [255, 255, 255]);
    assert_eq!(hwb_to_rgb((0, 0, 1000)), [0, 0, 0]);
    assert_eq!(hwb_to_rgb((0, 1000, 1000)), [127, 127, 127]);
    assert_eq!(hwb_to_rgb((0, 2000, 0)), [255, 255, 255]);
    assert_eq!(hwb_to_rgb((1500, 0, 0)), [0, 255, 127]);
}

#[test]
fn rgb_to_hue_matches_rgb_to_hwb() {
    assert_eq!(rgb_to_hue([255, 128, 0]), 301);
    assert_eq!(rgb_to_hue([0, 0, 255]), 2400);
    assert_eq!(rgb_to_hue([90, 90, 90]), 0);
    assert_eq!(rgb_to_hue([255, 0, 128]), 3299);
    assert_eq!(rgb_to_hwb([255, 0, 128]), (3299, 0, 0));
}

#[test]
fn grays_survive_a_round_trip_through_hwb() {
    for c in 0..=255u8 {
        let back = hwb_to_rgb(rgb_to_hwb([c, c, c]));
        for channel in back {
            assert!((channel as i32 - c as i32).abs() <= 1, "{} came back as {:?}", c, back);
        }
    }
    assert_eq!(hwb_to_rgb(rgb_to_hwb([51, 51, 51])), [51, 51, 51]);
}
