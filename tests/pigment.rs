use pigment_brush::pigment::{Rgb, WEIGHT_ONE, create_paint_colors, mix, to_latent, to_rgb};

fn rgb(r: u8, g: u8, b: u8) -> Rgb {
    Rgb { r, g, b }
}

#[test]
fn round_trip_is_exact_on_a_sweep_of_colors() {
    let mut v: u32 = 0;
    while v < 256 * 256 * 256 {
        let c = rgb((v >> 16) as u8, (v >> 8) as u8, v as u8);
        assert_eq!(to_rgb(to_latent(c)), c);
        v += 997;
    }
    for p in create_paint_colors() {
        assert_eq!(to_rgb(to_latent(p.color)), p.color);
    }
}

#[test]
fn latent_of_palette_colors() {
    let y = to_latent(rgb(254, 236, 0));
    assert_eq!((y.red, y.yellow, y.blue, y.res_r, y.res_g, y.res_b), (18, 236, 0, -1, -9, -17));
    let b = to_latent(rgb(0, 33, 133));
    assert_eq!((b.red, b.yellow, b.blue, b.res_r, b.res_g, b.res_b), (0, 33, 166, -89, -77, -89));
}

#[test]
fn mixing_with_equal_weights_commutes() {
    let a = rgb(255, 39, 2);
    let b = rgb(0, 33, 133);
    for w in [0u32, 1, 250, 500, 999, 1000, 4000] {
        assert_eq!(mix(a, b, w, w), mix(b, a, w, w));
    }
    assert_eq!(mix(rgb(254, 236, 0), rgb(0, 33, 133), 300, 700), rgb(76, 121, 91));
    assert_eq!(mix(rgb(0, 33, 133), rgb(254, 236, 0), 700, 300), rgb(76, 121, 91));
}

#[test]
fn mixing_a_color_with_itself_gives_it_back() {
    for p in create_paint_colors() {
        assert_eq!(mix(p.color, p.color, 500, 500), p.color);
        assert_eq!(mix(p.color, p.color, 300, 700), p.color);
        assert_eq!(mix(p.color, p.color, WEIGHT_ONE, 0), p.color);
    }
}

#[test]
fn weights_that_do_not_add_up_to_one_are_not_normalized() {
    assert_eq!(mix(rgb(255, 0, 0), rgb(255, 0, 0), 0, 0), rgb(255, 255, 255));
}

#[test]
fn yellow_and_blue_mix_towards_green() {
    let yellow = rgb(254, 236, 0);
    let blue = rgb(0, 33, 133);
    let m = mix(yellow, blue, 500, 500);
    assert_eq!(m, rgb(127, 166, 64));
    let avg = rgb(127, 134, 66);
    let green_lead = |c: Rgb| c.g as i32 - c.r.max(c.b) as i32;
    assert!(green_lead(m) > green_lead(avg) + 20);
    assert_eq!(mix(rgb(255, 255, 0), rgb(0, 0, 255), 500, 500), rgb(128, 191, 128));
}

#[test]
fn palette_lists_fourteen_paints() {
    let p = create_paint_colors();
    assert_eq!(p.len(), 14);
    assert_eq!(p[0].name, "Cadmium Yellow");
    assert_eq!(p[0].color, rgb(254, 236, 0));
    assert_eq!(p[7].name, "Cobalt Blue");
    assert_eq!(p[7].color, rgb(0, 33, 133));
    assert_eq!(p[13].name, "Black");
    assert_eq!(p[13].color, rgb(0, 0, 0));
}
