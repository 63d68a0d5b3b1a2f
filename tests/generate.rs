use flavours::generate::{
    assemble_palette, blend, color_pass, dark_color, extract_palette, fix_colors, light_color,
    plan, to_hex, Adjusted, Candidate, Filter, GenerateError, Mode, Rgb, ACCENT_COUNT,
    DARK_BG_MAX_LUMA,
};

fn rgb(r: u8, g: u8, b: u8) -> Rgb {
    Rgb { r, g, b }
}

fn cand(r: u8, luma: u32, saturation: u32) -> Candidate {
    Candidate { color: rgb(r, r, r), luma, saturation }
}

fn rgba_of(pixels: &[(u8, u8, u8)]) -> Vec<u8> {
    let mut out = Vec::new();
    for p in pixels {
        out.extend_from_slice(&[p.0, p.1, p.2, 255]);
    }
    out
}

#[test]
fn first_candidate_that_passes() {
    let cs = vec![cand(1, 100, 100), cand(2, 7000, 3000), cand(3, 8000, 1000)];
    let f = Filter { min_luma: Some(6000), max_luma: None, min_saturation: None, max_saturation: Some(4000) };
    assert_eq!(color_pass(&cs, &f), Some(1));
    let f = Filter { min_luma: None, max_luma: Some(50), min_saturation: None, max_saturation: None };
    assert_eq!(color_pass(&cs, &f), None);
}

#[test]
fn ladders_fall_through_to_the_most_dominant() {
    let cs = vec![cand(1, 5000, 9000), cand(2, 9000, 9500)];
    // No filter of the light ladder accepts saturation above 0.85 unless luma
    // is at least 0.4: the sixth filter takes the first candidate.
    assert_eq!(light_color(&cs), Some(0));
    // Nothing is dark: the most dominant color is used.
    assert_eq!(dark_color(&cs), Some(0));
    let cs = vec![cand(1, 5000, 9000), cand(2, 500, 2000)];
    assert_eq!(dark_color(&cs), Some(1));
    assert_eq!(light_color(&Vec::new()), None);
}

#[test]
fn roles_by_mode() {
    let dark = cand(10, 500, 7000);
    let light = cand(200, 5000, 2000);
    let (bg, fg) = fix_colors(&dark, &light, Mode::Dark);
    assert_eq!(bg, Adjusted { color: dark.color, luma: Some(200), saturation: Some(6000) });
    assert_eq!(fg, Adjusted { color: light.color, luma: Some(6000), saturation: Some(1500) });
    let (bg, fg) = fix_colors(&dark, &light, Mode::Light);
    assert_eq!(bg, Adjusted { color: light.color, luma: Some(7500), saturation: Some(1200) });
    assert_eq!(fg, Adjusted { color: dark.color, luma: Some(150), saturation: Some(6500) });
    let calm_dark = cand(10, 100, 100);
    let (bg, _) = fix_colors(&calm_dark, &light, Mode::Dark);
    assert_eq!(bg, Adjusted { color: calm_dark.color, luma: None, saturation: None });
}

#[test]
fn dark_background_luma_is_capped() {
    let mut cs = vec![cand(5, 900, 2000)];
    for i in 0..8 {
        cs.push(cand(100 + i, 3000 + i as u32, 500));
    }
    let p = plan(&cs, Mode::Dark).unwrap();
    assert!(900 > DARK_BG_MAX_LUMA);
    assert_eq!(p.background.color, rgb(5, 5, 5));
    assert_eq!(p.background.luma, Some(DARK_BG_MAX_LUMA));
}

#[test]
fn plan_errors() {
    assert!(matches!(plan(&Vec::new(), Mode::Dark), Err(GenerateError::EmptyPalette)));
    let one = vec![cand(1, 100, 100)];
    assert!(matches!(plan(&one, Mode::Light), Err(GenerateError::InsufficientAccentColors)));
    let seven: Vec<Candidate> = (0..7).map(|i| cand(i, 100, 100)).collect();
    assert!(matches!(plan(&seven, Mode::Dark), Err(GenerateError::InsufficientAccentColors)));
}

#[test]
fn accents_come_from_the_least_dominant() {
    let cs: Vec<Candidate> = (0..10).map(|i| cand(i as u8, 500 + 200 * i, 100)).collect();
    let p = plan(&cs, Mode::Light).unwrap();
    assert_eq!(p.accents.len(), ACCENT_COUNT);
    assert_eq!(p.accents[0].color, rgb(9, 9, 9));
    assert_eq!(p.accents[0].luma, Some(1200));
    assert_eq!(p.accents[7].color, rgb(2, 2, 2));
    assert_eq!(p.accents[7].luma, Some(1000));
    let p = plan(&cs, Mode::Dark).unwrap();
    assert_eq!(p.accents[0].luma, Some(2300));
    assert_eq!(p.accents[7].luma, Some(1900));
}

#[test]
fn blends_and_ramp() {
    assert_eq!(blend(rgb(0, 0, 0), rgb(255, 100, 10), 20), rgb(51, 20, 2));
    assert_eq!(to_hex(rgb(255, 8, 171)), "ff08ab");
    let accents: Vec<Rgb> = (0..8).map(|i| rgb(i, 0, 0)).collect();
    let colors = assemble_palette(rgb(0, 0, 0), rgb(200, 200, 200), &accents, Mode::Dark);
    assert_eq!(colors.len(), 16);
    assert_eq!(colors[0], "000000");
    assert_eq!(colors[1], "282828");
    assert_eq!(colors[4], "a0a0a0");
    assert_eq!(colors[5], "c8c8c8");
    assert_eq!(colors[6], "d0d0d0");
    assert_eq!(colors[7], "d8d8d8");
    assert_eq!(colors[8], "000000");
    assert_eq!(colors[15], "070000");
    let light = assemble_palette(rgb(250, 250, 250), rgb(40, 40, 40), &Vec::new(), Mode::Light);
    assert_eq!(light.len(), 8);
    assert_eq!(light[6], "222222");
}

#[test]
fn oversized_pixel_buffer() {
    let pixels = vec![0u8; flavours::generate::MAX_PIXEL_BYTES + 4];
    assert_eq!(extract_palette(&pixels), Err(GenerateError::ImageTooLarge));
}

#[test]
fn single_color_image_lacks_accents() {
    let pixels = rgba_of(&vec![(30, 60, 90); 64]);
    let colors = extract_palette(&pixels).unwrap();
    // The quantizer reports the color (rounded to its 5-bit grid) and the
    // centre of an empty box beside it.
    assert!(colors.contains(&rgb(28, 60, 92)));
    assert!(colors.len() < ACCENT_COUNT);
    let cs: Vec<Candidate> = colors.iter().map(|c| Candidate { color: *c, luma: 500, saturation: 5000 }).collect();
    assert!(matches!(plan(&cs, Mode::Dark), Err(GenerateError::InsufficientAccentColors)));
}

#[test]
fn extraction_is_deterministic() {
    let mut pixels = Vec::new();
    for i in 0..256u32 {
        pixels.push(((i * 7 % 256) as u8, (i * 13 % 256) as u8, (i * 29 % 256) as u8));
    }
    let rgba = rgba_of(&pixels);
    let a = extract_palette(&rgba).unwrap();
    let b = extract_palette(&rgba.clone()).unwrap();
    assert_eq!(a, b);
    assert!(!a.is_empty());
    for i in 0..a.len() {
        for j in i + 1..a.len() {
            assert_ne!(a[i], a[j]);
        }
    }
}
