use flavours::render::{build_template, RenderError};
use flavours::scheme::Scheme;

fn scheme_with(colors: &[&str]) -> Scheme {
    Scheme {
        slug: String::from("gruvbox-dark"),
        name: String::from("Gruvbox dark"),
        author: String::from("Dawid"),
        colors: colors.iter().map(|c| String::from(*c)).collect(),
    }
}

fn sixteen(first: &str) -> Scheme {
    let mut colors = vec![first];
    for _ in 1..16 {
        colors.push("000000");
    }
    scheme_with(&colors)
}

#[test]
fn renders_two_colors_in_one_line() {
    let mut colors = vec!["1d2021", "3c3836", "504945", "665c54", "bdae93", "ebdbb2"];
    for _ in 6..16 {
        colors.push("fb4934");
    }
    let scheme = scheme_with(&colors);
    let out = build_template("bg={{base00-hex}} fg={{base05-hex}}", &scheme).unwrap();
    assert_eq!(out, "bg=1d2021 fg=ebdbb2");
}

#[test]
fn hex_placeholder_gives_the_color_back() {
    let scheme = sixteen("a1B2c3");
    assert_eq!(build_template("{{base00-hex}}", &scheme).unwrap(), "a1B2c3");
    assert_eq!(
        build_template("{{base00-hex-r}}{{base00-hex-g}}{{base00-hex-b}}", &scheme).unwrap(),
        "a1B2c3"
    );
}

#[test]
fn hex_bgr_reverses_the_pairs() {
    let scheme = sixteen("aabbcc");
    assert_eq!(build_template("{{base00-hex-bgr}}", &scheme).unwrap(), "ccbbaa");
}

#[test]
fn decimal_fractions_of_channels() {
    assert_eq!(build_template("{{base00-dec-r}}", &sixteen("ff0000")).unwrap(), "1.00");
    assert_eq!(build_template("{{base00-dec-r}}", &sixteen("000000")).unwrap(), "0.00");
    assert_eq!(build_template("{{base00-dec-r}}", &sixteen("800000")).unwrap(), "0.50");
    assert_eq!(build_template("{{base00-dec-g}}", &sixteen("00ff00")).unwrap(), "1.00");
    assert_eq!(build_template("{{base00-dec-b}}", &sixteen("000033")).unwrap(), "0.20");
}

#[test]
fn decimal_fractions_match_float_formatting() {
    for b in 0..=255u32 {
        let color = format!("{:02x}0000", b);
        let out = build_template("{{base00-dec-r}}", &sixteen(&color)).unwrap();
        assert_eq!(out, format!("{:.2}", (b as f64) / 255_f64), "byte {}", b);
    }
}

#[test]
fn rgb_channels_in_decimal() {
    let scheme = sixteen("ff0a07");
    let out = build_template("{{base00-rgb-r}},{{base00-rgb-g}},{{base00-rgb-b}}", &scheme).unwrap();
    assert_eq!(out, "255,10,7");
}

#[test]
fn scheme_fields_are_replaced() {
    let scheme = sixteen("000000");
    let out = build_template("{{scheme-name}} by {{scheme-author}} ({{scheme-slug}})", &scheme).unwrap();
    assert_eq!(out, "Gruvbox dark by Dawid (gruvbox-dark)");
}

#[test]
fn unknown_placeholders_stay() {
    let scheme = sixteen("123456");
    let t = "{{base00-hex-x}} {{base0a-hex}} {{base10-hex}} {{nothing}} {{base00-hex}";
    assert_eq!(build_template(t, &scheme).unwrap(), t);
}

#[test]
fn values_are_not_expanded_again() {
    let mut scheme = sixteen("123456");
    scheme.name = String::from("{{base00-hex}}");
    assert_eq!(build_template("{{scheme-name}}", &scheme).unwrap(), "{{base00-hex}}");
}

#[test]
fn extended_and_letter_indices() {
    let mut colors: Vec<String> = (0..24).map(|i| format!("0000{:02x}", i)).collect();
    colors[10] = String::from("abcdef");
    let scheme = Scheme {
        slug: String::from("s"),
        name: String::from("n"),
        author: String::from("a"),
        colors: colors.into(),
    };
    assert_eq!(build_template("{{base0A-hex}}", &scheme).unwrap(), "abcdef");
    assert_eq!(build_template("{{base17-hex}}", &scheme).unwrap(), "000017");
    assert_eq!(build_template("{{base18-hex}}", &scheme).unwrap(), "{{base18-hex}}");
}

#[test]
fn braces_around_a_placeholder() {
    let scheme = sixteen("123456");
    assert_eq!(build_template("{{{base00-hex}}}", &scheme).unwrap(), "{123456}");
}

#[test]
fn invalid_color_is_reported_by_index() {
    let mut colors = vec!["000000"; 16];
    colors[3] = "#00000";
    colors[7] = "zz0000";
    let scheme = scheme_with(&colors);
    assert_eq!(build_template("x", &scheme), Err(RenderError::InvalidColor(3)));
    colors[3] = "0000000";
    let scheme = scheme_with(&colors);
    assert_eq!(build_template("x", &scheme), Err(RenderError::InvalidColor(3)));
}

#[test]
fn template_without_placeholders_is_copied() {
    let scheme = sixteen("123456");
    let t = "plain text, ünïcode and {single} braces\n";
    assert_eq!(build_template(t, &scheme).unwrap(), t);
}
