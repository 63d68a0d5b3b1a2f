use std::collections::VecDeque;
use flavours::scheme::{true_color, Luminance, Scheme, SchemeError};

fn base_fields() -> Vec<Option<String>> {
    (0..16).map(|i| Some(format!("{:02x}{:02x}{:02x}", i, i, i))).collect()
}

#[test]
fn extended_colors_fall_back() {
    let mut fields = base_fields();
    fields.push(None);
    fields.push(Some(String::from("123456")));
    let s = Scheme::from_fields(
        String::from("slug"),
        String::from("Name"),
        String::from("Author"),
        fields,
    )
    .unwrap();
    assert_eq!(s.colors.len(), 24);
    assert_eq!(s.colors[16], "000000");
    assert_eq!(s.colors[17], "123456");
    assert_eq!(s.colors[18], "080808");
    assert_eq!(s.colors[19], "0a0a0a");
    assert_eq!(s.colors[23], "0e0e0e");
    assert_eq!(s.slug, "slug");
    assert_eq!(s.name, "Name");
    assert_eq!(s.author, "Author");
}

#[test]
fn missing_base_color() {
    let mut fields = base_fields();
    fields[3] = None;
    let r = Scheme::from_fields(String::new(), String::new(), String::new(), fields);
    assert_eq!(r.err(), Some(SchemeError::MissingColor(3)));
    let r = Scheme::from_fields(String::new(), String::new(), String::new(), Vec::new());
    assert_eq!(r.err(), Some(SchemeError::MissingColor(0)));
}

#[test]
fn invalid_colors_are_rejected() {
    let mut fields = base_fields();
    fields[5] = Some(String::from("#ffffff"));
    let r = Scheme::from_fields(String::new(), String::new(), String::new(), fields);
    assert_eq!(r.err(), Some(SchemeError::InvalidColor(5)));
    let mut fields = base_fields();
    fields.resize(24, None);
    fields[20] = Some(String::from("12345"));
    let r = Scheme::from_fields(String::new(), String::new(), String::new(), fields);
    assert_eq!(r.err(), Some(SchemeError::InvalidColor(20)));
}

#[test]
fn yaml_output() {
    let s = Scheme {
        slug: String::from("x"),
        name: String::from("My Scheme"),
        author: String::from("Me"),
        colors: (0..17).map(|i| format!("{:06x}", i)).collect(),
    };
    let text = s.to_string();
    let mut want = String::from("scheme: \"My Scheme\"\nauthor: \"Me\"\n");
    for i in 0..17 {
        want.push_str(&format!("base{:02X}: \"{:06x}\"\n", i, i));
    }
    assert_eq!(text, want);
    assert!(text.contains("base0A: \"00000a\"\n"));
    assert!(text.contains("base10: \"000010\"\n"));
}

#[test]
fn luminance_of_backgrounds() {
    let dark = Scheme {
        slug: String::new(),
        name: String::new(),
        author: String::new(),
        colors: VecDeque::from(vec![String::from("1d2021"), String::from("3c3836")]),
    };
    assert_eq!(dark.luminance(), Ok(Luminance::Dark));
    assert_eq!(Luminance::Dark.to_string(), "Dark");
    let light = Scheme {
        slug: String::new(),
        name: String::new(),
        author: String::new(),
        colors: VecDeque::from(vec![String::from("fbf1c7"), String::from("ebdbb2")]),
    };
    assert_eq!(light.luminance(), Ok(Luminance::Light));
    assert_eq!(Luminance::Light.to_string(), "Light");
    let short = Scheme {
        slug: String::new(),
        name: String::new(),
        author: String::new(),
        colors: VecDeque::from(vec![String::from("fbf1c7")]),
    };
    assert_eq!(short.luminance(), Err(SchemeError::MissingColor(1)));
}

#[test]
fn luminance_threshold() {
    // 299 + 587 + 114 = 1000 per unit of grey: two greys summing to 255 sit on the line.
    let s = |a: &str, b: &str| Scheme {
        slug: String::new(),
        name: String::new(),
        author: String::new(),
        colors: VecDeque::from(vec![String::from(a), String::from(b)]),
    };
    assert_eq!(s("7f7f7f", "808080").luminance(), Ok(Luminance::Light));
    assert_eq!(s("7f7f7f", "7f7f7f").luminance(), Ok(Luminance::Dark));
}

#[test]
fn true_color_escapes() {
    assert_eq!(true_color("ff8000", true).unwrap(), "\x1b[48;2;255;128;0m");
    assert_eq!(true_color("0A0b0C", false).unwrap(), "\x1b[38;2;10;11;12m");
    assert_eq!(true_color("ff80", false), None);
    assert_eq!(true_color("gg8000", false), None);
}
