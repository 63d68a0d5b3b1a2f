//! The template renderer: one left-to-right pass that replaces each
//! recognized `{{field}}` placeholder by its value and copies every other
//! character. Values are never expanded again.

use vstd::prelude::*;
use crate::hexcode::{decode_hex, hex_decode, hex_value, is_upper_hex_digit, upper_digit_value};
use crate::scheme::{all_colors_valid, first_invalid, valid_color, Scheme, SchemeView};
use crate::text::{
    chars_of, push_char, decimal, push_chars, push_decimal, push_str, push_two_places, segment_is,
    two_places,
};

verus! {

/// The longest placeholder field name that can be recognized.
pub const MAX_FIELD_LEN: usize = 14;

/// The eleven ways a color can be written.
#[derive(Clone, Copy, Debug, PartialEq, Eq, Structural)]
pub enum Variant {
    Hex,
    HexR,
    HexG,
    HexB,
    HexBgr,
    RgbR,
    RgbG,
    RgbB,
    DecR,
    DecG,
    DecB,
}

/// A recognized placeholder field.
#[derive(Clone, Copy, Debug, PartialEq, Eq, Structural)]
pub enum Field {
    Name,
    Author,
    Slug,
    Color(usize, Variant),
}

/// Rendering fails only on a color that is not six hexadecimal digits;
/// the index is that of the first such color.
#[derive(Clone, Copy, Debug, PartialEq, Eq, Structural)]
pub enum RenderError {
    InvalidColor(usize),
}

/// The suffix after `baseXX-`.
pub open spec fn variant_of(v: Seq<char>) -> Option<Variant> {
    if v == "hex"@ {
        Some(Variant::Hex)
    } else if v == "hex-r"@ {
        Some(Variant::HexR)
    } else if v == "hex-g"@ {
        Some(Variant::HexG)
    } else if v == "hex-b"@ {
        Some(Variant::HexB)
    } else if v == "hex-bgr"@ {
        Some(Variant::HexBgr)
    } else if v == "rgb-r"@ {
        Some(Variant::RgbR)
    } else if v == "rgb-g"@ {
        Some(Variant::RgbG)
    } else if v == "rgb-b"@ {
        Some(Variant::RgbB)
    } else if v == "dec-r"@ {
        Some(Variant::DecR)
    } else if v == "dec-g"@ {
        Some(Variant::DecG)
    } else if v == "dec-b"@ {
        Some(Variant::DecB)
    } else {
        None
    }
}

/// A field name: `scheme-name`, `scheme-author`, `scheme-slug`, or
/// `base` + two upper-case hex digits of the index + `-` + a variant.
pub open spec fn parse_field(f: Seq<char>) -> Option<Field> {
    if f == "scheme-name"@ {
        Some(Field::Name)
    } else if f == "scheme-author"@ {
        Some(Field::Author)
    } else if f == "scheme-slug"@ {
        Some(Field::Slug)
    } else if f.len() >= 7 && f.subrange(0, 4) == "base"@ && is_upper_hex_digit(f[4])
        && is_upper_hex_digit(f[5]) && f[6] == '-' && variant_of(f.subrange(7, f.len() as int))
        is Some {
        Some(
            Field::Color(
                (16 * hex_value(f[4]) + hex_value(f[5])) as usize,
                variant_of(f.subrange(7, f.len() as int))->0,
            ),
        )
    } else {
        None
    }
}

/// The byte of channel `k` of a color.
pub open spec fn channel(c: Seq<char>, k: int) -> u8 {
    decode_hex(c)[k]
}

/// How variant `v` writes the color `c`.
pub open spec fn variant_value(c: Seq<char>, v: Variant) -> Seq<char> {
    match v {
        Variant::Hex => c,
        Variant::HexR => c.subrange(0, 2),
        Variant::HexG => c.subrange(2, 4),
        Variant::HexB => c.subrange(4, 6),
        Variant::HexBgr => c.subrange(4, 6) + c.subrange(2, 4) + c.subrange(0, 2),
        Variant::RgbR => decimal(channel(c, 0) as nat),
        Variant::RgbG => decimal(channel(c, 1) as nat),
        Variant::RgbB => decimal(channel(c, 2) as nat),
        Variant::DecR => two_places(channel(c, 0)),
        Variant::DecG => two_places(channel(c, 1)),
        Variant::DecB => two_places(channel(c, 2)),
    }
}

/// The value a field takes in a scheme; none for a color index the scheme
/// does not have.
pub open spec fn field_value(s: SchemeView, f: Field) -> Option<Seq<char>> {
    match f {
        Field::Name => Some(s.name),
        Field::Author => Some(s.author),
        Field::Slug => Some(s.slug),
        Field::Color(i, v) => if i < s.colors.len() {
            Some(variant_value(s.colors[i as int], v))
        } else {
            None
        },
    }
}

/// How many characters from `j` on come before the next `}`.
pub open spec fn run_to_close(t: Seq<char>, j: int) -> nat
    decreases t.len() - j,
{
    if j < 0 || j >= t.len() || t[j] == '}' {
        0
    } else {
        1 + run_to_close(t, j + 1)
    }
}

/// The placeholder that `t` starts with, if any: its length and its field.
/// The field is the text between `{{` and the first `}` after it, which
/// must be followed by a second `}`.
pub open spec fn placeholder_at(t: Seq<char>) -> Option<(nat, Field)> {
    if t.len() >= 4 && t[0] == '{' && t[1] == '{' {
        let k = run_to_close(t, 2) as int;
        if k + 4 <= t.len() && t[k + 3] == '}' && parse_field(t.subrange(2, k + 2)) is Some {
            Some(((k + 4) as nat, parse_field(t.subrange(2, k + 2))->0))
        } else {
            None
        }
    } else {
        None
    }
}

/// The rendered text: each recognized placeholder whose value the scheme
/// has is replaced by it; everything else is copied.
pub open spec fn render(s: SchemeView, t: Seq<char>) -> Seq<char>
    decreases t.len(),
{
    if t.len() == 0 {
        seq![]
    } else {
        match placeholder_at(t) {
            Some((n, f)) => match field_value(s, f) {
                Some(v) => v + render(s, t.skip(n as int)),
                None => seq![t[0]] + render(s, t.skip(1)),
            },
            None => seq![t[0]] + render(s, t.skip(1)),
        }
    }
}

proof fn lemma_variant_short(v: Seq<char>)
    requires
        variant_of(v) is Some,
    ensures
        v.len() <= 7,
{
    reveal_strlit("hex");
    reveal_strlit("hex-r");
    reveal_strlit("hex-g");
    reveal_strlit("hex-b");
    reveal_strlit("hex-bgr");
    reveal_strlit("rgb-r");
    reveal_strlit("rgb-g");
    reveal_strlit("rgb-b");
    reveal_strlit("dec-r");
    reveal_strlit("dec-g");
    reveal_strlit("dec-b");
}

/// Every recognized field name is short.
proof fn lemma_field_short(f: Seq<char>)
    requires
        parse_field(f) is Some,
    ensures
        f.len() <= MAX_FIELD_LEN,
{
    reveal_strlit("scheme-name");
    reveal_strlit("scheme-author");
    reveal_strlit("scheme-slug");
    if f != "scheme-name"@ && f != "scheme-author"@ && f != "scheme-slug"@ {
        lemma_variant_short(f.subrange(7, f.len() as int));
    }
}

fn parse_variant(t: &Vec<char>, lo: usize, hi: usize) -> (r: Option<Variant>)
    requires
        lo <= hi <= t@.len(),
    ensures
        r == variant_of(t@.subrange(lo as int, hi as int)),
{
    if segment_is(t, lo, hi, "hex") {
        Some(Variant::Hex)
    } else if segment_is(t, lo, hi, "hex-r") {
        Some(Variant::HexR)
    } else if segment_is(t, lo, hi, "hex-g") {
        Some(Variant::HexG)
    } else if segment_is(t, lo, hi, "hex-b") {
        Some(Variant::HexB)
    } else if segment_is(t, lo, hi, "hex-bgr") {
        Some(Variant::HexBgr)
    } else if segment_is(t, lo, hi, "rgb-r") {
        Some(Variant::RgbR)
    } else if segment_is(t, lo, hi, "rgb-g") {
        Some(Variant::RgbG)
    } else if segment_is(t, lo, hi, "rgb-b") {
        Some(Variant::RgbB)
    } else if segment_is(t, lo, hi, "dec-r") {
        Some(Variant::DecR)
    } else if segment_is(t, lo, hi, "dec-g") {
        Some(Variant::DecG)
    } else if segment_is(t, lo, hi, "dec-b") {
        Some(Variant::DecB)
    } else {
        None
    }
}

/// Recognizes the field name `t[lo..hi]`.
pub fn field_of(t: &Vec<char>, lo: usize, hi: usize) -> (r: Option<Field>)
    requires
        lo <= hi <= t@.len(),
    ensures
        r == parse_field(t@.subrange(lo as int, hi as int)),
{
    let ghost f = t@.subrange(lo as int, hi as int);
    if segment_is(t, lo, hi, "scheme-name") {
        return Some(Field::Name);
    }
    if segment_is(t, lo, hi, "scheme-author") {
        return Some(Field::Author);
    }
    if segment_is(t, lo, hi, "scheme-slug") {
        return Some(Field::Slug);
    }
    if hi - lo < 7 || !segment_is(t, lo, lo + 4, "base") || t[lo + 6] != '-' {
        assert(hi - lo >= 7 ==> f.subrange(0, 4) == t@.subrange(lo as int, lo + 4));
        return None;
    }
    assert(f.subrange(0, 4) == t@.subrange(lo as int, lo + 4));
    let hi_digit = upper_digit_value(t[lo + 4]);
    let lo_digit = upper_digit_value(t[lo + 5]);
    let v = parse_variant(t, lo + 7, hi);
    assert(f.subrange(7, f.len() as int) == t@.subrange(lo + 7, hi as int));
    match (hi_digit, lo_digit, v) {
        (Some(h), Some(l), Some(v)) => Some(Field::Color((16 * h + l) as usize, v)),
        _ => None,
    }
}

/// Recognizes the placeholder that starts at `t[i]`, if any.
pub fn placeholder_in(t: &Vec<char>, i: usize) -> (r: Option<(usize, Field)>)
    requires
        i <= t@.len(),
    ensures
        match r {
            Some((n, f)) => placeholder_at(t@.skip(i as int)) == Some((n as nat, f)),
            None => placeholder_at(t@.skip(i as int)) is None,
        },
{
    let ghost u = t@.skip(i as int);
    let len = t.len();
    if len - i < 4 || t[i] != '{' || t[i + 1] != '{' {
        return None;
    }
    let mut k: usize = 0;
    while k <= MAX_FIELD_LEN && i + 2 + k < len && t[i + 2 + k] != '}'
        invariant
            u == t@.skip(i as int),
            i + 4 <= len == t@.len(),
            k <= MAX_FIELD_LEN + 1,
            i + 2 + k <= len,
            run_to_close(u, 2) == k + run_to_close(u, 2 + k),
        decreases MAX_FIELD_LEN + 1 - k,
    {
        k = k + 1;
    }
    if k > MAX_FIELD_LEN {
        proof {
            let rk = run_to_close(u, 2) as int;
            if rk + 4 <= u.len() && parse_field(u.subrange(2, rk + 2)) is Some {
                lemma_field_short(u.subrange(2, rk + 2));
            }
        }
        return None;
    }
    if i + 2 + k == len {
        return None;
    }
    assert(run_to_close(u, 2 + k) == 0);
    if i + 3 + k == len || t[i + 3 + k] != '}' {
        return None;
    }
    assert(u.subrange(2, k + 2) == t@.subrange(i + 2, (i + 2 + k) as int));
    match field_of(t, i + 2, i + 2 + k) {
        Some(f) => Some((k + 4, f)),
        None => None,
    }
}

/// The decoded colors of a scheme: `chars[j]` and `bytes[j]` are color `j`
/// as characters and as its three bytes.
pub open spec fn decoded(s: SchemeView, chars: Seq<Vec<char>>, bytes: Seq<Vec<u8>>) -> bool {
    &&& chars.len() == s.colors.len()
    &&& bytes.len() == s.colors.len()
    &&& forall|j: int|
        0 <= j < s.colors.len() ==> {
            &&& #[trigger] chars[j]@ == s.colors[j]
            &&& valid_color(s.colors[j])
            &&& bytes[j]@ == decode_hex(s.colors[j])
        }
}

/// Appends the value of field `f`, when the scheme has one.
fn push_field(
    out: &mut String,
    scheme: &Scheme,
    chars: &Vec<Vec<char>>,
    bytes: &Vec<Vec<u8>>,
    f: Field,
) -> (r: bool)
    requires
        decoded(scheme@, chars@, bytes@),
    ensures
        r == field_value(scheme@, f) is Some,
        r ==> final(out)@ == old(out)@ + field_value(scheme@, f)->0,
        !r ==> final(out)@ == old(out)@,
{
    match f {
        Field::Name => {
            push_str(out, scheme.name.as_str());
            true
        },
        Field::Author => {
            push_str(out, scheme.author.as_str());
            true
        },
        Field::Slug => {
            push_str(out, scheme.slug.as_str());
            true
        },
        Field::Color(i, v) => {
            if i >= chars.len() {
                return false;
            }
            let c = &chars[i];
            let b = &bytes[i];
            let ghost col = scheme@.colors[i as int];
            assert(chars@[i as int]@ == col);
            assert(c@ == col && valid_color(col) && b@ == decode_hex(col));
            assert(b@.len() == 3);
            match v {
                Variant::Hex => {
                    push_chars(out, c, 0, 6);
                    assert(c@.subrange(0, 6) == col);
                },
                Variant::HexR => push_chars(out, c, 0, 2),
                Variant::HexG => push_chars(out, c, 2, 4),
                Variant::HexB => push_chars(out, c, 4, 6),
                Variant::HexBgr => {
                    push_chars(out, c, 4, 6);
                    push_chars(out, c, 2, 4);
                    push_chars(out, c, 0, 2);
                    assert(final(out)@ =~= old(out)@ + (col.subrange(4, 6) + col.subrange(2, 4)
                        + col.subrange(0, 2)));
                },
                Variant::RgbR => push_decimal(out, b[0]),
                Variant::RgbG => push_decimal(out, b[1]),
                Variant::RgbB => push_decimal(out, b[2]),
                Variant::DecR => push_two_places(out, b[0]),
                Variant::DecG => push_two_places(out, b[1]),
                Variant::DecB => push_two_places(out, b[2]),
            }
            true
        },
    }
}

/// Decodes every color of the scheme, or finds the first invalid one.
fn decode_colors(scheme: &Scheme) -> (r: Result<(Vec<Vec<char>>, Vec<Vec<u8>>), RenderError>)
    ensures
        match r {
            Ok((chars, bytes)) => all_colors_valid(scheme@.colors) && decoded(
                scheme@,
                chars@,
                bytes@,
            ),
            Err(RenderError::InvalidColor(i)) => first_invalid(scheme@.colors, i as int),
        },
{
    let ghost sv = scheme@;
    let mut chars: Vec<Vec<char>> = Vec::new();
    let mut bytes: Vec<Vec<u8>> = Vec::new();
    let n = scheme.colors.len();
    for i in 0..n
        invariant
            n == sv.colors.len(),
            sv == scheme@,
            chars@.len() == i,
            bytes@.len() == i,
            forall|j: int| 0 <= j < i ==> #[trigger] valid_color(sv.colors[j]),
            forall|j: int| 0 <= j < i ==> #[trigger] chars@[j]@ == sv.colors[j],
            forall|j: int| 0 <= j < i ==> #[trigger] bytes@[j]@ == decode_hex(sv.colors[j]),
    {
        let c = scheme.colors[i].as_str();
        assert(c@ == sv.colors[i as int]);
        match hex_decode(c) {
            Ok(b) => {
                if b.len() != 3 {
                    return Err(RenderError::InvalidColor(i));
                }
                assert(valid_color(c@));
                chars.push(chars_of(c));
                bytes.push(b);
            },
            Err(_) => {
                return Err(RenderError::InvalidColor(i));
            },
        }
    }
    assert(decoded(sv, chars@, bytes@));
    Ok((chars, bytes))
}

/// Renders `template` against `scheme`: every recognized placeholder is
/// replaced by its value, in one pass, and all other text is copied. Fails
/// on the first color that is not six hexadecimal digits.
pub fn build_template(template: &str, scheme: &Scheme) -> (r: Result<String, RenderError>)
    ensures
        match r {
            Ok(out) => all_colors_valid(scheme@.colors) && out@ == render(scheme@, template@),
            Err(RenderError::InvalidColor(i)) => first_invalid(scheme@.colors, i as int),
        },
{
    let (chars, bytes) = match decode_colors(scheme) {
        Ok(d) => d,
        Err(e) => {
            return Err(e);
        },
    };
    let ghost sv = scheme@;
    let t = chars_of(template);
    let mut out = String::new();
    let mut i: usize = 0;
    assert(t@.skip(0) =~= t@);
    while i < t.len()
        invariant
            sv == scheme@,
            decoded(sv, chars@, bytes@),
            t@ == template@,
            i <= t@.len(),
            out@ + render(sv, t@.skip(i as int)) == render(sv, t@),
        decreases t@.len() - i,
    {
        let ghost u = t@.skip(i as int);
        let ghost before = out@;
        assert(u.len() > 0);
        assert(u[0] == t@[i as int]);
        match placeholder_in(&t, i) {
            Some((n, f)) => {
                if push_field(&mut out, scheme, &chars, &bytes, f) {
                    assert(u.skip(n as int) =~= t@.skip(i + n));
                    i = i + n;
                } else {
                    push_char(&mut out, t[i]);
                    assert(u.skip(1) =~= t@.skip(i + 1));
                    i = i + 1;
                }
            },
            None => {
                push_char(&mut out, t[i]);
                assert(u.skip(1) =~= t@.skip(i + 1));
                i = i + 1;
            },
        }
        assert(out@ + render(sv, t@.skip(i as int)) =~= render(sv, t@));
    }
    assert(t@.skip(i as int) =~= Seq::<char>::empty());
    assert(out@ =~= render(sv, t@));
    Ok(out)
}


/// The placeholder text for field name `f`: `{{` + `f` + `}}`.
pub open spec fn placeholder_text(f: Seq<char>) -> Seq<char> {
    seq!['{', '{'] + f + seq!['}', '}']
}

proof fn lemma_run_to_close(t: Seq<char>, j: int, k: int)
    requires
        0 <= j,
        0 <= k,
        j + k < t.len(),
        t[j + k] == '}',
        forall|m: int| j <= m < j + k ==> t[m] != '}',
    ensures
        run_to_close(t, j) == k,
    decreases k,
{
    if k > 0 {
        lemma_run_to_close(t, j + 1, k - 1);
    }
}

/// A recognized placeholder at the front of the text is replaced by its value.
proof fn lemma_render_placeholder(s: SchemeView, f: Seq<char>, rest: Seq<char>)
    requires
        parse_field(f) is Some,
        field_value(s, parse_field(f)->0) is Some,
        forall|m: int| 0 <= m < f.len() ==> f[m] != '}',
    ensures
        render(s, placeholder_text(f) + rest) == field_value(s, parse_field(f)->0)->0 + render(
            s,
            rest,
        ),
{
    let t = placeholder_text(f) + rest;
    assert forall|m: int| 2 <= m < 2 + f.len() implies t[m] != '}' by {
        assert(t[m] == f[m - 2]);
    }
    lemma_run_to_close(t, 2, f.len() as int);
    assert(t.subrange(2, f.len() as int + 2) =~= f);
    assert(t.skip(f.len() as int + 4) =~= rest);
}

proof fn lemma_color_field(f: Seq<char>, v: Seq<char>, variant: Variant)
    requires
        f == "base00-"@ + v,
        variant_of(v) == Some(variant),
    ensures
        parse_field(f) == Some(Field::Color(0, variant)),
        forall|m: int| 0 <= m < f.len() ==> f[m] != '}',
{
    reveal_strlit("base00-");
    reveal_strlit("base");
    reveal_strlit("scheme-name");
    reveal_strlit("scheme-author");
    reveal_strlit("scheme-slug");
    lemma_variant_short(v);
    reveal_strlit("hex");
    reveal_strlit("hex-r");
    reveal_strlit("hex-g");
    reveal_strlit("hex-b");
    reveal_strlit("hex-bgr");
    reveal_strlit("rgb-r");
    reveal_strlit("rgb-g");
    reveal_strlit("rgb-b");
    reveal_strlit("dec-r");
    reveal_strlit("dec-g");
    reveal_strlit("dec-b");
    assert(f.subrange(0, 4) =~= "base"@);
    assert(f.subrange(7, f.len() as int) =~= v);
    assert(f != "scheme-name"@ && f != "scheme-author"@ && f != "scheme-slug"@) by {
        if f.len() == 11 {
            assert(f[0] != "scheme-name"@[0]);
        }
        if f.len() == 13 {
            assert(f[0] != "scheme-author"@[0]);
        }
    }
}

/// For every valid color `c` at index 0, `{{base00-hex}}` renders to `c`,
/// and `{{base00-hex-r}}{{base00-hex-g}}{{base00-hex-b}}` renders to `c` too.
pub proof fn lemma_hex_placeholders_round_trip(s: SchemeView)
    requires
        s.colors.len() > 0,
        all_colors_valid(s.colors),
    ensures
        render(s, placeholder_text("base00-hex"@)) == s.colors[0],
        render(
            s,
            placeholder_text("base00-hex-r"@) + placeholder_text("base00-hex-g"@)
                + placeholder_text("base00-hex-b"@),
        ) == s.colors[0],
{
    let c = s.colors[0];
    assert(valid_color(c));
    reveal_strlit("base00-hex");
    reveal_strlit("base00-hex-r");
    reveal_strlit("base00-hex-g");
    reveal_strlit("base00-hex-b");
    reveal_strlit("base00-");
    reveal_strlit("hex");
    reveal_strlit("hex-r");
    reveal_strlit("hex-g");
    reveal_strlit("hex-b");
    assert("base00-hex"@ =~= "base00-"@ + "hex"@);
    assert("base00-hex-r"@ =~= "base00-"@ + "hex-r"@);
    assert("base00-hex-g"@ =~= "base00-"@ + "hex-g"@);
    assert("base00-hex-b"@ =~= "base00-"@ + "hex-b"@);
    lemma_color_field("base00-hex"@, "hex"@, Variant::Hex);
    lemma_color_field("base00-hex-r"@, "hex-r"@, Variant::HexR);
    assert("hex-g"@[4] != "hex-r"@[4]);
    assert("hex-b"@[4] != "hex-r"@[4] && "hex-b"@[4] != "hex-g"@[4]);
    lemma_color_field("base00-hex-g"@, "hex-g"@, Variant::HexG);
    lemma_color_field("base00-hex-b"@, "hex-b"@, Variant::HexB);
    let empty = Seq::<char>::empty();
    lemma_render_placeholder(s, "base00-hex"@, empty);
    assert(placeholder_text("base00-hex"@) + empty =~= placeholder_text("base00-hex"@));
    assert(c.subrange(0, 6) =~= c);
    let tb = placeholder_text("base00-hex-b"@);
    let tg = placeholder_text("base00-hex-g"@);
    let tr = placeholder_text("base00-hex-r"@);
    lemma_render_placeholder(s, "base00-hex-b"@, empty);
    assert(tb + empty =~= tb);
    lemma_render_placeholder(s, "base00-hex-g"@, tb);
    lemma_render_placeholder(s, "base00-hex-r"@, tg + tb);
    assert(tr + tg + tb =~= tr + (tg + tb));
    assert(c.subrange(0, 2) + (c.subrange(2, 4) + (c.subrange(4, 6) + empty)) =~= c);
}

/// `hex-bgr` is the three digit pairs of `hex` in reverse order:
/// `hex-b` + `hex-g` + `hex-r`.
pub proof fn lemma_hex_bgr_reverses(s: SchemeView, i: usize)
    requires
        i < s.colors.len(),
        all_colors_valid(s.colors),
    ensures
        field_value(s, Field::Color(i, Variant::HexBgr)) == Some(
            field_value(s, Field::Color(i, Variant::HexB))->0 + field_value(
                s,
                Field::Color(i, Variant::HexG),
            )->0 + field_value(s, Field::Color(i, Variant::HexR))->0,
        ),
        field_value(s, Field::Color(i, Variant::HexR))->0 + field_value(
            s,
            Field::Color(i, Variant::HexG),
        )->0 + field_value(s, Field::Color(i, Variant::HexB))->0 == field_value(
            s,
            Field::Color(i, Variant::Hex),
        )->0,
{
    let c = s.colors[i as int];
    assert(valid_color(c));
    assert(c.subrange(0, 2) + c.subrange(2, 4) + c.subrange(4, 6) =~= c);
}

} // verus!
