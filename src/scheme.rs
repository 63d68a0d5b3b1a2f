//! The color model: a named, authored, indexed table of hex colors.

use vstd::prelude::*;
use std::collections::VecDeque;
use vstd::string::StringExecFns;
use crate::hexcode::{all_hex, decode_hex, hex_decode, upper_digit, upper_digit_of};
use crate::text::{decimal, push_char, push_decimal, push_str};

verus! {

/// A color scheme: display name, author, slug and the indexed colors,
/// each six hexadecimal digits with no leading `#`.
pub struct Scheme {
    pub slug: String,
    pub name: String,
    pub author: String,
    pub colors: VecDeque<String>,
}

/// What a scheme holds, as sequences of characters.
pub struct SchemeView {
    pub slug: Seq<char>,
    pub name: Seq<char>,
    pub author: Seq<char>,
    pub colors: Seq<Seq<char>>,
}

impl View for Scheme {
    type V = SchemeView;

    open spec fn view(&self) -> SchemeView {
        SchemeView {
            slug: self.slug@,
            name: self.name@,
            author: self.author@,
            colors: self.colors@.map_values(|c: String| c@),
        }
    }
}

/// A well-formed scheme: sixteen to twenty-four colors, each valid.
pub open spec fn wf(s: SchemeView) -> bool {
    &&& 16 <= s.colors.len() <= 24
    &&& all_colors_valid(s.colors)
}

/// Six hexadecimal digits: three bytes.
pub open spec fn valid_color(c: Seq<char>) -> bool {
    c.len() == 6 && all_hex(c)
}

pub open spec fn all_colors_valid(colors: Seq<Seq<char>>) -> bool {
    forall|i: int| 0 <= i < colors.len() ==> #[trigger] valid_color(colors[i])
}

/// `i` is the first entry of `colors` that is not a valid color.
pub open spec fn first_invalid(colors: Seq<Seq<char>>, i: int) -> bool {
    &&& 0 <= i < colors.len()
    &&& !valid_color(colors[i])
    &&& forall|j: int| 0 <= j < i ==> #[trigger] valid_color(colors[j])
}


/// Number of colors a scheme document defines, with the extended ones.
pub const DOCUMENT_COLORS: usize = 24;

/// Number of colors a scheme document must give.
pub const REQUIRED_COLORS: usize = 16;

/// Why a scheme document's colors were rejected; the index is that of the
/// first color at fault.
#[derive(Clone, Copy, Debug, PartialEq, Eq, Structural)]
pub enum SchemeError {
    MissingColor(usize),
    InvalidColor(usize),
}

pub open spec fn opt_view(o: Option<String>) -> Option<Seq<char>> {
    match o {
        Some(s) => Some(s@),
        None => None,
    }
}

pub open spec fn field_at(fields: Seq<Option<Seq<char>>>, i: int) -> Option<Seq<char>> {
    if 0 <= i < fields.len() {
        fields[i]
    } else {
        None
    }
}

/// The color an omitted extended index (16 to 23) takes: 00, 00, 08, 0A,
/// 0B, 0C, 0D, 0E.
pub open spec fn fallback_index(i: int) -> int {
    seq![0int, 0, 8, 10, 11, 12, 13, 14][i - 16]
}

/// Color `i` of a document: as given, or for an omitted extended index its
/// fallback.
pub open spec fn resolved_color(fields: Seq<Option<Seq<char>>>, i: int) -> Option<Seq<char>> {
    if i < REQUIRED_COLORS {
        field_at(fields, i)
    } else {
        match field_at(fields, i) {
            Some(c) => Some(c),
            None => field_at(fields, fallback_index(i)),
        }
    }
}

pub open spec fn color_ok(fields: Seq<Option<Seq<char>>>, i: int) -> bool {
    resolved_color(fields, i) matches Some(c) && valid_color(c)
}

fn fallback_of(i: usize) -> (r: usize)
    requires
        REQUIRED_COLORS <= i < DOCUMENT_COLORS,
    ensures
        r == fallback_index(i as int),
        r < REQUIRED_COLORS,
{
    let table: Vec<usize> = vec![0, 0, 8, 10, 11, 12, 13, 14];
    assert(table@ =~= seq![0int, 0, 8, 10, 11, 12, 13, 14].map_values(|v: int| v as usize));
    table[i - 16]
}

fn color_field(fields: &Vec<Option<String>>, i: usize) -> (r: Option<String>)
    ensures
        opt_view(r) == field_at(fields@.map_values(|o: Option<String>| opt_view(o)), i as int),
{
    if i < fields.len() {
        match &fields[i] {
            Some(c) => Some(c.clone()),
            None => None,
        }
    } else {
        None
    }
}

/// Whether `c` is six hexadecimal digits.
pub fn is_valid_color(c: &str) -> (r: bool)
    ensures
        r == valid_color(c@),
{
    match hex_decode(c) {
        Ok(b) => b.len() == 3,
        Err(_) => false,
    }
}

/// The yaml text of a scheme: name and author, then one `baseXX` line per
/// color, the index in two upper-case hex digits.
pub open spec fn color_line(i: nat, c: Seq<char>) -> Seq<char> {
    "base"@ + seq![upper_digit(i / 16), upper_digit(i % 16)] + ": \""@ + c + "\"\n"@
}

pub open spec fn color_lines(cs: Seq<Seq<char>>) -> Seq<char>
    decreases cs.len(),
{
    if cs.len() == 0 {
        seq![]
    } else {
        color_lines(cs.drop_last()) + color_line((cs.len() - 1) as nat, cs.last())
    }
}

pub open spec fn yaml_of(s: SchemeView) -> Seq<char> {
    "scheme: \""@ + s.name + "\"\n"@ + "author: \""@ + s.author + "\"\n"@ + color_lines(s.colors)
}

/// Whether a scheme reads as dark or light.
#[derive(Clone, Copy, Debug, PartialEq, Eq, Structural)]
pub enum Luminance {
    Dark,
    Light,
}

impl Luminance {
    pub fn to_string(&self) -> (r: String)
        ensures
            r@ == (match self {
                Luminance::Dark => "Dark"@,
                Luminance::Light => "Light"@,
            }),
    {
        match self {
            Luminance::Dark => String::from_str("Dark"),
            Luminance::Light => String::from_str("Light"),
        }
    }
}

/// The perceived brightness of a color, in thousandths of a unit per
/// channel level: 299 red + 587 green + 114 blue.
pub open spec fn weighted_luminance(c: Seq<char>) -> int {
    299 * decode_hex(c)[0] + 587 * decode_hex(c)[1] + 114 * decode_hex(c)[2]
}

/// Dark when the two background colors average below half brightness.
pub open spec fn luminance_spec(c0: Seq<char>, c1: Seq<char>) -> Luminance {
    if weighted_luminance(c0) + weighted_luminance(c1) < 255000 {
        Luminance::Dark
    } else {
        Luminance::Light
    }
}

fn color_bytes(c: &str) -> (r: Option<Vec<u8>>)
    ensures
        r is Some <==> valid_color(c@),
        r matches Some(b) ==> b@ == decode_hex(c@) && b@.len() == 3,
{
    match hex_decode(c) {
        Ok(b) => if b.len() == 3 {
            Some(b)
        } else {
            None
        },
        Err(_) => None,
    }
}

/// The escape sequence that sets a 24-bit foreground (38) or background
/// (48) color: `ESC[<code>;2;<r>;<g>;<b>m`.
pub open spec fn true_color_spec(b: Seq<u8>, background: bool) -> Seq<char> {
    seq!['\x1b', '['] + decimal(if background { 48nat } else { 38nat }) + ";2;"@ + decimal(
        b[0] as nat,
    ) + ";"@ + decimal(b[1] as nat) + ";"@ + decimal(b[2] as nat) + "m"@
}

/// The terminal escape that shows `hex_color`, from the first three bytes
/// of its hex digits; none when they are not hex or too few.
pub fn true_color(hex_color: &str, background: bool) -> (r: Option<String>)
    ensures
        r is Some <==> (hex_color@.len() % 2 == 0 && all_hex(hex_color@) && hex_color@.len()
            >= 6),
        r matches Some(s) ==> s@ == true_color_spec(decode_hex(hex_color@), background),
{
    let b = match hex_decode(hex_color) {
        Ok(b) => b,
        Err(_) => {
            return None;
        },
    };
    if b.len() < 3 {
        return None;
    }
    let mut out = String::new();
    push_char(&mut out, '\x1b');
    push_char(&mut out, '[');
    push_decimal(&mut out, if background { 48 } else { 38 });
    push_str(&mut out, ";2;");
    push_decimal(&mut out, b[0]);
    push_str(&mut out, ";");
    push_decimal(&mut out, b[1]);
    push_str(&mut out, ";");
    push_decimal(&mut out, b[2]);
    push_str(&mut out, "m");
    assert(out@ =~= true_color_spec(b@, background));
    Some(out)
}

impl Scheme {
    /// Builds a scheme from the fields of a scheme document: `fields[i]` is
    /// `baseXX` for index `i` when the document has it. The sixteen base
    /// colors are required; each extended color that is missing takes its
    /// fallback. Every color must be six hexadecimal digits.
    pub fn from_fields(slug: String, name: String, author: String, fields: Vec<Option<String>>) -> (r:
        Result<Scheme, SchemeError>)
        ensures
            ({
                let fs = fields@.map_values(|o: Option<String>| opt_view(o));
                match r {
                    Ok(s) => {
                        &&& wf(s@)
                        &&& forall|i: int| 0 <= i < DOCUMENT_COLORS ==> #[trigger] color_ok(fs, i)
                        &&& s@.colors == Seq::new(
                            DOCUMENT_COLORS as nat,
                            |i: int| resolved_color(fs, i)->0,
                        )
                        &&& s@.slug == slug@ && s@.name == name@ && s@.author == author@
                    },
                    Err(SchemeError::MissingColor(i)) => {
                        &&& i < DOCUMENT_COLORS
                        &&& resolved_color(fs, i as int) is None
                        &&& forall|j: int| 0 <= j < i ==> #[trigger] color_ok(fs, j)
                    },
                    Err(SchemeError::InvalidColor(i)) => {
                        &&& i < DOCUMENT_COLORS
                        &&& resolved_color(fs, i as int) matches Some(c) && !valid_color(c)
                        &&& forall|j: int| 0 <= j < i ==> #[trigger] color_ok(fs, j)
                    },
                }
            }),
    {
        let ghost fs = fields@.map_values(|o: Option<String>| opt_view(o));
        let mut colors: VecDeque<String> = VecDeque::new();
        for i in 0..DOCUMENT_COLORS
            invariant
                fs == fields@.map_values(|o: Option<String>| opt_view(o)),
                colors@.len() == i,
                forall|j: int| 0 <= j < i ==> #[trigger] color_ok(fs, j),
                forall|j: int| 0 <= j < i ==> #[trigger] colors@[j]@ == resolved_color(fs, j)->0,
        {
            let c = if i < REQUIRED_COLORS {
                color_field(&fields, i)
            } else {
                match color_field(&fields, i) {
                    Some(c) => Some(c),
                    None => color_field(&fields, fallback_of(i)),
                }
            };
            match c {
                Some(c) => {
                    if !is_valid_color(c.as_str()) {
                        return Err(SchemeError::InvalidColor(i));
                    }
                    colors.push_back(c);
                },
                None => {
                    return Err(SchemeError::MissingColor(i));
                },
            }
        }
        let ghost want = Seq::new(DOCUMENT_COLORS as nat, |i: int| resolved_color(fs, i)->0);
        let s = Scheme { slug, name, author, colors };
        assert(s@.colors =~= want);
        assert forall|i: int| 0 <= i < s@.colors.len() implies #[trigger] valid_color(s@.colors[i]) by {
            assert(color_ok(fs, i));
        }
        Ok(s)
    }

    /// The scheme as a yaml document: `scheme` and `author`, then the colors
    /// in index order.
    pub fn to_string(&self) -> (r: String)
        requires
            self.colors@.len() <= 256,
        ensures
            r@ == yaml_of(self@),
    {
        let mut out = String::new();
        push_str(&mut out, "scheme: \"");
        push_str(&mut out, self.name.as_str());
        push_str(&mut out, "\"\n");
        push_str(&mut out, "author: \"");
        push_str(&mut out, self.author.as_str());
        push_str(&mut out, "\"\n");
        let ghost head = out@;
        let ghost cs = self@.colors;
        assert(cs.take(0) =~= Seq::<Seq<char>>::empty());
        for i in 0..self.colors.len()
            invariant
                cs == self@.colors,
                cs.len() <= 256,
                out@ == head + color_lines(cs.take(i as int)),
        {
            push_str(&mut out, "base");
            push_char(&mut out, upper_digit_of((i / 16) as u8));
            push_char(&mut out, upper_digit_of((i % 16) as u8));
            push_str(&mut out, ": \"");
            push_str(&mut out, self.colors[i].as_str());
            push_str(&mut out, "\"\n");
            assert(cs.take(i + 1).drop_last() =~= cs.take(i as int));
            assert(out@ =~= head + color_lines(cs.take(i + 1)));
        }
        assert(cs.take(cs.len() as int) =~= cs);
        assert(out@ =~= yaml_of(self@));
        out
    }

    /// Whether the scheme reads as dark or light, from its two background
    /// colors; fails when either is missing or not six hex digits.
    pub fn luminance(&self) -> (r: Result<Luminance, SchemeError>)
        ensures
            match r {
                Ok(l) => self@.colors.len() >= 2 && valid_color(self@.colors[0]) && valid_color(
                    self@.colors[1],
                ) && l == luminance_spec(self@.colors[0], self@.colors[1]),
                Err(SchemeError::MissingColor(i)) => i < 2 && self@.colors.len() == i && (i == 1
                    ==> valid_color(self@.colors[0])),
                Err(SchemeError::InvalidColor(i)) => i < 2 && i < self@.colors.len()
                    && !valid_color(self@.colors[i as int]) && (i == 1 ==> valid_color(
                    self@.colors[0],
                )),
            },
    {
        if self.colors.len() == 0 {
            return Err(SchemeError::MissingColor(0));
        }
        let b0 = match color_bytes(self.colors[0].as_str()) {
            Some(b) => b,
            None => {
                return Err(SchemeError::InvalidColor(0));
            },
        };
        if self.colors.len() == 1 {
            return Err(SchemeError::MissingColor(1));
        }
        let b1 = match color_bytes(self.colors[1].as_str()) {
            Some(b) => b,
            None => {
                return Err(SchemeError::InvalidColor(1));
            },
        };
        let w0 = 299 * (b0[0] as u32) + 587 * (b0[1] as u32) + 114 * (b0[2] as u32);
        let w1 = 299 * (b1[0] as u32) + 587 * (b1[1] as u32) + 114 * (b1[2] as u32);
        if w0 + w1 < 255000 {
            Ok(Luminance::Dark)
        } else {
            Ok(Luminance::Light)
        }
    }
}

} // verus!
