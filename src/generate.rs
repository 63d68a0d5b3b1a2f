//! The palette generator: dominant colors of an image, then a ladder of
//! threshold filters that picks a light and a dark color, role assignment by
//! mode, an eight-step ramp and eight accents.
//!
//! Luma and saturation are given in ten-thousandths (`0..=10000`). The color
//! space conversions that compute them, and that apply the luma and
//! saturation targets chosen here, are floating point and happen outside
//! this crate, as does decoding the image file into RGBA pixels.

use vstd::prelude::*;
use crate::hexcode::{encode_hex, hex_encode, is_hex_digit};
use crate::scheme::valid_color;

verus! {

/// Scale of luma and saturation values: `METRIC_SCALE` stands for 1.0.
pub const METRIC_SCALE: u32 = 10000;

/// The largest decoded pixel buffer handed to the quantizer.
pub const MAX_PIXEL_BYTES: usize = 0x800_0000;

/// Sampling step and palette size asked of the quantizer.
pub const QUANTIZE_QUALITY: u8 = 1;

pub const QUANTIZE_COLORS: u8 = 15;

/// Whether the generated scheme has a light or a dark background.
#[derive(Clone, Copy, Debug, PartialEq, Eq, Structural)]
pub enum Mode {
    Light,
    Dark,
}

/// An sRGB color with eight bits per channel.
#[derive(Clone, Copy, Debug, PartialEq, Eq, Structural)]
pub struct Rgb {
    pub r: u8,
    pub g: u8,
    pub b: u8,
}

/// A palette color with its luma and HSL saturation.
#[derive(Clone, Copy, Debug, PartialEq, Eq, Structural)]
pub struct Candidate {
    pub color: Rgb,
    pub luma: u32,
    pub saturation: u32,
}

/// Bounds a candidate must meet; a missing bound always holds.
#[derive(Clone, Copy, Debug, PartialEq, Eq, Structural)]
pub struct Filter {
    pub min_luma: Option<u32>,
    pub max_luma: Option<u32>,
    pub min_saturation: Option<u32>,
    pub max_saturation: Option<u32>,
}

/// A color and the corrections to make to it, each only where given: first
/// set its HSL saturation (keeping hue and lightness), then set its luma
/// (keeping its chromaticity). The luma is set last, so a luma target is the
/// luma of the corrected color.
#[derive(Clone, Copy, Debug, PartialEq, Eq, Structural)]
pub struct Adjusted {
    pub color: Rgb,
    pub luma: Option<u32>,
    pub saturation: Option<u32>,
}

/// The roles chosen from a palette, before the corrections are applied.
#[derive(Debug)]
pub struct PalettePlan {
    pub background: Adjusted,
    pub foreground: Adjusted,
    pub accents: Vec<Adjusted>,
}

#[derive(Clone, Copy, Debug, PartialEq, Eq, Structural)]
pub enum GenerateError {
    ImageTooLarge,
    QuantizationFailed,
    EmptyPalette,
    InsufficientAccentColors,
}

pub open spec fn below(bound: Option<u32>, v: u32) -> bool {
    match bound {
        Some(m) => v <= m,
        None => true,
    }
}

pub open spec fn above(bound: Option<u32>, v: u32) -> bool {
    match bound {
        Some(m) => v >= m,
        None => true,
    }
}

pub open spec fn passes(c: Candidate, f: Filter) -> bool {
    &&& above(f.min_luma, c.luma)
    &&& below(f.max_luma, c.luma)
    &&& above(f.min_saturation, c.saturation)
    &&& below(f.max_saturation, c.saturation)
}

/// The first candidate at or after `from` that passes `f`.
pub open spec fn first_passing(cs: Seq<Candidate>, f: Filter, from: int) -> Option<int>
    decreases cs.len() - from,
{
    if from < 0 || from >= cs.len() {
        None
    } else if passes(cs[from], f) {
        Some(from)
    } else {
        first_passing(cs, f, from + 1)
    }
}

/// The candidate picked by the first filter of `ladder` (from `k` on) that
/// any candidate passes; the most dominant candidate when none does.
pub open spec fn ladder_pick(cs: Seq<Candidate>, ladder: Seq<Filter>, k: int) -> Option<int>
    decreases ladder.len() - k,
{
    if k < 0 || k >= ladder.len() {
        if cs.len() > 0 {
            Some(0)
        } else {
            None
        }
    } else {
        match first_passing(cs, ladder[k], 0) {
            Some(i) => Some(i),
            None => ladder_pick(cs, ladder, k + 1),
        }
    }
}

pub open spec fn filter(
    min_luma: Option<u32>,
    max_luma: Option<u32>,
    min_saturation: Option<u32>,
    max_saturation: Option<u32>,
) -> Filter {
    Filter { min_luma, max_luma, min_saturation, max_saturation }
}

/// The filters for the light color, each looser than the one before.
pub open spec fn light_ladder() -> Seq<Filter> {
    seq![
        filter(Some(6000), None, None, Some(4000)),
        filter(Some(7000), None, None, Some(8500)),
        filter(Some(5000), None, None, Some(5000)),
        filter(Some(6000), None, None, Some(8500)),
        filter(Some(3200), None, None, Some(4000)),
        filter(Some(4000), None, None, None),
        filter(Some(3000), None, None, None),
    ]
}

/// The filters for the dark color, each looser than the one before.
pub open spec fn dark_ladder() -> Seq<Filter> {
    seq![
        filter(Some(120), Some(1000), Some(1800), Some(9000)),
        filter(Some(120), Some(1000), None, None),
        filter(None, Some(1000), None, None),
    ]
}

fn make_filter(
    min_luma: Option<u32>,
    max_luma: Option<u32>,
    min_saturation: Option<u32>,
    max_saturation: Option<u32>,
) -> (r: Filter)
    ensures
        r == filter(min_luma, max_luma, min_saturation, max_saturation),
{
    Filter { min_luma, max_luma, min_saturation, max_saturation }
}

fn light_filters() -> (r: Vec<Filter>)
    ensures
        r@ == light_ladder(),
{
    let r = vec![
        make_filter(Some(6000), None, None, Some(4000)),
        make_filter(Some(7000), None, None, Some(8500)),
        make_filter(Some(5000), None, None, Some(5000)),
        make_filter(Some(6000), None, None, Some(8500)),
        make_filter(Some(3200), None, None, Some(4000)),
        make_filter(Some(4000), None, None, None),
        make_filter(Some(3000), None, None, None),
    ];
    assert(r@ =~= light_ladder());
    r
}

fn dark_filters() -> (r: Vec<Filter>)
    ensures
        r@ == dark_ladder(),
{
    let r = vec![
        make_filter(Some(120), Some(1000), Some(1800), Some(9000)),
        make_filter(Some(120), Some(1000), None, None),
        make_filter(None, Some(1000), None, None),
    ];
    assert(r@ =~= dark_ladder());
    r
}

fn within(c: &Candidate, f: &Filter) -> (r: bool)
    ensures
        r == passes(*c, *f),
{
    let lo_l = match f.min_luma {
        Some(m) => c.luma >= m,
        None => true,
    };
    let hi_l = match f.max_luma {
        Some(m) => c.luma <= m,
        None => true,
    };
    let lo_s = match f.min_saturation {
        Some(m) => c.saturation >= m,
        None => true,
    };
    let hi_s = match f.max_saturation {
        Some(m) => c.saturation <= m,
        None => true,
    };
    lo_l && hi_l && lo_s && hi_s
}

/// The first candidate that passes `f`, most dominant first.
pub fn color_pass(colors: &Vec<Candidate>, f: &Filter) -> (r: Option<usize>)
    ensures
        match r {
            Some(i) => first_passing(colors@, *f, 0) == Some(i as int),
            None => first_passing(colors@, *f, 0) is None,
        },
{
    let mut i: usize = 0;
    while i < colors.len()
        invariant
            i <= colors@.len(),
            first_passing(colors@, *f, 0) == first_passing(colors@, *f, i as int),
        decreases colors@.len() - i,
    {
        if within(&colors[i], f) {
            return Some(i);
        }
        i = i + 1;
    }
    None
}

fn pick_by_ladder(colors: &Vec<Candidate>, ladder: &Vec<Filter>) -> (r: Option<usize>)
    ensures
        match r {
            Some(i) => ladder_pick(colors@, ladder@, 0) == Some(i as int),
            None => ladder_pick(colors@, ladder@, 0) is None,
        },
{
    let mut k: usize = 0;
    while k < ladder.len()
        invariant
            k <= ladder@.len(),
            ladder_pick(colors@, ladder@, 0) == ladder_pick(colors@, ladder@, k as int),
        decreases ladder@.len() - k,
    {
        match color_pass(colors, &ladder[k]) {
            Some(i) => {
                return Some(i);
            },
            None => {},
        }
        k = k + 1;
    }
    if colors.len() > 0 {
        Some(0)
    } else {
        None
    }
}

/// The light color: the first candidate that the light ladder accepts, or
/// the most dominant one; none only for an empty palette.
pub fn light_color(colors: &Vec<Candidate>) -> (r: Option<usize>)
    ensures
        match r {
            Some(i) => ladder_pick(colors@, light_ladder(), 0) == Some(i as int),
            None => ladder_pick(colors@, light_ladder(), 0) is None,
        },
{
    pick_by_ladder(colors, &light_filters())
}

/// The dark color: the first candidate that the dark ladder accepts, or the
/// most dominant one; none only for an empty palette.
pub fn dark_color(colors: &Vec<Candidate>) -> (r: Option<usize>)
    ensures
        match r {
            Some(i) => ladder_pick(colors@, dark_ladder(), 0) == Some(i as int),
            None => ladder_pick(colors@, dark_ladder(), 0) is None,
        },
{
    pick_by_ladder(colors, &dark_filters())
}


/// Bands for the two main colors, in ten-thousandths.
pub const LIGHT_FG_MAX_LUMA: u32 = 150;

pub const LIGHT_FG_MAX_SATURATION: u32 = 6500;

pub const LIGHT_BG_MIN_LUMA: u32 = 7500;

pub const LIGHT_BG_MAX_SATURATION: u32 = 1200;

pub const DARK_FG_MIN_LUMA: u32 = 6000;

pub const DARK_FG_MAX_SATURATION: u32 = 1500;

pub const DARK_BG_MAX_LUMA: u32 = 200;

pub const DARK_BG_MAX_SATURATION: u32 = 6000;

/// Luma band of the accents: at least `DARK_ACCENT_MIN_LUMA` in dark mode,
/// within `LIGHT_ACCENT_MIN_LUMA..=LIGHT_ACCENT_MAX_LUMA` in light mode.
pub const DARK_ACCENT_MIN_LUMA: u32 = 1900;

pub const LIGHT_ACCENT_MIN_LUMA: u32 = 1000;

pub const LIGHT_ACCENT_MAX_LUMA: u32 = 1200;

pub const ACCENT_COUNT: usize = 8;

pub open spec fn cap_above(v: u32, limit: u32, target: u32) -> Option<u32> {
    if v > limit {
        Some(target)
    } else {
        None
    }
}

pub open spec fn raise_below(v: u32, limit: u32) -> Option<u32> {
    if v < limit {
        Some(limit)
    } else {
        None
    }
}

/// The background and foreground with their corrections: in dark mode the
/// dark color is the background and the light color the foreground, in
/// light mode the other way round; each is pulled into its band.
pub open spec fn fix_spec(dark: Candidate, light: Candidate, mode: Mode) -> (Adjusted, Adjusted) {
    match mode {
        Mode::Light => (
            Adjusted {
                color: light.color,
                luma: raise_below(light.luma, LIGHT_BG_MIN_LUMA),
                saturation: cap_above(light.saturation, LIGHT_BG_MAX_SATURATION, LIGHT_BG_MAX_SATURATION),
            },
            Adjusted {
                color: dark.color,
                luma: cap_above(dark.luma, LIGHT_FG_MAX_LUMA, LIGHT_FG_MAX_LUMA),
                saturation: cap_above(dark.saturation, LIGHT_FG_MAX_SATURATION, LIGHT_FG_MAX_SATURATION),
            },
        ),
        Mode::Dark => (
            Adjusted {
                color: dark.color,
                luma: cap_above(dark.luma, DARK_BG_MAX_LUMA, DARK_BG_MAX_LUMA),
                saturation: cap_above(dark.saturation, DARK_BG_MAX_SATURATION, DARK_BG_MAX_SATURATION),
            },
            Adjusted {
                color: light.color,
                luma: raise_below(light.luma, DARK_FG_MIN_LUMA),
                saturation: cap_above(light.saturation, DARK_FG_MAX_SATURATION, DARK_FG_MAX_SATURATION),
            },
        ),
    }
}

fn cap(v: u32, limit: u32, target: u32) -> (r: Option<u32>)
    ensures
        r == cap_above(v, limit, target),
{
    if v > limit {
        Some(target)
    } else {
        None
    }
}

fn raise(v: u32, limit: u32) -> (r: Option<u32>)
    ensures
        r == raise_below(v, limit),
{
    if v < limit {
        Some(limit)
    } else {
        None
    }
}

/// Assigns background and foreground by mode, returned in that order, and
/// chooses the corrections that bring each into its band.
pub fn fix_colors(dark: &Candidate, light: &Candidate, mode: Mode) -> (r: (Adjusted, Adjusted))
    ensures
        r == fix_spec(*dark, *light, mode),
{
    match mode {
        Mode::Light => (
            Adjusted {
                color: light.color,
                luma: raise(light.luma, LIGHT_BG_MIN_LUMA),
                saturation: cap(light.saturation, LIGHT_BG_MAX_SATURATION, LIGHT_BG_MAX_SATURATION),
            },
            Adjusted {
                color: dark.color,
                luma: cap(dark.luma, LIGHT_FG_MAX_LUMA, LIGHT_FG_MAX_LUMA),
                saturation: cap(dark.saturation, LIGHT_FG_MAX_SATURATION, LIGHT_FG_MAX_SATURATION),
            },
        ),
        Mode::Dark => (
            Adjusted {
                color: dark.color,
                luma: cap(dark.luma, DARK_BG_MAX_LUMA, DARK_BG_MAX_LUMA),
                saturation: cap(dark.saturation, DARK_BG_MAX_SATURATION, DARK_BG_MAX_SATURATION),
            },
            Adjusted {
                color: light.color,
                luma: raise(light.luma, DARK_FG_MIN_LUMA),
                saturation: cap(light.saturation, DARK_FG_MAX_SATURATION, DARK_FG_MAX_SATURATION),
            },
        ),
    }
}

/// The luma an accent is given: clamped into the light band, or raised to
/// the dark minimum.
pub open spec fn accent_luma(luma: u32, mode: Mode) -> u32 {
    match mode {
        Mode::Light => if luma > LIGHT_ACCENT_MAX_LUMA {
            LIGHT_ACCENT_MAX_LUMA
        } else if luma < LIGHT_ACCENT_MIN_LUMA {
            LIGHT_ACCENT_MIN_LUMA
        } else {
            luma
        },
        Mode::Dark => if luma < DARK_ACCENT_MIN_LUMA {
            DARK_ACCENT_MIN_LUMA
        } else {
            luma
        },
    }
}

pub open spec fn accent_spec(c: Candidate, mode: Mode) -> Adjusted {
    Adjusted { color: c.color, luma: Some(accent_luma(c.luma, mode)), saturation: None }
}

/// The accents: the least dominant candidates first, each given its luma.
pub open spec fn accents_spec(cs: Seq<Candidate>, mode: Mode) -> Seq<Adjusted> {
    Seq::new(ACCENT_COUNT as nat, |k: int| accent_spec(cs[cs.len() - 1 - k], mode))
}

/// The plan for a palette, most dominant color first.
pub open spec fn plan_spec(cs: Seq<Candidate>, mode: Mode) -> Result<
    (Adjusted, Adjusted, Seq<Adjusted>),
    GenerateError,
> {
    if cs.len() == 0 {
        Err(GenerateError::EmptyPalette)
    } else if cs.len() < ACCENT_COUNT {
        Err(GenerateError::InsufficientAccentColors)
    } else {
        let light = cs[ladder_pick(cs, light_ladder(), 0)->0];
        let dark = cs[ladder_pick(cs, dark_ladder(), 0)->0];
        let roles = fix_spec(dark, light, mode);
        Ok((roles.0, roles.1, accents_spec(cs, mode)))
    }
}

proof fn lemma_first_passing_in_range(cs: Seq<Candidate>, f: Filter, from: int)
    ensures
        first_passing(cs, f, from) matches Some(i) ==> 0 <= i < cs.len(),
    decreases cs.len() - from,
{
    if 0 <= from < cs.len() && !passes(cs[from], f) {
        lemma_first_passing_in_range(cs, f, from + 1);
    }
}

proof fn lemma_ladder_pick_in_range(cs: Seq<Candidate>, ladder: Seq<Filter>, k: int)
    ensures
        ladder_pick(cs, ladder, k) matches Some(i) ==> 0 <= i < cs.len(),
        cs.len() > 0 ==> ladder_pick(cs, ladder, k) is Some,
    decreases ladder.len() - k,
{
    if 0 <= k < ladder.len() {
        lemma_first_passing_in_range(cs, ladder[k], 0);
        lemma_ladder_pick_in_range(cs, ladder, k + 1);
    }
}

fn accent_luma_of(luma: u32, mode: Mode) -> (r: u32)
    ensures
        r == accent_luma(luma, mode),
{
    match mode {
        Mode::Light => if luma > LIGHT_ACCENT_MAX_LUMA {
            LIGHT_ACCENT_MAX_LUMA
        } else if luma < LIGHT_ACCENT_MIN_LUMA {
            LIGHT_ACCENT_MIN_LUMA
        } else {
            luma
        },
        Mode::Dark => if luma < DARK_ACCENT_MIN_LUMA {
            DARK_ACCENT_MIN_LUMA
        } else {
            luma
        },
    }
}

/// Picks background, foreground and accents from a palette ordered by
/// decreasing dominance. Fails on an empty palette, and on one with fewer
/// colors than accents.
pub fn plan(colors: &Vec<Candidate>, mode: Mode) -> (r: Result<PalettePlan, GenerateError>)
    ensures
        match r {
            Ok(p) => plan_spec(colors@, mode) == Ok::<_, GenerateError>(
                (p.background, p.foreground, p.accents@),
            ),
            Err(e) => plan_spec(colors@, mode) == Err::<(Adjusted, Adjusted, Seq<Adjusted>), _>(e),
        },
{
    proof {
        lemma_ladder_pick_in_range(colors@, light_ladder(), 0);
        lemma_ladder_pick_in_range(colors@, dark_ladder(), 0);
    }
    let n = colors.len();
    if n == 0 {
        return Err(GenerateError::EmptyPalette);
    }
    if n < ACCENT_COUNT {
        return Err(GenerateError::InsufficientAccentColors);
    }
    let li = match light_color(colors) {
        Some(i) => i,
        None => {
            return Err(GenerateError::EmptyPalette);
        },
    };
    let di = match dark_color(colors) {
        Some(i) => i,
        None => {
            return Err(GenerateError::EmptyPalette);
        },
    };
    let (background, foreground) = fix_colors(&colors[di], &colors[li], mode);
    let mut accents: Vec<Adjusted> = Vec::new();
    for k in 0..ACCENT_COUNT
        invariant
            n == colors@.len(),
            n >= ACCENT_COUNT,
            accents@.len() == k,
            forall|j: int| 0 <= j < k ==> #[trigger] accents@[j] == accent_spec(colors@[n - 1 - j], mode),
    {
        let c = &colors[n - 1 - k];
        accents.push(Adjusted { color: c.color, luma: Some(accent_luma_of(c.luma, mode)), saturation: None });
    }
    assert(accents@ =~= accents_spec(colors@, mode));
    Ok(PalettePlan { background, foreground, accents })
}


/// `p` percent of the way from channel `a` to channel `b`, rounded down.
pub open spec fn mix(a: u8, b: u8, p: nat) -> u8 {
    ((b as nat * p + a as nat * (100 - p)) / 100) as u8
}

pub open spec fn blend_spec(c1: Rgb, c2: Rgb, p: nat) -> Rgb {
    Rgb { r: mix(c1.r, c2.r, p), g: mix(c1.g, c2.g, p), b: mix(c1.b, c2.b, p) }
}

/// Black behind a light scheme's foreground steps, white behind a dark one's.
pub open spec fn override_color(mode: Mode) -> Rgb {
    match mode {
        Mode::Light => Rgb { r: 0, g: 0, b: 0 },
        Mode::Dark => Rgb { r: 255, g: 255, b: 255 },
    }
}

/// The eight main colors: background, four steps towards the foreground,
/// the foreground, and two steps from it towards the override color.
pub open spec fn ramp_spec(bg: Rgb, fg: Rgb, mode: Mode) -> Seq<Rgb> {
    seq![
        bg,
        blend_spec(bg, fg, 20),
        blend_spec(bg, fg, 40),
        blend_spec(bg, fg, 60),
        blend_spec(bg, fg, 80),
        fg,
        blend_spec(fg, override_color(mode), 15),
        blend_spec(fg, override_color(mode), 30),
    ]
}

pub open spec fn hex_of(c: Rgb) -> Seq<char> {
    encode_hex(seq![c.r, c.g, c.b])
}

/// The scheme's colors as hex strings: the ramp, then the accents.
pub open spec fn assemble_spec(bg: Rgb, fg: Rgb, accents: Seq<Rgb>, mode: Mode) -> Seq<Seq<char>> {
    (ramp_spec(bg, fg, mode) + accents).map_values(|c: Rgb| hex_of(c))
}

fn mix_channel(a: u8, b: u8, p: u32) -> (r: u8)
    requires
        p <= 100,
    ensures
        r == mix(a, b, p as nat),
{
    assert(b as u32 * p + a as u32 * (100 - p) <= 25500) by (nonlinear_arith)
        requires
            a <= 255,
            b <= 255,
            p <= 100,
    ;
    let v = (b as u32 * p + a as u32 * (100 - p)) / 100;
    v as u8
}

/// `p` percent of the way from `c1` to `c2`, channel by channel.
pub fn blend(c1: Rgb, c2: Rgb, p: u32) -> (r: Rgb)
    requires
        p <= 100,
    ensures
        r == blend_spec(c1, c2, p as nat),
{
    Rgb { r: mix_channel(c1.r, c2.r, p), g: mix_channel(c1.g, c2.g, p), b: mix_channel(c1.b, c2.b, p) }
}

/// The color as six lower-case hex digits.
pub fn to_hex(c: Rgb) -> (r: String)
    ensures
        r@ == hex_of(c),
{
    let v: Vec<u8> = vec![c.r, c.g, c.b];
    assert(v@ =~= seq![c.r, c.g, c.b]);
    hex_encode(v.as_slice())
}

/// The generated scheme's colors: the ramp from `background` to
/// `foreground`, then `accents`, each as hex.
pub fn assemble_palette(background: Rgb, foreground: Rgb, accents: &Vec<Rgb>, mode: Mode) -> (r:
    Vec<String>)
    ensures
        r@.map_values(|s: String| s@) == assemble_spec(background, foreground, accents@, mode),
        r@.len() == 8 + accents@.len(),
        forall|i: int| 0 <= i < r@.len() ==> #[trigger] valid_color(r@[i]@),
{
    let over = match mode {
        Mode::Light => Rgb { r: 0, g: 0, b: 0 },
        Mode::Dark => Rgb { r: 255, g: 255, b: 255 },
    };
    let mut all: Vec<Rgb> = vec![
        background,
        blend(background, foreground, 20),
        blend(background, foreground, 40),
        blend(background, foreground, 60),
        blend(background, foreground, 80),
        foreground,
        blend(foreground, over, 15),
        blend(foreground, over, 30),
    ];
    assert(all@ =~= ramp_spec(background, foreground, mode));
    let ghost ramp = all@;
    for k in 0..accents.len()
        invariant
            all@ == ramp + accents@.take(k as int),
    {
        all.push(accents[k]);
        assert(accents@.take(k + 1) =~= accents@.take(k as int).push(accents@[k as int]));
    }
    assert(accents@.take(accents@.len() as int) =~= accents@);
    let ghost full = all@;
    let mut out: Vec<String> = Vec::new();
    for k in 0..all.len()
        invariant
            all@ == full,
            out@.len() == k,
            forall|j: int| 0 <= j < k ==> #[trigger] out@[j]@ == hex_of(full[j]),
    {
        out.push(to_hex(all[k]));
    }
    assert(out@.map_values(|s: String| s@) =~= full.map_values(|c: Rgb| hex_of(c)));
    out
}

/// A color of the quantizer as a `Rgb`.
pub open spec fn rgb_of(t: (u8, u8, u8)) -> Rgb {
    Rgb { r: t.0, g: t.1, b: t.2 }
}

/// The colors of `s` in order, each kept at its first occurrence only.
pub open spec fn dedup(s: Seq<Rgb>) -> Seq<Rgb>
    decreases s.len(),
{
    if s.len() == 0 {
        seq![]
    } else if dedup(s.drop_last()).contains(s.last()) {
        dedup(s.drop_last())
    } else {
        dedup(s.drop_last()).push(s.last())
    }
}

fn holds(v: &Vec<Rgb>, c: Rgb) -> (r: bool)
    ensures
        r == v@.contains(c),
{
    let mut i: usize = 0;
    while i < v.len()
        invariant
            i <= v@.len(),
            forall|j: int| 0 <= j < i ==> v@[j] != c,
        decreases v@.len() - i,
    {
        if v[i] == c {
            return true;
        }
        i = i + 1;
    }
    false
}

/// Drops repeated colors, keeping the first of each.
pub fn dedup_colors(colors: &Vec<(u8, u8, u8)>) -> (r: Vec<Rgb>)
    ensures
        r@ == dedup(colors@.map_values(|t: (u8, u8, u8)| rgb_of(t))),
{
    let ghost all = colors@.map_values(|t: (u8, u8, u8)| rgb_of(t));
    let mut out: Vec<Rgb> = Vec::new();
    for i in 0..colors.len()
        invariant
            all == colors@.map_values(|t: (u8, u8, u8)| rgb_of(t)),
            out@ == dedup(all.take(i as int)),
    {
        let (r, g, b) = colors[i];
        let c = Rgb { r, g, b };
        assert(all.take(i + 1).drop_last() =~= all.take(i as int));
        assert(all.take(i + 1).last() == c);
        if !holds(&out, c) {
            out.push(c);
        }
    }
    assert(all.take(colors@.len() as int) =~= all);
    out
}

#[verifier::external_type_specification]
#[verifier::external_body]
pub struct ExQuantizeError(color_thief::Error);

/// Relies on `color_thief::get_palette`: the dominant colors of RGBA pixels,
/// most dominant first, which depend on the pixels and the settings alone.
pub uninterp spec fn quantized(pixels: Seq<u8>, quality: u8, max_colors: u8) -> Option<
    Seq<(u8, u8, u8)>,
>;

/// Relies on `color_thief::get_palette` on RGBA pixels: at most `max_colors`
/// colors. It asserts its quality and palette size bounds, and its sums
/// fit in `i32` for buffers up to `MAX_PIXEL_BYTES`.
#[verifier::external_body]
fn quantize(pixels: &[u8], quality: u8, max_colors: u8) -> (r: Result<
    Vec<(u8, u8, u8)>,
    color_thief::Error,
>)
    requires
        1 <= quality <= 10,
        max_colors >= 2,
        pixels@.len() <= MAX_PIXEL_BYTES,
    ensures
        r is Ok <==> quantized(pixels@, quality, max_colors) is Some,
        r matches Ok(v) ==> v@ == quantized(pixels@, quality, max_colors)->0 && v@.len()
            <= max_colors,
{
    color_thief::get_palette(pixels, color_thief::ColorFormat::Rgba, quality, max_colors).map(
        |v| v.into_iter().map(|c| (c.r, c.g, c.b)).collect(),
    )
}

/// The distinct dominant colors of RGBA pixels (four bytes each).
pub open spec fn extract_spec(pixels: Seq<u8>) -> Result<Seq<Rgb>, GenerateError> {
    if pixels.len() > MAX_PIXEL_BYTES {
        Err(GenerateError::ImageTooLarge)
    } else {
        match quantized(pixels, QUANTIZE_QUALITY, QUANTIZE_COLORS) {
            None => Err(GenerateError::QuantizationFailed),
            Some(q) => Ok(dedup(q.map_values(|t: (u8, u8, u8)| rgb_of(t)))),
        }
    }
}

/// Extracts the dominant colors of an image's RGBA pixels, most dominant
/// first, without repeats. Fails when the quantizer fails, and when the
/// pixels exceed `MAX_PIXEL_BYTES`: the quantizer's sums are 32-bit and
/// could overflow on larger buffers.
pub fn extract_palette(pixels: &[u8]) -> (r: Result<Vec<Rgb>, GenerateError>)
    ensures
        match r {
            Ok(v) => extract_spec(pixels@) == Ok::<Seq<Rgb>, GenerateError>(v@),
            Err(e) => extract_spec(pixels@) == Err::<Seq<Rgb>, GenerateError>(e),
        },
{
    if pixels.len() > MAX_PIXEL_BYTES {
        return Err(GenerateError::ImageTooLarge);
    }
    match quantize(pixels, QUANTIZE_QUALITY, QUANTIZE_COLORS) {
        Ok(q) => Ok(dedup_colors(&q)),
        Err(_) => Err(GenerateError::QuantizationFailed),
    }
}

proof fn lemma_dedup_of_one_color(s: Seq<Rgb>)
    requires
        s.len() > 0,
        forall|i: int| 0 <= i < s.len() ==> #[trigger] s[i] == s[0],
    ensures
        dedup(s) == seq![s[0]],
    decreases s.len(),
{
    if s.len() == 1 {
        assert(s.drop_last() =~= Seq::<Rgb>::empty());
        assert(dedup(s.drop_last()) =~= Seq::<Rgb>::empty());
        assert(Seq::<Rgb>::empty().push(s.last()) =~= seq![s[0]]);
    } else {
        let p = s.drop_last();
        assert forall|i: int| 0 <= i < p.len() implies #[trigger] p[i] == p[0] by {
            assert(p[i] == s[i] && p[0] == s[0]);
        }
        lemma_dedup_of_one_color(p);
        assert(dedup(s.drop_last()).contains(s.last())) by {
            assert(dedup(s.drop_last())[0] == s.last());
        }
    }
}

/// When every color the quantizer reports is the same, one distinct color
/// remains, and planning on the candidates measured from it fails with
/// `InsufficientAccentColors` rather than repeating a color.
pub proof fn lemma_single_color_image(colors: Seq<Rgb>, candidates: Seq<Candidate>, mode: Mode)
    requires
        colors.len() > 0,
        forall|i: int| 0 <= i < colors.len() ==> #[trigger] colors[i] == colors[0],
        candidates.len() == dedup(colors).len(),
    ensures
        dedup(colors) == seq![colors[0]],
        plan_spec(candidates, mode) == Err::<(Adjusted, Adjusted, Seq<Adjusted>), GenerateError>(
            GenerateError::InsufficientAccentColors,
        ),
{
    lemma_dedup_of_one_color(colors);
}

/// Generation is a function of its inputs: equal pixels give equal
/// extracted palettes, and equal candidates, mode and corrected colors give
/// equal plans and equal scheme colors.
pub proof fn lemma_generation_deterministic(
    pixels1: Seq<u8>,
    pixels2: Seq<u8>,
    candidates1: Seq<Candidate>,
    candidates2: Seq<Candidate>,
    bg1: Rgb,
    bg2: Rgb,
    fg1: Rgb,
    fg2: Rgb,
    accents1: Seq<Rgb>,
    accents2: Seq<Rgb>,
    mode: Mode,
)
    requires
        pixels1 == pixels2,
        candidates1 == candidates2,
        bg1 == bg2,
        fg1 == fg2,
        accents1 == accents2,
    ensures
        extract_spec(pixels1) == extract_spec(pixels2),
        plan_spec(candidates1, mode) == plan_spec(candidates2, mode),
        assemble_spec(bg1, fg1, accents1, mode) == assemble_spec(bg2, fg2, accents2, mode),
{
}

/// In dark mode, a dark color whose luma is above the background ceiling is
/// given exactly the ceiling as its luma target, which is applied last and
/// keeps the chromaticity of that dark color itself.
pub proof fn lemma_dark_background_capped(candidates: Seq<Candidate>)
    requires
        candidates.len() >= ACCENT_COUNT,
        candidates[ladder_pick(candidates, dark_ladder(), 0)->0].luma > DARK_BG_MAX_LUMA,
    ensures
        plan_spec(candidates, Mode::Dark) is Ok,
        plan_spec(candidates, Mode::Dark)->Ok_0.0.luma == Some(DARK_BG_MAX_LUMA),
        plan_spec(candidates, Mode::Dark)->Ok_0.0.color == candidates[ladder_pick(
            candidates,
            dark_ladder(),
            0,
        )->0].color,
{
}

} // verus!
