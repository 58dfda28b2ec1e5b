//! Configuration: the settings a user writes in `config.toml`, their defaults,
//! and the colours of a custom palette.

use crate::text::{copy_str, from_char_range, to_chars};
use crate::locale::AppLocale;
use vstd::prelude::*;
use vstd::utf8::{encode_utf8, is_char_boundary};

verus! {

/// The name the launcher goes by: its configuration directory, its layer-shell
/// namespace and the prefix of the scopes it launches into.
pub const APP_NAME: &'static str = "sirula";

/// The configuration file, under the configuration directory.
pub const CONFIG_FILE: &'static str = "config.toml";

/// The launch history, under the cache directory.
pub const HISTORY_FILE: &'static str = "history.toml";

/// The layer-shell namespace of the launcher's surface.
pub fn namespace() -> (res: String)
    ensures
        res@ == APP_NAME@,
{
    copy_str(APP_NAME)
}

/// A piece of an application's desktop entry that can be shown beside its
/// name or searched without being shown.
#[derive(Clone, Copy, Debug, PartialEq, Eq, Structural)]
pub enum Field {
    Comment,
    Id,
    IdSuffix,
    Executable,
    Commandline,
}

/// The built-in themes.
#[derive(Clone, Copy, Debug, PartialEq, Eq, Structural)]
pub enum ThemeName {
    Light,
    Dark,
    Dracula,
    Nord,
    SolarizedLight,
    SolarizedDark,
    GruvboxLight,
    GruvboxDark,
    CatppuccinLatte,
    CatppuccinFrappe,
    CatppuccinMacchiato,
    CatppuccinMocha,
    TokyoNight,
    TokyoNightStorm,
    TokyoNightLight,
    KanagawaWave,
    KanagawaDragon,
    KanagawaLotus,
    Moonfly,
    Nightfly,
    Oxocarbon,
    Ferra,
}

impl Default for ThemeName {
    fn default() -> (res: Self)
        ensures
            res == ThemeName::CatppuccinFrappe,
    {
        ThemeName::CatppuccinFrappe
    }
}

// ---------------------------------------------------------------------------
// Hex colours
// ---------------------------------------------------------------------------

/// An sRGB colour with 8-bit channels; `a` is the alpha channel where the
/// colour gave one (a colour without it is opaque).
#[derive(Clone, Copy, Debug, PartialEq, Eq, Structural)]
pub struct HexColor {
    pub r: u8,
    pub g: u8,
    pub b: u8,
    pub a: Option<u8>,
}

/// The value of a hexadecimal digit (`0-9`, `a-f`, `A-F`).
pub open spec fn hex_digit_value(c: char) -> Option<u8> {
    let v = c as u32;
    if 48 <= v <= 57 {
        Some((v - 48) as u8)
    } else if 97 <= v <= 102 {
        Some((v - 87) as u8)
    } else if 65 <= v <= 70 {
        Some((v - 55) as u8)
    } else {
        None
    }
}

/// What `u8::from_str_radix(t, 16)` gives for a text of one or two
/// characters: the digits' value, where a two-character text may also be a
/// `+` sign and one digit.
pub open spec fn hex_byte(t: Seq<char>) -> Option<u8> {
    if t.len() == 1 {
        hex_digit_value(t[0])
    } else if t.len() == 2 {
        if t[0] == '+' {
            hex_digit_value(t[1])
        } else {
            match (hex_digit_value(t[0]), hex_digit_value(t[1])) {
                (Some(h), Some(l)) => Some((h * 16 + l) as u8),
                _ => None,
            }
        }
    } else {
        None
    }
}

/// `s` without its leading `c`s (`str::trim_start_matches` with a character).
pub open spec fn trim_leading(s: Seq<char>, c: char) -> Seq<char>
    decreases s.len(),
{
    if s.len() > 0 && s[0] == c {
        trim_leading(s.drop_first(), c)
    } else {
        s
    }
}

/// Every character of `t` is ASCII.
pub open spec fn is_ascii_text(t: Seq<char>) -> bool {
    forall|i: int| 0 <= i < t.len() ==> #[trigger] t[i] <= '\u{7f}'
}

/// A one-digit channel, scaled so that `f` is 255.
pub open spec fn short_channel(t: Seq<char>, i: int) -> Option<u8> {
    match hex_byte(t.subrange(i, i + 1)) {
        Some(v) => Some((v * 17) as u8),
        None => None,
    }
}

/// A two-digit channel.
pub open spec fn long_channel(t: Seq<char>, i: int) -> Option<u8> {
    hex_byte(t.subrange(i, i + 2))
}

/// The colour a hex text stands for, once its leading `#`s are gone:
/// `RGB`, `RGBA`, `RRGGBB` or `RRGGBBAA`; anything else, and any text that
/// is not ASCII, stands for none.
pub open spec fn hex_color_of(t: Seq<char>) -> Option<HexColor> {
    if !is_ascii_text(t) {
        None
    } else if t.len() == 3 || t.len() == 4 {
        match (short_channel(t, 0), short_channel(t, 1), short_channel(t, 2)) {
            (Some(r), Some(g), Some(b)) => if t.len() == 3 {
                Some(HexColor { r, g, b, a: None })
            } else {
                match short_channel(t, 3) {
                    Some(a) => Some(HexColor { r, g, b, a: Some(a) }),
                    None => None,
                }
            },
            _ => None,
        }
    } else if t.len() == 6 || t.len() == 8 {
        match (long_channel(t, 0), long_channel(t, 2), long_channel(t, 4)) {
            (Some(r), Some(g), Some(b)) => if t.len() == 6 {
                Some(HexColor { r, g, b, a: None })
            } else {
                match long_channel(t, 6) {
                    Some(a) => Some(HexColor { r, g, b, a: Some(a) }),
                    None => None,
                }
            },
            _ => None,
        }
    } else {
        None
    }
}

/// The colour that a configured colour text (`#RGB`, `#RGBA`, `#RRGGBB`,
/// `#RRGGBBAA`, with any number of leading `#`) stands for.
pub open spec fn parse_hex_color_spec(s: Seq<char>) -> Option<HexColor> {
    hex_color_of(trim_leading(s, '#'))
}

/// Whether reading the colour text `s` would slice it inside a character:
/// the text is cut at byte offsets, one or two bytes per channel, once its
/// leading `#`s are gone and its length in bytes is 3, 4, 6 or 8.
pub open spec fn hex_color_cuts_char(s: Seq<char>) -> bool {
    let bytes = encode_utf8(trim_leading(s, '#'));
    let n = bytes.len();
    ||| n == 3 && !(is_char_boundary(bytes, 1) && is_char_boundary(bytes, 2))
    ||| n == 4 && !(is_char_boundary(bytes, 1) && is_char_boundary(bytes, 2) && is_char_boundary(
        bytes,
        3,
    ))
    ||| n == 6 && !(is_char_boundary(bytes, 2) && is_char_boundary(bytes, 4))
    ||| n == 8 && !(is_char_boundary(bytes, 2) && is_char_boundary(bytes, 4) && is_char_boundary(
        bytes,
        6,
    ))
}

fn hex_digit(c: char) -> (res: Option<u8>)
    ensures
        res == hex_digit_value(c),
{
    let v = c as u32;
    if 48 <= v && v <= 57 {
        Some((v - 48) as u8)
    } else if 97 <= v && v <= 102 {
        Some((v - 87) as u8)
    } else if 65 <= v && v <= 70 {
        Some((v - 55) as u8)
    } else {
        None
    }
}

fn parse_short(t: &[char], i: usize) -> (res: Option<u8>)
    requires
        i + 1 <= t.len(),
    ensures
        res == short_channel(t@, i as int),
{
    assert(t@.subrange(i as int, i + 1)[0] == t@[i as int]);
    match hex_digit(t[i]) {
        Some(v) => Some(v * 17),
        None => None,
    }
}

fn parse_long(t: &[char], i: usize) -> (res: Option<u8>)
    requires
        i + 2 <= t.len(),
    ensures
        res == long_channel(t@, i as int),
{
    let ghost sub = t@.subrange(i as int, i + 2);
    assert(sub[0] == t@[i as int] && sub[1] == t@[i + 1]);
    if t[i] == '+' {
        hex_digit(t[i + 1])
    } else {
        match (hex_digit(t[i]), hex_digit(t[i + 1])) {
            (Some(h), Some(l)) => Some(h * 16 + l),
            _ => None,
        }
    }
}

proof fn lemma_trim_leading_skip(s: Seq<char>, c: char, i: int)
    requires
        0 <= i <= s.len(),
        forall|k: int| 0 <= k < i ==> #[trigger] s[k] == c,
        i < s.len() ==> s[i] != c,
    ensures
        trim_leading(s, c) == s.skip(i),
    decreases i,
{
    if i == 0 {
        assert(s.skip(0) =~= s);
    } else {
        let t = s.drop_first();
        assert(s[0] == c);
        assert forall|k: int| 0 <= k < i - 1 implies #[trigger] t[k] == c by {
            assert(t[k] == s[k + 1]);
        }
        lemma_trim_leading_skip(t, c, i - 1);
        assert(t.skip(i - 1) =~= s.skip(i));
    }
}

/// Parses a hex colour (`#RGB`, `#RGBA`, `#RRGGBB` or `#RRGGBBAA`).
pub fn parse_hex_color(s: &str) -> (res: Option<HexColor>)
    requires
        !hex_color_cuts_char(s@),
    ensures
        res == parse_hex_color_spec(s@),
{
    let cs = to_chars(s);
    let mut i: usize = 0;
    while i < cs.len() && cs[i] == '#'
        invariant
            i <= cs.len(),
            forall|k: int| 0 <= k < i ==> #[trigger] cs@[k] == '#',
        decreases cs.len() - i,
    {
        i = i + 1;
    }
    proof {
        lemma_trim_leading_skip(cs@, '#', i as int);
    }
    let ghost t = cs@.skip(i as int);
    let mut rest: Vec<char> = Vec::new();
    let mut k: usize = i;
    while k < cs.len()
        invariant
            i <= k <= cs.len(),
            t == cs@.skip(i as int),
            cs@ == s@,
            trim_leading(s@, '#') == t,
            rest@ == cs@.subrange(i as int, k as int),
            forall|m: int| i <= m < k ==> #[trigger] cs@[m] <= '\u{7f}',
        decreases cs.len() - k,
    {
        if cs[k] > '\u{7f}' {
            proof {
                assert(t[k - i] == cs@[k as int]);
                assert(!(t[k - i] <= '\u{7f}'));
            }
            return None;
        }
        let c = cs[k];

        rest.push(c);
        k = k + 1;
    }
    assert(rest@ =~= t);
    assert forall|m: int| 0 <= m < t.len() implies #[trigger] t[m] <= '\u{7f}' by {
        assert(t[m] == cs@[m + i]);
    }
    let n = rest.len();
    let r = rest.as_slice();
    if n == 3 || n == 4 {
        match (parse_short(r, 0), parse_short(r, 1), parse_short(r, 2)) {
            (Some(red), Some(green), Some(blue)) => {
                if n == 3 {
                    Some(HexColor { r: red, g: green, b: blue, a: None })
                } else {
                    match parse_short(r, 3) {
                        Some(alpha) => Some(HexColor { r: red, g: green, b: blue, a: Some(alpha) }),
                        None => None,
                    }
                }
            },
            _ => None,
        }
    } else if n == 6 || n == 8 {
        match (parse_long(r, 0), parse_long(r, 2), parse_long(r, 4)) {
            (Some(red), Some(green), Some(blue)) => {
                if n == 6 {
                    Some(HexColor { r: red, g: green, b: blue, a: None })
                } else {
                    match parse_long(r, 6) {
                        Some(alpha) => Some(HexColor { r: red, g: green, b: blue, a: Some(alpha) }),
                        None => None,
                    }
                }
            },
            _ => None,
        }
    } else {
        None
    }
}

/// A short colour stands for the long colour with each digit doubled:
/// `#RGB` is `#RRGGBB` and `#RGBA` is `#RRGGBBAA`.
pub proof fn law_short_color_doubles_digits(r: char, g: char, b: char, a: char)
    requires
        hex_digit_value(r) is Some,
        hex_digit_value(g) is Some,
        hex_digit_value(b) is Some,
        hex_digit_value(a) is Some,
    ensures
        hex_color_of(seq![r, g, b]) == hex_color_of(seq![r, r, g, g, b, b]),
        hex_color_of(seq![r, g, b, a]) == hex_color_of(seq![r, r, g, g, b, b, a, a]),
{
    let short3 = seq![r, g, b];
    let short4 = seq![r, g, b, a];
    let long6 = seq![r, r, g, g, b, b];
    let long8 = seq![r, r, g, g, b, b, a, a];
    assert(short3.subrange(0, 1) =~= seq![r]);
    assert(short3.subrange(1, 2) =~= seq![g]);
    assert(short3.subrange(2, 3) =~= seq![b]);
    assert(short4.subrange(0, 1) =~= seq![r]);
    assert(short4.subrange(1, 2) =~= seq![g]);
    assert(short4.subrange(2, 3) =~= seq![b]);
    assert(short4.subrange(3, 4) =~= seq![a]);
    assert(long6.subrange(0, 2) =~= seq![r, r]);
    assert(long6.subrange(2, 4) =~= seq![g, g]);
    assert(long6.subrange(4, 6) =~= seq![b, b]);
    assert(long8.subrange(0, 2) =~= seq![r, r]);
    assert(long8.subrange(2, 4) =~= seq![g, g]);
    assert(long8.subrange(4, 6) =~= seq![b, b]);
    assert(long8.subrange(6, 8) =~= seq![a, a]);
    assert(is_ascii_text(short3) == is_ascii_text(long6)) by {
        if is_ascii_text(short3) {
            assert forall|i: int| 0 <= i < long6.len() implies #[trigger] long6[i] <= '\u{7f}' by {
                assert(long6[i] == short3[i / 2]);
            }
        }
        if is_ascii_text(long6) {
            assert forall|i: int| 0 <= i < short3.len() implies #[trigger] short3[i] <= '\u{7f}' by {
                assert(short3[i] == long6[2 * i]);
            }
        }
    }
    assert(is_ascii_text(short4) == is_ascii_text(long8)) by {
        if is_ascii_text(short4) {
            assert forall|i: int| 0 <= i < long8.len() implies #[trigger] long8[i] <= '\u{7f}' by {
                assert(long8[i] == short4[i / 2]);
            }
        }
        if is_ascii_text(long8) {
            assert forall|i: int| 0 <= i < short4.len() implies #[trigger] short4[i] <= '\u{7f}' by {
                assert(short4[i] == long8[2 * i]);
            }
        }
    }
}

/// Whether reading the colour text `s` would cut it inside a character (see
/// `hex_color_cuts_char`); `parse_hex_color` takes only texts where it would not.
pub fn color_text_cuts_char(s: &str) -> (res: bool)
    ensures
        res == hex_color_cuts_char(s@),
{
    let cs = to_chars(s);
    let mut i: usize = 0;
    while i < cs.len() && cs[i] == '#'
        invariant
            i <= cs.len(),
            forall|k: int| 0 <= k < i ==> #[trigger] cs@[k] == '#',
        decreases cs.len() - i,
    {
        i = i + 1;
    }
    proof {
        lemma_trim_leading_skip(cs@, '#', i as int);
        assert(cs@.skip(i as int) =~= cs@.subrange(i as int, cs@.len() as int));
    }
    let rest = from_char_range(&cs, i, cs.len());
    let t = rest.as_str();
    assert(t@ == trim_leading(s@, '#'));
    let n = t.as_bytes().len();
    if n == 3 {
        !(t.is_char_boundary(1) && t.is_char_boundary(2))
    } else if n == 4 {
        !(t.is_char_boundary(1) && t.is_char_boundary(2) && t.is_char_boundary(3))
    } else if n == 6 {
        !(t.is_char_boundary(2) && t.is_char_boundary(4))
    } else if n == 8 {
        !(t.is_char_boundary(2) && t.is_char_boundary(4) && t.is_char_boundary(6))
    } else {
        false
    }
}

// ---------------------------------------------------------------------------
// Custom palette
// ---------------------------------------------------------------------------

/// The colours of a custom palette, as the user wrote them.
#[derive(Clone, Debug)]
pub struct CustomPalette {
    pub background: Option<String>,
    pub text: Option<String>,
    pub primary: Option<String>,
    pub success: Option<String>,
    pub danger: Option<String>,
    pub warning: Option<String>,
}

impl Default for CustomPalette {
    fn default() -> (res: Self)
        ensures
            res.background is None,
            res.text is None,
            res.primary is None,
            res.success is None,
            res.danger is None,
            res.warning is None,
    {
        CustomPalette {
            background: None,
            text: None,
            primary: None,
            success: None,
            danger: None,
            warning: None,
        }
    }
}

/// The six colours of a palette.
#[derive(Clone, Copy, Debug, PartialEq, Eq, Structural)]
pub struct PaletteColors {
    pub background: HexColor,
    pub text: HexColor,
    pub primary: HexColor,
    pub success: HexColor,
    pub danger: HexColor,
    pub warning: HexColor,
}

/// The view of an optional colour text.
pub open spec fn opt_view(o: Option<String>) -> Option<Seq<char>> {
    match o {
        Some(s) => Some(s@),
        None => None,
    }
}

/// The palette's colour texts, in the order they are read.
pub open spec fn palette_texts(p: CustomPalette) -> Seq<Option<Seq<char>>> {
    seq![
        opt_view(p.background),
        opt_view(p.text),
        opt_view(p.primary),
        opt_view(p.success),
        opt_view(p.danger),
        opt_view(p.warning),
    ]
}

/// Whether reading the colour texts in order, stopping at the first that is
/// missing or not a colour, would cut one of them inside a character.
pub open spec fn texts_cut_char(ts: Seq<Option<Seq<char>>>) -> bool
    decreases ts.len(),
{
    if ts.len() == 0 {
        false
    } else {
        match ts[0] {
            None => false,
            Some(s) => hex_color_cuts_char(s) || (parse_hex_color_spec(s) is Some && texts_cut_char(
                ts.drop_first(),
            )),
        }
    }
}

/// The colour of an optional colour text.
pub open spec fn opt_color(o: Option<Seq<char>>) -> Option<HexColor> {
    match o {
        Some(s) => parse_hex_color_spec(s),
        None => None,
    }
}

/// The palette a custom palette stands for: only one in which all six colours
/// are given and each is a colour.
pub open spec fn palette_colors_spec(p: CustomPalette) -> Option<PaletteColors> {
    match (
        opt_color(opt_view(p.background)),
        opt_color(opt_view(p.text)),
        opt_color(opt_view(p.primary)),
        opt_color(opt_view(p.success)),
        opt_color(opt_view(p.danger)),
        opt_color(opt_view(p.warning)),
    ) {
        (Some(background), Some(text), Some(primary), Some(success), Some(danger), Some(warning)) =>
            Some(PaletteColors { background, text, primary, success, danger, warning }),
        _ => None,
    }
}

fn read_color(o: &Option<String>) -> (res: Option<HexColor>)
    requires
        o matches Some(s) ==> !hex_color_cuts_char(s@),
    ensures
        res == opt_color(opt_view(*o)),
{
    match o {
        Some(s) => parse_hex_color(s.as_str()),
        None => None,
    }
}

/// One step of `texts_cut_char`: the first text `t`, then the rest.
spec fn step_cuts(t: Option<Seq<char>>, rest: Seq<Option<Seq<char>>>) -> bool {
    match t {
        None => false,
        Some(s) => hex_color_cuts_char(s) || (parse_hex_color_spec(s) is Some && texts_cut_char(rest)),
    }
}

/// For one colour text: whether reading it cuts a character, and whether the
/// reading of the palette goes on past it (it is given, and is a colour).
fn read_step(o: &Option<String>) -> (res: (bool, bool))
    ensures
        res.0 == (o matches Some(s) && hex_color_cuts_char(s@)),
        res.1 == (o matches Some(s) && !hex_color_cuts_char(s@) && parse_hex_color_spec(s@) is Some),
{
    match o {
        Some(s) => {
            if color_text_cuts_char(s.as_str()) {
                (true, false)
            } else {
                (false, parse_hex_color(s.as_str()).is_some())
            }
        },
        None => (false, false),
    }
}

impl CustomPalette {
    /// Whether reading the palette's colours would cut one of their texts inside
    /// a character; `palette_colors` takes only palettes where it would not.
    pub fn cuts_char(&self) -> (res: bool)
        ensures
            res == texts_cut_char(palette_texts(*self)),
    {
        let ghost ts = palette_texts(*self);
        let ghost ts1 = ts.drop_first();
        let ghost ts2 = ts1.drop_first();
        let ghost ts3 = ts2.drop_first();
        let ghost ts4 = ts3.drop_first();
        let ghost ts5 = ts4.drop_first();
        assert(ts[0] == opt_view(self.background));
        assert(ts1[0] == opt_view(self.text));
        assert(ts2[0] == opt_view(self.primary));
        assert(ts3[0] == opt_view(self.success));
        assert(ts4[0] == opt_view(self.danger));
        assert(ts5[0] == opt_view(self.warning));
        assert(ts5.drop_first().len() == 0);
        assert(!texts_cut_char(ts5.drop_first()));
        assert(texts_cut_char(ts) == step_cuts(ts[0], ts1));
        assert(texts_cut_char(ts1) == step_cuts(ts1[0], ts2));
        assert(texts_cut_char(ts2) == step_cuts(ts2[0], ts3));
        assert(texts_cut_char(ts3) == step_cuts(ts3[0], ts4));
        assert(texts_cut_char(ts4) == step_cuts(ts4[0], ts5));
        assert(texts_cut_char(ts5) == step_cuts(ts5[0], ts5.drop_first()));
        let (cut, go_on) = read_step(&self.background);
        if cut || !go_on {
            return cut;
        }
        let (cut, go_on) = read_step(&self.text);
        if cut || !go_on {
            return cut;
        }
        let (cut, go_on) = read_step(&self.primary);
        if cut || !go_on {
            return cut;
        }
        let (cut, go_on) = read_step(&self.success);
        if cut || !go_on {
            return cut;
        }
        let (cut, go_on) = read_step(&self.danger);
        if cut || !go_on {
            return cut;
        }
        let (cut, _) = read_step(&self.warning);
        cut
    }

    /// The palette's colours; all six must be given, and each must be a
    /// colour, for there to be a palette.
    pub fn palette_colors(&self) -> (res: Option<PaletteColors>)
        requires
            !texts_cut_char(palette_texts(*self)),
        ensures
            res == palette_colors_spec(*self),
    {
        let ghost ts = palette_texts(*self);
        let ghost ts1 = ts.drop_first();
        let ghost ts2 = ts1.drop_first();
        let ghost ts3 = ts2.drop_first();
        let ghost ts4 = ts3.drop_first();
        let ghost ts5 = ts4.drop_first();
        assert(ts[0] == opt_view(self.background));
        assert(ts1[0] == opt_view(self.text));
        assert(ts2[0] == opt_view(self.primary));
        assert(ts3[0] == opt_view(self.success));
        assert(ts4[0] == opt_view(self.danger));
        assert(ts5[0] == opt_view(self.warning));
        let background = read_color(&self.background);
        if background.is_none() {
            return None;
        }
        assert(!texts_cut_char(ts1));
        let text = read_color(&self.text);
        if text.is_none() {
            return None;
        }
        assert(!texts_cut_char(ts2));
        let primary = read_color(&self.primary);
        if primary.is_none() {
            return None;
        }
        assert(!texts_cut_char(ts3));
        let success = read_color(&self.success);
        if success.is_none() {
            return None;
        }
        assert(!texts_cut_char(ts4));
        let danger = read_color(&self.danger);
        if danger.is_none() {
            return None;
        }
        assert(!texts_cut_char(ts5));
        let warning = read_color(&self.warning);
        match (background, text, primary, success, danger, warning) {
            (Some(background), Some(text), Some(primary), Some(success), Some(danger), Some(warning)) =>
                Some(PaletteColors { background, text, primary, success, danger, warning }),
            _ => None,
        }
    }
}

// ---------------------------------------------------------------------------
// The configuration
// ---------------------------------------------------------------------------

/// A replacement display name for the application with the given id (the
/// desktop file's name without `.desktop`). A carriage return in the name
/// splits it: what follows it is also shown as the extra text.
#[derive(Clone, Debug)]
pub struct NameOverride {
    pub app_id: String,
    pub name: String,
}

/// The launcher's settings.
pub struct Config {
    pub app_theme: ThemeName,
    pub custom_palette: CustomPalette,
    pub locale: Option<AppLocale>,
    pub exclusive: bool,
    pub frequent_first: bool,
    pub recent_first: bool,
    pub prune_history: u32,
    pub icon_size: i32,
    pub margin_left: i32,
    pub margin_right: i32,
    pub margin_top: i32,
    pub margin_bottom: i32,
    pub anchor_left: bool,
    pub anchor_right: bool,
    pub anchor_top: bool,
    pub anchor_bottom: bool,
    pub width: i32,
    pub height: i32,
    pub extra_field: Vec<Field>,
    pub extra_field_newline: bool,
    pub hidden_fields: Vec<Field>,
    pub name_overrides: Vec<NameOverride>,
    pub hide_extra_if_contained: bool,
    pub cgroups: bool,
    pub command_prefix: String,
    pub exclude: Vec<String>,
    pub term_command: Option<String>,
}

impl Default for Config {
    /// The settings of an empty configuration file.
    fn default() -> (res: Self)
        ensures
            res.app_theme == ThemeName::CatppuccinFrappe,
            res.custom_palette.background is None,
            res.custom_palette.text is None,
            res.custom_palette.primary is None,
            res.custom_palette.success is None,
            res.custom_palette.danger is None,
            res.custom_palette.warning is None,
            res.locale is None,
            res.exclusive,
            !res.frequent_first,
            res.recent_first,
            res.prune_history == 0,
            res.icon_size == 64,
            res.margin_left == 0,
            res.margin_right == 0,
            res.margin_top == 0,
            res.margin_bottom == 0,
            !res.anchor_left,
            res.anchor_right,
            res.anchor_top,
            res.anchor_bottom,
            res.width == -1,
            res.height == -1,
            res.extra_field@ == seq![Field::IdSuffix],
            !res.extra_field_newline,
            res.hidden_fields@.len() == 0,
            res.name_overrides@.len() == 0,
            res.hide_extra_if_contained,
            res.cgroups,
            res.command_prefix@ == seq![':'],
            res.exclude@.len() == 0,
            res.term_command is None,
    {
        let prefix = copy_str(":");
        proof {
            reveal_strlit(":");
        }
        let mut extra_field: Vec<Field> = Vec::new();
        extra_field.push(Field::IdSuffix);
        Config {
            app_theme: ThemeName::default(),
            custom_palette: CustomPalette::default(),
            locale: None,
            exclusive: true,
            frequent_first: false,
            recent_first: true,
            prune_history: 0,
            icon_size: 64,
            margin_left: 0,
            margin_right: 0,
            margin_top: 0,
            margin_bottom: 0,
            anchor_left: false,
            anchor_right: true,
            anchor_top: true,
            anchor_bottom: true,
            width: -1,
            height: -1,
            extra_field,
            extra_field_newline: false,
            hidden_fields: Vec::new(),
            name_overrides: Vec::new(),
            hide_extra_if_contained: true,
            cgroups: true,
            command_prefix: prefix,
            exclude: Vec::new(),
            term_command: None,
        }
    }
}


/// A custom palette is read colour by colour: it exists exactly where all six
/// texts are given and each is a colour, and then each of its colours is the
/// colour of the text of the same name.
pub proof fn law_palette_colors_by_name(p: CustomPalette)
    ensures
        palette_colors_spec(p) is Some <==> (p.background matches Some(t) && parse_hex_color_spec(t@) is Some)
            && (p.text matches Some(t) && parse_hex_color_spec(t@) is Some)
            && (p.primary matches Some(t) && parse_hex_color_spec(t@) is Some)
            && (p.success matches Some(t) && parse_hex_color_spec(t@) is Some)
            && (p.danger matches Some(t) && parse_hex_color_spec(t@) is Some)
            && (p.warning matches Some(t) && parse_hex_color_spec(t@) is Some),
        palette_colors_spec(p) matches Some(c) ==> {
            &&& Some(c.background) == parse_hex_color_spec(p.background->0@)
            &&& Some(c.text) == parse_hex_color_spec(p.text->0@)
            &&& Some(c.primary) == parse_hex_color_spec(p.primary->0@)
            &&& Some(c.success) == parse_hex_color_spec(p.success->0@)
            &&& Some(c.danger) == parse_hex_color_spec(p.danger->0@)
            &&& Some(c.warning) == parse_hex_color_spec(p.warning->0@)
        },
{
}

} // verus!
