//! Color values of style directives.

use vstd::prelude::*;

use crate::canvas::{Color, Palette};
use crate::format::{
    has_prefix, is_flat, law_commas_separate_attributes, split_style_attrs, starts_with, style_attrs,
};
use crate::text::{
    chars_of, decimal, law_decimal_digits, same_text, string_of, trim_text, trimmed, views,
};

verus! {

/// The terminal colors that have a name.
pub open spec fn ansi_color(name: Seq<char>) -> Option<Color> {
    if name == "reset"@ {
        Some(Color::Reset)
    } else if name == "black"@ {
        Some(Color::Black)
    } else if name == "red"@ {
        Some(Color::Red)
    } else if name == "green"@ {
        Some(Color::Green)
    } else if name == "yellow"@ {
        Some(Color::Yellow)
    } else if name == "blue"@ {
        Some(Color::Blue)
    } else if name == "magenta"@ {
        Some(Color::Magenta)
    } else if name == "cyan"@ {
        Some(Color::Cyan)
    } else if name == "gray"@ {
        Some(Color::Gray)
    } else if name == "darkgray"@ {
        Some(Color::DarkGray)
    } else if name == "lightred"@ {
        Some(Color::LightRed)
    } else if name == "lightgreen"@ {
        Some(Color::LightGreen)
    } else if name == "lightyellow"@ {
        Some(Color::LightYellow)
    } else if name == "lightblue"@ {
        Some(Color::LightBlue)
    } else if name == "lightmagenta"@ {
        Some(Color::LightMagenta)
    } else if name == "lightcyan"@ {
        Some(Color::LightCyan)
    } else if name == "white"@ {
        Some(Color::White)
    } else {
        None
    }
}

fn parse_ansi(name: &str) -> (r: Option<Color>)
    ensures
        r == ansi_color(name@),
{
    if same_text(name, "reset") {
        Some(Color::Reset)
    } else if same_text(name, "black") {
        Some(Color::Black)
    } else if same_text(name, "red") {
        Some(Color::Red)
    } else if same_text(name, "green") {
        Some(Color::Green)
    } else if same_text(name, "yellow") {
        Some(Color::Yellow)
    } else if same_text(name, "blue") {
        Some(Color::Blue)
    } else if same_text(name, "magenta") {
        Some(Color::Magenta)
    } else if same_text(name, "cyan") {
        Some(Color::Cyan)
    } else if same_text(name, "gray") {
        Some(Color::Gray)
    } else if same_text(name, "darkgray") {
        Some(Color::DarkGray)
    } else if same_text(name, "lightred") {
        Some(Color::LightRed)
    } else if same_text(name, "lightgreen") {
        Some(Color::LightGreen)
    } else if same_text(name, "lightyellow") {
        Some(Color::LightYellow)
    } else if same_text(name, "lightblue") {
        Some(Color::LightBlue)
    } else if same_text(name, "lightmagenta") {
        Some(Color::LightMagenta)
    } else if same_text(name, "lightcyan") {
        Some(Color::LightCyan)
    } else if same_text(name, "white") {
        Some(Color::White)
    } else {
        None
    }
}

/// The value of a hexadecimal digit.
pub open spec fn hex_digit(c: char) -> Option<u8> {
    if '0' <= c <= '9' {
        Some((c as u8 - 48) as u8)
    } else if 'a' <= c <= 'f' {
        Some((c as u8 - 87) as u8)
    } else if 'A' <= c <= 'F' {
        Some((c as u8 - 55) as u8)
    } else {
        None
    }
}

fn parse_hex_digit(c: char) -> (r: Option<u8>)
    ensures
        r == hex_digit(c),
        r matches Some(d) ==> d < 16,
{
    if '0' <= c && c <= '9' {
        Some(c as u8 - 48)
    } else if 'a' <= c && c <= 'f' {
        Some(c as u8 - 87)
    } else if 'A' <= c && c <= 'F' {
        Some(c as u8 - 55)
    } else {
        None
    }
}

/// The value of two hexadecimal digits.
pub open spec fn hex_byte(a: char, b: char) -> Option<u8> {
    match (hex_digit(a), hex_digit(b)) {
        (Some(x), Some(y)) => Some((x * 16 + y) as u8),
        _ => None,
    }
}

fn parse_hex_byte(a: char, b: char) -> (r: Option<u8>)
    ensures
        r == hex_byte(a, b),
{
    match (parse_hex_digit(a), parse_hex_digit(b)) {
        (Some(x), Some(y)) => Some(x * 16 + y),
        _ => None,
    }
}

/// A color of three bytes, where each of them is given.
pub open spec fn rgb_of(r: Option<u8>, g: Option<u8>, b: Option<u8>) -> Option<Color> {
    match (r, g, b) {
        (Some(r), Some(g), Some(b)) => Some(Color::Rgb(r, g, b)),
        _ => None,
    }
}

fn make_rgb(r: Option<u8>, g: Option<u8>, b: Option<u8>) -> (c: Option<Color>)
    ensures
        c == rgb_of(r, g, b),
{
    match (r, g, b) {
        (Some(r), Some(g), Some(b)) => Some(Color::Rgb(r, g, b)),
        _ => None,
    }
}

/// `#rrggbb`.
pub open spec fn hex_color(s: Seq<char>) -> Option<Color> {
    if s.len() == 7 && s[0] == '#' {
        rgb_of(hex_byte(s[1], s[2]), hex_byte(s[3], s[4]), hex_byte(s[5], s[6]))
    } else {
        None
    }
}

fn parse_hex(s: &[char]) -> (r: Option<Color>)
    ensures
        r == hex_color(s@),
{
    if s.len() == 7 && s[0] == '#' {
        make_rgb(
            parse_hex_byte(s[1], s[2]),
            parse_hex_byte(s[3], s[4]),
            parse_hex_byte(s[5], s[6]),
        )
    } else {
        None
    }
}

/// The number that a text of decimal digits stands for.
pub open spec fn decimal_value(s: Seq<char>) -> nat
    decreases s.len(),
{
    if s.len() == 0 {
        0
    } else {
        decimal_value(s.drop_last()) * 10 + (s.last() as nat - 48) as nat
    }
}

/// One to three decimal digits that make a byte.
pub open spec fn byte_value(s: Seq<char>) -> Option<u8> {
    if 1 <= s.len() <= 3 && (forall|i: int|
        0 <= i < s.len() ==> '0' <= #[trigger] s[i] <= '9') && decimal_value(s) <= 255 {
        Some(decimal_value(s) as u8)
    } else {
        None
    }
}

fn parse_byte(s: &str) -> (r: Option<u8>)
    ensures
        r == byte_value(s@),
{
    let chars = chars_of(s);
    let total: usize = chars.len();
    if total < 1 || total > 3 {
        return None;
    }
    let mut n: u32 = 0;
    let mut i: usize = 0;
    assert(s@.take(0) =~= Seq::<char>::empty());
    while i < total
        invariant
            total == chars@.len(),
            total <= 3,
            chars@ == s@,
            i <= total,
            n == decimal_value(s@.take(i as int)),
            i == 0 ==> n == 0,
            i == 1 ==> n <= 9,
            i == 2 ==> n <= 99,
            i == 3 ==> n <= 999,
            forall|k: int| 0 <= k < i ==> '0' <= #[trigger] s@[k] <= '9',
        decreases total - i,
    {
        let c = chars[i];
        if !('0' <= c && c <= '9') {
            assert(!('0' <= s@[i as int] <= '9'));
            return None;
        }
        n = n * 10 + (c as u32 - 48);
        i = i + 1;
        assert(s@.take(i as int).drop_last() =~= s@.take(i - 1));
        assert(s@.take(i as int).last() == c);
    }
    assert(s@.take(i as int) =~= s@);
    if n <= 255 {
        Some(n as u8)
    } else {
        None
    }
}

/// What stands between `rgb(` and the closing bracket.
pub open spec fn rgb_body(s: Seq<char>) -> Seq<char> {
    s.subrange(4, s.len() - 1)
}

/// `rgb(r,g,b)` in decimal.
pub open spec fn rgb_color(s: Seq<char>) -> Option<Color> {
    if has_prefix(s, "rgb("@) && s.len() > 4 && s.last() == ')' && style_attrs(rgb_body(s)).len()
        == 3 {
        let parts = style_attrs(rgb_body(s));
        rgb_of(
            byte_value(trimmed(parts[0])),
            byte_value(trimmed(parts[1])),
            byte_value(trimmed(parts[2])),
        )
    } else {
        None
    }
}

fn parse_rgb(s: &[char]) -> (r: Option<Color>)
    ensures
        r == rgb_color(s@),
{
    let total: usize = s.len();
    if !starts_with(s, "rgb(") || total <= 4 || s[total - 1] != ')' {
        return None;
    }
    let body = string_of(s, 4, total - 1);
    let parts = split_style_attrs(body.as_str());
    if parts.len() != 3 {
        return None;
    }
    assert(views(parts@)[0] == parts@[0]@ && views(parts@)[1] == parts@[1]@ && views(parts@)[2]
        == parts@[2]@);
    make_rgb(
        parse_byte(trim_text(parts[0].as_str()).as_str()),
        parse_byte(trim_text(parts[1].as_str()).as_str()),
        parse_byte(trim_text(parts[2].as_str()).as_str()),
    )
}

/// A color value: a name, `#rrggbb`, or `rgb(r,g,b)`.
pub open spec fn color_value(value: Seq<char>) -> Option<Color> {
    if ansi_color(value) is Some {
        ansi_color(value)
    } else if hex_color(value) is Some {
        hex_color(value)
    } else {
        rgb_color(value)
    }
}

/// Read a color value.
pub fn parse_color_opt(value: &str) -> (r: Option<Color>)
    ensures
        r == color_value(value@),
{
    let named = parse_ansi(value);
    if named.is_some() {
        return named;
    }
    let chars = chars_of(value);
    let hex = parse_hex(chars.as_slice());
    if hex.is_some() {
        return hex;
    }
    parse_rgb(chars.as_slice())
}

/// The color of a theme token. Names that are terminal colors are no tokens.
pub open spec fn token_color(name: Seq<char>, palette: Palette) -> Option<Color> {
    if name == "accent"@ {
        Some(palette.accent)
    } else if name == "panel_bg"@ {
        Some(palette.panel_bg)
    } else if name == "surface0"@ {
        Some(palette.surface0)
    } else if name == "surface1"@ {
        Some(palette.surface1)
    } else if name == "surface_dim"@ {
        Some(palette.surface_dim)
    } else if name == "overlay0"@ {
        Some(palette.overlay0)
    } else if name == "overlay1"@ {
        Some(palette.overlay1)
    } else if name == "text"@ {
        Some(palette.text)
    } else if name == "subtext0"@ {
        Some(palette.subtext0)
    } else if name == "mauve"@ {
        Some(palette.mauve)
    } else if name == "teal"@ {
        Some(palette.teal)
    } else if name == "peach"@ {
        Some(palette.peach)
    } else {
        None
    }
}

/// Look a theme token up in the client's own palette.
pub fn theme_token(name: &str, palette: &Palette) -> (r: Option<Color>)
    ensures
        r == token_color(name@, *palette),
{
    if same_text(name, "accent") {
        Some(palette.accent)
    } else if same_text(name, "panel_bg") {
        Some(palette.panel_bg)
    } else if same_text(name, "surface0") {
        Some(palette.surface0)
    } else if same_text(name, "surface1") {
        Some(palette.surface1)
    } else if same_text(name, "surface_dim") {
        Some(palette.surface_dim)
    } else if same_text(name, "overlay0") {
        Some(palette.overlay0)
    } else if same_text(name, "overlay1") {
        Some(palette.overlay1)
    } else if same_text(name, "text") {
        Some(palette.text)
    } else if same_text(name, "subtext0") {
        Some(palette.subtext0)
    } else if same_text(name, "mauve") {
        Some(palette.mauve)
    } else if same_text(name, "teal") {
        Some(palette.teal)
    } else if same_text(name, "peach") {
        Some(palette.peach)
    } else {
        None
    }
}

/// The color that a directive value stands for under a palette.
pub open spec fn resolved_color(value: Seq<char>, palette: Palette) -> Option<Color> {
    if color_value(value) is Some {
        color_value(value)
    } else {
        token_color(value, palette)
    }
}

/// Resolve a directive value: a color first, then a theme token. Anything else
/// is ignored.
pub fn resolve_color(value: &str, palette: &Palette) -> (r: Option<Color>)
    ensures
        r == resolved_color(value@, *palette),
{
    let color = parse_color_opt(value);
    if color.is_some() {
        return color;
    }
    theme_token(value, palette)
}

/// Terminal colors and theme tokens share no name: a terminal color looks the
/// same under every palette.
pub proof fn law_names_do_not_clash(name: Seq<char>, palette: Palette)
    requires
        ansi_color(name) is Some,
    ensures
        token_color(name, palette) is None,
        resolved_color(name, palette) == ansi_color(name),
{
    reveal_strlit("reset");
    reveal_strlit("black");
    reveal_strlit("red");
    reveal_strlit("green");
    reveal_strlit("yellow");
    reveal_strlit("blue");
    reveal_strlit("magenta");
    reveal_strlit("cyan");
    reveal_strlit("gray");
    reveal_strlit("darkgray");
    reveal_strlit("lightred");
    reveal_strlit("lightgreen");
    reveal_strlit("lightyellow");
    reveal_strlit("lightblue");
    reveal_strlit("lightmagenta");
    reveal_strlit("lightcyan");
    reveal_strlit("white");
    reveal_strlit("accent");
    reveal_strlit("panel_bg");
    reveal_strlit("surface0");
    reveal_strlit("surface1");
    reveal_strlit("surface_dim");
    reveal_strlit("overlay0");
    reveal_strlit("overlay1");
    reveal_strlit("text");
    reveal_strlit("subtext0");
    reveal_strlit("mauve");
    reveal_strlit("teal");
    reveal_strlit("peach");
    let first = name[0];
    assert(first == 'r' || first == 'b' || first == 'g' || first == 'y' || first == 'm' || first
        == 'c' || first == 'd' || first == 'l' || first == 'w');
    if first == 'm' {
        assert(name.len() == 7);
    }
}

/// Each terminal color goes by its own name.
pub proof fn law_terminal_colors_by_name(palette: Palette)
    ensures
        resolved_color("reset"@, palette) == Some(Color::Reset),
        resolved_color("black"@, palette) == Some(Color::Black),
        resolved_color("red"@, palette) == Some(Color::Red),
        resolved_color("green"@, palette) == Some(Color::Green),
        resolved_color("yellow"@, palette) == Some(Color::Yellow),
        resolved_color("blue"@, palette) == Some(Color::Blue),
        resolved_color("magenta"@, palette) == Some(Color::Magenta),
        resolved_color("cyan"@, palette) == Some(Color::Cyan),
        resolved_color("gray"@, palette) == Some(Color::Gray),
        resolved_color("darkgray"@, palette) == Some(Color::DarkGray),
        resolved_color("lightred"@, palette) == Some(Color::LightRed),
        resolved_color("lightgreen"@, palette) == Some(Color::LightGreen),
        resolved_color("lightyellow"@, palette) == Some(Color::LightYellow),
        resolved_color("lightblue"@, palette) == Some(Color::LightBlue),
        resolved_color("lightmagenta"@, palette) == Some(Color::LightMagenta),
        resolved_color("lightcyan"@, palette) == Some(Color::LightCyan),
        resolved_color("white"@, palette) == Some(Color::White),
{
    reveal_strlit("reset");
    reveal_strlit("black");
    reveal_strlit("red");
    reveal_strlit("green");
    reveal_strlit("yellow");
    reveal_strlit("blue");
    reveal_strlit("magenta");
    reveal_strlit("cyan");
    reveal_strlit("gray");
    reveal_strlit("darkgray");
    reveal_strlit("lightred");
    reveal_strlit("lightgreen");
    reveal_strlit("lightyellow");
    reveal_strlit("lightblue");
    reveal_strlit("lightmagenta");
    reveal_strlit("lightcyan");
    reveal_strlit("white");
    reveal_strlit("rgb(");
    assert("reset"@[0] == 'r');
    assert("reset"@[1] == 'e');
    assert("black"@[0] == 'b');
    assert("black"@[1] == 'l');
    assert("red"@[0] == 'r');
    assert("red"@[1] == 'e');
    assert("green"@[0] == 'g');
    assert("green"@[1] == 'r');
    assert("yellow"@[0] == 'y');
    assert("yellow"@[1] == 'e');
    assert("blue"@[0] == 'b');
    assert("blue"@[1] == 'l');
    assert("magenta"@[0] == 'm');
    assert("magenta"@[1] == 'a');
    assert("cyan"@[0] == 'c');
    assert("cyan"@[1] == 'y');
    assert("gray"@[0] == 'g');
    assert("gray"@[1] == 'r');
    assert("darkgray"@[0] == 'd');
    assert("darkgray"@[1] == 'a');
    assert("lightred"@[0] == 'l');
    assert("lightred"@[1] == 'i');
    assert("lightgreen"@[0] == 'l');
    assert("lightgreen"@[1] == 'i');
    assert("lightyellow"@[0] == 'l');
    assert("lightyellow"@[1] == 'i');
    assert("lightblue"@[0] == 'l');
    assert("lightblue"@[1] == 'i');
    assert("lightmagenta"@[0] == 'l');
    assert("lightmagenta"@[1] == 'i');
    assert("lightcyan"@[0] == 'l');
    assert("lightcyan"@[1] == 'i');
    assert("white"@[0] == 'w');
    assert("white"@[1] == 'h');
    assert("lightred"@.last() == 'd');
    assert("lightgreen"@.last() == 'n');
    assert("lightyellow"@.last() == 'w');
    assert("lightblue"@.last() == 'e');
    assert("lightmagenta"@.last() == 'a');
    assert("lightcyan"@.last() == 'n');
}

proof fn lemma_no_color(value: Seq<char>)
    requires
        value.len() > 0,
        value[0] == 'a' || value[0] == 'p' || value[0] == 's' || value[0] == 'o' || value[0] == 't'
            || (value[0] == 'm' && value.len() == 5) || value[0] == '#',
    ensures
        ansi_color(value) is None,
        rgb_color(value) is None,
        value[0] != '#' ==> color_value(value) is None,
{
    reveal_strlit("reset");
    reveal_strlit("black");
    reveal_strlit("red");
    reveal_strlit("green");
    reveal_strlit("yellow");
    reveal_strlit("blue");
    reveal_strlit("magenta");
    reveal_strlit("cyan");
    reveal_strlit("gray");
    reveal_strlit("darkgray");
    reveal_strlit("lightred");
    reveal_strlit("lightgreen");
    reveal_strlit("lightyellow");
    reveal_strlit("lightblue");
    reveal_strlit("lightmagenta");
    reveal_strlit("lightcyan");
    reveal_strlit("white");
    reveal_strlit("rgb(");
    assert("reset"@[0] == 'r');
    assert("black"@[0] == 'b');
    assert("red"@[0] == 'r');
    assert("green"@[0] == 'g');
    assert("yellow"@[0] == 'y');
    assert("blue"@[0] == 'b');
    assert("magenta"@[0] == 'm');
    assert("cyan"@[0] == 'c');
    assert("gray"@[0] == 'g');
    assert("darkgray"@[0] == 'd');
    assert("lightred"@[0] == 'l');
    assert("lightgreen"@[0] == 'l');
    assert("lightyellow"@[0] == 'l');
    assert("lightblue"@[0] == 'l');
    assert("lightmagenta"@[0] == 'l');
    assert("lightcyan"@[0] == 'l');
    assert("white"@[0] == 'w');
    if has_prefix(value, "rgb("@) {
        assert(value.take(4)[0] == value[0]);
    }
}

/// Each theme token goes by its own name, and stands for the color that the
/// client's own palette has for it.
pub proof fn law_theme_tokens_by_name(palette: Palette)
    ensures
        resolved_color("accent"@, palette) == Some(palette.accent),
        resolved_color("panel_bg"@, palette) == Some(palette.panel_bg),
        resolved_color("surface0"@, palette) == Some(palette.surface0),
        resolved_color("surface1"@, palette) == Some(palette.surface1),
        resolved_color("surface_dim"@, palette) == Some(palette.surface_dim),
        resolved_color("overlay0"@, palette) == Some(palette.overlay0),
        resolved_color("overlay1"@, palette) == Some(palette.overlay1),
        resolved_color("text"@, palette) == Some(palette.text),
        resolved_color("subtext0"@, palette) == Some(palette.subtext0),
        resolved_color("mauve"@, palette) == Some(palette.mauve),
        resolved_color("teal"@, palette) == Some(palette.teal),
        resolved_color("peach"@, palette) == Some(palette.peach),
{
    reveal_strlit("accent");
    reveal_strlit("panel_bg");
    reveal_strlit("surface0");
    reveal_strlit("surface1");
    reveal_strlit("surface_dim");
    reveal_strlit("overlay0");
    reveal_strlit("overlay1");
    reveal_strlit("text");
    reveal_strlit("subtext0");
    reveal_strlit("mauve");
    reveal_strlit("teal");
    reveal_strlit("peach");
    lemma_no_color("accent"@);
    lemma_no_color("panel_bg"@);
    lemma_no_color("surface0"@);
    lemma_no_color("surface1"@);
    lemma_no_color("surface_dim"@);
    lemma_no_color("overlay0"@);
    lemma_no_color("overlay1"@);
    lemma_no_color("text"@);
    lemma_no_color("subtext0"@);
    lemma_no_color("mauve"@);
    lemma_no_color("teal"@);
    lemma_no_color("peach"@);
    assert("accent"@.last() == 't');
    assert("panel_bg"@.last() == 'g');
    assert("surface0"@.last() == '0');
    assert("surface1"@.last() == '1');
    assert("surface_dim"@.last() == 'm');
    assert("overlay0"@.last() == '0');
    assert("overlay1"@.last() == '1');
    assert("text"@.last() == 't');
    assert("subtext0"@.last() == '0');
    assert("mauve"@.last() == 'e');
    assert("teal"@.last() == 'l');
    assert("peach"@.last() == 'h');
}

/// A hexadecimal digit, as a small letter or a capital where it is one.
pub open spec fn hex_char(n: int, capital: bool) -> char {
    if n < 10 {
        (48 + n) as char
    } else if capital {
        (55 + n) as char
    } else {
        (87 + n) as char
    }
}

/// `#rrggbb` is the color of three bytes, each in two hexadecimal digits.
pub proof fn law_hexadecimal_color(
    d: (int, int, int, int, int, int),
    capital: bool,
    palette: Palette,
)
    requires
        0 <= d.0 < 16,
        0 <= d.1 < 16,
        0 <= d.2 < 16,
        0 <= d.3 < 16,
        0 <= d.4 < 16,
        0 <= d.5 < 16,
    ensures
        resolved_color(
            seq![
                '#',
                hex_char(d.0, capital),
                hex_char(d.1, capital),
                hex_char(d.2, capital),
                hex_char(d.3, capital),
                hex_char(d.4, capital),
                hex_char(d.5, capital),
            ],
            palette,
        ) == Some(
            Color::Rgb(
                (d.0 * 16 + d.1) as u8,
                (d.2 * 16 + d.3) as u8,
                (d.4 * 16 + d.5) as u8,
            ),
        ),
{
    let value = seq![
        '#',
        hex_char(d.0, capital),
        hex_char(d.1, capital),
        hex_char(d.2, capital),
        hex_char(d.3, capital),
        hex_char(d.4, capital),
        hex_char(d.5, capital),
    ];
    lemma_no_color(value);
    lemma_hex_char(d.0, capital);
    lemma_hex_char(d.1, capital);
    lemma_hex_char(d.2, capital);
    lemma_hex_char(d.3, capital);
    lemma_hex_char(d.4, capital);
    lemma_hex_char(d.5, capital);
}

proof fn lemma_hex_char(n: int, capital: bool)
    requires
        0 <= n < 16,
    ensures
        hex_digit(hex_char(n, capital)) == Some(n as u8),
{
}

proof fn lemma_decimal_value(n: nat)
    ensures
        decimal_value(decimal(n)) == n,
    decreases n,
{
    law_decimal_digits(n);
    if n >= 10 {
        lemma_decimal_value(n / 10);
    } else {
        assert(decimal(n).drop_last() =~= Seq::<char>::empty());
        assert(decimal_value(decimal(n).drop_last()) == 0);
    }
}

proof fn lemma_byte_text(n: u8)
    ensures
        byte_value(trimmed(decimal(n as nat))) == Some(n),
        is_flat(decimal(n as nat)),
{
    let s = decimal(n as nat);
    law_decimal_digits(n as nat);
    lemma_decimal_value(n as nat);
    law_decimal_digits((n / 10) as nat);
    law_decimal_digits((n / 100) as nat);
    assert(s.len() <= 3);
    assert('0' <= s[0] <= '9');
    assert('0' <= s[s.len() - 1] <= '9');
    assert(trimmed(s) == s);
}

/// `rgb(r,g,b)` is the color of three bytes in decimal.
pub proof fn law_decimal_color(r: u8, g: u8, b: u8, palette: Palette)
    ensures
        resolved_color(
            seq!['r', 'g', 'b', '('] + decimal(r as nat) + seq![','] + decimal(g as nat) + seq![
                ',',
            ] + decimal(b as nat) + seq![')'],
            palette,
        ) == Some(Color::Rgb(r, g, b)),
{
    let head = seq!['r', 'g', 'b', '('];
    let x = decimal(r as nat);
    let y = decimal(g as nat);
    let z = decimal(b as nat);
    let body = x + seq![','] + y + seq![','] + z;
    let value = head + x + seq![','] + y + seq![','] + z + seq![')'];
    reveal_strlit("reset");
    reveal_strlit("black");
    reveal_strlit("red");
    reveal_strlit("green");
    reveal_strlit("yellow");
    reveal_strlit("blue");
    reveal_strlit("magenta");
    reveal_strlit("cyan");
    reveal_strlit("gray");
    reveal_strlit("darkgray");
    reveal_strlit("lightred");
    reveal_strlit("lightgreen");
    reveal_strlit("lightyellow");
    reveal_strlit("lightblue");
    reveal_strlit("lightmagenta");
    reveal_strlit("lightcyan");
    reveal_strlit("white");
    reveal_strlit("rgb(");
    lemma_byte_text(r);
    lemma_byte_text(g);
    lemma_byte_text(b);
    law_commas_separate_attributes(z, z);
    law_commas_separate_attributes(y, z);
    law_commas_separate_attributes(x, y + seq![','] + z);
    assert(body =~= x + seq![','] + (y + seq![','] + z));
    let parts = style_attrs(body);
    assert(parts =~= seq![x, y, z]);
    assert(value =~= head + body + seq![')']);
    assert(rgb_body(value) =~= body);
    assert(value.take(4) =~= "rgb("@);
    assert(value[0] == 'r' && value[1] == 'g');
    assert("red"@[1] == 'e' && "reset"@[1] == 'e');
    assert("black"@[0] == 'b');
    assert("white"@[0] == 'w');
    assert("gray"@[0] == 'g' && "green"@[0] == 'g');
    assert(ansi_color(value) is None);
}

} // verus!
