//! Conversion of text with ANSI SGR escape codes to HTML with `<span>` styling.

use vstd::prelude::*;
use crate::text::{
    chars_eq, chars_of, extend_chars, extend_str, hex2, parse_u32_exec, parse_u8_exec, parse_uint,
    push_hex2, split_char, split_char_exec, string_of, trim_exec, trim_ws,
};

verus! {

broadcast use vstd::string::group_string_axioms;

/// The rendering style in effect: foreground and background CSS colors and
/// the bold, italic and underline attributes.
pub struct AnsiStyle {
    pub fg: Option<Seq<char>>,
    pub bg: Option<Seq<char>>,
    pub bold: bool,
    pub italic: bool,
    pub underline: bool,
}

/// The style with nothing set.
pub open spec fn plain_style() -> AnsiStyle {
    AnsiStyle { fg: None, bg: None, bold: false, italic: false, underline: false }
}

/// The CSS color of one of the eight standard colors (normal or bright).
pub open spec fn standard_color(index: nat, bright: bool) -> Seq<char> {
    if !bright {
        if index == 0 {
            "#000000"@
        } else if index == 1 {
            "#cc0000"@
        } else if index == 2 {
            "#4e9a06"@
        } else if index == 3 {
            "#c4a000"@
        } else if index == 4 {
            "#3465a4"@
        } else if index == 5 {
            "#75507b"@
        } else if index == 6 {
            "#06989a"@
        } else {
            "#d3d7cf"@
        }
    } else {
        if index == 0 {
            "#555753"@
        } else if index == 1 {
            "#ef2929"@
        } else if index == 2 {
            "#8ae234"@
        } else if index == 3 {
            "#fce94f"@
        } else if index == 4 {
            "#729fcf"@
        } else if index == 5 {
            "#ad7fa8"@
        } else if index == 6 {
            "#34e2e2"@
        } else {
            "#eeeeec"@
        }
    }
}

/// The intensity of one channel of the 6×6×6 color cube.
pub open spec fn cube_channel(v: nat) -> nat {
    if v == 0 {
        0
    } else {
        55 + v * 40
    }
}

/// The CSS `#rrggbb` color of a 256-color index: 0–7 standard colors, 8–15
/// bright colors, 16–231 the 6×6×6 cube, 232–255 a grayscale ramp.
pub open spec fn color_256(n: nat) -> Seq<char> {
    if n < 8 {
        standard_color(n, false)
    } else if n < 16 {
        standard_color((n - 8) as nat, true)
    } else if n < 232 {
        let idx = (n - 16) as nat;
        "#"@ + hex2(cube_channel(idx / 36)) + hex2(cube_channel((idx / 6) % 6)) + hex2(
            cube_channel(idx % 6),
        )
    } else {
        let level = ((n - 232) * 10 + 8) as nat;
        "#"@ + hex2(level) + hex2(level) + hex2(level)
    }
}

/// The numeric value of one SGR parameter: the trimmed text parsed as a
/// `u32`, or 0 when it does not parse.
pub open spec fn sgr_code(c: Seq<char>) -> nat {
    match parse_uint(trim_ws(c), u32::MAX as nat) {
        Some(v) => v,
        None => 0,
    }
}

/// The SGR parameters: `0` when there are none, else the `;`-separated list.
pub open spec fn sgr_codes(params: Seq<char>) -> Seq<Seq<char>> {
    if params.len() == 0 {
        seq![seq!['0']]
    } else {
        split_char(params, ';')
    }
}

/// Applies the SGR codes `codes[idx..]` to a style.
pub open spec fn apply_codes(codes: Seq<Seq<char>>, idx: int, st: AnsiStyle) -> AnsiStyle
    decreases codes.len() - idx,
{
    if idx >= codes.len() || idx < 0 {
        st
    } else {
        let code = sgr_code(codes[idx]);
        if code == 0 {
            apply_codes(codes, idx + 1, plain_style())
        } else if code == 1 {
            apply_codes(codes, idx + 1, AnsiStyle { bold: true, ..st })
        } else if code == 3 {
            apply_codes(codes, idx + 1, AnsiStyle { italic: true, ..st })
        } else if code == 4 {
            apply_codes(codes, idx + 1, AnsiStyle { underline: true, ..st })
        } else if 30 <= code <= 37 {
            apply_codes(
                codes,
                idx + 1,
                AnsiStyle { fg: Some(standard_color((code - 30) as nat, false)), ..st },
            )
        } else if code == 39 {
            apply_codes(codes, idx + 1, AnsiStyle { fg: None, ..st })
        } else if 40 <= code <= 47 {
            apply_codes(
                codes,
                idx + 1,
                AnsiStyle { bg: Some(standard_color((code - 40) as nat, false)), ..st },
            )
        } else if code == 49 {
            apply_codes(codes, idx + 1, AnsiStyle { bg: None, ..st })
        } else if 90 <= code <= 97 {
            apply_codes(
                codes,
                idx + 1,
                AnsiStyle { fg: Some(standard_color((code - 90) as nat, true)), ..st },
            )
        } else if 100 <= code <= 107 {
            apply_codes(
                codes,
                idx + 1,
                AnsiStyle { bg: Some(standard_color((code - 100) as nat, true)), ..st },
            )
        } else if (code == 38 || code == 48) && idx + 2 < codes.len() && trim_ws(codes[idx + 1])
            == seq!['5'] {
            let n = match parse_uint(trim_ws(codes[idx + 2]), u8::MAX as nat) {
                Some(v) => v,
                None => 0,
            };
            if code == 38 {
                apply_codes(codes, idx + 3, AnsiStyle { fg: Some(color_256(n)), ..st })
            } else {
                apply_codes(codes, idx + 3, AnsiStyle { bg: Some(color_256(n)), ..st })
            }
        } else {
            apply_codes(codes, idx + 1, st)
        }
    }
}

/// The parameter text `39` stands for code 39.
proof fn lemma_sgr_code_39()
    ensures
        sgr_code(seq!['3', '9']) == 39,
{
    let c = seq!['3', '9'];
    assert(crate::text::trim_start_ws(c) == c) by {
        assert(!crate::text::is_ws('3'));
    }
    assert(crate::text::trim_end_ws(c) == c) by {
        assert(c.last() == '9');
        assert(!crate::text::is_ws('9'));
    }
    assert(crate::text::digits_value(c) == 39) by {
        assert(c.drop_last() =~= seq!['3']);
        assert(seq!['3'].drop_last() =~= Seq::<char>::empty());
        assert(crate::text::digits_value(Seq::<char>::empty()) == 0);
        assert(crate::text::digits_value(seq!['3']) == 3);
    }
    assert(crate::text::usize_digits(c) == c);
    assert(forall|i: int| 0 <= i < c.len() ==> crate::text::is_digit(#[trigger] c[i]));
    assert(crate::text::parse_usize(c) == Some(39nat));
}

/// SGR code 39 resets the foreground color to the default, whatever it was
/// before, and leaves every other attribute as it was.
pub proof fn sgr_39_resets_foreground(st: AnsiStyle)
    ensures
        apply_codes(seq![seq!['3', '9']], 0, st) == (AnsiStyle { fg: None, ..st }),
        apply_codes(seq![seq!['3', '9']], 0, st).fg is None,
        apply_codes(sgr_codes(seq!['3', '9']), 0, st) == (AnsiStyle { fg: None, ..st }),
{
    lemma_sgr_code_39();
    reveal_with_fuel(apply_codes, 2);
    let c = seq!['3', '9'];
    assert(Seq::<char>::empty().push('3') =~= seq!['3']);
    assert(seq!['3'].push('9') =~= c);
    assert(crate::text::split_from(c, ';', 2, c) == seq![c]);
    assert(crate::text::split_from(c, ';', 1, seq!['3']) == seq![c]);
    assert(sgr_codes(c) == seq![c]);
}

/// Wherever a parameter list holds code 39, the foreground is reset to the
/// default at that point and the remaining codes apply to the result.
pub proof fn sgr_39_step(codes: Seq<Seq<char>>, idx: int, st: AnsiStyle)
    requires
        0 <= idx < codes.len(),
        sgr_code(codes[idx]) == 39,
    ensures
        apply_codes(codes, idx, st) == apply_codes(codes, idx + 1, AnsiStyle { fg: None, ..st }),
{
}

/// Whether a style sets anything.
pub open spec fn has_style(st: AnsiStyle) -> bool {
    st.fg is Some || st.bg is Some || st.bold || st.italic || st.underline
}

/// The foreground declaration of a style.
pub open spec fn fg_text(st: AnsiStyle) -> Seq<char> {
    match st.fg {
        Some(c) => "color:"@ + c + ";"@,
        None => seq![],
    }
}

/// The background declaration of a style.
pub open spec fn bg_text(st: AnsiStyle) -> Seq<char> {
    match st.bg {
        Some(c) => "background-color:"@ + c + ";"@,
        None => seq![],
    }
}

/// A declaration that is present only when `on`.
pub open spec fn flag_text(on: bool, text: Seq<char>) -> Seq<char> {
    if on {
        text
    } else {
        seq![]
    }
}

/// The CSS declarations of a style.
pub open spec fn style_text(st: AnsiStyle) -> Seq<char> {
    fg_text(st) + bg_text(st) + flag_text(st.bold, "font-weight:bold;"@) + flag_text(
        st.italic,
        "font-style:italic;"@,
    ) + flag_text(st.underline, "text-decoration:underline;"@)
}

/// The opening tag for a style, or nothing when the style sets nothing.
pub open spec fn open_tag(st: AnsiStyle) -> Seq<char> {
    if has_style(st) {
        "<span style=\""@ + style_text(st) + "\">"@
    } else {
        seq![]
    }
}

/// The HTML for one text character: `&`, `<`, `>` and `"` are escaped.
pub open spec fn escape_char(c: char) -> Seq<char> {
    if c == '&' {
        "&amp;"@
    } else if c == '<' {
        "&lt;"@
    } else if c == '>' {
        "&gt;"@
    } else if c == '"' {
        "&quot;"@
    } else {
        seq![c]
    }
}

/// Whether `c` may stand between `ESC [` and the final character of a
/// control sequence.
pub open spec fn is_csi_param(c: char) -> bool {
    0x20 <= (c as u32) && (c as u32) < 0x40
}

/// The index of the first character at or after `j` that is not a
/// control-sequence parameter (or the length of `s`).
pub open spec fn csi_end(s: Seq<char>, j: int) -> int
    decreases s.len() - j,
{
    if j >= s.len() || !is_csi_param(s[j]) {
        j
    } else {
        csi_end(s, j + 1)
    }
}

/// The end of a control sequence's parameters is never before their start
/// nor after the end of the text.
pub proof fn lemma_csi_end(s: Seq<char>, j: int)
    requires
        0 <= j,
    ensures
        j <= csi_end(s, j),
        j <= s.len() ==> csi_end(s, j) <= s.len(),
        csi_end(s, j) < s.len() ==> !is_csi_param(s[csi_end(s, j)]),
    decreases s.len() - j,
{
    if !(j >= s.len() || !is_csi_param(s[j])) {
        lemma_csi_end(s, j + 1);
    }
}

/// The HTML for `s[i..]`, given the style in effect, whether a span is
/// open, and the output so far.  `ESC [ params m` changes the style (the
/// open span closes and a new one opens if anything is set); other control
/// sequences and lone `ESC`s are dropped; text is escaped; an open span is
/// closed at the end.
pub open spec fn ansi_from(
    s: Seq<char>,
    i: int,
    st: AnsiStyle,
    open: bool,
    out: Seq<char>,
) -> Seq<char>
    decreases s.len() - i,
{
    if i >= s.len() || i < 0 {
        out + if open {
            "</span>"@
        } else {
            seq![]
        }
    } else if s[i] == '\x1b' {
        if i + 1 < s.len() && s[i + 1] == '[' {
            let j = csi_end(s, i + 2);
            proof {
                lemma_csi_end(s, i + 2);
            }
            if j < s.len() {
                if s[j] == 'm' {
                    let st2 = apply_codes(sgr_codes(s.subrange(i + 2, j)), 0, st);
                    let closed = out + if open {
                        "</span>"@
                    } else {
                        seq![]
                    };
                    ansi_from(s, j + 1, st2, has_style(st2), closed + open_tag(st2))
                } else {
                    ansi_from(s, j + 1, st, open, out)
                }
            } else {
                ansi_from(s, i + 1, st, open, out)
            }
        } else {
            ansi_from(s, i + 1, st, open, out)
        }
    } else {
        ansi_from(s, i + 1, st, open, out + escape_char(s[i]))
    }
}

/// The HTML `ansi_to_html` produces for `s`.
pub open spec fn ansi_to_html_spec(s: Seq<char>) -> Seq<char> {
    ansi_from(s, 0, plain_style(), false, seq![])
}

/// Whether the scan of `s[i..]` never reaches a control sequence whose
/// final character is not ASCII (the converter slices its input in the
/// middle of such a character).
pub open spec fn ansi_input_ok_from(s: Seq<char>, i: int) -> bool
    decreases s.len() - i,
{
    if i >= s.len() || i < 0 {
        true
    } else if s[i] == '\x1b' && i + 1 < s.len() && s[i + 1] == '[' && csi_end(s, i + 2) < s.len() {
        proof {
            lemma_csi_end(s, i + 2);
        }
        (s[csi_end(s, i + 2)] as u32) < 0x80 && ansi_input_ok_from(s, csi_end(s, i + 2) + 1)
    } else {
        ansi_input_ok_from(s, i + 1)
    }
}

/// Whether `ansi_to_html` accepts `s`.
pub open spec fn ansi_input_ok(s: Seq<char>) -> bool {
    ansi_input_ok_from(s, 0)
}

// ---------------------------------------------------------------------------
// Implementation
// ---------------------------------------------------------------------------

struct RenderState {
    fg: Option<Vec<char>>,
    bg: Option<Vec<char>>,
    bold: bool,
    italic: bool,
    underline: bool,
}

impl RenderState {
    spec fn model(&self) -> AnsiStyle {
        AnsiStyle {
            fg: match self.fg {
                Some(v) => Some(v@),
                None => None,
            },
            bg: match self.bg {
                Some(v) => Some(v@),
                None => None,
            },
            bold: self.bold,
            italic: self.italic,
            underline: self.underline,
        }
    }
}

/// Map a 3-bit color index (0-7) and a brightness flag to a CSS color.
fn standard_color_exec(index: u32, bright: bool) -> (c: Vec<char>)
    requires
        index < 8,
    ensures
        c@ == standard_color(index as nat, bright),
{
    if !bright {
        if index == 0 {
            chars_of("#000000")
        } else if index == 1 {
            chars_of("#cc0000")
        } else if index == 2 {
            chars_of("#4e9a06")
        } else if index == 3 {
            chars_of("#c4a000")
        } else if index == 4 {
            chars_of("#3465a4")
        } else if index == 5 {
            chars_of("#75507b")
        } else if index == 6 {
            chars_of("#06989a")
        } else {
            chars_of("#d3d7cf")
        }
    } else {
        if index == 0 {
            chars_of("#555753")
        } else if index == 1 {
            chars_of("#ef2929")
        } else if index == 2 {
            chars_of("#8ae234")
        } else if index == 3 {
            chars_of("#fce94f")
        } else if index == 4 {
            chars_of("#729fcf")
        } else if index == 5 {
            chars_of("#ad7fa8")
        } else if index == 6 {
            chars_of("#34e2e2")
        } else {
            chars_of("#eeeeec")
        }
    }
}

/// Convert a 256-color index to a CSS `#rrggbb` color.
fn color_256_exec(n: u8) -> (c: Vec<char>)
    ensures
        c@ == color_256(n as nat),
{
    if n < 8 {
        standard_color_exec(n as u32, false)
    } else if n < 16 {
        standard_color_exec((n - 8) as u32, true)
    } else if n < 232 {
        let idx = n - 16;
        let b = idx % 6;
        let g = (idx / 6) % 6;
        let r = idx / 36;
        let mut out = chars_of("#");
        push_hex2(&mut out, cube_channel_exec(r));
        push_hex2(&mut out, cube_channel_exec(g));
        push_hex2(&mut out, cube_channel_exec(b));
        out
    } else {
        let level = (n - 232) * 10 + 8;
        let mut out = chars_of("#");
        push_hex2(&mut out, level);
        push_hex2(&mut out, level);
        push_hex2(&mut out, level);
        out
    }
}

fn cube_channel_exec(v: u8) -> (c: u8)
    requires
        v <= 5,
    ensures
        c == cube_channel(v as nat),
{
    if v == 0 {
        0
    } else {
        55 + v * 40
    }
}

/// The CSS color of a 256-color index, as a string.
pub fn color_256_to_hex(n: u8) -> (s: String)
    ensures
        s@ == color_256(n as nat),
{
    let c = color_256_exec(n);
    string_of(c.as_slice())
}

/// Apply a semicolon-separated list of SGR parameter codes to the current
/// render state.  Handles 256-color sub-sequences (`38;5;N` / `48;5;N`).
fn apply_sgr_params(params: &[char], st: &mut RenderState)
    ensures
        final(st).model() == apply_codes(sgr_codes(params@), 0, old(st).model()),
{
    let codes: Vec<Vec<char>> = if params.len() == 0 {
        let mut v: Vec<Vec<char>> = Vec::new();
        v.push(vec!['0']);
        v
    } else {
        split_char_exec(params, ';')
    };
    let ghost cv = sgr_codes(params@);
    assert(codes@.len() == cv.len());
    assert(forall|k: int| 0 <= k < codes@.len() ==> #[trigger] codes@[k]@ == cv[k]);
    let five: Vec<char> = vec!['5'];
    let mut idx: usize = 0;
    while idx < codes.len()
        invariant
            codes@.len() == cv.len(),
            forall|k: int| 0 <= k < codes@.len() ==> #[trigger] codes@[k]@ == cv[k],
            five@ == seq!['5'],
            apply_codes(cv, idx as int, st.model()) == apply_codes(cv, 0, old(st).model()),
        decreases codes.len() + 3 - idx,
    {
        let t = trim_exec(codes[idx].as_slice());
        let code: u32 = match parse_u32_exec(t.as_slice()) {
            Some(v) => v,
            None => 0,
        };
        assert(code as nat == sgr_code(cv[idx as int]));
        if code == 0 {
            st.fg = None;
            st.bg = None;
            st.bold = false;
            st.italic = false;
            st.underline = false;
        } else if code == 1 {
            st.bold = true;
        } else if code == 3 {
            st.italic = true;
        } else if code == 4 {
            st.underline = true;
        } else if 30 <= code && code <= 37 {
            st.fg = Some(standard_color_exec(code - 30, false));
        } else if code == 39 {
            st.fg = None;
        } else if 40 <= code && code <= 47 {
            st.bg = Some(standard_color_exec(code - 40, false));
        } else if code == 49 {
            st.bg = None;
        } else if 90 <= code && code <= 97 {
            st.fg = Some(standard_color_exec(code - 90, true));
        } else if 100 <= code && code <= 107 {
            st.bg = Some(standard_color_exec(code - 100, true));
        } else if code == 38 || code == 48 {
            if codes.len() - idx > 2 {
                let t1 = trim_exec(codes[idx + 1].as_slice());
                if chars_eq(t1.as_slice(), five.as_slice()) {
                    let t2 = trim_exec(codes[idx + 2].as_slice());
                    let n: u8 = match parse_u8_exec(t2.as_slice()) {
                        Some(v) => v,
                        None => 0,
                    };
                    if code == 38 {
                        st.fg = Some(color_256_exec(n));
                    } else {
                        st.bg = Some(color_256_exec(n));
                    }
                    idx += 2;
                }
            }
        }
        idx += 1;
    }
}

/// A declaration `name value;` for a color that is set.
pub open spec fn decl_text(name: Seq<char>, c: Option<Seq<char>>) -> Seq<char> {
    match c {
        Some(v) => name + v + ";"@,
        None => seq![],
    }
}

fn opt_view(c: &Option<Vec<char>>) -> (r: Ghost<Option<Seq<char>>>)
    ensures
        r@ == match c {
            Some(v) => Some(v@),
            None => None::<Seq<char>>,
        },
{
    Ghost(
        match c {
            Some(v) => Some(v@),
            None => None,
        },
    )
}

fn push_decl(out: &mut Vec<char>, name: &str, c: &Option<Vec<char>>)
    ensures
        final(out)@ == old(out)@ + decl_text(
            name@,
            match c {
                Some(v) => Some(v@),
                None => None,
            },
        ),
{
    match c {
        Some(v) => {
            extend_str(out, name);
            extend_chars(out, v.as_slice());
            extend_str(out, ";");
            assert(out@ =~= old(out)@ + (name@ + v@ + ";"@));
        },
        None => {
            assert(out@ =~= old(out)@ + seq![]);
        },
    }
}

fn push_flag(out: &mut Vec<char>, on: bool, text: &str)
    ensures
        final(out)@ == old(out)@ + flag_text(on, text@),
{
    if on {
        extend_str(out, text);
    } else {
        assert(out@ =~= old(out)@ + seq![]);
    }
}

fn push_style_text(out: &mut Vec<char>, st: &RenderState)
    ensures
        final(out)@ == old(out)@ + style_text(st.model()),
{
    let ghost m = st.model();
    let ghost o0 = out@;
    push_decl(out, "color:", &st.fg);
    let ghost o1 = out@;
    push_decl(out, "background-color:", &st.bg);
    let ghost o2 = out@;
    push_flag(out, st.bold, "font-weight:bold;");
    let ghost o3 = out@;
    push_flag(out, st.italic, "font-style:italic;");
    let ghost o4 = out@;
    push_flag(out, st.underline, "text-decoration:underline;");
    proof {
        assert(fg_text(m) == decl_text("color:"@, m.fg));
        assert(bg_text(m) == decl_text("background-color:"@, m.bg));
        let f = fg_text(m);
        let b = bg_text(m);
        let x = flag_text(m.bold, "font-weight:bold;"@);
        let y = flag_text(m.italic, "font-style:italic;"@);
        let z = flag_text(m.underline, "text-decoration:underline;"@);
        assert(o1 == o0 + f);
        assert(o2 == o1 + b);
        assert(o3 == o2 + x);
        assert(o4 == o3 + y);
        assert(out@ == o4 + z);
        assert(o0 + f + b + x + y + z =~= o0 + (f + b + x + y + z));
    }
}

fn has_style_exec(st: &RenderState) -> (r: bool)
    ensures
        r == has_style(st.model()),
{
    st.fg.is_some() || st.bg.is_some() || st.bold || st.italic || st.underline
}

fn push_escaped(out: &mut Vec<char>, c: char)
    ensures
        final(out)@ == old(out)@ + escape_char(c),
{
    if c == '&' {
        extend_str(out, "&amp;");
    } else if c == '<' {
        extend_str(out, "&lt;");
    } else if c == '>' {
        extend_str(out, "&gt;");
    } else if c == '"' {
        extend_str(out, "&quot;");
    } else {
        out.push(c);
        assert(old(out)@.push(c) =~= old(out)@ + seq![c]);
    }
}

/// The end of the control-sequence parameters starting at `j`.
fn csi_end_exec(s: &[char], j: usize) -> (k: usize)
    requires
        j <= s@.len(),
    ensures
        k == csi_end(s@, j as int),
        j <= k <= s@.len(),
{
    let mut k = j;
    while k < s.len() && 0x20 <= (s[k] as u32) && (s[k] as u32) < 0x40
        invariant
            j <= k <= s@.len(),
            csi_end(s@, k as int) == csi_end(s@, j as int),
        decreases s.len() - k,
    {
        k += 1;
    }
    k
}

/// Whether `ansi_to_html` accepts `input` (see [`ansi_input_ok`]).
pub fn is_ansi_input_ok(input: &str) -> (r: bool)
    ensures
        r == ansi_input_ok(input@),
{
    let s = chars_of(input);
    let len = s.len();
    let mut i: usize = 0;
    while i < len
        invariant
            len == s@.len(),
            s@ == input@,
            i <= len,
            ansi_input_ok(input@) == ansi_input_ok_from(s@, i as int),
        decreases len - i,
    {
        if s[i] == '\x1b' && i + 1 < len && s[i + 1] == '[' {
            let j = csi_end_exec(s.as_slice(), i + 2);
            proof {
                lemma_csi_end(s@, i + 2);
            }
            if j < len {
                if (s[j] as u32) >= 0x80 {
                    return false;
                }
                i = j + 1;
            } else {
                i += 1;
            }
        } else {
            i += 1;
        }
    }
    true
}

/// Convert a string containing ANSI escape codes to HTML with `<span>`
/// styling.
///
/// Handles the SGR reset (`ESC[0m` or bare `ESC[m`), bold (1), italic (3),
/// underline (4), foreground colors 30–37 and 90–97, background colors
/// 40–47 and 100–107, and 256-color `ESC[38;5;Nm` / `ESC[48;5;Nm`.  All
/// open `<span>` elements are closed on a style change or at the end;
/// other control sequences are dropped; `& < > "` are escaped.
pub fn ansi_to_html(input: &str) -> (out: String)
    requires
        ansi_input_ok(input@),
    ensures
        out@ == ansi_to_html_spec(input@),
{
    let s = chars_of(input);
    let len = s.len();
    let mut out: Vec<char> = Vec::new();
    let mut st = RenderState { fg: None, bg: None, bold: false, italic: false, underline: false };
    let mut span_open = false;
    let mut i: usize = 0;
    proof {
        reveal_strlit("</span>");
    }
    while i < len
        invariant
            len == s@.len(),
            s@ == input@,
            i <= len,
            ansi_input_ok_from(s@, i as int),
            ansi_from(s@, i as int, st.model(), span_open, out@) == ansi_to_html_spec(input@),
        decreases len - i,
    {
        let c = s[i];
        if c == '\x1b' {
            if i + 1 < len && s[i + 1] == '[' {
                let j = csi_end_exec(s.as_slice(), i + 2);
                proof {
                    lemma_csi_end(s@, i + 2);
                }
                if j < len {
                    if s[j] == 'm' {
                        let params = crate::text::slice_chars(s.as_slice(), i + 2, j);
                        let ghost st0 = st.model();
                        let ghost closed = out@ + if span_open {
                            "</span>"@
                        } else {
                            seq![]
                        };
                        if span_open {
                            extend_str(&mut out, "</span>");
                        }
                        apply_sgr_params(params.as_slice(), &mut st);
                        if has_style_exec(&st) {
                            extend_str(&mut out, "<span style=\"");
                            push_style_text(&mut out, &st);
                            extend_str(&mut out, "\">");
                            span_open = true;
                        } else {
                            span_open = false;
                        }
                        assert(out@ =~= closed + open_tag(st.model()));
                        assert(st.model() == apply_codes(sgr_codes(s@.subrange(i + 2, j as int)), 0, st0));
                    }
                    i = j + 1;
                } else {
                    i += 1;
                }
            } else {
                i += 1;
            }
        } else {
            push_escaped(&mut out, c);
            i += 1;
        }
    }
    if span_open {
        extend_str(&mut out, "</span>");
    }
    assert(out@ =~= ansi_to_html_spec(input@));
    string_of(out.as_slice())
}

} // verus!
