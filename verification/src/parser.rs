use vstd::prelude::*;
use vstd::string::StrSliceExecFns;

verus! {

/// A color descriptor decoded from one SGR parameter group: either a
/// 256-palette index or a 24-bit RGB triple.
#[derive(Clone, Copy, PartialEq, Eq, Structural, Debug)]
pub enum Color {
    Base(u8),
    Rgb(u8, u8, u8),
}

/// How a foreground or background color was specified: inherit the
/// terminal default, one of the 16 standard colors, or a 256-color/RGB
/// value.
#[derive(Clone, Copy, PartialEq, Eq, Structural, Debug)]
pub enum ColorMode {
    Default,
    Base16(u8),
    Base256(Color),
}

/// Decoded parameters of one recognized SGR sequence: optional foreground,
/// optional background, optional bare special code.
pub type ColorTuple = (Option<ColorMode>, Option<ColorMode>, Option<u8>);

/// The escape character that opens every SGR sequence.
pub open spec fn esc_char() -> char {
    '\u{1b}'
}

pub open spec fn is_digit_char(c: char) -> bool {
    48 <= c as u32 && c as u32 <= 57
}

pub open spec fn digit_val(c: char) -> int {
    c as u32 - 48
}

/// Position just past the maximal run of decimal digits starting at `i`.
pub open spec fn digits_end(s: Seq<char>, i: int) -> int
    decreases s.len() - i when i <= s.len()
{
    if 0 <= i < s.len() && is_digit_char(s[i]) {
        digits_end(s, i + 1)
    } else {
        i
    }
}

/// Decimal value of the digit characters `s[i..j)`.
pub open spec fn digits_value(s: Seq<char>, i: int, j: int) -> int
    decreases j - i
{
    if i < j {
        digits_value(s, i, j - 1) * 10 + digit_val(s[j - 1])
    } else {
        0
    }
}

/// One decimal number at `i`: the maximal digit run, accepted only when
/// at least one digit is present and the value fits in a byte. Mirrors a
/// digit run fed to a `u8` conversion, except that an oversized value is
/// a quiet non-match here.
pub open spec fn num_at(s: Seq<char>, i: int) -> Option<(int, u8)> {
    let j = digits_end(s, i);
    if i < j && digits_value(s, i, j) <= 255 {
        Some((j, digits_value(s, i, j) as u8))
    } else {
        None
    }
}

/// Three `;`-separated decimal bytes starting at `i` (the tail of a
/// `38;2;R;G;B` or `48;2;R;G;B` group).
pub open spec fn rgb_at(s: Seq<char>, i: int) -> Option<(int, Color)> {
    match num_at(s, i) {
        Some((j1, r)) => if j1 < s.len() && s[j1] == ';' {
            match num_at(s, j1 + 1) {
                Some((j2, g)) => if j2 < s.len() && s[j2] == ';' {
                    match num_at(s, j2 + 1) {
                        Some((j3, b)) => Some((j3, Color::Rgb(r, g, b))),
                        None => None,
                    }
                } else {
                    None
                },
                None => None,
            }
        } else {
            None
        },
        None => None,
    }
}

/// `c8;2;` or `c8;5;` tag test, with `c` the leading digit (`3` or `4`).
pub open spec fn ext_tag_at(s: Seq<char>, i: int, lead: char, kind: char) -> bool {
    &&& i + 5 <= s.len()
    &&& s[i] == lead
    &&& s[i + 1] == '8'
    &&& s[i + 2] == ';'
    &&& s[i + 3] == kind
    &&& s[i + 4] == ';'
}

pub open spec fn is_0_to_7(c: char) -> bool {
    48 <= c as u32 && c as u32 <= 55
}

/// A foreground color group starting at `i`. The alternatives are tried
/// in this order, most specific first; the order resolves the grammar's
/// ambiguities (for example `38;5;N` against `3` followed by a digit) and
/// must not be changed.
pub open spec fn fg_at(s: Seq<char>, i: int) -> Option<(int, ColorMode)> {
    let rgb = if ext_tag_at(s, i, '3', '2') {
        match rgb_at(s, i + 5) {
            Some((j, c)) => Some((j, ColorMode::Base256(c))),
            None => None,
        }
    } else {
        None
    };
    if rgb is Some {
        rgb
    } else {
        let pal = if ext_tag_at(s, i, '3', '5') {
            match num_at(s, i + 5) {
                Some((j, n)) => Some((j, ColorMode::Base256(Color::Base(n)))),
                None => None,
            }
        } else {
            None
        };
        if pal is Some {
            pal
        } else if i + 2 <= s.len() && s[i] == '3' && is_0_to_7(s[i + 1]) {
            Some((i + 2, ColorMode::Base16((s[i + 1] as u32 - 48) as u8)))
        } else if i + 2 <= s.len() && s[i] == '9' && is_0_to_7(s[i + 1]) {
            Some((i + 2, ColorMode::Base16((s[i + 1] as u32 - 40) as u8)))
        } else if i + 2 <= s.len() && s[i] == '3' && s[i + 1] == '9' {
            Some((i + 2, ColorMode::Default))
        } else {
            None
        }
    }
}

/// A background color group starting at `i`, with the same ordered
/// alternatives as `fg_at` but the background tags.
pub open spec fn bg_at(s: Seq<char>, i: int) -> Option<(int, ColorMode)> {
    let rgb = if ext_tag_at(s, i, '4', '2') {
        match rgb_at(s, i + 5) {
            Some((j, c)) => Some((j, ColorMode::Base256(c))),
            None => None,
        }
    } else {
        None
    };
    if rgb is Some {
        rgb
    } else {
        let pal = if ext_tag_at(s, i, '4', '5') {
            match num_at(s, i + 5) {
                Some((j, n)) => Some((j, ColorMode::Base256(Color::Base(n)))),
                None => None,
            }
        } else {
            None
        };
        if pal is Some {
            pal
        } else if i + 2 <= s.len() && s[i] == '4' && is_0_to_7(s[i + 1]) {
            Some((i + 2, ColorMode::Base16((s[i + 1] as u32 - 48) as u8)))
        } else if i + 3 <= s.len() && s[i] == '1' && s[i + 1] == '0' && is_0_to_7(s[i + 2]) {
            Some((i + 3, ColorMode::Base16((s[i + 2] as u32 - 40) as u8)))
        } else if i + 2 <= s.len() && s[i] == '4' && s[i + 1] == '9' {
            Some((i + 2, ColorMode::Default))
        } else {
            None
        }
    }
}

/// One full SGR sequence starting exactly at `i`:
/// `ESC [ fg? ;? bg? ;? special? m`. On success the result carries the
/// position just past the closing `m` and the decoded parameters; any
/// other text yields no match, so the caller treats the character at `i`
/// as literal text.
pub open spec fn sgr_at(s: Seq<char>, i: int) -> Option<(int, ColorTuple)> {
    if i + 2 <= s.len() && s[i] == esc_char() && s[i + 1] == '[' {
        let p0 = i + 2;
        let (p1, fg) = match fg_at(s, p0) {
            Some((j, m)) => (j, Some(m)),
            None => (p0, None::<ColorMode>),
        };
        let p2 = if p1 < s.len() && s[p1] == ';' {
            p1 + 1
        } else {
            p1
        };
        let (p3, bg) = match bg_at(s, p2) {
            Some((j, m)) => (j, Some(m)),
            None => (p2, None::<ColorMode>),
        };
        let p4 = if p3 < s.len() && s[p3] == ';' {
            p3 + 1
        } else {
            p3
        };
        let (p5, sp) = match num_at(s, p4) {
            Some((j, n)) => (j, Some(n)),
            None => (p4, None::<u8>),
        };
        if p5 < s.len() && s[p5] == 'm' {
            Some((p5 + 1, (fg, bg, sp)))
        } else {
            None
        }
    } else {
        None
    }
}

proof fn lemma_digits_end_bounds(s: Seq<char>, i: int)
    requires
        0 <= i <= s.len(),
    ensures
        i <= digits_end(s, i) <= s.len(),
    decreases s.len() - i,
{
    if i < s.len() && is_digit_char(s[i]) {
        lemma_digits_end_bounds(s, i + 1);
    }
}

proof fn lemma_num_bounds(s: Seq<char>, i: int)
    requires
        0 <= i <= s.len(),
        num_at(s, i) is Some,
    ensures
        i < num_at(s, i)->Some_0.0 <= s.len(),
{
    lemma_digits_end_bounds(s, i);
}

proof fn lemma_rgb_bounds(s: Seq<char>, i: int)
    requires
        0 <= i <= s.len(),
        rgb_at(s, i) is Some,
    ensures
        i < rgb_at(s, i)->Some_0.0 <= s.len(),
{
    lemma_num_bounds(s, i);
    let (j1, _) = num_at(s, i)->Some_0;
    lemma_num_bounds(s, j1 + 1);
    let (j2, _) = num_at(s, j1 + 1)->Some_0;
    lemma_num_bounds(s, j2 + 1);
}

proof fn lemma_fg_bounds(s: Seq<char>, i: int)
    requires
        0 <= i <= s.len(),
        fg_at(s, i) is Some,
    ensures
        i < fg_at(s, i)->Some_0.0 <= s.len(),
{
    if ext_tag_at(s, i, '3', '2') && rgb_at(s, i + 5) is Some {
        lemma_rgb_bounds(s, i + 5);
    } else if ext_tag_at(s, i, '3', '5') && num_at(s, i + 5) is Some {
        lemma_num_bounds(s, i + 5);
    }
}

proof fn lemma_bg_bounds(s: Seq<char>, i: int)
    requires
        0 <= i <= s.len(),
        bg_at(s, i) is Some,
    ensures
        i < bg_at(s, i)->Some_0.0 <= s.len(),
{
    if ext_tag_at(s, i, '4', '2') && rgb_at(s, i + 5) is Some {
        lemma_rgb_bounds(s, i + 5);
    } else if ext_tag_at(s, i, '4', '5') && num_at(s, i + 5) is Some {
        lemma_num_bounds(s, i + 5);
    }
}

/// A recognized sequence begins with the escape introducer, ends with the
/// closing `m`, and never extends past the input.
pub proof fn lemma_sgr_bounds(s: Seq<char>, i: int)
    requires
        0 <= i <= s.len(),
        sgr_at(s, i) is Some,
    ensures
        i + 3 <= sgr_at(s, i)->Some_0.0 <= s.len(),
        s[sgr_at(s, i)->Some_0.0 - 1] == 'm',
        s[i] == esc_char(),
        s[i + 1] == '[',
{
    let p0 = i + 2;
    let p1 = match fg_at(s, p0) {
        Some((j, _)) => {
            lemma_fg_bounds(s, p0);
            j
        },
        None => p0,
    };
    let p2 = if p1 < s.len() && s[p1] == ';' {
        p1 + 1
    } else {
        p1
    };
    let p3 = match bg_at(s, p2) {
        Some((j, _)) => {
            lemma_bg_bounds(s, p2);
            j
        },
        None => p2,
    };
    let p4 = if p3 < s.len() && s[p3] == ';' {
        p3 + 1
    } else {
        p3
    };
    let p5 = match num_at(s, p4) {
        Some((j, _)) => {
            lemma_num_bounds(s, p4);
            j
        },
        None => p4,
    };
    assert(sgr_at(s, i)->Some_0.0 == p5 + 1);
}

/// Robustness of the scan: an escape introducer that is never closed by
/// an `m` is not recognized, so the scanner consumes the byte at `i` as
/// literal text and moves on by exactly one position.
pub proof fn lemma_unterminated_escape(s: Seq<char>, i: int)
    requires
        0 <= i <= s.len(),
        forall|k: int| i <= k < s.len() ==> s[k] != 'm',
    ensures
        sgr_at(s, i) is None,
{
    if sgr_at(s, i) is Some {
        lemma_sgr_bounds(s, i);
        assert(false);
    }
}

/// Recognizer for ANSI SGR escape sequences at a given position.
pub struct ColorParser {}

fn digit_at(s: &str, len: usize, j: usize) -> (b: bool)
    requires
        len == s@.len(),
        j < len,
    ensures
        b == is_digit_char(s@[j as int]),
{
    let u = s.get_char(j) as u32;
    48 <= u && u <= 57
}

/// Maximal decimal run at `pos`, accepted when non-empty and at most 255.
fn scan_number(s: &str, len: usize, pos: usize) -> (r: Option<(usize, u8)>)
    requires
        len == s@.len(),
        pos <= len,
    ensures
        match r {
            Some((end, v)) => num_at(s@, pos as int) == Some((end as int, v)) && pos < end <= len,
            None => num_at(s@, pos as int) is None,
        },
{
    let mut j: usize = pos;
    let mut acc: u32 = 0;
    while j < len && digit_at(s, len, j)
        invariant
            pos <= j <= len,
            len == s@.len(),
            digits_end(s@, pos as int) == digits_end(s@, j as int),
            acc == if digits_value(s@, pos as int, j as int) > 255 {
                256int
            } else {
                digits_value(s@, pos as int, j as int)
            },
        decreases len - j,
    {
        let d = s.get_char(j) as u32 - 48;
        let a = if acc > 255 {
            256
        } else {
            acc * 10 + d
        };
        acc = if a > 255 {
            256
        } else {
            a
        };
        assert(digits_value(s@, pos as int, j + 1) == digits_value(s@, pos as int, j as int) * 10
            + digit_val(s@[j as int]));
        j = j + 1;
    }
    proof {
        lemma_digits_end_bounds(s@, pos as int);
        assert(digits_end(s@, j as int) == j as int);
    }
    if pos < j && acc <= 255 {
        Some((j, acc as u8))
    } else {
        None
    }
}

/// The `R;G;B` tail of a 24-bit color group.
fn scan_rgb(s: &str, len: usize, pos: usize) -> (r: Option<(usize, Color)>)
    requires
        len == s@.len(),
        pos <= len,
    ensures
        match r {
            Some((end, c)) => rgb_at(s@, pos as int) == Some((end as int, c)) && pos < end <= len,
            None => rgb_at(s@, pos as int) is None,
        },
{
    match scan_number(s, len, pos) {
        Some((j1, rv)) => {
            if j1 < len && s.get_char(j1) == ';' {
                match scan_number(s, len, j1 + 1) {
                    Some((j2, gv)) => {
                        if j2 < len && s.get_char(j2) == ';' {
                            match scan_number(s, len, j2 + 1) {
                                Some((j3, bv)) => Some((j3, Color::Rgb(rv, gv, bv))),
                                None => None,
                            }
                        } else {
                            None
                        }
                    },
                    None => None,
                }
            } else {
                None
            }
        },
        None => None,
    }
}

fn ext_tag(s: &str, len: usize, pos: usize, lead: char, kind: char) -> (b: bool)
    requires
        len == s@.len(),
        pos <= len,
    ensures
        b == ext_tag_at(s@, pos as int, lead, kind),
{
    len - pos >= 5 && s.get_char(pos) == lead && s.get_char(pos + 1) == '8' && s.get_char(pos + 2)
        == ';' && s.get_char(pos + 3) == kind && s.get_char(pos + 4) == ';'
}

/// A foreground group: the ordered alternatives of `fg_at`.
fn foreground(s: &str, len: usize, pos: usize) -> (r: Option<(usize, ColorMode)>)
    requires
        len == s@.len(),
        pos <= len,
    ensures
        match r {
            Some((end, m)) => fg_at(s@, pos as int) == Some((end as int, m)) && pos < end <= len,
            None => fg_at(s@, pos as int) is None,
        },
{
    if ext_tag(s, len, pos, '3', '2') {
        match scan_rgb(s, len, pos + 5) {
            Some((j, c)) => {
                return Some((j, ColorMode::Base256(c)));
            },
            None => {},
        }
    }
    if ext_tag(s, len, pos, '3', '5') {
        match scan_number(s, len, pos + 5) {
            Some((j, n)) => {
                return Some((j, ColorMode::Base256(Color::Base(n))));
            },
            None => {},
        }
    }
    if len - pos >= 2 && s.get_char(pos) == '3' {
        let u = s.get_char(pos + 1) as u32;
        if 48 <= u && u <= 55 {
            return Some((pos + 2, ColorMode::Base16((u - 48) as u8)));
        }
    }
    if len - pos >= 2 && s.get_char(pos) == '9' {
        let u = s.get_char(pos + 1) as u32;
        if 48 <= u && u <= 55 {
            return Some((pos + 2, ColorMode::Base16((u - 40) as u8)));
        }
    }
    if len - pos >= 2 && s.get_char(pos) == '3' && s.get_char(pos + 1) == '9' {
        return Some((pos + 2, ColorMode::Default));
    }
    None
}

/// A background group: the ordered alternatives of `bg_at`.
fn background(s: &str, len: usize, pos: usize) -> (r: Option<(usize, ColorMode)>)
    requires
        len == s@.len(),
        pos <= len,
    ensures
        match r {
            Some((end, m)) => bg_at(s@, pos as int) == Some((end as int, m)) && pos < end <= len,
            None => bg_at(s@, pos as int) is None,
        },
{
    if ext_tag(s, len, pos, '4', '2') {
        match scan_rgb(s, len, pos + 5) {
            Some((j, c)) => {
                return Some((j, ColorMode::Base256(c)));
            },
            None => {},
        }
    }
    if ext_tag(s, len, pos, '4', '5') {
        match scan_number(s, len, pos + 5) {
            Some((j, n)) => {
                return Some((j, ColorMode::Base256(Color::Base(n))));
            },
            None => {},
        }
    }
    if len - pos >= 2 && s.get_char(pos) == '4' {
        let u = s.get_char(pos + 1) as u32;
        if 48 <= u && u <= 55 {
            return Some((pos + 2, ColorMode::Base16((u - 48) as u8)));
        }
    }
    if len - pos >= 3 && s.get_char(pos) == '1' && s.get_char(pos + 1) == '0' {
        let u = s.get_char(pos + 2) as u32;
        if 48 <= u && u <= 55 {
            return Some((pos + 3, ColorMode::Base16((u - 40) as u8)));
        }
    }
    if len - pos >= 2 && s.get_char(pos) == '4' && s.get_char(pos + 1) == '9' {
        return Some((pos + 2, ColorMode::Default));
    }
    None
}

impl ColorParser {
    /// Attempt to recognize one SGR sequence starting exactly at `pos`.
    /// On success the result gives the position just past the closing `m`
    /// and the decoded parameters; on failure the caller treats the
    /// character at `pos` as literal text and advances by one.
    pub fn parse(s: &str, pos: usize) -> (r: Option<(usize, ColorTuple)>)
        requires
            pos <= s@.len(),
        ensures
            match r {
                Some((end, t)) => sgr_at(s@, pos as int) == Some((end as int, t)) && pos < end
                    <= s@.len(),
                None => sgr_at(s@, pos as int) is None,
            },
    {
        let len = s.unicode_len();
        if len - pos >= 2 && s.get_char(pos) == '\u{1b}' && s.get_char(pos + 1) == '[' {
            let p0 = pos + 2;
            let (p1, fg) = match foreground(s, len, p0) {
                Some((j, m)) => (j, Some(m)),
                None => (p0, None),
            };
            let p2 = if p1 < len && s.get_char(p1) == ';' {
                p1 + 1
            } else {
                p1
            };
            let (p3, bg) = match background(s, len, p2) {
                Some((j, m)) => (j, Some(m)),
                None => (p2, None),
            };
            let p4 = if p3 < len && s.get_char(p3) == ';' {
                p3 + 1
            } else {
                p3
            };
            let (p5, sp) = match scan_number(s, len, p4) {
                Some((j, n)) => (j, Some(n)),
                None => (p4, None),
            };
            if p5 < len && s.get_char(p5) == 'm' {
                Some((p5 + 1, (fg, bg, sp)))
            } else {
                None
            }
        } else {
            None
        }
    }
}

} // verus!
