//! Display preferences, and the parser of the configuration text: an ASCII-art
//! block between `{|` and `|}`, and `key = value` lines.

use vstd::prelude::*;
use crate::text::{
    chars_of, find_from, find_char_in, find_pair, trim, trim_bounds, split_on, occurs_at,
    lemma_find_first, lemma_find_found, lemma_occurs_pair, lemma_trim_is_piece, trim_start,
};

verus! {

/// The art shown when the configuration text holds no art block.
pub const DEFAULT_ASCII: &'static str = "\n\n\n  1111111  1111111\n  1111111  1111111\n  1111111  1111111\nã…¤\n  1111111  1111111\n  1111111  1111111\n  1111111  11111;.\n";

pub const DEFAULT_COLOR: &'static str = "34";

pub const DEFAULT_INFO_COLOR: &'static str = "38;5;117";

pub const DEFAULT_TITLE_COLOR: &'static str = "38;5;110";

pub struct Config {
    pub ascii_art: String,
    pub color: String,
    pub info_color: String,
    pub title_color: String,
    pub show_user: bool,
    pub show_os: bool,
    pub show_uptime: bool,
    pub show_shell: bool,
    pub show_de: bool,
    pub show_screen: bool,
    pub show_motherboard: bool,
    pub show_cpu: bool,
    pub show_gpu: bool,
    pub show_ram: bool,
    pub show_swap: bool,
    pub show_locale: bool,
    pub show_disk: bool,
    pub show_ram_ext_info: bool,
    pub show_color_scheme: bool,
}

pub open spec fn open_mark() -> Seq<char> {
    seq!['{', '|']
}

pub open spec fn close_mark() -> Seq<char> {
    seq!['|', '}']
}

/// The text strictly between the first `{|` and the first `|}` after it.
pub open spec fn art_block(s: Seq<char>) -> Option<Seq<char>> {
    match find_from(s, open_mark(), 0) {
        Some(i) => match find_from(s, close_mark(), i + 2) {
            Some(j) => Some(s.subrange(i + 2, j)),
            None => None,
        },
        None => None,
    }
}

pub open spec fn starts_with(s: Seq<char>, p: Seq<char>) -> bool {
    p.len() <= s.len() && s.subrange(0, p.len() as int) == p
}

/// A value with one pair of surrounding double quotes removed, where there
/// is something between them.
pub open spec fn unquote(v: Seq<char>) -> Seq<char> {
    if v.len() > 2 && v[0] == '"' && v.last() == '"' {
        v.subrange(1, v.len() - 1)
    } else {
        v
    }
}

/// The value that one line gives the parameter `name` (possibly empty), if
/// the line is about `name` at all: not blank, not a comment, starting with
/// the name and holding `=`.
pub open spec fn line_value(line: Seq<char>, name: Seq<char>) -> Option<Seq<char>> {
    let t = trim(line);
    if t.len() == 0 || t[0] == '#' || !starts_with(t, name) {
        None
    } else {
        match find_from(t, seq!['='], 0) {
            Some(q) => Some(unquote(trim(t.subrange(q + 1, t.len() as int)))),
            None => None,
        }
    }
}

/// Scans the lines of `s` from the line that begins at `start`; `pos` is
/// the current position in that line.
pub open spec fn param_scan(s: Seq<char>, name: Seq<char>, start: int, pos: int) -> Option<
    Seq<char>,
>
    decreases s.len() - pos,
{
    if pos >= s.len() {
        line_value(s.subrange(start, s.len() as int), name)
    } else if s[pos] == '\n' {
        match line_value(s.subrange(start, pos), name) {
            Some(v) => Some(v),
            None => param_scan(s, name, pos + 1, pos + 1),
        }
    } else {
        param_scan(s, name, start, pos + 1)
    }
}

/// The value of the first line about the parameter `name`; later lines
/// about it are ignored, even where that value is empty.
pub open spec fn param_value(s: Seq<char>, name: Seq<char>) -> Option<Seq<char>> {
    param_scan(s, name, 0, 0)
}

pub open spec fn true_text() -> Seq<char> {
    seq!['t', 'r', 'u', 'e']
}

/// A text parameter: its value, or `default` where the parameter is absent
/// or its value is empty.
pub open spec fn text_param(s: Seq<char>, name: Seq<char>, default: Seq<char>) -> Seq<char> {
    match param_value(s, name) {
        Some(v) => if v.len() > 0 {
            v
        } else {
            default
        },
        None => default,
    }
}

/// A flag is `true` exactly when its value reads `true` (any other value,
/// the empty one included, gives `false`), and keeps its default when no
/// line is about it.
pub open spec fn flag_param(s: Seq<char>, name: Seq<char>, default: bool) -> bool {
    match param_value(s, name) {
        Some(v) => v == true_text(),
        None => default,
    }
}

pub open spec fn art_or_default(s: Seq<char>) -> Seq<char> {
    match art_block(s) {
        Some(x) => x,
        None => DEFAULT_ASCII@,
    }
}

impl Config {
    pub open spec fn is_default(&self) -> bool {
        &&& self.ascii_art@ == DEFAULT_ASCII@
        &&& self.color@ == DEFAULT_COLOR@
        &&& self.info_color@ == DEFAULT_INFO_COLOR@
        &&& self.title_color@ == DEFAULT_TITLE_COLOR@
        &&& self.show_user && self.show_os && self.show_uptime && self.show_shell
        &&& self.show_de && self.show_screen && self.show_motherboard && self.show_cpu
        &&& self.show_gpu && self.show_ram && self.show_swap && self.show_locale
        &&& self.show_disk && !self.show_ram_ext_info && self.show_color_scheme
    }

    /// Every field as the configuration text `s` gives it.
    pub open spec fn parsed_from(&self, s: Seq<char>) -> bool {
        &&& self.ascii_art@ == art_or_default(s)
        &&& self.color@ == text_param(s, "ascii_color"@, DEFAULT_COLOR@)
        &&& self.info_color@ == text_param(s, "info_color"@, DEFAULT_INFO_COLOR@)
        &&& self.title_color@ == text_param(s, "title_color"@, DEFAULT_TITLE_COLOR@)
        &&& self.show_user == flag_param(s, "show_user"@, true)
        &&& self.show_os == flag_param(s, "show_os"@, true)
        &&& self.show_uptime == flag_param(s, "show_uptime"@, true)
        &&& self.show_shell == flag_param(s, "show_shell"@, true)
        &&& self.show_de == flag_param(s, "show_de"@, true)
        &&& self.show_screen == flag_param(s, "show_screen"@, true)
        &&& self.show_motherboard == flag_param(s, "show_motherboard"@, true)
        &&& self.show_cpu == flag_param(s, "show_cpu"@, true)
        &&& self.show_gpu == flag_param(s, "show_gpu"@, true)
        &&& self.show_ram == flag_param(s, "show_ram"@, true)
        &&& self.show_swap == flag_param(s, "show_swap"@, true)
        &&& self.show_locale == flag_param(s, "show_locale"@, true)
        &&& self.show_disk == flag_param(s, "show_disk"@, true)
        &&& self.show_ram_ext_info == flag_param(s, "show_ram_ext_info"@, false)
        &&& self.show_color_scheme == flag_param(s, "show_color_scheme"@, true)
    }
}

impl Default for Config {
    fn default() -> (r: Self)
        ensures
            r.is_default(),
    {
        Config {
            ascii_art: String::from_str(DEFAULT_ASCII),
            color: String::from_str(DEFAULT_COLOR),
            info_color: String::from_str(DEFAULT_INFO_COLOR),
            title_color: String::from_str(DEFAULT_TITLE_COLOR),
            show_user: true,
            show_os: true,
            show_uptime: true,
            show_shell: true,
            show_de: true,
            show_screen: true,
            show_motherboard: true,
            show_cpu: true,
            show_gpu: true,
            show_ram: true,
            show_swap: true,
            show_locale: true,
            show_disk: true,
            show_ram_ext_info: false,
            show_color_scheme: true,
        }
    }
}

/// The art block of `content`, if it has one.
pub fn extract_ascii_art(content: &str) -> (r: Option<&str>)
    ensures
        match r {
            Some(x) => art_block(content@) == Some(x@),
            None => art_block(content@) is None,
        },
{
    let v = chars_of(content);
    match art_range(&v) {
        Some(p) => Some(content.substring_char(p.0, p.1)),
        None => None,
    }
}

fn art_range(v: &Vec<char>) -> (r: Option<(usize, usize)>)
    ensures
        match r {
            Some(p) => p.0 <= p.1 <= v@.len() && art_block(v@) == Some(
                v@.subrange(p.0 as int, p.1 as int),
            ),
            None => art_block(v@) is None,
        },
{
    match find_pair(v, '{', '|', 0) {
        None => None,
        Some(i) => {
            match find_pair(v, '|', '}', i + 2) {
                None => None,
                Some(j) => Some((i + 2, j)),
            }
        },
    }
}

/// Whether `v[lo..hi]` begins with `p`.
pub fn starts_with_at(v: &Vec<char>, p: &Vec<char>, lo: usize, hi: usize) -> (r: bool)
    requires
        lo <= hi <= v@.len(),
    ensures
        r == starts_with(v@.subrange(lo as int, hi as int), p@),
{
    let ghost t = v@.subrange(lo as int, hi as int);
    if p.len() > hi - lo {
        return false;
    }
    let mut k: usize = 0;
    while k < p.len()
        invariant
            p@.len() <= hi - lo,
            lo <= hi <= v@.len(),
            t == v@.subrange(lo as int, hi as int),
            k <= p@.len(),
            forall|m: int| 0 <= m < k ==> t[m] == p@[m],
        decreases p.len() - k,
    {
        if v[lo + k] != p[k] {
            assert(t.subrange(0, p@.len() as int)[k as int] != p@[k as int]);
            return false;
        }
        k += 1;
    }
    assert(t.subrange(0, p@.len() as int) =~= p@);
    true
}

/// The value that the line `v[lo..hi]` gives the parameter `name`.
fn line_value_range(v: &Vec<char>, name: &Vec<char>, lo: usize, hi: usize) -> (r: Option<
    (usize, usize),
>)
    requires
        lo <= hi <= v@.len(),
    ensures
        match r {
            Some(p) => p.0 <= p.1 <= v@.len() && line_value(
                v@.subrange(lo as int, hi as int),
                name@,
            ) == Some(v@.subrange(p.0 as int, p.1 as int)),
            None => line_value(v@.subrange(lo as int, hi as int), name@) is None,
        },
{
    let (a, b) = trim_bounds(v, lo, hi);
    let ghost t = v@.subrange(a as int, b as int);
    if a == b || v[a] == '#' {
        return None;
    }
    if !starts_with_at(v, name, a, b) {
        return None;
    }
    match find_char_in(v, '=', a, b) {
        None => None,
        Some(q) => {
            assert(t.subrange(q + 1, t.len() as int) =~= v@.subrange(a + q + 1, b as int));
            let (c, d) = trim_bounds(v, a + q + 1, b);
            let ghost w = v@.subrange(c as int, d as int);
            if d - c > 2 && v[c] == '"' && v[d - 1] == '"' {
                assert(w.subrange(1, w.len() - 1) =~= v@.subrange(c + 1, d - 1));
                Some((c + 1, d - 1))
            } else {
                Some((c, d))
            }
        },
    }
}

/// The range of `v` that holds the value of the parameter `name`.
fn param_range(v: &Vec<char>, name: &Vec<char>) -> (r: Option<(usize, usize)>)
    ensures
        match r {
            Some(p) => p.0 <= p.1 <= v@.len() && param_value(v@, name@) == Some(
                v@.subrange(p.0 as int, p.1 as int),
            ),
            None => param_value(v@, name@) is None,
        },
{
    let mut start: usize = 0;
    let mut pos: usize = 0;
    while pos < v.len()
        invariant
            start <= pos <= v@.len(),
            param_scan(v@, name@, start as int, pos as int) == param_value(v@, name@),
        decreases v.len() - pos,
    {
        if v[pos] == '\n' {
            let found = line_value_range(v, name, start, pos);
            if found.is_some() {
                return found;
            }
            start = pos + 1;
        }
        pos += 1;
    }
    line_value_range(v, name, start, v.len())
}

/// The value of the parameter `param`, from the first line that starts with
/// its name and holds `=`; that line decides, so its value may be empty.
pub fn extract_param<'a>(content: &'a str, param: &str) -> (r: Option<&'a str>)
    ensures
        match r {
            Some(x) => param_value(content@, param@) == Some(x@),
            None => param_value(content@, param@) is None,
        },
{
    let v = chars_of(content);
    let name = chars_of(param);
    match param_range(&v, &name) {
        Some(p) => Some(content.substring_char(p.0, p.1)),
        None => None,
    }
}

/// Whether `v[lo..hi]` reads `true`.
fn reads_true(v: &Vec<char>, lo: usize, hi: usize) -> (r: bool)
    requires
        lo <= hi <= v@.len(),
    ensures
        r == (v@.subrange(lo as int, hi as int) == true_text()),
{
    let ghost t = v@.subrange(lo as int, hi as int);
    if hi - lo == 4 && v[lo] == 't' && v[lo + 1] == 'r' && v[lo + 2] == 'u' && v[lo + 3] == 'e' {
        assert(t =~= true_text());
        true
    } else {
        assert(t.len() != 4 || t[0] != 't' || t[1] != 'r' || t[2] != 'u' || t[3] != 'e');
        false
    }
}

/// The flag `param`: `true` when its value reads `true`, `default` when no
/// line gives it a value.
pub fn extract_bool(content: &str, param: &str, default: bool) -> (r: bool)
    ensures
        r == flag_param(content@, param@, default),
{
    let v = chars_of(content);
    flag_of(&v, param, default)
}

fn flag_of(v: &Vec<char>, param: &str, default: bool) -> (r: bool)
    ensures
        r == flag_param(v@, param@, default),
{
    let name = chars_of(param);
    match param_range(v, &name) {
        Some(p) => reads_true(v, p.0, p.1),
        None => default,
    }
}

fn text_of(content: &str, v: &Vec<char>, param: &str, default: &str) -> (r: String)
    requires
        v@ == content@,
    ensures
        r@ == text_param(content@, param@, default@),
{
    let name = chars_of(param);
    match param_range(v, &name) {
        Some(p) => if p.1 > p.0 {
            content.substring_char(p.0, p.1).to_string()
        } else {
            String::from_str(default)
        },
        None => String::from_str(default),
    }
}

impl Config {
    /// The configuration that the text `content` describes; what it leaves
    /// out keeps its default.
    pub fn parse(content: &str) -> (r: Config)
        ensures
            r.parsed_from(content@),
    {
        let v = chars_of(content);
        let ascii_art = match art_range(&v) {
            Some(p) => content.substring_char(p.0, p.1).to_string(),
            None => String::from_str(DEFAULT_ASCII),
        };
        Config {
            ascii_art,
            color: text_of(content, &v, "ascii_color", DEFAULT_COLOR),
            info_color: text_of(content, &v, "info_color", DEFAULT_INFO_COLOR),
            title_color: text_of(content, &v, "title_color", DEFAULT_TITLE_COLOR),
            show_user: flag_of(&v, "show_user", true),
            show_os: flag_of(&v, "show_os", true),
            show_uptime: flag_of(&v, "show_uptime", true),
            show_shell: flag_of(&v, "show_shell", true),
            show_de: flag_of(&v, "show_de", true),
            show_screen: flag_of(&v, "show_screen", true),
            show_motherboard: flag_of(&v, "show_motherboard", true),
            show_cpu: flag_of(&v, "show_cpu", true),
            show_gpu: flag_of(&v, "show_gpu", true),
            show_ram: flag_of(&v, "show_ram", true),
            show_swap: flag_of(&v, "show_swap", true),
            show_locale: flag_of(&v, "show_locale", true),
            show_disk: flag_of(&v, "show_disk", true),
            show_ram_ext_info: flag_of(&v, "show_ram_ext_info", false),
            show_color_scheme: flag_of(&v, "show_color_scheme", true),
        }
    }
}

pub open spec fn is_digit(c: char) -> bool {
    '0' <= c && c <= '9'
}

/// The number that a string of decimal digits spells.
pub open spec fn decimal_value(s: Seq<char>) -> int
    decreases s.len(),
{
    if s.len() == 0 {
        0
    } else {
        decimal_value(s.drop_last()) * 10 + (s.last() as int - '0' as int)
    }
}

/// The text after an optional leading `+`.
pub open spec fn unsigned_digits(s: Seq<char>) -> Seq<char> {
    if s.len() > 0 && s[0] == '+' {
        s.drop_first()
    } else {
        s
    }
}

pub open spec fn all_digits(d: Seq<char>) -> bool {
    forall|i: int| 0 <= i < d.len() ==> is_digit(#[trigger] d[i])
}

/// `u8`'s `from_str`: an optional `+`, then at least one decimal digit, and a
/// value that fits in a byte.
pub open spec fn parse_u8(s: Seq<char>) -> Option<u8> {
    let d = unsigned_digits(s);
    if d.len() > 0 && all_digits(d) && decimal_value(d) <= 255 {
        Some(decimal_value(d) as u8)
    } else {
        None
    }
}

/// The standard and bright foreground and background color codes.
pub open spec fn is_standard_code(n: u8) -> bool {
    (30 <= n <= 37) || (40 <= n <= 47) || (90 <= n <= 97) || (100 <= n <= 107)
}

/// An SGR color parameter: a standard code, `38;5;<n>` or `38;2;<r>;<g>;<b>`.
pub open spec fn valid_ansi(s: Seq<char>) -> bool {
    s.len() > 0 && match parse_u8(s) {
        Some(n) => is_standard_code(n),
        None => {
            let p = split_on(s, ';');
            ||| (p.len() == 3 && p[0] == seq!['3', '8'] && p[1] == seq!['5'] && parse_u8(
                p[2],
            ) is Some)
            ||| (p.len() == 5 && p[0] == seq!['3', '8'] && p[1] == seq!['2'] && parse_u8(
                p[2],
            ) is Some && parse_u8(p[3]) is Some && parse_u8(p[4]) is Some)
        },
    }
}

/// `u8`'s `from_str` on the characters of `v`.
pub fn parse_u8_chars(v: &Vec<char>) -> (r: Option<u8>)
    ensures
        r == parse_u8(v@),
{
    let n = v.len();
    let first: usize = if n > 0 && v[0] == '+' {
        1
    } else {
        0
    };
    let ghost d = v@.subrange(first as int, n as int);
    assert(d =~= unsigned_digits(v@));
    if first == n {
        return None;
    }
    let mut i = first;
    let mut val: u32 = 0;
    while i < n
        invariant
            n == v@.len(),
            first <= i <= n,
            d == v@.subrange(first as int, n as int),
            d == unsigned_digits(v@),
            forall|k: int| first <= k < i ==> is_digit(v@[k]),
            val as int == if decimal_value(v@.subrange(first as int, i as int)) < 256 {
                decimal_value(v@.subrange(first as int, i as int))
            } else {
                256
            },
        decreases n - i,
    {
        let c = v[i];
        if !('0' <= c && c <= '9') {
            assert(!is_digit(d[i - first]));
            return None;
        }
        assert(v@.subrange(first as int, i + 1).drop_last() =~= v@.subrange(
            first as int,
            i as int,
        ));
        let digit = (c as u32) - ('0' as u32);
        val = if val * 10 + digit >= 256 {
            256
        } else {
            val * 10 + digit
        };
        i += 1;
    }
    assert(v@.subrange(first as int, n as int) =~= d);
    if val <= 255 {
        Some(val as u8)
    } else {
        None
    }
}

/// The pieces of `v` between the occurrences of `sep`.
pub fn split_chars(v: &Vec<char>, sep: char) -> (r: Vec<Vec<char>>)
    ensures
        r@.len() == split_on(v@, sep).len(),
        forall|k: int| 0 <= k < r@.len() ==> r@[k]@ == split_on(v@, sep)[k],
{
    let mut parts: Vec<Vec<char>> = vec![Vec::new()];
    let mut i: usize = 0;
    assert(v@.subrange(0, 0) =~= Seq::<char>::empty());
    while i < v.len()
        invariant
            i <= v@.len(),
            parts@.len() > 0,
            parts@.len() == split_on(v@.subrange(0, i as int), sep).len(),
            forall|k: int|
                0 <= k < parts@.len() ==> parts@[k]@ == split_on(v@.subrange(0, i as int), sep)[k],
        decreases v.len() - i,
    {
        assert(v@.subrange(0, i + 1).drop_last() =~= v@.subrange(0, i as int));
        let c = v[i];
        if c == sep {
            parts.push(Vec::new());
        } else {
            let mut last = parts.pop().unwrap();
            last.push(c);
            parts.push(last);
        }
        i += 1;
    }
    assert(v@.subrange(0, v@.len() as int) =~= v@);
    parts
}

fn is_text(v: &Vec<char>, t: &str) -> (r: bool)
    ensures
        r == (v@ == t@),
{
    let w = chars_of(t);
    if v.len() != w.len() {
        return false;
    }
    let mut k: usize = 0;
    while k < v.len()
        invariant
            v@.len() == w@.len(),
            w@ == t@,
            k <= v@.len(),
            forall|m: int| 0 <= m < k ==> v@[m] == w@[m],
        decreases v.len() - k,
    {
        if v[k] != w[k] {
            return false;
        }
        k += 1;
    }
    assert(v@ =~= w@);
    true
}

/// Whether `code` is a color parameter that the banner accepts: a standard
/// or bright foreground or background code, `38;5;<n>`, or
/// `38;2;<r>;<g>;<b>`, each number a byte.
pub fn is_valid_ansi_code(code: &str) -> (r: bool)
    ensures
        r == valid_ansi(code@),
{
    let v = chars_of(code);
    if v.len() == 0 {
        return false;
    }
    match parse_u8_chars(&v) {
        Some(n) => {
            return (30 <= n && n <= 37) || (40 <= n && n <= 47) || (90 <= n && n <= 97) || (100
                <= n && n <= 107);
        },
        None => {},
    }
    let parts = split_chars(&v, ';');
    proof {
        reveal_strlit("38");
        reveal_strlit("5");
        reveal_strlit("2");
        assert("38"@ =~= seq!['3', '8']);
        assert("5"@ =~= seq!['5']);
        assert("2"@ =~= seq!['2']);
    }
    if parts.len() == 3 {
        is_text(&parts[0], "38") && is_text(&parts[1], "5") && parse_u8_chars(&parts[2]).is_some()
    } else if parts.len() == 5 {
        is_text(&parts[0], "38") && is_text(&parts[1], "2") && parse_u8_chars(&parts[2]).is_some()
            && parse_u8_chars(&parts[3]).is_some() && parse_u8_chars(&parts[4]).is_some()
    } else {
        false
    }
}

/// A text with no `{|` followed later by `|}` loads the built-in art.
pub proof fn lemma_no_block_gives_default_art(s: Seq<char>)
    requires
        forall|i: int, j: int|
            occurs_at(s, open_mark(), i) && i + 2 <= j ==> !occurs_at(s, close_mark(), j),
    ensures
        art_or_default(s) == DEFAULT_ASCII@,
{
    lemma_find_found(s, open_mark(), 0);
    if let Some(i) = find_from(s, open_mark(), 0) {
        lemma_find_found(s, close_mark(), i + 2);
    }
}

/// A text `a {| x |} b`, where `a` holds no `{|` and `x` no `|}`, loads
/// exactly `x` as its art, whatever `b` holds.
pub proof fn lemma_block_gives_art(a: Seq<char>, x: Seq<char>, b: Seq<char>)
    requires
        forall|k: int| !occurs_at(a, open_mark(), k),
        forall|k: int| !occurs_at(x, close_mark(), k),
    ensures
        art_or_default(a + open_mark() + x + close_mark() + b) == x,
{
    let s = a + open_mark() + x + close_mark() + b;
    let i = a.len() as int;
    let j = i + 2 + x.len();
    assert(s[i] == '{' && s[i + 1] == '|');
    assert(s[j] == '|' && s[j + 1] == '}');
    lemma_occurs_pair(s, open_mark(), i);
    lemma_occurs_pair(s, close_mark(), j);
    assert forall|k: int| 0 <= k < i implies !occurs_at(s, open_mark(), k) by {
        lemma_occurs_pair(s, open_mark(), k);
        lemma_occurs_pair(a, open_mark(), k);
        if k + 1 < i {
            assert(s[k] == a[k] && s[k + 1] == a[k + 1]);
        }
    }
    assert forall|k: int| i + 2 <= k < j implies !occurs_at(s, close_mark(), k) by {
        lemma_occurs_pair(s, close_mark(), k);
        lemma_occurs_pair(x, close_mark(), k - i - 2);
        if k + 1 < j {
            assert(s[k] == x[k - i - 2] && s[k + 1] == x[k - i - 1]);
        }
    }
    lemma_find_first(s, open_mark(), 0, i);
    lemma_find_first(s, close_mark(), i + 2, j);
    assert(s.subrange(i + 2, j) =~= x);
}

/// A flag that no line is about keeps its default; one whose first line
/// reads `true` is set; one with any other value, the empty one included, is
/// cleared.
pub proof fn lemma_flag_values(s: Seq<char>, name: Seq<char>, default: bool)
    ensures
        param_value(s, name) is None ==> flag_param(s, name, default) == default,
        param_value(s, name) == Some(true_text()) ==> flag_param(s, name, default),
        (param_value(s, name) is Some && param_value(s, name) != Some(true_text()))
            ==> !flag_param(s, name, default),
{
}

/// A line gives `name` a value only where `name` stands in it.
proof fn lemma_line_value_needs_name(line: Seq<char>, name: Seq<char>)
    requires
        line_value(line, name) is Some,
    ensures
        exists|k: int| occurs_at(line, name, k),
{
    lemma_trim_is_piece(line);
    let a = line.len() - trim_start(line).len();
    let t = trim(line);
    assert(line.subrange(a, a + name.len()) =~= t.subrange(0, name.len() as int));
    assert(occurs_at(line, name, a));
}

proof fn lemma_scan_without_name(s: Seq<char>, name: Seq<char>, start: int, pos: int)
    requires
        0 <= start <= pos <= s.len(),
        forall|k: int| !occurs_at(s, name, k),
    ensures
        param_scan(s, name, start, pos) is None,
    decreases s.len() - pos,
{
    let end = if pos >= s.len() {
        s.len() as int
    } else {
        pos
    };
    let line = s.subrange(start, end);
    if line_value(line, name) is Some {
        lemma_line_value_needs_name(line, name);
        let k = choose|k: int| occurs_at(line, name, k);
        assert(line.subrange(k, k + name.len()) =~= s.subrange(start + k, start + k + name.len()));
        assert(occurs_at(s, name, start + k));
    }
    if pos < s.len() {
        if s[pos] == '\n' {
            lemma_scan_without_name(s, name, pos + 1, pos + 1);
        } else {
            lemma_scan_without_name(s, name, start, pos + 1);
        }
    }
}

/// A flag whose name appears nowhere in the text keeps its default.
pub proof fn lemma_absent_flag_keeps_default(s: Seq<char>, name: Seq<char>, default: bool)
    requires
        forall|k: int| !occurs_at(s, name, k),
    ensures
        param_value(s, name) is None,
        flag_param(s, name, default) == default,
{
    lemma_scan_without_name(s, name, 0, 0);
}

proof fn lemma_scan_to_line_end(s: Seq<char>, name: Seq<char>, n: int, pos: int)
    requires
        0 <= pos <= n < s.len(),
        s[n] == '\n',
        forall|i: int| 0 <= i < n ==> s[i] != '\n',
    ensures
        param_scan(s, name, 0, pos) == param_scan(s, name, 0, n),
    decreases n - pos,
{
    if pos < n {
        lemma_scan_to_line_end(s, name, n, pos + 1);
    }
}

/// The first line decides: where the line `l` is about `name`, the text
/// `l`, a newline, then anything, gives `name` the value of `l`, whatever
/// later lines say (an empty value included).
pub proof fn lemma_first_line_decides(l: Seq<char>, rest: Seq<char>, name: Seq<char>)
    requires
        forall|i: int| 0 <= i < l.len() ==> l[i] != '\n',
        line_value(l, name) is Some,
    ensures
        param_value(l + seq!['\n'] + rest, name) == line_value(l, name),
{
    let s = l + seq!['\n'] + rest;
    let n = l.len() as int;
    assert(s[n] == '\n');
    assert forall|i: int| 0 <= i < n implies s[i] != '\n' by {
        assert(s[i] == l[i]);
    }
    lemma_scan_to_line_end(s, name, n, 0);
    assert(s.subrange(0, n) =~= l);
}

} // verus!
