//! The banner's layout: the ASCII art at the left, the enabled facts in a
//! column beside it, each write placed at an absolute cursor position.

use vstd::prelude::*;
use vstd::utf8::{valid_utf8, decode_utf8};
use crate::config::{Config, valid_ansi, is_valid_ansi_code, DEFAULT_COLOR, DEFAULT_INFO_COLOR, DEFAULT_TITLE_COLOR};
use vstd::utf8::encode_utf8;
use crate::system::{DiskInfo, decimal, decimal_text, BYTES_PER_GB};
use crate::text::{chars_of, line_ranges, lines_of, trim_end, trim_end_bound};

verus! {

/// A snapshot of the host facts that the banner shows; memory in bytes.
pub struct SystemInfo {
    pub username: String,
    pub hostname: String,
    pub os_name: String,
    pub kernel: String,
    pub uptime: String,
    pub shell: String,
    pub de: String,
    pub screen: Option<String>,
    pub motherboard: Option<String>,
    pub cpu: String,
    pub gpu: Vec<String>,
    pub ram_used_bytes: u64,
    pub ram_total_bytes: u64,
    pub swap_total_bytes: u64,
    pub locale: String,
    pub disks: Vec<DiskInfo>,
}

/// Text written at a cursor position.
pub struct Placed {
    pub col: usize,
    pub row: usize,
    pub text: String,
}

impl Placed {
    pub open spec fn view(&self) -> (int, int, Seq<char>) {
        (self.col as int, self.row as int, self.text@)
    }
}

/// Everything the banner writes, in order, and the row the cursor ends on.
pub struct Frame {
    pub writes: Vec<Placed>,
    pub end_row: usize,
}

pub struct Display {
    pub config: Config,
    pub info: SystemInfo,
}

/// The name of what `strip_ansi_escapes::strip` makes of a byte string.
pub uninterp spec fn ansi_stripped(b: Seq<u8>) -> Seq<u8>;

/// Relies on `strip_ansi_escapes::strip`: the bytes with terminal escape
/// sequences removed; the result depends on the bytes alone.
#[verifier::external_body]
fn strip_escapes(b: &Vec<u8>) -> (r: Vec<u8>)
    ensures
        r@ == ansi_stripped(b@),
{
    strip_ansi_escapes::strip(b)
}

/// Relies on `String::from_utf8`: the text that well-formed UTF-8 encodes,
/// and nothing for other bytes.
#[verifier::external_body]
fn utf8_text(b: Vec<u8>) -> (r: Option<String>)
    ensures
        r is Some <==> valid_utf8(b@),
        r is Some ==> r->0@ == decode_utf8(b@),
{
    String::from_utf8(b).ok()
}

/// The width a line of art takes: its characters once escapes are removed,
/// or all of its characters where what is left is not UTF-8.
pub open spec fn shown_width(line: Seq<char>) -> nat {
    let s = ansi_stripped(encode_utf8(line));
    if valid_utf8(s) {
        decode_utf8(s).len()
    } else {
        line.len()
    }
}

pub open spec fn esc(code: Seq<char>) -> Seq<char> {
    "\x1b["@ + code + "m"@
}

pub open spec fn reset() -> Seq<char> {
    "\x1b[0m"@
}

/// A titled row: the title in the title color, then the value in the info color.
pub open spec fn field_row(tc: Seq<char>, title: Seq<char>, ic: Seq<char>, value: Seq<char>) -> Seq<char> {
    esc(tc) + title + reset() + " "@ + esc(ic) + value + reset()
}

pub open spec fn spaces(n: nat) -> Seq<char> {
    Seq::new(n, |i: int| ' ')
}

pub open spec fn pad_right(s: Seq<char>, w: nat) -> Seq<char> {
    if s.len() < w {
        s + spaces((w - s.len()) as nat)
    } else {
        s
    }
}

pub open spec fn pad_left(s: Seq<char>, w: nat) -> Seq<char> {
    if s.len() < w {
        spaces((w - s.len()) as nat) + s
    } else {
        s
    }
}

/// `num / den` rounded to the nearest integer, ties to even.
pub open spec fn round_half_even(num: nat, den: nat) -> nat {
    let q = num / den;
    let rem = num % den;
    if rem * 2 > den || (rem * 2 == den && q % 2 == 1) {
        q + 1
    } else {
        q
    }
}

/// A count of hundredths written with two decimal places.
pub open spec fn two_places(h: nat) -> Seq<char> {
    decimal(h / 100) + "."@ + decimal((h % 100) / 10) + decimal(h % 10)
}

/// Bytes as gigabytes with two decimal places.
pub open spec fn gb_text(bytes: u64) -> Seq<char> {
    two_places(round_half_even(bytes as nat * 100, BYTES_PER_GB as nat))
}

/// The whole percentage of `used` in `total`, `0` for no total.
pub open spec fn percent_of(used: u64, total: u64) -> nat {
    if total == 0 {
        0
    } else {
        round_half_even(used as nat * 100, total as nat)
    }
}

pub open spec fn ram_value(used: u64, total: u64) -> Seq<char> {
    gb_text(used) + " / "@ + gb_text(total) + "gb ("@ + decimal(percent_of(used, total)) + "%)"@
}

/// The length in bytes of the UTF-8 encoding, as `str::len` gives it.
pub open spec fn byte_len(s: Seq<char>) -> nat {
    (encode_utf8(s).len() as usize) as nat
}

pub open spec fn names_width(disks: Seq<DiskInfo>) -> nat
    decreases disks.len(),
{
    if disks.len() == 0 {
        0
    } else {
        let rest = names_width(disks.drop_last());
        let n = byte_len(disks.last().name@);
        if n > rest {
            n
        } else {
            rest
        }
    }
}

pub open spec fn disk_row(d: DiskInfo, w: nat, tc: Seq<char>, ic: Seq<char>) -> Seq<char> {
    esc(tc) + "Disk:"@ + reset() + " \x1b[97m"@ + pad_right(d.name@, w) + reset() + " "@ + esc(ic)
        + pad_left(decimal(d.used_gb as nat), 3) + "gb"@ + reset() + " \x1b[97m/\x1b[0m "@ + esc(
        ic,
    ) + pad_left(decimal(d.total_gb as nat), 3) + "gb ("@ + decimal(d.percent as nat) + "%)"@
        + reset()
}

pub open spec fn texts(v: Seq<String>) -> Seq<Seq<char>> {
    v.map_values(|s: String| s@)
}

pub open spec fn opt_row(show: bool, row: Seq<char>) -> Seq<Seq<char>> {
    if show {
        seq![row]
    } else {
        Seq::empty()
    }
}

pub open spec fn separator() -> Seq<char> {
    "\x1b[97m-------\x1b[0m"@
}

pub open spec fn scheme_top() -> Seq<char> {
    "   \x1b[91m███\x1b[0m\x1b[92m███\x1b[0m\x1b[93m███\x1b[0m\x1b[94m███\x1b[0m\x1b[95m███\x1b[0m\x1b[96m███\x1b[0m\x1b[97m███\x1b[0m"@
}

pub open spec fn scheme_bottom() -> Seq<char> {
    "\x1b[30m███\x1b[0m\x1b[31m███\x1b[0m\x1b[32m███\x1b[0m\x1b[33m███\x1b[0m\x1b[34m███\x1b[0m\x1b[35m███\x1b[0m\x1b[36m███\x1b[0m\x1b[37m███\x1b[0m"@
}

pub open spec fn gpu_rows(gpus: Seq<String>, tc: Seq<char>, ic: Seq<char>) -> Seq<Seq<char>> {
    Seq::new(
        gpus.len(),
        |k: int| field_row(tc, if k == 0 { "Gpu:"@ } else { "    "@ }, ic, gpus[k]@),
    )
}

pub open spec fn disk_rows(disks: Seq<DiskInfo>, tc: Seq<char>, ic: Seq<char>) -> Seq<Seq<char>> {
    Seq::new(disks.len(), |k: int| disk_row(disks[k], names_width(disks), tc, ic))
}

/// The color `c` where it is a valid parameter, else `default`.
pub open spec fn resolved(c: Seq<char>, default: Seq<char>) -> Seq<char> {
    if valid_ansi(c) {
        c
    } else {
        default
    }
}

/// The art lines that are shown: each line's text without trailing
/// whitespace, in the art color, blank lines left out.
pub open spec fn art_rows(lines: Seq<Seq<char>>, color: Seq<char>) -> Seq<Seq<char>>
    decreases lines.len(),
{
    if lines.len() == 0 {
        Seq::empty()
    } else {
        let rest = art_rows(lines.drop_last(), color);
        let t = trim_end(lines.last());
        if t.len() > 0 {
            rest.push(esc(color) + t + reset())
        } else {
            rest
        }
    }
}

/// The identity header and the system rows.
pub open spec fn head_rows(c: Config, i: SystemInfo, tc: Seq<char>, ic: Seq<char>) -> Seq<Seq<char>> {
    opt_row(c.show_user, esc(ic) + i.username@ + "@"@ + i.hostname@ + reset())
    + opt_row(c.show_user, separator())
    + opt_row(c.show_os, field_row(tc, "OS:"@, ic, i.os_name@))
    + opt_row(c.show_uptime, field_row(tc, "Uptime:"@, ic, i.uptime@))
    + opt_row(c.show_shell, field_row(tc, "Shell:"@, ic, i.shell@))
    + opt_row(c.show_de, field_row(tc, "DE:"@, ic, i.de@))
}

/// The hardware rows: screen (where known), board, processor, adapters.
pub open spec fn hardware_rows(c: Config, i: SystemInfo, tc: Seq<char>, ic: Seq<char>) -> Seq<Seq<char>> {
    opt_row(c.show_screen && i.screen is Some, field_row(tc, "Screen:"@, ic, i.screen->0@))
    + opt_row(c.show_motherboard, field_row(tc, "Motherboard:"@, ic, match i.motherboard {
        Some(m) => m@,
        None => "Unknown"@,
    }))
    + opt_row(c.show_cpu, field_row(tc, "Cpu:"@, ic, i.cpu@))
    + (if c.show_gpu { gpu_rows(i.gpu@, tc, ic) } else { Seq::empty() })
}

/// The memory, locale and disk rows.
pub open spec fn storage_rows(c: Config, i: SystemInfo, tc: Seq<char>, ic: Seq<char>) -> Seq<Seq<char>> {
    opt_row(c.show_ram, field_row(tc, "Ram:"@, ic, ram_value(i.ram_used_bytes, i.ram_total_bytes)))
    + opt_row(c.show_swap, field_row(tc, "Swap:"@, ic, gb_text(i.swap_total_bytes) + "gb"@))
    + opt_row(c.show_locale, field_row(tc, "Locale:"@, ic, i.locale@))
    + (if c.show_disk { disk_rows(i.disks@, tc, ic) } else { Seq::empty() })
}

/// The rows of the fact column, in their fixed order, before the color scheme.
#[verifier::opaque]
pub open spec fn info_rows(c: Config, i: SystemInfo, tc: Seq<char>, ic: Seq<char>) -> Seq<Seq<char>> {
    head_rows(c, i, tc, ic) + hardware_rows(c, i, tc, ic) + storage_rows(c, i, tc, ic)
}

pub open spec fn placed(rows: Seq<Seq<char>>, col: int) -> Seq<(int, int, Seq<char>)> {
    Seq::new(rows.len(), |k: int| (col, k, rows[k]))
}

/// The writes of the banner: the art rows at column 0, the fact rows at
/// column `width`, and the color scheme one row below them; then the row
/// below both columns where the cursor ends.
pub open spec fn frame_spec(
    art: Seq<Seq<char>>,
    info: Seq<Seq<char>>,
    width: int,
    scheme: bool,
) -> (Seq<(int, int, Seq<char>)>, int) {
    let n = info.len() as int;
    let tail = if scheme {
        seq![(width, n + 1, scheme_top()), (width, n + 2, scheme_bottom())]
    } else {
        Seq::empty()
    };
    let info_end = if scheme { n + 3 } else { n };
    let end = if art.len() > info_end { art.len() as int } else { info_end };
    let end_row = if end + 1 > usize::MAX { usize::MAX as int } else { end + 1 };
    (placed(art, 0) + placed(info, width) + tail, end_row)
}

/// The widest art line, by `shown_width`.
pub open spec fn max_width(lines: Seq<Seq<char>>) -> nat
    decreases lines.len(),
{
    if lines.len() == 0 {
        0
    } else {
        let rest = max_width(lines.drop_last());
        let w = shown_width(lines.last());
        if w > rest {
            w
        } else {
            rest
        }
    }
}

/// The column where the facts start: three past the widest art line.
pub open spec fn art_width(lines: Seq<Seq<char>>) -> int {
    let m = max_width(lines) + 3int;
    if m > usize::MAX {
        usize::MAX as int
    } else {
        m
    }
}

pub open spec fn frame_view(f: Frame) -> (Seq<(int, int, Seq<char>)>, int) {
    (f.writes@.map_values(|p: Placed| p@), f.end_row as int)
}

fn push_text(rows: &mut Vec<String>, s: String)
    ensures
        texts(final(rows)@) == texts(old(rows)@).push(s@),
{
    let ghost o = rows@;
    rows.push(s);
    assert(texts(rows@) =~= texts(o).push(s@));
}

fn add_row(rows: &mut Vec<String>, show: bool, row: String)
    ensures
        texts(final(rows)@) == texts(old(rows)@) + opt_row(show, row@),
{
    let ghost o = texts(rows@);
    if show {
        push_text(rows, row);
        assert(o.push(row@) =~= o + seq![row@]);
    } else {
        assert(o =~= o + Seq::<Seq<char>>::empty());
    }
}

fn colored(code: &str, text: &str) -> (r: String)
    ensures
        r@ == esc(code@) + text@ + reset(),
{
    let r = String::from_str("\x1b[").concat(code).concat("m").concat(text).concat("\x1b[0m");
    assert(r@ =~= esc(code@) + text@ + reset());
    r
}

fn field_text(tc: &str, title: &str, ic: &str, value: &str) -> (r: String)
    ensures
        r@ == field_row(tc@, title@, ic@, value@),
{
    let r = String::from_str("\x1b[").concat(tc).concat("m").concat(title).concat(
        "\x1b[0m",
    ).concat(" ").concat("\x1b[").concat(ic).concat("m").concat(value).concat("\x1b[0m");
    assert(r@ =~= field_row(tc@, title@, ic@, value@));
    r
}

fn padded_right(s: &str, w: usize) -> (r: String)
    ensures
        r@ == pad_right(s@, w as nat),
{
    let n = s.unicode_len();
    let mut r = s.to_string();
    if n >= w {
        return r;
    }
    let mut i: usize = 0;
    assert(r@ =~= s@ + spaces(0));
    while i < w - n
        invariant
            n == s@.len(),
            n < w,
            i <= w - n,
            r@ == s@ + spaces(i as nat),
        decreases w - n - i,
    {
        r = r.concat(" ");
        proof {
            reveal_strlit(" ");
        }
        assert(spaces(i as nat) + " "@ =~= spaces((i + 1) as nat));
        assert(r@ =~= s@ + spaces((i + 1) as nat));
        i += 1;
    }
    r
}

fn padded_left(s: &str, w: usize) -> (r: String)
    ensures
        r@ == pad_left(s@, w as nat),
{
    let n = s.unicode_len();
    if n >= w {
        return s.to_string();
    }
    let mut r = String::new();
    let mut i: usize = 0;
    assert(r@ =~= spaces(0));
    while i < w - n
        invariant
            n == s@.len(),
            n < w,
            i <= w - n,
            r@ == spaces(i as nat),
        decreases w - n - i,
    {
        r = r.concat(" ");
        proof {
            reveal_strlit(" ");
        }
        assert(spaces(i as nat) + " "@ =~= spaces((i + 1) as nat));
        i += 1;
    }
    r.concat(s)
}

fn round_half_even_exec(num: u128, den: u128) -> (r: u128)
    requires
        0 < den <= u64::MAX,
        num <= u64::MAX as u128 * 100,
    ensures
        r == round_half_even(num as nat, den as nat),
        r <= num + 1,
{
    let q = num / den;
    let rem = num % den;
    if rem * 2 > den || (rem * 2 == den && q % 2 == 1) {
        q + 1
    } else {
        q
    }
}

fn two_places_text(h: u128) -> (r: String)
    ensures
        r@ == two_places(h as nat),
{
    let r = decimal_text(h / 100).concat(".").concat(decimal_text((h % 100) / 10).as_str()).concat(
        decimal_text(h % 10).as_str(),
    );
    assert(r@ =~= two_places(h as nat));
    r
}

fn gb_string(bytes: u64) -> (r: String)
    ensures
        r@ == gb_text(bytes),
{
    let h = round_half_even_exec(bytes as u128 * 100, BYTES_PER_GB as u128);
    two_places_text(h)
}

fn ram_string(used: u64, total: u64) -> (r: String)
    ensures
        r@ == ram_value(used, total),
{
    let pct: u128 = if total == 0 {
        0
    } else {
        round_half_even_exec(used as u128 * 100, total as u128)
    };
    let r = gb_string(used).concat(" / ").concat(gb_string(total).as_str()).concat("gb (").concat(
        decimal_text(pct).as_str(),
    ).concat("%)");
    assert(r@ =~= ram_value(used, total));
    r
}

fn disk_text(d: &DiskInfo, w: usize, tc: &str, ic: &str) -> (r: String)
    ensures
        r@ == disk_row(*d, w as nat, tc@, ic@),
{
    let r = String::from_str("\x1b[").concat(tc).concat("m").concat("Disk:").concat(
        "\x1b[0m",
    ).concat(" \x1b[97m").concat(padded_right(d.name.as_str(), w).as_str()).concat(
        "\x1b[0m",
    ).concat(" ").concat("\x1b[").concat(ic).concat("m").concat(
        padded_left(decimal_text(d.used_gb as u128).as_str(), 3).as_str(),
    ).concat("gb").concat("\x1b[0m").concat(" \x1b[97m/\x1b[0m ").concat("\x1b[").concat(
        ic,
    ).concat("m").concat(padded_left(decimal_text(d.total_gb as u128).as_str(), 3).as_str()).concat(
        "gb (",
    ).concat(decimal_text(d.percent as u128).as_str()).concat("%)").concat("\x1b[0m");
    assert(r@ =~= disk_row(*d, w as nat, tc@, ic@));
    r
}

fn names_width_exec(disks: &Vec<DiskInfo>) -> (r: usize)
    ensures
        r == names_width(disks@),
{
    let mut w: usize = 0;
    let mut i: usize = 0;
    while i < disks.len()
        invariant
            i <= disks@.len(),
            w == names_width(disks@.take(i as int)),
        decreases disks.len() - i,
    {
        assert(disks@.take(i + 1).drop_last() =~= disks@.take(i as int));
        let n = disks[i].name.as_str().len();
        assert(disks@.take(i + 1).last() == disks@[i as int]);
        if n > w {
            w = n;
        }
        i += 1;
    }
    assert(disks@.take(disks@.len() as int) =~= disks@);
    w
}

fn add_gpu_rows(rows: &mut Vec<String>, gpus: &Vec<String>, tc: &str, ic: &str)
    ensures
        texts(final(rows)@) == texts(old(rows)@) + gpu_rows(gpus@, tc@, ic@),
{
    let ghost o = texts(rows@);
    let ghost all = gpu_rows(gpus@, tc@, ic@);
    let mut k: usize = 0;
    assert(o =~= o + all.take(0));
    while k < gpus.len()
        invariant
            k <= gpus@.len(),
            all == gpu_rows(gpus@, tc@, ic@),
            texts(rows@) == o + all.take(k as int),
        decreases gpus.len() - k,
    {
        let label = if k == 0 {
            "Gpu:"
        } else {
            "    "
        };
        push_text(rows, field_text(tc, label, ic, gpus[k].as_str()));
        assert(all.take(k + 1) =~= all.take(k as int).push(all[k as int]));
        assert((o + all.take(k as int)).push(all[k as int]) =~= o + all.take(k + 1));
        k += 1;
    }
    assert(all.take(gpus@.len() as int) =~= all);
}

fn add_disk_rows(rows: &mut Vec<String>, disks: &Vec<DiskInfo>, tc: &str, ic: &str)
    ensures
        texts(final(rows)@) == texts(old(rows)@) + disk_rows(disks@, tc@, ic@),
{
    let ghost o = texts(rows@);
    let ghost all = disk_rows(disks@, tc@, ic@);
    let w = names_width_exec(disks);
    let mut k: usize = 0;
    assert(o =~= o + all.take(0));
    while k < disks.len()
        invariant
            k <= disks@.len(),
            w == names_width(disks@),
            all == disk_rows(disks@, tc@, ic@),
            texts(rows@) == o + all.take(k as int),
        decreases disks.len() - k,
    {
        push_text(rows, disk_text(&disks[k], w, tc, ic));
        assert(all.take(k + 1) =~= all.take(k as int).push(all[k as int]));
        assert((o + all.take(k as int)).push(all[k as int]) =~= o + all.take(k + 1));
        k += 1;
    }
    assert(all.take(disks@.len() as int) =~= all);
}

/// The color `c` where it is a valid parameter, else `default`.
fn resolve_color<'a>(c: &'a str, default: &'a str) -> (r: &'a str)
    ensures
        r@ == resolved(c@, default@),
{
    if is_valid_ansi_code(c) {
        c
    } else {
        default
    }
}

fn place(writes: &mut Vec<Placed>, col: usize, row: usize, text: String)
    ensures
        final(writes)@.map_values(|p: Placed| p@) == old(writes)@.map_values(|p: Placed| p@).push(
            (col as int, row as int, text@),
        ),
{
    let ghost o = writes@;
    let p = Placed { col, row, text };
    writes.push(p);
    assert(writes@.map_values(|p: Placed| p@) =~= o.map_values(|p: Placed| p@).push(
        (col as int, row as int, p.text@),
    ));
}

fn place_rows(writes: &mut Vec<Placed>, rows: &Vec<String>, col: usize)
    ensures
        final(writes)@.map_values(|p: Placed| p@) == old(writes)@.map_values(|p: Placed| p@)
            + placed(texts(rows@), col as int),
{
    let ghost o = writes@.map_values(|p: Placed| p@);
    let ghost all = placed(texts(rows@), col as int);
    let mut k: usize = 0;
    assert(o =~= o + all.take(0));
    while k < rows.len()
        invariant
            k <= rows@.len(),
            all == placed(texts(rows@), col as int),
            writes@.map_values(|p: Placed| p@) == o + all.take(k as int),
        decreases rows.len() - k,
    {
        place(writes, col, k, rows[k].clone());
        assert(all.take(k + 1) =~= all.take(k as int).push(all[k as int]));
        assert((o + all.take(k as int)).push(all[k as int]) =~= o + all.take(k + 1));
        k += 1;
    }
    assert(all.take(rows@.len() as int) =~= all);
}

impl Display {
    pub fn new(config: Config, info: SystemInfo) -> (r: Display)
        ensures
            r.config == config,
            r.info == info,
    {
        Display { config, info }
    }

    /// The shown art rows in `color`, and the column where the facts start.
    fn art_layout(art: &str, color: &str) -> (r: (Vec<String>, usize))
        ensures
            texts(r.0@) == art_rows(lines_of(art@), color@),
            r.1 == art_width(lines_of(art@)),
    {
        let v = chars_of(art);
        let lines = line_ranges(&v);
        let ghost ls = lines_of(v@);
        let mut rows: Vec<String> = Vec::new();
        let mut widest: usize = 0;
        let mut k: usize = 0;
        assert(ls.take(0) =~= Seq::<Seq<char>>::empty());
        assert(texts(rows@) =~= Seq::<Seq<char>>::empty());
        while k < lines.len()
            invariant
                v@ == art@,
                ls == lines_of(v@),
                lines@.len() == ls.len(),
                forall|m: int|
                    0 <= m < lines@.len() ==> (#[trigger] lines@[m]).0 <= lines@[m].1 <= v@.len()
                        && v@.subrange(lines@[m].0 as int, lines@[m].1 as int) == ls[m],
                k <= lines@.len(),
                texts(rows@) == art_rows(ls.take(k as int), color@),
                widest == max_width(ls.take(k as int)),
            decreases lines.len() - k,
        {
            assert(ls.take(k + 1).drop_last() =~= ls.take(k as int));
            assert(ls.take(k + 1).last() == ls[k as int]);
            let (a, b) = lines[k];
            let line = art.substring_char(a, b);
            let bytes = line.as_bytes_vec();
            let stripped = strip_escapes(&bytes);
            let w = match utf8_text(stripped) {
                Some(t) => t.as_str().unicode_len(),
                None => b - a,
            };
            if w > widest {
                widest = w;
            }
            let e = trim_end_bound(&v, a, b);
            if e > a {
                push_text(&mut rows, colored(color, art.substring_char(a, e)));
            }
            k += 1;
        }
        assert(ls.take(ls.len() as int) =~= ls);
        let width = if widest > usize::MAX - 3 {
            usize::MAX
        } else {
            widest + 3
        };
        (rows, width)
    }

    fn add_head_rows(&self, rows: &mut Vec<String>, tc: &str, ic: &str)
        ensures
            texts(final(rows)@) == texts(old(rows)@) + head_rows(self.config, self.info, tc@, ic@),
            final(rows)@.len() <= old(rows)@.len() + 6,
    {
        let ghost o = texts(rows@);
        let c = &self.config;
        let i = &self.info;
        let user = colored(
            ic,
            String::from_str(i.username.as_str()).concat("@").concat(i.hostname.as_str()).as_str(),
        );
        assert(user@ =~= esc(ic@) + i.username@ + "@"@ + i.hostname@ + reset());
        add_row(rows, c.show_user, user);
        add_row(rows, c.show_user, String::from_str("\x1b[97m-------\x1b[0m"));
        add_row(rows, c.show_os, field_text(tc, "OS:", ic, i.os_name.as_str()));
        add_row(rows, c.show_uptime, field_text(tc, "Uptime:", ic, i.uptime.as_str()));
        add_row(rows, c.show_shell, field_text(tc, "Shell:", ic, i.shell.as_str()));
        add_row(rows, c.show_de, field_text(tc, "DE:", ic, i.de.as_str()));
        assert(texts(rows@) =~= o + head_rows(self.config, self.info, tc@, ic@));
    }

    fn add_hardware_rows(&self, rows: &mut Vec<String>, tc: &str, ic: &str)
        ensures
            texts(final(rows)@) == texts(old(rows)@) + hardware_rows(
                self.config,
                self.info,
                tc@,
                ic@,
            ),
            final(rows)@.len() <= old(rows)@.len() + 3 + self.info.gpu@.len(),
    {
        let ghost o = texts(rows@);
        let c = &self.config;
        let i = &self.info;
        let screen = match &i.screen {
            Some(s) => field_text(tc, "Screen:", ic, s.as_str()),
            None => String::new(),
        };
        add_row(rows, c.show_screen && i.screen.is_some(), screen);
        let board = match &i.motherboard {
            Some(m) => m.as_str(),
            None => "Unknown",
        };
        add_row(rows, c.show_motherboard, field_text(tc, "Motherboard:", ic, board));
        add_row(rows, c.show_cpu, field_text(tc, "Cpu:", ic, i.cpu.as_str()));
        let ghost mid = texts(rows@);
        if c.show_gpu {
            add_gpu_rows(rows, &i.gpu, tc, ic);
        }
        assert(texts(rows@) =~= mid + (if c.show_gpu {
            gpu_rows(i.gpu@, tc@, ic@)
        } else {
            Seq::empty()
        }));
        assert(texts(rows@) =~= o + hardware_rows(self.config, self.info, tc@, ic@));
    }

    fn add_storage_rows(&self, rows: &mut Vec<String>, tc: &str, ic: &str)
        ensures
            texts(final(rows)@) == texts(old(rows)@) + storage_rows(
                self.config,
                self.info,
                tc@,
                ic@,
            ),
            final(rows)@.len() <= old(rows)@.len() + 3 + self.info.disks@.len(),
    {
        let ghost o = texts(rows@);
        let c = &self.config;
        let i = &self.info;
        let ram = ram_string(i.ram_used_bytes, i.ram_total_bytes);
        add_row(rows, c.show_ram, field_text(tc, "Ram:", ic, ram.as_str()));
        let swap = gb_string(i.swap_total_bytes).concat("gb");
        add_row(rows, c.show_swap, field_text(tc, "Swap:", ic, swap.as_str()));
        add_row(rows, c.show_locale, field_text(tc, "Locale:", ic, i.locale.as_str()));
        let ghost mid = texts(rows@);
        if c.show_disk {
            add_disk_rows(rows, &i.disks, tc, ic);
        }
        assert(texts(rows@) =~= mid + (if c.show_disk {
            disk_rows(i.disks@, tc@, ic@)
        } else {
            Seq::empty()
        }));
        assert(texts(rows@) =~= o + storage_rows(self.config, self.info, tc@, ic@));
    }

    /// The rows of the fact column, before the color scheme.
    fn info_layout(&self, tc: &str, ic: &str) -> (r: Vec<String>)
        ensures
            texts(r@) == info_rows(self.config, self.info, tc@, ic@),
            r@.len() <= 13 + self.info.gpu@.len() + self.info.disks@.len(),
    {
        let mut rows: Vec<String> = Vec::new();
        let ghost o = texts(rows@);
        self.add_head_rows(&mut rows, tc, ic);
        self.add_hardware_rows(&mut rows, tc, ic);
        self.add_storage_rows(&mut rows, tc, ic);
        reveal(info_rows);
        assert(texts(rows@) =~= info_rows(self.config, self.info, tc@, ic@));
        rows
    }

    /// Everything the banner writes: the art in its color at the left, the
    /// enabled facts beside it, then the color scheme; invalid colors give
    /// way to the defaults.
    pub fn render(&self) -> (r: Frame)
        requires
            self.info.gpu@.len() + self.info.disks@.len() <= usize::MAX - 32,
        ensures
            frame_view(r) == frame_spec(
                art_rows(
                    lines_of(self.config.ascii_art@),
                    resolved(self.config.color@, DEFAULT_COLOR@),
                ),
                info_rows(
                    self.config,
                    self.info,
                    resolved(self.config.title_color@, DEFAULT_TITLE_COLOR@),
                    resolved(self.config.info_color@, DEFAULT_INFO_COLOR@),
                ),
                art_width(lines_of(self.config.ascii_art@)),
                self.config.show_color_scheme,
            ),
    {
        let color = resolve_color(self.config.color.as_str(), DEFAULT_COLOR);
        let info_color = resolve_color(self.config.info_color.as_str(), DEFAULT_INFO_COLOR);
        let title_color = resolve_color(self.config.title_color.as_str(), DEFAULT_TITLE_COLOR);
        let (art, width) = Self::art_layout(self.config.ascii_art.as_str(), color);
        let rows = self.info_layout(title_color, info_color);
        let ghost info = texts(rows@);
        let mut writes: Vec<Placed> = Vec::new();
        assert(writes@.map_values(|p: Placed| p@) =~= Seq::<(int, int, Seq<char>)>::empty());
        place_rows(&mut writes, &art, 0);
        place_rows(&mut writes, &rows, width);
        let n = rows.len();
        let mut info_end = n;
        let ghost before = writes@.map_values(|p: Placed| p@);
        if self.config.show_color_scheme {
            place(&mut writes, width, n + 1, String::from_str(
                "   \x1b[91m███\x1b[0m\x1b[92m███\x1b[0m\x1b[93m███\x1b[0m\x1b[94m███\x1b[0m\x1b[95m███\x1b[0m\x1b[96m███\x1b[0m\x1b[97m███\x1b[0m",
            ));
            place(&mut writes, width, n + 2, String::from_str(
                "\x1b[30m███\x1b[0m\x1b[31m███\x1b[0m\x1b[32m███\x1b[0m\x1b[33m███\x1b[0m\x1b[34m███\x1b[0m\x1b[35m███\x1b[0m\x1b[36m███\x1b[0m\x1b[37m███\x1b[0m",
            ));
            info_end = n + 3;
        }
        let end = if art.len() > info_end {
            art.len()
        } else {
            info_end
        };
        let end_row = if end == usize::MAX {
            usize::MAX
        } else {
            end + 1
        };
        let r = Frame { writes, end_row };
        assert(frame_view(r).0 =~= frame_spec(
            texts(art@),
            info,
            width as int,
            self.config.show_color_scheme,
        ).0);
        r
    }
}

/// With every field and the color scheme turned off, the banner writes the
/// art rows alone, one per row from the top, and nothing else.
pub proof fn lemma_all_hidden_shows_art(
    c: Config,
    i: SystemInfo,
    art: Seq<Seq<char>>,
    tc: Seq<char>,
    ic: Seq<char>,
    width: int,
)
    requires
        !c.show_user && !c.show_os && !c.show_uptime && !c.show_shell && !c.show_de,
        !c.show_screen && !c.show_motherboard && !c.show_cpu && !c.show_gpu,
        !c.show_ram && !c.show_swap && !c.show_locale && !c.show_disk,
        !c.show_color_scheme,
    ensures
        info_rows(c, i, tc, ic).len() == 0,
        frame_spec(art, info_rows(c, i, tc, ic), width, c.show_color_scheme).0 == placed(art, 0),
        frame_spec(art, info_rows(c, i, tc, ic), width, c.show_color_scheme).1 == art.len() + 1
            || art.len() + 1 > usize::MAX,
{
    reveal(info_rows);
    assert(info_rows(c, i, tc, ic) =~= Seq::<Seq<char>>::empty());
    assert(placed(art, 0) + placed(Seq::<Seq<char>>::empty(), width) + Seq::empty() =~= placed(
        art,
        0,
    ));
}

/// With the identity header off and the disks on, the fact column holds no
/// header rows, and a single disk gives exactly one disk row, last, with the
/// name padded to its own width.
pub proof fn lemma_no_header_one_disk(c: Config, i: SystemInfo, tc: Seq<char>, ic: Seq<char>)
    requires
        !c.show_user,
        c.show_disk,
        i.disks@.len() == 1,
    ensures
        info_rows(c, i, tc, ic) == opt_row(c.show_os, field_row(tc, "OS:"@, ic, i.os_name@))
            + opt_row(c.show_uptime, field_row(tc, "Uptime:"@, ic, i.uptime@)) + opt_row(
            c.show_shell,
            field_row(tc, "Shell:"@, ic, i.shell@),
        ) + opt_row(c.show_de, field_row(tc, "DE:"@, ic, i.de@)) + hardware_rows(c, i, tc, ic)
            + opt_row(
            c.show_ram,
            field_row(tc, "Ram:"@, ic, ram_value(i.ram_used_bytes, i.ram_total_bytes)),
        ) + opt_row(c.show_swap, field_row(tc, "Swap:"@, ic, gb_text(i.swap_total_bytes) + "gb"@))
            + opt_row(c.show_locale, field_row(tc, "Locale:"@, ic, i.locale@)) + seq![
            disk_row(i.disks@[0], byte_len(i.disks@[0].name@), tc, ic),
        ],
{
    reveal(info_rows);
    let d = i.disks@;
    assert(d.drop_last() =~= Seq::<DiskInfo>::empty());
    assert(names_width(d.drop_last()) == 0);
    assert(d.last() == d[0]);
    assert(names_width(d) == byte_len(d[0].name@));
    assert(disk_rows(d, tc, ic) =~= seq![disk_row(d[0], byte_len(d[0].name@), tc, ic)]);
    let e = Seq::<Seq<char>>::empty();
    assert(opt_row(false, esc(ic) + i.username@ + "@"@ + i.hostname@ + reset()) =~= e);
    assert(opt_row(false, separator()) =~= e);
    assert(info_rows(c, i, tc, ic) =~= opt_row(c.show_os, field_row(tc, "OS:"@, ic, i.os_name@))
        + opt_row(c.show_uptime, field_row(tc, "Uptime:"@, ic, i.uptime@)) + opt_row(
        c.show_shell,
        field_row(tc, "Shell:"@, ic, i.shell@),
    ) + opt_row(c.show_de, field_row(tc, "DE:"@, ic, i.de@)) + hardware_rows(c, i, tc, ic)
        + opt_row(
        c.show_ram,
        field_row(tc, "Ram:"@, ic, ram_value(i.ram_used_bytes, i.ram_total_bytes)),
    ) + opt_row(c.show_swap, field_row(tc, "Swap:"@, ic, gb_text(i.swap_total_bytes) + "gb"@))
        + opt_row(c.show_locale, field_row(tc, "Locale:"@, ic, i.locale@)) + seq![
        disk_row(d[0], byte_len(d[0].name@), tc, ic),
    ]);
}

} // verus!
