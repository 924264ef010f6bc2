//! Host facts: the disk summary, and the parsers that turn what the host
//! reports (tool output, pseudo-files, environment values) into the facts
//! that the banner shows.

use vstd::prelude::*;
use crate::text::{
    chars_of, contains, contains_in, split_on, split_ranges, trim, trim_bounds, trim_start,
    is_space, is_space_char, lemma_split_nonempty, lines_of, line_ranges,
};
use crate::config::{starts_with, starts_with_at};

verus! {

pub const BYTES_PER_GB: u64 = 1073741824;

/// One mounted filesystem as the banner shows it.
pub struct DiskInfo {
    pub name: String,
    pub used_gb: u64,
    pub total_gb: u64,
    pub percent: u64,
}

/// One mounted filesystem as the host reports it.
pub struct DiskSpace {
    pub name: String,
    pub total_bytes: u64,
    pub available_bytes: u64,
}

pub open spec fn used_bytes(total: u64, available: u64) -> u64 {
    if available <= total {
        (total - available) as u64
    } else {
        0
    }
}

/// The summary of one filesystem: name, used and total whole gigabytes, and
/// the truncated percentage of the two.
pub open spec fn disk_summary(d: (Seq<char>, u64, u64)) -> (Seq<char>, u64, u64, u64) {
    let total_gb = d.1 / BYTES_PER_GB;
    let used_gb = used_bytes(d.1, d.2) / BYTES_PER_GB;
    (d.0, used_gb, total_gb, (used_gb * 100 / (total_gb as int)) as u64)
}

/// The summaries of the filesystems with at least one whole gigabyte, in order.
pub open spec fn disk_summaries(ds: Seq<(Seq<char>, u64, u64)>) -> Seq<(Seq<char>, u64, u64, u64)>
    decreases ds.len(),
{
    if ds.len() == 0 {
        Seq::empty()
    } else {
        let rest = disk_summaries(ds.drop_last());
        if ds.last().1 / BYTES_PER_GB > 0 {
            rest.push(disk_summary(ds.last()))
        } else {
            rest
        }
    }
}

impl DiskInfo {
    pub open spec fn view(&self) -> (Seq<char>, u64, u64, u64) {
        (self.name@, self.used_gb, self.total_gb, self.percent)
    }
}

impl DiskSpace {
    pub open spec fn view(&self) -> (Seq<char>, u64, u64) {
        (self.name@, self.total_bytes, self.available_bytes)
    }
}

pub open spec fn space_views(ds: Seq<DiskSpace>) -> Seq<(Seq<char>, u64, u64)> {
    ds.map_values(|d: DiskSpace| d@)
}

/// The banner's rows for the filesystems `spaces`: those under one whole
/// gigabyte are left out.
pub fn summarize_disks(spaces: &Vec<DiskSpace>) -> (r: Vec<DiskInfo>)
    ensures
        r@.len() == disk_summaries(space_views(spaces@)).len(),
        forall|k: int|
            0 <= k < r@.len() ==> (#[trigger] r@[k])@ == disk_summaries(space_views(spaces@))[k],
{
    let mut r: Vec<DiskInfo> = Vec::new();
    let mut i: usize = 0;
    while i < spaces.len()
        invariant
            i <= spaces@.len(),
            r@.len() == disk_summaries(space_views(spaces@.take(i as int))).len(),
            forall|k: int|
                0 <= k < r@.len() ==> (#[trigger] r@[k])@ == disk_summaries(
                    space_views(spaces@.take(i as int)),
                )[k],
        decreases spaces.len() - i,
    {
        assert(space_views(spaces@.take(i + 1)).drop_last() =~= space_views(
            spaces@.take(i as int),
        ));
        assert(space_views(spaces@.take(i + 1)).last() == spaces@[i as int]@);
        let d = &spaces[i];
        let total_gb = d.total_bytes / BYTES_PER_GB;
        let used = d.total_bytes.saturating_sub(d.available_bytes);
        let used_gb = used / BYTES_PER_GB;
        if total_gb > 0 {
            assert(used_gb <= 17179869184) by (nonlinear_arith)
                requires
                    used_gb == used / 1073741824,
            ;
            let ghost before = r@;
            r.push(
                DiskInfo {
                    name: d.name.clone(),
                    used_gb,
                    total_gb,
                    percent: used_gb * 100 / total_gb,
                },
            );
            assert forall|k: int| 0 <= k < r@.len() - 1 implies r@[k] == before[k] by {}
        }
        i += 1;
    }
    assert(spaces@.take(spaces@.len() as int) =~= spaces@);
    r
}

/// Every row of the disk summary has at least one whole gigabyte.
pub proof fn lemma_summaries_nonzero(ds: Seq<(Seq<char>, u64, u64)>)
    ensures
        forall|k: int|
            0 <= k < disk_summaries(ds).len() ==> (#[trigger] disk_summaries(ds)[k]).2 > 0,
    decreases ds.len(),
{
    if ds.len() > 0 {
        lemma_summaries_nonzero(ds.drop_last());
        let rest = disk_summaries(ds.drop_last());
        assert forall|k: int| 0 <= k < disk_summaries(ds).len() implies (disk_summaries(ds)[k]).2 > 0 by {
            if k < rest.len() {
                assert(disk_summaries(ds)[k] == rest[k]);
            }
        }
    }
}

/// Each row's percentage is the truncated quotient of its used and total
/// gigabytes, times one hundred.
pub proof fn lemma_summaries_percent(ds: Seq<(Seq<char>, u64, u64)>)
    ensures
        forall|k: int|
            0 <= k < disk_summaries(ds).len() ==> (#[trigger] disk_summaries(ds)[k]).3 == (
            disk_summaries(ds)[k].1 * 100 / (disk_summaries(ds)[k].2 as int)) as u64,
    decreases ds.len(),
{
    if ds.len() > 0 {
        lemma_summaries_percent(ds.drop_last());
        let rest = disk_summaries(ds.drop_last());
        assert forall|k: int| 0 <= k < disk_summaries(ds).len() implies disk_summaries(ds)[k].3 == (disk_summaries(ds)[k].1 * 100 / (disk_summaries(ds)[k].2 as int)) as u64 by {
            if k < rest.len() {
                assert(disk_summaries(ds)[k] == rest[k]);
            }
        }
    }
}

pub open spec fn digit_char(d: int) -> char {
    ((d + 48) as u8) as char
}

/// The decimal digits of `n`, without sign or padding.
pub open spec fn decimal(n: nat) -> Seq<char>
    decreases n,
{
    if n < 10 {
        seq![digit_char(n as int)]
    } else {
        decimal(n / 10).push(digit_char((n % 10) as int))
    }
}

/// Relies on `u128`'s `Display`, through `ToString`: the decimal digits of `n`.
#[verifier::external_body]
pub(crate) fn decimal_text(n: u128) -> (r: String)
    ensures
        r@ == decimal(n as nat),
{
    n.to_string()
}

/// How long the host has been up, from its uptime in seconds:
/// `{d}d {h}h {m}m`, or `{h}h {m}m` under one day.
pub open spec fn uptime_spec(secs: u64) -> Seq<char> {
    let minutes = secs / 60;
    let hours = minutes / 60;
    let days = hours / 24;
    let tail = decimal((hours % 24) as nat) + "h "@ + decimal((minutes % 60) as nat) + "m"@;
    if days > 0 {
        decimal(days as nat) + "d "@ + tail
    } else {
        tail
    }
}

pub fn uptime_text(secs: u64) -> (r: String)
    ensures
        r@ == uptime_spec(secs),
{
    let minutes = secs / 60;
    let hours = minutes / 60;
    let days = hours / 24;
    let tail = decimal_text((hours % 24) as u128).concat("h ").concat(decimal_text((minutes % 60) as u128).as_str()).concat(
        "m",
    );
    if days > 0 {
        let r = decimal_text(days as u128).concat("d ").concat(tail.as_str());
        assert(r@ =~= uptime_spec(secs));
        r
    } else {
        tail
    }
}

pub open spec fn names_display(l: Seq<char>) -> bool {
    contains(l, "VGA"@) || contains(l, "3D"@) || contains(l, "Display"@)
}

/// The adapter names in the lines of a PCI listing: the third `:`-separated
/// field, trimmed, of each line that names a display controller.
pub open spec fn adapter_names(lines: Seq<Seq<char>>) -> Seq<Seq<char>>
    decreases lines.len(),
{
    if lines.len() == 0 {
        Seq::empty()
    } else {
        let rest = adapter_names(lines.drop_last());
        let l = lines.last();
        if names_display(l) && split_on(l, ':').len() >= 3 {
            rest.push(trim(split_on(l, ':')[2]))
        } else {
            rest
        }
    }
}

/// The adapters of a PCI listing, or `Unknown` alone where it names none.
pub open spec fn gpu_list_spec(s: Seq<char>) -> Seq<Seq<char>> {
    let names = adapter_names(split_on(s, '\n'));
    if names.len() == 0 {
        seq!["Unknown"@]
    } else {
        names
    }
}

/// The graphics adapters that the PCI listing `listing` names.
pub fn gpu_list(listing: &str) -> (r: Vec<String>)
    ensures
        r@.len() >= 1,
        adapter_names(split_on(listing@, '\n')).len() == 0 ==> r@.len() == 1 && r@[0]@
            == "Unknown"@,
        r@.len() == gpu_list_spec(listing@).len(),
        forall|k: int| 0 <= k < r@.len() ==> (#[trigger] r@[k])@ == gpu_list_spec(listing@)[k],
{
    let v = chars_of(listing);
    let ghost lines = split_on(v@, '\n');
    assert(v@.subrange(0, v@.len() as int) =~= v@);
    let line_bounds = split_ranges(&v, 0, v.len(), '\n');
    let vga = chars_of("VGA");
    let three_d = chars_of("3D");
    let display = chars_of("Display");
    proof {
        reveal_strlit("VGA");
        reveal_strlit("3D");
        reveal_strlit("Display");
    }
    let mut r: Vec<String> = Vec::new();
    let mut k: usize = 0;
    while k < line_bounds.len()
        invariant
            v@ == listing@,
            lines == split_on(v@, '\n'),
            line_bounds@.len() == lines.len(),
            forall|m: int|
                0 <= m < line_bounds@.len() ==> (#[trigger] line_bounds@[m]).0 <= line_bounds@[m].1
                    <= v@.len() && v@.subrange(line_bounds@[m].0 as int, line_bounds@[m].1 as int)
                    == lines[m],
            vga@ == "VGA"@,
            three_d@ == "3D"@,
            display@ == "Display"@,
            vga@.len() > 0 && three_d@.len() > 0 && display@.len() > 0,
            k <= line_bounds@.len(),
            r@.len() == adapter_names(lines.take(k as int)).len(),
            forall|m: int|
                0 <= m < r@.len() ==> (#[trigger] r@[m])@ == adapter_names(lines.take(k as int))[m],
        decreases line_bounds.len() - k,
    {
        assert(lines.take(k + 1).drop_last() =~= lines.take(k as int));
        let (a, b) = line_bounds[k];
        let ghost l = lines[k as int];
        assert(lines.take(k + 1).last() == l);
        if contains_in(&v, a, b, &vga) || contains_in(&v, a, b, &three_d) || contains_in(
            &v,
            a,
            b,
            &display,
        ) {
            let fields = split_ranges(&v, a, b, ':');
            if fields.len() >= 3 {
                let (c, d) = fields[2];
                let (e, f) = trim_bounds(&v, c, d);
                let ghost before = r@;
                r.push(listing.substring_char(e, f).to_string());
                assert forall|m: int| 0 <= m < r@.len() - 1 implies r@[m] == before[m] by {}
            }
        }
        k += 1;
    }
    assert(lines.take(lines.len() as int) =~= lines);
    if r.len() == 0 {
        r.push(String::from_str("Unknown"));
    }
    r
}

/// The number of characters before the first whitespace.
pub open spec fn word_len(t: Seq<char>) -> nat
    decreases t.len(),
{
    if t.len() == 0 || is_space(t[0]) {
        0
    } else {
        1 + word_len(t.drop_first())
    }
}

/// The first whitespace-separated word of a line.
pub open spec fn first_word(l: Seq<char>) -> Seq<char> {
    trim_start(l).take(word_len(trim_start(l)) as int)
}

/// The first word of the first line that marks the active mode with `*`.
pub open spec fn active_mode(lines: Seq<Seq<char>>) -> Option<Seq<char>>
    decreases lines.len(),
{
    if lines.len() == 0 {
        None
    } else {
        match active_mode(lines.drop_last()) {
            Some(w) => Some(w),
            None => if contains(lines.last(), "*"@) {
                Some(first_word(lines.last()))
            } else {
                None
            },
        }
    }
}

/// The bounds of the first word of `v[lo..hi]`.
fn first_word_bounds(v: &Vec<char>, lo: usize, hi: usize) -> (r: (usize, usize))
    requires
        lo <= hi <= v@.len(),
    ensures
        r.0 <= r.1 <= v@.len(),
        v@.subrange(r.0 as int, r.1 as int) == first_word(v@.subrange(lo as int, hi as int)),
{
    let mut a = lo;
    while a < hi && is_space_char(v[a])
        invariant
            lo <= a <= hi <= v@.len(),
            trim_start(v@.subrange(a as int, hi as int)) == trim_start(
                v@.subrange(lo as int, hi as int),
            ),
        decreases hi - a,
    {
        assert(v@.subrange(a as int, hi as int).drop_first() =~= v@.subrange(
            a + 1,
            hi as int,
        ));
        a += 1;
    }
    let ghost t = v@.subrange(a as int, hi as int);
    assert(trim_start(t) == t);
    let mut b = a;
    while b < hi && !is_space_char(v[b])
        invariant
            lo <= a <= b <= hi <= v@.len(),
            t == v@.subrange(a as int, hi as int),
            word_len(t) == (b - a) + word_len(v@.subrange(b as int, hi as int)),
        decreases hi - b,
    {
        assert(v@.subrange(b as int, hi as int).drop_first() =~= v@.subrange(
            b + 1,
            hi as int,
        ));
        b += 1;
    }
    assert(word_len(v@.subrange(b as int, hi as int)) == 0);
    assert(t.take(b - a) =~= v@.subrange(a as int, b as int));
    (a, b)
}

/// The resolution of the active mode in a display-mode listing, if it
/// marks one.
pub fn screen_resolution(listing: &str) -> (r: Option<String>)
    ensures
        match r {
            Some(x) => active_mode(split_on(listing@, '\n')) == Some(x@),
            None => active_mode(split_on(listing@, '\n')) is None,
        },
{
    let v = chars_of(listing);
    let ghost lines = split_on(v@, '\n');
    assert(v@.subrange(0, v@.len() as int) =~= v@);
    let line_bounds = split_ranges(&v, 0, v.len(), '\n');
    let star = chars_of("*");
    proof {
        reveal_strlit("*");
    }
    let mut k: usize = 0;
    while k < line_bounds.len()
        invariant
            v@ == listing@,
            lines == split_on(v@, '\n'),
            line_bounds@.len() == lines.len(),
            forall|m: int|
                0 <= m < line_bounds@.len() ==> (#[trigger] line_bounds@[m]).0 <= line_bounds@[m].1
                    <= v@.len() && v@.subrange(line_bounds@[m].0 as int, line_bounds@[m].1 as int)
                    == lines[m],
            star@ == "*"@,
            star@.len() > 0,
            k <= line_bounds@.len(),
            active_mode(lines.take(k as int)) is None,
        decreases line_bounds.len() - k,
    {
        assert(lines.take(k + 1).drop_last() =~= lines.take(k as int));
        let (a, b) = line_bounds[k];
        if contains_in(&v, a, b, &star) {
            let (c, d) = first_word_bounds(&v, a, b);
            proof {
                lemma_active_mode_prefix(lines, k + 1);
            }
            return Some(listing.substring_char(c, d).to_string());
        }
        k += 1;
    }
    assert(lines.take(lines.len() as int) =~= lines);
    None
}

/// A mode found in a prefix of the lines is the mode of all of them.
pub proof fn lemma_active_mode_prefix(lines: Seq<Seq<char>>, n: int)
    requires
        0 <= n <= lines.len(),
        active_mode(lines.take(n)) is Some,
    ensures
        active_mode(lines) == active_mode(lines.take(n)),
    decreases lines.len() - n,
{
    if n < lines.len() {
        assert(lines.take(n + 1).drop_last() =~= lines.take(n));
        lemma_active_mode_prefix(lines, n + 1);
    } else {
        assert(lines.take(n) =~= lines);
    }
}

/// The shell's name: the last `/`-separated segment of its path.
pub fn shell_name(path: &str) -> (r: String)
    ensures
        r@ == split_on(path@, '/').last(),
{
    let v = chars_of(path);
    assert(v@.subrange(0, v@.len() as int) =~= v@);
    let parts = split_ranges(&v, 0, v.len(), '/');
    proof {
        lemma_split_nonempty(v@, '/');
    }
    let (a, b) = parts[parts.len() - 1];
    path.substring_char(a, b).to_string()
}

/// The board name, unless it is empty or the firmware's placeholder.
pub open spec fn board_spec(s: Seq<char>) -> Option<Seq<char>> {
    let t = trim(s);
    if t.len() == 0 || t == "Default string"@ {
        None
    } else {
        Some(t)
    }
}

/// The motherboard's name from the text of the board-name file.
pub fn board_name(text: &str) -> (r: Option<String>)
    ensures
        match r {
            Some(x) => board_spec(text@) == Some(x@),
            None => board_spec(text@) is None,
        },
{
    let t = crate::text::trimmed(text);
    if t.as_str().unicode_len() == 0 || t == String::from_str("Default string") {
        None
    } else {
        Some(t)
    }
}

/// The processor's label: its brand, with the thread count where there is
/// more than one; `Unknown` where none is reported.
pub open spec fn cpu_spec(brand: Seq<char>, count: usize) -> Seq<char> {
    if count == 0 {
        "Unknown"@
    } else if count > 1 {
        trim(brand) + " ("@ + decimal(count as nat) + " threads)"@
    } else {
        trim(brand)
    }
}

/// The processor's label from the first processor's brand and the count of
/// logical processors.
pub fn cpu_label(brand: &str, count: usize) -> (r: String)
    ensures
        r@ == cpu_spec(brand@, count),
{
    if count == 0 {
        return String::from_str("Unknown");
    }
    let b = crate::text::trimmed(brand);
    if count > 1 {
        let r = b.concat(" (").concat(decimal_text(count as u128).as_str()).concat(" threads)");
        assert(r@ =~= cpu_spec(brand@, count));
        r
    } else {
        b
    }
}

pub open spec fn pretty_key() -> Seq<char> {
    seq!['P', 'R', 'E', 'T', 'T', 'Y', '_', 'N', 'A', 'M', 'E', '=']
}

/// The line with every leading `PRETTY_NAME=` removed.
pub open spec fn strip_key(l: Seq<char>) -> Seq<char>
    decreases l.len(),
{
    if starts_with(l, pretty_key()) {
        strip_key(l.skip(12))
    } else {
        l
    }
}

pub open spec fn trim_quotes_start(s: Seq<char>) -> Seq<char>
    decreases s.len(),
{
    if s.len() > 0 && s[0] == '"' {
        trim_quotes_start(s.drop_first())
    } else {
        s
    }
}

pub open spec fn trim_quotes_end(s: Seq<char>) -> Seq<char>
    decreases s.len(),
{
    if s.len() > 0 && s.last() == '"' {
        trim_quotes_end(s.drop_last())
    } else {
        s
    }
}

/// The value of the first `PRETTY_NAME=` line, with its quotes removed.
pub open spec fn pretty_name(lines: Seq<Seq<char>>) -> Option<Seq<char>>
    decreases lines.len(),
{
    if lines.len() == 0 {
        None
    } else {
        match pretty_name(lines.drop_last()) {
            Some(n) => Some(n),
            None => if starts_with(lines.last(), pretty_key()) {
                Some(trim_quotes_end(trim_quotes_start(strip_key(lines.last()))))
            } else {
                None
            },
        }
    }
}

/// The operating system's name from the text of the OS-release file;
/// `Linux` where it gives none.
pub open spec fn os_name_spec(s: Seq<char>) -> Seq<char> {
    match pretty_name(lines_of(s)) {
        Some(n) => n,
        None => "Linux"@,
    }
}

pub proof fn lemma_pretty_name_prefix(lines: Seq<Seq<char>>, n: int)
    requires
        0 <= n <= lines.len(),
        pretty_name(lines.take(n)) is Some,
    ensures
        pretty_name(lines) == pretty_name(lines.take(n)),
    decreases lines.len() - n,
{
    if n < lines.len() {
        assert(lines.take(n + 1).drop_last() =~= lines.take(n));
        lemma_pretty_name_prefix(lines, n + 1);
    } else {
        assert(lines.take(n) =~= lines);
    }
}

/// The bounds of the value of the `PRETTY_NAME=` line `v[lo..hi]`.
fn pretty_value_bounds(v: &Vec<char>, key: &Vec<char>, lo: usize, hi: usize) -> (r: (usize, usize))
    requires
        lo <= hi <= v@.len(),
        key@ == pretty_key(),
    ensures
        r.0 <= r.1 <= v@.len(),
        v@.subrange(r.0 as int, r.1 as int) == trim_quotes_end(
            trim_quotes_start(strip_key(v@.subrange(lo as int, hi as int))),
        ),
{
    let mut a = lo;
    while starts_with_at(v, key, a, hi)
        invariant
            lo <= a <= hi <= v@.len(),
            key@ == pretty_key(),
            strip_key(v@.subrange(a as int, hi as int)) == strip_key(
                v@.subrange(lo as int, hi as int),
            ),
        decreases hi - a,
    {
        assert(v@.subrange(a as int, hi as int).skip(12) =~= v@.subrange(a + 12, hi as int));
        a += 12;
    }
    while a < hi && v[a] == '"'
        invariant
            lo <= a <= hi <= v@.len(),
            trim_quotes_start(v@.subrange(a as int, hi as int)) == trim_quotes_start(
                strip_key(v@.subrange(lo as int, hi as int)),
            ),
        decreases hi - a,
    {
        assert(v@.subrange(a as int, hi as int).drop_first() =~= v@.subrange(a + 1, hi as int));
        a += 1;
    }
    let mut b = hi;
    while b > a && v[b - 1] == '"'
        invariant
            lo <= a <= b <= hi <= v@.len(),
            trim_quotes_end(v@.subrange(a as int, b as int)) == trim_quotes_end(
                trim_quotes_start(strip_key(v@.subrange(lo as int, hi as int))),
            ),
        decreases b - a,
    {
        assert(v@.subrange(a as int, b as int).drop_last() =~= v@.subrange(a as int, b - 1));
        b -= 1;
    }
    (a, b)
}

/// The operating system's name from the text of the OS-release file.
pub fn os_name(release: &str) -> (r: String)
    ensures
        r@ == os_name_spec(release@),
{
    let v = chars_of(release);
    let lines = line_ranges(&v);
    let ghost ls = lines_of(v@);
    let key: Vec<char> = vec!['P', 'R', 'E', 'T', 'T', 'Y', '_', 'N', 'A', 'M', 'E', '='];
    assert(key@ =~= pretty_key());
    let mut k: usize = 0;
    while k < lines.len()
        invariant
            v@ == release@,
            ls == lines_of(v@),
            key@ == pretty_key(),
            lines@.len() == ls.len(),
            forall|m: int|
                0 <= m < lines@.len() ==> (#[trigger] lines@[m]).0 <= lines@[m].1 <= v@.len()
                    && v@.subrange(lines@[m].0 as int, lines@[m].1 as int) == ls[m],
            k <= lines@.len(),
            pretty_name(ls.take(k as int)) is None,
        decreases lines.len() - k,
    {
        assert(ls.take(k + 1).drop_last() =~= ls.take(k as int));
        assert(ls.take(k + 1).last() == ls[k as int]);
        let (a, b) = lines[k];
        if starts_with_at(&v, &key, a, b) {
            let (c, d) = pretty_value_bounds(&v, &key, a, b);
            proof {
                lemma_pretty_name_prefix(ls, k + 1);
            }
            return release.substring_char(c, d).to_string();
        }
        k += 1;
    }
    assert(ls.take(ls.len() as int) =~= ls);
    String::from_str("Linux")
}

/// The desktop environment: the current-desktop value, else the
/// desktop-session value, else the session-desktop value, else `Unknown`.
pub fn desktop_name(
    current: Option<String>,
    session: Option<String>,
    session_desktop: Option<String>,
) -> (r: String)
    ensures
        r@ == (match (current, session, session_desktop) {
            (Some(c), _, _) => c@,
            (None, Some(s), _) => s@,
            (None, None, Some(d)) => d@,
            (None, None, None) => "Unknown"@,
        }),
{
    match current {
        Some(c) => c,
        None => match session {
            Some(s) => s,
            None => match session_desktop {
                Some(d) => d,
                None => String::from_str("Unknown"),
            },
        },
    }
}

} // verus!
