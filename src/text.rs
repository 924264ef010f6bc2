//! Character-level helpers over `Seq<char>`: whitespace, trimming, search
//! and splitting, each with an executable counterpart over `Vec<char>`.

use vstd::prelude::*;

verus! {

/// Unicode `White_Space`, the set `char::is_whitespace` tests.
pub open spec fn is_space(c: char) -> bool {
    let u = c as u32;
    u == 32 || (9 <= u && u <= 13) || u == 0x85 || u == 0xa0 || u == 0x1680 || (0x2000 <= u
        && u <= 0x200a) || u == 0x2028 || u == 0x2029 || u == 0x202f || u == 0x205f || u
        == 0x3000
}

pub open spec fn trim_start(s: Seq<char>) -> Seq<char>
    decreases s.len(),
{
    if s.len() > 0 && is_space(s[0]) {
        trim_start(s.drop_first())
    } else {
        s
    }
}

pub open spec fn trim_end(s: Seq<char>) -> Seq<char>
    decreases s.len(),
{
    if s.len() > 0 && is_space(s.last()) {
        trim_end(s.drop_last())
    } else {
        s
    }
}

/// The text with leading and trailing whitespace removed.
pub open spec fn trim(s: Seq<char>) -> Seq<char> {
    trim_end(trim_start(s))
}

/// `p` stands in `s` at index `i`.
pub open spec fn occurs_at(s: Seq<char>, p: Seq<char>, i: int) -> bool {
    0 <= i && i + p.len() <= s.len() && s.subrange(i, i + p.len()) == p
}

/// The first index at or after `from` where `p` stands in `s`.
pub open spec fn find_from(s: Seq<char>, p: Seq<char>, from: int) -> Option<int>
    decreases s.len() - from,
{
    if from < 0 || from >= s.len() || from + p.len() > s.len() {
        None
    } else if occurs_at(s, p, from) {
        Some(from)
    } else {
        find_from(s, p, from + 1)
    }
}

/// The pieces of `s` between occurrences of `sep`, as `str::split` gives them.
pub open spec fn split_on(s: Seq<char>, sep: char) -> Seq<Seq<char>>
    decreases s.len(),
{
    if s.len() == 0 {
        seq![Seq::empty()]
    } else {
        let rest = split_on(s.drop_last(), sep);
        if s.last() == sep {
            rest.push(Seq::empty())
        } else {
            rest.update(rest.len() - 1, rest.last().push(s.last()))
        }
    }
}

pub fn is_space_char(c: char) -> (r: bool)
    ensures
        r == is_space(c),
{
    let u = c as u32;
    u == 32 || (9 <= u && u <= 13) || u == 0x85 || u == 0xa0 || u == 0x1680 || (0x2000 <= u
        && u <= 0x200a) || u == 0x2028 || u == 0x2029 || u == 0x202f || u == 0x205f || u
        == 0x3000
}

/// The characters of `s`, one by one.
pub fn chars_of(s: &str) -> (r: Vec<char>)
    ensures
        r@ == s@,
{
    let n = s.unicode_len();
    let mut r: Vec<char> = Vec::new();
    let mut i: usize = 0;
    while i < n
        invariant
            n == s@.len(),
            i <= n,
            r@ == s@.subrange(0, i as int),
        decreases n - i,
    {
        r.push(s.get_char(i));
        i += 1;
    }
    assert(r@ =~= s@);
    r
}

/// The bounds of `v[lo..hi]` with its surrounding whitespace removed.
pub fn trim_bounds(v: &Vec<char>, lo: usize, hi: usize) -> (r: (usize, usize))
    requires
        lo <= hi <= v@.len(),
    ensures
        lo <= r.0 <= r.1 <= hi,
        v@.subrange(r.0 as int, r.1 as int) == trim(v@.subrange(lo as int, hi as int)),
{
    let mut a = lo;
    while a < hi && is_space_char(v[a])
        invariant
            lo <= a <= hi <= v@.len(),
            trim_start(v@.subrange(a as int, hi as int)) == trim_start(
                v@.subrange(lo as int, hi as int),
            ),
        decreases hi - a,
    {
        assert(v@.subrange(a as int, hi as int).drop_first() =~= v@.subrange(
            a + 1,
            hi as int,
        ));
        a += 1;
    }
    let mut b = hi;
    while b > a && is_space_char(v[b - 1])
        invariant
            lo <= a <= b <= hi <= v@.len(),
            trim_end(v@.subrange(a as int, b as int)) == trim_end(
                v@.subrange(a as int, hi as int),
            ),
        decreases b - a,
    {
        assert(v@.subrange(a as int, b as int).drop_last() =~= v@.subrange(
            a as int,
            b - 1,
        ));
        b -= 1;
    }
    (a, b)
}

/// The first index in `lo..hi` that holds `c`, relative to `lo`.
pub fn find_char_in(v: &Vec<char>, c: char, lo: usize, hi: usize) -> (r: Option<usize>)
    requires
        lo <= hi <= v@.len(),
    ensures
        match r {
            Some(k) => find_from(v@.subrange(lo as int, hi as int), seq![c], 0) == Some(
                k as int,
            ) && k < hi - lo,
            None => find_from(v@.subrange(lo as int, hi as int), seq![c], 0) is None,
        },
{
    let ghost s = v@.subrange(lo as int, hi as int);
    let mut i = lo;
    while i < hi
        invariant
            lo <= i <= hi <= v@.len(),
            s == v@.subrange(lo as int, hi as int),
            find_from(s, seq![c], 0) == find_from(s, seq![c], i - lo),
        decreases hi - i,
    {
        let ghost k = i - lo;
        assert(s.subrange(k, k + 1) =~= seq![s[k]]);
        if v[i] == c {
            return Some(i - lo);
        }
        assert(!occurs_at(s, seq![c], k)) by {
            if occurs_at(s, seq![c], k) {
                assert(s.subrange(k, k + 1)[0] == c);
            }
        }
        i += 1;
    }
    None
}

/// The first index at or after `from` where the two characters `a`, `b` stand.
pub fn find_pair(v: &Vec<char>, a: char, b: char, from: usize) -> (r: Option<usize>)
    ensures
        match r {
            Some(k) => find_from(v@, seq![a, b], from as int) == Some(k as int) && from <= k
                && k + 2 <= v@.len() <= usize::MAX,
            None => find_from(v@, seq![a, b], from as int) is None,
        },
{
    let ghost p = seq![a, b];
    assert(p.len() == 2 && p[0] == a && p[1] == b);
    let mut i = from;
    while i < v.len() && v.len() - i >= 2
        invariant
            from <= i,
            p == seq![a, b],
            p.len() == 2 && p[0] == a && p[1] == b,
            find_from(v@, p, from as int) == find_from(v@, p, i as int),
        decreases v.len() - i,
    {
        let ghost k = i as int;
        assert(v@.subrange(k, k + 2) =~= seq![v@[k], v@[k + 1]]);
        if v[i] == a && v[i + 1] == b {
            assert(v@.subrange(k, k + 2) =~= p);
            return Some(i);
        }
        assert(!occurs_at(v@, p, k)) by {
            if occurs_at(v@, p, k) {
                assert(v@.subrange(k, k + 2)[0] == a);
                assert(v@.subrange(k, k + 2)[1] == b);
            }
        }
        i += 1;
    }
    None
}

/// `find_from` gives the first occurrence at or after `from`.
pub proof fn lemma_find_first(s: Seq<char>, p: Seq<char>, from: int, i: int)
    requires
        0 <= from <= i,
        p.len() > 0,
        occurs_at(s, p, i),
        forall|k: int| from <= k < i ==> !occurs_at(s, p, k),
    ensures
        find_from(s, p, from) == Some(i),
    decreases i - from,
{
    if from < i {
        lemma_find_first(s, p, from + 1, i);
    }
}

/// What `find_from` returns stands in `s`, at or after `from`.
pub proof fn lemma_find_found(s: Seq<char>, p: Seq<char>, from: int)
    requires
        p.len() > 0,
        from >= 0,
    ensures
        match find_from(s, p, from) {
            Some(i) => from <= i && occurs_at(s, p, i),
            None => forall|k: int| from <= k ==> !occurs_at(s, p, k),
        },
    decreases s.len() - from,
{
    if from >= 0 && from < s.len() && from + p.len() <= s.len() && !occurs_at(s, p, from) {
        lemma_find_found(s, p, from + 1);
    }
}

/// A two-character pattern stands at `k` when its two characters do.
pub proof fn lemma_occurs_pair(s: Seq<char>, p: Seq<char>, k: int)
    requires
        p.len() == 2,
    ensures
        occurs_at(s, p, k) <==> (0 <= k && k + 2 <= s.len() && s[k] == p[0] && s[k + 1] == p[1]),
{
    if 0 <= k && k + 2 <= s.len() {
        if s[k] == p[0] && s[k + 1] == p[1] {
            assert(s.subrange(k, k + 2) =~= p);
        }
        if s.subrange(k, k + 2) == p {
            assert(s.subrange(k, k + 2)[0] == s[k]);
            assert(s.subrange(k, k + 2)[1] == s[k + 1]);
        }
    }
}

/// Whether `p` stands anywhere in `s`.
pub open spec fn contains(s: Seq<char>, p: Seq<char>) -> bool {
    find_from(s, p, 0) is Some
}

/// The bounds of the pieces of `v[lo..hi]` between occurrences of `sep`.
pub fn split_ranges(v: &Vec<char>, lo: usize, hi: usize, sep: char) -> (r: Vec<(usize, usize)>)
    requires
        lo <= hi <= v@.len(),
    ensures
        r@.len() == split_on(v@.subrange(lo as int, hi as int), sep).len(),
        forall|k: int|
            0 <= k < r@.len() ==> lo <= (#[trigger] r@[k]).0 <= r@[k].1 <= hi && v@.subrange(
                r@[k].0 as int,
                r@[k].1 as int,
            ) == split_on(v@.subrange(lo as int, hi as int), sep)[k],
{
    let mut parts: Vec<(usize, usize)> = vec![(lo, lo)];
    let mut i: usize = lo;
    assert(v@.subrange(lo as int, lo as int) =~= Seq::<char>::empty());
    while i < hi
        invariant
            lo <= i <= hi <= v@.len(),
            parts@.len() > 0,
            parts@.last().1 == i,
            parts@.len() == split_on(v@.subrange(lo as int, i as int), sep).len(),
            forall|k: int|
                0 <= k < parts@.len() ==> lo <= (#[trigger] parts@[k]).0 <= parts@[k].1 <= i
                    && v@.subrange(parts@[k].0 as int, parts@[k].1 as int) == split_on(
                    v@.subrange(lo as int, i as int),
                    sep,
                )[k],
        decreases hi - i,
    {
        assert(v@.subrange(lo as int, i + 1).drop_last() =~= v@.subrange(lo as int, i as int));
        let ghost old_parts = parts@;
        if v[i] == sep {
            parts.push((i + 1, i + 1));
            assert(v@.subrange(i + 1, i + 1) =~= Seq::<char>::empty());
        } else {
            let last = parts.pop().unwrap();
            assert(v@.subrange(last.0 as int, i + 1) =~= v@.subrange(last.0 as int, i as int).push(
                v@[i as int],
            ));
            parts.push((last.0, i + 1));
        }
        assert forall|k: int| 0 <= k < parts@.len() - 1 implies parts@[k] == old_parts[k] by {}
        i += 1;
    }
    parts
}

/// Whether `p` stands anywhere in `v[lo..hi]`.
pub fn contains_in(v: &Vec<char>, lo: usize, hi: usize, p: &Vec<char>) -> (r: bool)
    requires
        lo <= hi <= v@.len(),
        p@.len() > 0,
    ensures
        r == contains(v@.subrange(lo as int, hi as int), p@),
{
    let ghost t = v@.subrange(lo as int, hi as int);
    let mut i: usize = lo;
    while i < hi && hi - i >= p.len()
        invariant
            lo <= i <= hi <= v@.len(),
            p@.len() > 0,
            t == v@.subrange(lo as int, hi as int),
            find_from(t, p@, 0) == find_from(t, p@, i - lo),
        decreases hi - i,
    {
        let ghost k = i - lo;
        let mut m: usize = 0;
        while m < p.len() && v[i + m] == p[m]
            invariant
                lo <= i <= hi <= v@.len(),
                hi - i >= p@.len(),
                t == v@.subrange(lo as int, hi as int),
                k == i - lo,
                m <= p@.len(),
                forall|q: int| 0 <= q < m ==> t[k + q] == p@[q],
            decreases p.len() - m,
        {
            m += 1;
        }
        if m == p.len() {
            assert(t.subrange(k, k + p@.len()) =~= p@);
            return true;
        }
        assert(t.subrange(k, k + p@.len())[m as int] != p@[m as int]);
        i += 1;
    }
    proof {
        let k = i - lo;
        if i < hi {
            assert(k + p@.len() > t.len());
        }
    }
    false
}

/// The text of `s` without its surrounding whitespace.
pub fn trimmed(s: &str) -> (r: String)
    ensures
        r@ == trim(s@),
{
    let v = chars_of(s);
    let (a, b) = trim_bounds(&v, 0, v.len());
    assert(v@.subrange(0, v@.len() as int) =~= v@);
    s.substring_char(a, b).to_string()
}

pub open spec fn strip_cr(l: Seq<char>) -> Seq<char> {
    if l.len() > 0 && l.last() == '\r' {
        l.drop_last()
    } else {
        l
    }
}

/// The lines of `s` as `str::lines` gives them: split at `\n`, a `\r` before
/// the `\n` removed, and no empty line after a final `\n`.
pub open spec fn lines_of(s: Seq<char>) -> Seq<Seq<char>> {
    let p = split_on(s, '\n');
    let q = if p.last().len() == 0 {
        p.drop_last()
    } else {
        p
    };
    Seq::new(q.len(), |k: int| if k < p.len() - 1 { strip_cr(q[k]) } else { q[k] })
}

pub proof fn lemma_split_nonempty(s: Seq<char>, sep: char)
    ensures
        split_on(s, sep).len() > 0,
    decreases s.len(),
{
    if s.len() > 0 {
        lemma_split_nonempty(s.drop_last(), sep);
    }
}

/// The bounds of the lines of `v`.
pub fn line_ranges(v: &Vec<char>) -> (r: Vec<(usize, usize)>)
    ensures
        r@.len() == lines_of(v@).len(),
        forall|k: int|
            0 <= k < r@.len() ==> (#[trigger] r@[k]).0 <= r@[k].1 <= v@.len() && v@.subrange(
                r@[k].0 as int,
                r@[k].1 as int,
            ) == lines_of(v@)[k],
{
    assert(v@.subrange(0, v@.len() as int) =~= v@);
    let pieces = split_ranges(v, 0, v.len(), '\n');
    let ghost p = split_on(v@, '\n');
    proof {
        lemma_split_nonempty(v@, '\n');
    }
    let last = pieces[pieces.len() - 1];
    let n = if last.0 == last.1 {
        pieces.len() - 1
    } else {
        pieces.len()
    };
    let mut r: Vec<(usize, usize)> = Vec::new();
    let mut k: usize = 0;
    while k < n
        invariant
            n <= pieces@.len() == p.len(),
            n == lines_of(v@).len(),
            p == split_on(v@, '\n'),
            forall|m: int|
                0 <= m < pieces@.len() ==> (#[trigger] pieces@[m]).0 <= pieces@[m].1 <= v@.len()
                    && v@.subrange(pieces@[m].0 as int, pieces@[m].1 as int) == p[m],
            k <= n,
            r@.len() == k,
            forall|m: int|
                0 <= m < k ==> (#[trigger] r@[m]).0 <= r@[m].1 <= v@.len() && v@.subrange(
                    r@[m].0 as int,
                    r@[m].1 as int,
                ) == lines_of(v@)[m],
        decreases n - k,
    {
        let (a, b) = pieces[k];
        if k + 1 < pieces.len() && b > a && v[b - 1] == '\r' {
            assert(v@.subrange(a as int, b - 1) =~= p[k as int].drop_last());
            r.push((a, b - 1));
        } else {
            r.push((a, b));
        }
        k += 1;
    }
    r
}

/// The end of `v[lo..hi]` once trailing whitespace is removed.
pub fn trim_end_bound(v: &Vec<char>, lo: usize, hi: usize) -> (r: usize)
    requires
        lo <= hi <= v@.len(),
    ensures
        lo <= r <= hi,
        v@.subrange(lo as int, r as int) == trim_end(v@.subrange(lo as int, hi as int)),
{
    let mut b = hi;
    while b > lo && is_space_char(v[b - 1])
        invariant
            lo <= b <= hi <= v@.len(),
            trim_end(v@.subrange(lo as int, b as int)) == trim_end(
                v@.subrange(lo as int, hi as int),
            ),
        decreases b - lo,
    {
        assert(v@.subrange(lo as int, b as int).drop_last() =~= v@.subrange(lo as int, b - 1));
        b -= 1;
    }
    b
}

/// Trimming keeps a contiguous piece of the text.
pub proof fn lemma_trim_is_piece(s: Seq<char>)
    ensures
        0 <= s.len() - trim_start(s).len(),
        s.len() - trim_start(s).len() + trim(s).len() <= s.len(),
        trim(s) == s.subrange(
            s.len() - trim_start(s).len(),
            s.len() - trim_start(s).len() + trim(s).len(),
        ),
{
    lemma_trim_start_piece(s);
    lemma_trim_end_piece(trim_start(s));
    let a = s.len() - trim_start(s).len();
    assert(trim(s) =~= s.subrange(a, a + trim(s).len()));
}

proof fn lemma_trim_start_piece(s: Seq<char>)
    ensures
        trim_start(s).len() <= s.len(),
        trim_start(s) == s.subrange(s.len() - trim_start(s).len(), s.len() as int),
    decreases s.len(),
{
    if s.len() > 0 && is_space(s[0]) {
        lemma_trim_start_piece(s.drop_first());
        assert(s.drop_first().subrange(
            s.drop_first().len() - trim_start(s).len(),
            s.drop_first().len() as int,
        ) =~= s.subrange(s.len() - trim_start(s).len(), s.len() as int));
    } else {
        assert(s.subrange(0, s.len() as int) =~= s);
    }
}

proof fn lemma_trim_end_piece(s: Seq<char>)
    ensures
        trim_end(s).len() <= s.len(),
        trim_end(s) == s.subrange(0, trim_end(s).len() as int),
    decreases s.len(),
{
    if s.len() > 0 && is_space(s.last()) {
        lemma_trim_end_piece(s.drop_last());
        assert(s.drop_last().subrange(0, trim_end(s).len() as int) =~= s.subrange(
            0,
            trim_end(s).len() as int,
        ));
    } else {
        assert(s.subrange(0, s.len() as int) =~= s);
    }
}

} // verus!
