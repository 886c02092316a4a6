//! Character-level text model shared by the release helpers.

use vstd::prelude::*;

verus! {

/// The characters of `s`, in order.
pub fn chars_of(s: &str) -> (v: Vec<char>)
    ensures
        v@ == s@,
{
    let mut v: Vec<char> = Vec::new();
    for c in it: s.chars()
        invariant
            v@ == it.seq().take(it.index() as int),
            it.seq() == s@,
    {
        v.push(c);
    }
    v
}


/// The pieces of `s` between separator characters, as `str::split` yields
/// them: `n` separators give `n + 1` pieces, any of which may be empty.
pub open spec fn split_on(s: Seq<char>, seps: Seq<char>) -> Seq<Seq<char>>
    decreases s.len(),
{
    if s.len() == 0 {
        seq![Seq::empty()]
    } else {
        let prev = split_on(s.drop_last(), seps);
        if seps.contains(s.last()) {
            prev.push(Seq::empty())
        } else {
            prev.update(prev.len() - 1, prev.last().push(s.last()))
        }
    }
}

/// Splitting always yields at least one piece.
pub proof fn lemma_split_nonempty(s: Seq<char>, seps: Seq<char>)
    ensures
        split_on(s, seps).len() >= 1,
    decreases s.len(),
{
    if s.len() > 0 {
        lemma_split_nonempty(s.drop_last(), seps);
    }
}

/// Whether `c` occurs in `v`.
pub fn contains_char(v: &Vec<char>, c: char) -> (b: bool)
    ensures
        b == v@.contains(c),
{
    let mut i: usize = 0;
    while i < v.len()
        invariant
            i <= v.len(),
            forall|j: int| 0 <= j < i ==> v@[j] != c,
        decreases v.len() - i,
    {
        if v[i] == c {
            assert(v@[i as int] == c);
            return true;
        }
        i = i + 1;
    }
    false
}

/// Whether a list of ranges describes exactly the pieces `parts` of `s`.
pub open spec fn ranges_cover(s: Seq<char>, r: Seq<(usize, usize)>, parts: Seq<Seq<char>>) -> bool {
    &&& r.len() == parts.len()
    &&& forall|j: int|
        #![trigger r[j]]
        #![trigger parts[j]]
        0 <= j < r.len() ==> {
            &&& r[j].0 <= r[j].1 <= s.len()
            &&& s.subrange(r[j].0 as int, r[j].1 as int) == parts[j]
        }
}

/// The index ranges of the pieces of `s` between separators.
pub fn split_ranges(s: &Vec<char>, seps: &Vec<char>) -> (r: Vec<(usize, usize)>)
    ensures
        ranges_cover(s@, r@, split_on(s@, seps@)),
{
    let mut done: Vec<(usize, usize)> = Vec::new();
    let mut start: usize = 0;
    let mut i: usize = 0;
    proof {
        assert(s@.take(0) =~= Seq::<char>::empty());
    }
    while i < s.len()
        invariant
            i <= s.len(),
            start <= i,
            split_on(s@.take(i as int), seps@).len() == done.len() + 1,
            forall|j: int|
                #![trigger done@[j]]
                0 <= j < done.len() ==> {
                    &&& done@[j].0 <= done@[j].1 <= i
                    &&& s@.subrange(done@[j].0 as int, done@[j].1 as int) == split_on(
                        s@.take(i as int),
                        seps@,
                    )[j]
                },
            split_on(s@.take(i as int), seps@)[done.len() as int] == s@.subrange(
                start as int,
                i as int,
            ),
        decreases s.len() - i,
    {
        let c = s[i];
        let ghost prev = split_on(s@.take(i as int), seps@);
        proof {
            assert(s@.take(i + 1).drop_last() =~= s@.take(i as int));
            assert(s@.take(i + 1).last() == c);
            assert(s@.subrange(start as int, i + 1) =~= s@.subrange(start as int, i as int).push(c));
            assert(s@.subrange(i + 1, i + 1) =~= Seq::<char>::empty());
        }
        let ghost old_done = done@;
        if contains_char(seps, c) {
            done.push((start, i));
            start = i + 1;
        }
        i = i + 1;
        proof {
            let cur = split_on(s@.take(i as int), seps@);
            assert forall|j: int| #![trigger done@[j]] 0 <= j < done.len() implies {
                &&& done@[j].0 <= done@[j].1 <= i
                &&& s@.subrange(done@[j].0 as int, done@[j].1 as int) == cur[j]
            } by {
                if j < old_done.len() {
                    assert(done@[j] == old_done[j]);
                    assert(cur[j] == prev[j]);
                }
            }
        }
    }
    let ghost old_done = done@;
    done.push((start, i));
    proof {
        assert(s@.take(s@.len() as int) =~= s@);
        let parts = split_on(s@, seps@);
        assert forall|j: int| #![trigger done@[j]] 0 <= j < done.len() implies {
            &&& done@[j].0 <= done@[j].1 <= s@.len()
            &&& s@.subrange(done@[j].0 as int, done@[j].1 as int) == parts[j]
        } by {
            if j < old_done.len() {
                assert(done@[j] == old_done[j]);
            }
        }
    }
    done
}


/// Whether `p` occurs in `s` starting at index `i`.
pub open spec fn occurs_at(s: Seq<char>, p: Seq<char>, i: int) -> bool {
    &&& 0 <= i
    &&& i + p.len() <= s.len()
    &&& s.subrange(i, i + p.len()) == p
}

/// The first index at or after `k` where `p` occurs in `s`, if any.
pub open spec fn first_occurrence_from(s: Seq<char>, p: Seq<char>, k: int) -> Option<int>
    decreases s.len() + 1 - k,
{
    if k < 0 || k + p.len() > s.len() {
        None
    } else if occurs_at(s, p, k) {
        Some(k)
    } else {
        first_occurrence_from(s, p, k + 1)
    }
}

/// The first index where `p` occurs in `s`, if any.
pub open spec fn first_occurrence(s: Seq<char>, p: Seq<char>) -> Option<int> {
    first_occurrence_from(s, p, 0)
}

/// What `first_occurrence_from` finds is an occurrence, and no earlier index
/// from `k` on is one; when it finds none, no index from `k` on is one.
pub proof fn lemma_first_occurrence_from(s: Seq<char>, p: Seq<char>, k: int)
    requires
        0 <= k,
    ensures
        first_occurrence_from(s, p, k) matches Some(i) ==> {
            &&& k <= i
            &&& occurs_at(s, p, i)
            &&& forall|j: int| k <= j < i ==> !occurs_at(s, p, j)
        },
        first_occurrence_from(s, p, k) is None ==> forall|j: int| k <= j ==> !occurs_at(s, p, j),
    decreases s.len() + 1 - k,
{
    if k + p.len() <= s.len() && !occurs_at(s, p, k) {
        lemma_first_occurrence_from(s, p, k + 1);
        assert forall|j: int| k <= j && j < k + 1 implies !occurs_at(s, p, j) by {
            assert(j == k);
        }
    }
}

/// What `first_occurrence` finds is the earliest occurrence; when it finds
/// none, `p` does not occur in `s`.
pub proof fn lemma_first_occurrence(s: Seq<char>, p: Seq<char>)
    ensures
        first_occurrence(s, p) matches Some(i) ==> {
            &&& occurs_at(s, p, i)
            &&& forall|j: int| 0 <= j < i ==> !occurs_at(s, p, j)
        },
        first_occurrence(s, p) is None ==> forall|j: int| !occurs_at(s, p, j),
{
    lemma_first_occurrence_from(s, p, 0);
}

/// Whether `p` occurs in `s` at index `i`, for an index that leaves room.
pub fn matches_at(s: &Vec<char>, p: &Vec<char>, i: usize) -> (b: bool)
    requires
        i + p.len() <= s.len(),
    ensures
        b == occurs_at(s@, p@, i as int),
{
    let mut t: usize = 0;
    while t < p.len()
        invariant
            t <= p.len(),
            i + p.len() <= s.len(),
            forall|u: int| 0 <= u < t ==> s@[i + u] == p@[u],
        decreases p.len() - t,
    {
        if s[i + t] != p[t] {
            proof {
                assert(s@.subrange(i as int, i + p.len())[t as int] == s@[i + t]);
            }
            return false;
        }
        t = t + 1;
    }
    proof {
        assert(s@.subrange(i as int, i + p.len()) =~= p@);
    }
    true
}

/// The first index where `p` occurs in `s`, if any.
pub fn find_first(s: &Vec<char>, p: &Vec<char>) -> (r: Option<usize>)
    ensures
        r matches Some(i) ==> first_occurrence(s@, p@) == Some(i as int),
        r is None ==> first_occurrence(s@, p@) is None,
{
    if p.len() > s.len() {
        return None;
    }
    let limit = s.len() - p.len();
    let mut k: usize = 0;
    loop
        invariant
            limit == s.len() - p.len(),
            k <= limit,
            first_occurrence(s@, p@) == first_occurrence_from(s@, p@, k as int),
        decreases limit - k,
    {
        if matches_at(s, p, k) {
            return Some(k);
        }
        if k == limit {
            return None;
        }
        k = k + 1;
    }
}


/// `p` without one trailing carriage return, if it ends with one.
pub open spec fn strip_cr(p: Seq<char>) -> Seq<char> {
    if p.len() > 0 && p.last() == '\r' {
        p.drop_last()
    } else {
        p
    }
}

/// The lines of `s`, as `str::lines` yields them: the pieces between
/// `\n` characters, each without the `\r` of a `\r\n` ending, and without a
/// last empty piece after a final `\n` (so that `""` has no lines).
pub open spec fn lines_of(s: Seq<char>) -> Seq<Seq<char>> {
    let parts = split_on(s, seq!['\n']);
    let body = parts.take(parts.len() - 1).map_values(|p: Seq<char>| strip_cr(p));
    if parts.last().len() > 0 {
        body.push(parts.last())
    } else {
        body
    }
}

/// The index ranges of the lines of `s`.
pub fn line_ranges(s: &Vec<char>) -> (r: Vec<(usize, usize)>)
    ensures
        ranges_cover(s@, r@, lines_of(s@)),
{
    let seps = vec!['\n'];
    let parts = split_ranges(s, &seps);
    let ghost pieces = split_on(s@, seq!['\n']);
    proof {
        assert(seps@ =~= seq!['\n']);
        lemma_split_nonempty(s@, seq!['\n']);
    }
    let ghost body = pieces.take(pieces.len() - 1).map_values(|p: Seq<char>| strip_cr(p));
    let np = parts.len();
    let mut lines: Vec<(usize, usize)> = Vec::new();
    let mut j: usize = 0;
    while j + 1 < np
        invariant
            np == parts.len(),
            np == pieces.len(),
            np >= 1,
            j < np,
            ranges_cover(s@, parts@, pieces),
            body == pieces.take(pieces.len() - 1).map_values(|p: Seq<char>| strip_cr(p)),
            lines.len() == j,
            forall|t: int|
                #![trigger lines@[t]]
                0 <= t < j ==> {
                    &&& lines@[t].0 <= lines@[t].1 <= s.len()
                    &&& s@.subrange(lines@[t].0 as int, lines@[t].1 as int) == body[t]
                },
        decreases np - j,
    {
        let (a, b) = parts[j];
        assert(parts@[j as int] == (a, b));
        assert(body[j as int] == strip_cr(pieces[j as int]));
        if a < b && s[b - 1] == '\r' {
            proof {
                assert(s@.subrange(a as int, b - 1) =~= s@.subrange(a as int, b as int).drop_last());
            }
            lines.push((a, b - 1));
        } else {
            lines.push((a, b));
        }
        j = j + 1;
    }
    let (a, b) = parts[np - 1];
    assert(parts@[np - 1] == (a, b));
    if a < b {
        lines.push((a, b));
    }
    proof {
        let ls = lines_of(s@);
        assert forall|t: int|
            #![trigger lines@[t]]
            0 <= t < lines.len() implies {
                &&& lines@[t].0 <= lines@[t].1 <= s.len()
                &&& s@.subrange(lines@[t].0 as int, lines@[t].1 as int) == ls[t]
            } by {
            if t < np - 1 {
                assert(ls[t] == body[t]);
            }
        }
    }
    lines
}

/// Whether `c` has the Unicode `White_Space` property.
pub open spec fn is_unicode_whitespace(c: char) -> bool {
    ||| '\u{9}' <= c <= '\u{d}'
    ||| c == ' '
    ||| c == '\u{85}'
    ||| c == '\u{a0}'
    ||| c == '\u{1680}'
    ||| '\u{2000}' <= c <= '\u{200a}'
    ||| c == '\u{2028}'
    ||| c == '\u{2029}'
    ||| c == '\u{202f}'
    ||| c == '\u{205f}'
    ||| c == '\u{3000}'
}

/// Whether `c` is whitespace, as `char::is_whitespace` decides it.
pub fn is_whitespace(c: char) -> (b: bool)
    ensures
        b == is_unicode_whitespace(c),
{
    ('\u{9}' <= c && c <= '\u{d}') || c == ' ' || c == '\u{85}' || c == '\u{a0}' || c
        == '\u{1680}' || ('\u{2000}' <= c && c <= '\u{200a}') || c == '\u{2028}' || c
        == '\u{2029}' || c == '\u{202f}' || c == '\u{205f}' || c == '\u{3000}'
}

/// `s` without its leading whitespace, as `str::trim_start` gives it.
pub open spec fn trim_start(s: Seq<char>) -> Seq<char>
    decreases s.len(),
{
    if s.len() > 0 && is_unicode_whitespace(s[0]) {
        trim_start(s.drop_first())
    } else {
        s
    }
}

/// `s` without its trailing whitespace, as `str::trim_end` gives it.
pub open spec fn trim_end(s: Seq<char>) -> Seq<char>
    decreases s.len(),
{
    if s.len() > 0 && is_unicode_whitespace(s.last()) {
        trim_end(s.drop_last())
    } else {
        s
    }
}

/// `s` without leading and trailing whitespace, as `str::trim` gives it.
pub open spec fn trim(s: Seq<char>) -> Seq<char> {
    trim_end(trim_start(s))
}

/// Whether `s` begins with `p`.
pub open spec fn starts_with(s: Seq<char>, p: Seq<char>) -> bool {
    p.len() <= s.len() && s.take(p.len() as int) == p
}

/// The index of the first non-whitespace character of `s[a..b]`, or `b`.
pub fn skip_whitespace(s: &Vec<char>, a: usize, b: usize) -> (t: usize)
    requires
        a <= b <= s.len(),
    ensures
        a <= t <= b,
        trim_start(s@.subrange(a as int, b as int)) == s@.subrange(t as int, b as int),
{
    let mut t = a;
    loop
        invariant
            a <= t <= b <= s.len(),
            trim_start(s@.subrange(a as int, b as int)) == trim_start(s@.subrange(t as int, b as int)),
        decreases b - t,
    {
        if t == b {
            proof {
                assert(s@.subrange(t as int, b as int) =~= Seq::<char>::empty());
            }
            return t;
        }
        if !is_whitespace(s[t]) {
            return t;
        }
        proof {
            assert(s@.subrange(t as int, b as int).drop_first() =~= s@.subrange(t + 1, b as int));
            assert(s@.subrange(t as int, b as int)[0] == s@[t as int]);
        }
        t = t + 1;
    }
}

/// The index one past the last non-whitespace character of `s[a..b]`, or `a`.
pub fn skip_whitespace_back(s: &Vec<char>, a: usize, b: usize) -> (t: usize)
    requires
        a <= b <= s.len(),
    ensures
        a <= t <= b,
        trim_end(s@.subrange(a as int, b as int)) == s@.subrange(a as int, t as int),
{
    let mut t = b;
    loop
        invariant
            a <= t <= b <= s.len(),
            trim_end(s@.subrange(a as int, b as int)) == trim_end(s@.subrange(a as int, t as int)),
        decreases t - a,
    {
        if t == a {
            proof {
                assert(s@.subrange(a as int, t as int) =~= Seq::<char>::empty());
            }
            return t;
        }
        if !is_whitespace(s[t - 1]) {
            return t;
        }
        proof {
            assert(s@.subrange(a as int, t as int).drop_last() =~= s@.subrange(a as int, t - 1));
            assert(s@.subrange(a as int, t as int).last() == s@[t - 1]);
        }
        t = t - 1;
    }
}

/// Whether `s[a..b]` begins with `p`.
pub fn range_starts_with(s: &Vec<char>, a: usize, b: usize, p: &Vec<char>) -> (r: bool)
    requires
        a <= b <= s.len(),
    ensures
        r == starts_with(s@.subrange(a as int, b as int), p@),
{
    if p.len() > b - a {
        return false;
    }
    let r = matches_at(s, p, a);
    proof {
        assert(s@.subrange(a as int, b as int).take(p@.len() as int) =~= s@.subrange(
            a as int,
            a + p@.len(),
        ));
    }
    r
}

/// The pieces of `ls` joined with `sep` between each two of them.
pub open spec fn join(ls: Seq<Seq<char>>, sep: Seq<char>) -> Seq<char>
    decreases ls.len(),
{
    if ls.len() == 0 {
        Seq::empty()
    } else if ls.len() == 1 {
        ls[0]
    } else {
        join(ls.drop_last(), sep) + sep + ls.last()
    }
}


/// The characters of each string, in order.
pub open spec fn views(v: Seq<String>) -> Seq<Seq<char>> {
    v.map_values(|x: String| x@)
}

/// A copy of each string of `v`, in order.
pub fn copy_strings(v: &Vec<String>) -> (r: Vec<String>)
    ensures
        r@ == v@,
{
    let mut r: Vec<String> = Vec::new();
    let mut i: usize = 0;
    while i < v.len()
        invariant
            i <= v.len(),
            r@ == v@.take(i as int),
        decreases v.len() - i,
    {
        r.push(v[i].clone());
        proof {
            assert(v@.take(i + 1) =~= v@.take(i as int).push(v@[i as int]));
        }
        i = i + 1;
    }
    proof {
        assert(v@.take(v@.len() as int) =~= v@);
    }
    r
}

/// `s` without leading and trailing whitespace.
pub fn trim_text(s: &str) -> (r: String)
    ensures
        r@ == trim(s@),
{
    let chars = chars_of(s);
    let n = chars.len();
    let a = skip_whitespace(&chars, 0, n);
    let b = skip_whitespace_back(&chars, a, n);
    proof {
        assert(chars@.subrange(0, n as int) =~= chars@);
    }
    s.substring_char(a, b).to_owned()
}


/// Whether no character of `t` is one of `seps`.
pub open spec fn free_of(t: Seq<char>, seps: Seq<char>) -> bool {
    forall|i: int| 0 <= i < t.len() ==> !seps.contains(#[trigger] t[i])
}

/// Appending a separator starts a new, empty piece.
pub proof fn lemma_split_push_sep(s: Seq<char>, c: char, seps: Seq<char>)
    requires
        seps.contains(c),
    ensures
        split_on(s.push(c), seps) == split_on(s, seps).push(Seq::empty()),
{
    assert(s.push(c).drop_last() =~= s);
}

/// Appending text free of separators extends the last piece.
pub proof fn lemma_split_append_plain(s: Seq<char>, t: Seq<char>, seps: Seq<char>)
    requires
        free_of(t, seps),
    ensures
        split_on(s + t, seps) == split_on(s, seps).update(
            split_on(s, seps).len() - 1,
            split_on(s, seps).last() + t,
        ),
    decreases t.len(),
{
    lemma_split_nonempty(s, seps);
    let p = split_on(s, seps);
    if t.len() == 0 {
        assert(s + t =~= s);
        assert(p.last() + t =~= p.last());
        assert(p.update(p.len() - 1, p.last()) =~= p);
    } else {
        let t0 = t.drop_last();
        let x = t.last();
        assert(free_of(t0, seps)) by {
            assert forall|i: int| 0 <= i < t0.len() implies !seps.contains(#[trigger] t0[i]) by {
                assert(t0[i] == t[i]);
            }
        }
        lemma_split_append_plain(s, t0, seps);
        assert(!seps.contains(t[t.len() - 1]));
        assert((s + t).drop_last() =~= s + t0);
        assert((s + t).last() == x);
        lemma_split_nonempty(s + t0, seps);
        assert((p.last() + t0).push(x) =~= p.last() + t);
        assert(split_on(s + t, seps) =~= p.update(p.len() - 1, p.last() + t));
    }
}

/// Text free of separators is a single piece.
pub proof fn lemma_split_plain(t: Seq<char>, seps: Seq<char>)
    requires
        free_of(t, seps),
    ensures
        split_on(t, seps) == seq![t],
{
    let e = Seq::<char>::empty();
    lemma_split_append_plain(e, t, seps);
    assert(e + t =~= t);
    assert(seq![e].update(0, e + t) =~= seq![t]);
}

/// No piece of a split holds a separator.
pub proof fn lemma_split_parts_free(s: Seq<char>, seps: Seq<char>)
    ensures
        forall|j: int| 0 <= j < split_on(s, seps).len() ==> free_of(#[trigger] split_on(s, seps)[j], seps),
    decreases s.len(),
{
    if s.len() > 0 {
        lemma_split_parts_free(s.drop_last(), seps);
        lemma_split_nonempty(s.drop_last(), seps);
        let p = split_on(s.drop_last(), seps);
        let q = split_on(s, seps);
        assert forall|j: int| 0 <= j < q.len() implies free_of(#[trigger] q[j], seps) by {
            if j < p.len() {
                assert(free_of(p[j], seps));
            }
            if !seps.contains(s.last()) && j == p.len() - 1 {
                assert forall|i: int| 0 <= i < q[j].len() implies !seps.contains(#[trigger] q[j][i]) by {
                    if i < p[j].len() {
                        assert(q[j][i] == p[j][i]);
                    }
                }
            }
        }
    }
}

/// Joining with one more piece.
pub proof fn lemma_join_push(ls: Seq<Seq<char>>, l: Seq<char>, sep: Seq<char>)
    requires
        ls.len() >= 1,
    ensures
        join(ls.push(l), sep) == join(ls, sep) + sep + l,
{
    assert(ls.push(l).drop_last() =~= ls);
}

/// Joining pieces free of a separator, then splitting at it, gives the
/// pieces back.
pub proof fn lemma_split_join(ls: Seq<Seq<char>>, c: char)
    requires
        ls.len() >= 1,
        forall|j: int| 0 <= j < ls.len() ==> free_of(#[trigger] ls[j], seq![c]),
    ensures
        split_on(join(ls, seq![c]), seq![c]) == ls,
    decreases ls.len(),
{
    let sep = seq![c];
    assert(sep.contains(c)) by {
        assert(sep[0] == c);
    }
    if ls.len() == 1 {
        assert(free_of(ls[0], sep));
        lemma_split_plain(ls[0], sep);
        assert(seq![ls[0]] =~= ls);
    } else {
        let init = ls.drop_last();
        assert forall|j: int| 0 <= j < init.len() implies free_of(#[trigger] init[j], sep) by {
            assert(init[j] == ls[j]);
        }
        lemma_split_join(init, c);
        let j0 = join(init, sep);
        assert(j0 + sep =~= j0.push(c));
        lemma_split_push_sep(j0, c, sep);
        assert(free_of(ls.last(), sep)) by {
            assert(ls.last() == ls[ls.len() - 1]);
        }
        lemma_split_append_plain(j0.push(c), ls.last(), sep);
        assert(join(ls, sep) == j0 + sep + ls.last());
        assert(j0 + sep + ls.last() =~= j0.push(c) + ls.last());
        let e = Seq::<char>::empty();
        assert(e + ls.last() =~= ls.last());
        assert(init.push(e).update(init.len() as int, e + ls.last()) =~= ls);
    }
}

/// Splitting at a separator, then joining with it, gives the text back.
pub proof fn lemma_join_split(s: Seq<char>, c: char)
    ensures
        join(split_on(s, seq![c]), seq![c]) == s,
    decreases s.len(),
{
    let sep = seq![c];
    if s.len() == 0 {
    } else {
        let s0 = s.drop_last();
        let x = s.last();
        lemma_join_split(s0, c);
        lemma_split_nonempty(s0, sep);
        let p = split_on(s0, sep);
        if x == c {
            assert(sep.contains(x)) by {
                assert(sep[0] == c);
            }
            lemma_join_push(p, Seq::empty(), sep);
            assert(join(p, sep) + sep + Seq::<char>::empty() =~= s);
        } else {
            assert(!sep.contains(x));
            let q = p.update(p.len() - 1, p.last().push(x));
            if p.len() == 1 {
                assert(q[0] == p[0].push(x));
                assert(s0.push(x) =~= s);
            } else {
                assert(q.drop_last() =~= p.drop_last());
                assert(join(p, sep) == join(p.drop_last(), sep) + sep + p.last());
                assert(join(q, sep) == join(q.drop_last(), sep) + sep + q.last());
                assert(q.last() == p.last().push(x));
                assert(join(q, sep) =~= join(p, sep).push(x));
                assert(s0.push(x) =~= s);
            }
        }
    }
}

/// The lines of text built by ending each of `ls` with `\n` are `ls`, each
/// without one trailing `\r`.
pub proof fn lemma_lines_of_joined(ls: Seq<Seq<char>>)
    requires
        ls.len() >= 1,
        forall|j: int| 0 <= j < ls.len() ==> free_of(#[trigger] ls[j], seq!['\n']),
    ensures
        lines_of(join(ls, seq!['\n']) + seq!['\n']) == ls.map_values(|p: Seq<char>| strip_cr(p)),
{
    let nl = seq!['\n'];
    let j0 = join(ls, nl);
    lemma_split_join(ls, '\n');
    assert(nl.contains('\n')) by {
        assert(nl[0] == '\n');
    }
    assert(j0 + nl =~= j0.push('\n'));
    lemma_split_push_sep(j0, '\n', nl);
    let parts = ls.push(Seq::empty());
    assert(parts.take(parts.len() - 1) =~= ls);
    assert(lines_of(j0 + nl) =~= ls.map_values(|p: Seq<char>| strip_cr(p)));
}

/// The lines of any text hold no `\n`.
pub proof fn lemma_lines_free(s: Seq<char>)
    ensures
        forall|j: int| 0 <= j < lines_of(s).len() ==> free_of(#[trigger] lines_of(s)[j], seq!['\n']),
{
    let nl = seq!['\n'];
    lemma_split_parts_free(s, nl);
    lemma_split_nonempty(s, nl);
    let parts = split_on(s, nl);
    let ls = lines_of(s);
    assert forall|j: int| 0 <= j < ls.len() implies free_of(#[trigger] ls[j], nl) by {
        assert(free_of(parts[j], nl));
        if j < parts.len() - 1 {
            assert(ls[j] == strip_cr(parts[j]));
            if parts[j].len() > 0 && parts[j].last() == '\r' {
                assert forall|i: int| 0 <= i < ls[j].len() implies !nl.contains(#[trigger] ls[j][i]) by {
                    assert(ls[j][i] == parts[j][i]);
                }
            }
        } else {
            assert(ls[j] == parts[j]);
        }
    }
}

/// Leading whitespace is removed the same way before a further character,
/// unless nothing is left of `s`.
pub proof fn lemma_trim_start_push(s: Seq<char>, x: char)
    ensures
        trim_start(s).len() > 0 ==> trim_start(s.push(x)) == trim_start(s).push(x),
        trim_start(s).len() == 0 ==> trim_start(s.push(x)) == trim_start(seq![x]),
    decreases s.len(),
{
    if s.len() == 0 {
        assert(s.push(x) =~= seq![x]);
    } else if is_unicode_whitespace(s[0]) {
        lemma_trim_start_push(s.drop_first(), x);
        assert(s.push(x).drop_first() =~= s.drop_first().push(x));
        assert(s.push(x)[0] == s[0]);
    } else {
        assert(s.push(x)[0] == s[0]);
    }
}


/// `trim_start` drops a run of leading whitespace and keeps the rest from
/// the first non-whitespace character on.
proof fn lemma_trim_start_shape(s: Seq<char>) -> (k: int)
    ensures
        0 <= k <= s.len(),
        trim_start(s) == s.skip(k),
        forall|i: int| 0 <= i < k ==> is_unicode_whitespace(#[trigger] s[i]),
        k < s.len() ==> !is_unicode_whitespace(s[k]),
    decreases s.len(),
{
    if s.len() > 0 && is_unicode_whitespace(s[0]) {
        let k0 = lemma_trim_start_shape(s.drop_first());
        assert(s.drop_first().skip(k0) =~= s.skip(k0 + 1));
        assert forall|i: int| 0 <= i < k0 + 1 implies is_unicode_whitespace(#[trigger] s[i]) by {
            if i > 0 {
                assert(s[i] == s.drop_first()[i - 1]);
            }
        }
        if k0 + 1 < s.len() {
            assert(s[k0 + 1] == s.drop_first()[k0]);
        }
        k0 + 1
    } else {
        assert(s.skip(0) =~= s);
        0
    }
}

/// `trim_end` drops a run of trailing whitespace and keeps the rest up to
/// the last non-whitespace character.
proof fn lemma_trim_end_shape(s: Seq<char>) -> (m: int)
    ensures
        0 <= m <= s.len(),
        trim_end(s) == s.take(m),
        forall|i: int| m <= i < s.len() ==> is_unicode_whitespace(#[trigger] s[i]),
        m > 0 ==> !is_unicode_whitespace(s[m - 1]),
    decreases s.len(),
{
    if s.len() > 0 && is_unicode_whitespace(s.last()) {
        let m0 = lemma_trim_end_shape(s.drop_last());
        assert(s.drop_last().take(m0) =~= s.take(m0));
        assert forall|i: int| m0 <= i < s.len() implies is_unicode_whitespace(#[trigger] s[i]) by {
            if i < s.len() - 1 {
                assert(s[i] == s.drop_last()[i]);
            }
        }
        if m0 > 0 {
            assert(s[m0 - 1] == s.drop_last()[m0 - 1]);
        }
        m0
    } else {
        assert(s.take(s.len() as int) =~= s);
        s.len() as int
    }
}

/// Trimming removes exactly the whitespace at both ends: the trimmed text is
/// the part of `s` between a run of leading and a run of trailing
/// whitespace, and it begins and ends with a non-whitespace character
/// unless it is empty (in which case `s` was all whitespace).
pub proof fn law_trim_strips_only_outer_whitespace(s: Seq<char>)
    ensures
        exists|i: int, j: int|
            0 <= i <= j <= s.len() && trim(s) == s.subrange(i, j) && (forall|k: int|
                0 <= k < i ==> is_unicode_whitespace(#[trigger] s[k])) && (forall|k: int|
                j <= k < s.len() ==> is_unicode_whitespace(#[trigger] s[k])) && (i < j ==> (
            !is_unicode_whitespace(s[i]) && !is_unicode_whitespace(s[j - 1]))),
{
    let k = lemma_trim_start_shape(s);
    let t = s.skip(k);
    let m = lemma_trim_end_shape(t);
    let j = k + m;
    assert(t.take(m) =~= s.subrange(k, j));
    assert forall|x: int| j <= x < s.len() implies is_unicode_whitespace(#[trigger] s[x]) by {
        assert(s[x] == t[x - k]);
    }
    if k < j {
        assert(t[0] == s[k]);
        assert(t[m - 1] == s[j - 1]);
    }
    assert(0 <= k <= j <= s.len() && trim(s) == s.subrange(k, j) && (forall|x: int|
        0 <= x < k ==> is_unicode_whitespace(#[trigger] s[x])) && (forall|x: int|
        j <= x < s.len() ==> is_unicode_whitespace(#[trigger] s[x])) && (k < j ==> (
    !is_unicode_whitespace(s[k]) && !is_unicode_whitespace(s[j - 1]))));
}

/// Text that neither begins nor ends with whitespace is kept whole by
/// trimming, whatever it holds inside (line breaks included).
pub proof fn law_trim_keeps_inner_text(s: Seq<char>)
    requires
        s.len() > 0,
        !is_unicode_whitespace(s[0]),
        !is_unicode_whitespace(s[s.len() - 1]),
    ensures
        trim(s) == s,
{
    law_trim_strips_only_outer_whitespace(s);
    let (i, j) = choose|i: int, j: int|
        0 <= i <= j <= s.len() && trim(s) == s.subrange(i, j) && (forall|k: int|
            0 <= k < i ==> is_unicode_whitespace(#[trigger] s[k])) && (forall|k: int|
            j <= k < s.len() ==> is_unicode_whitespace(#[trigger] s[k])) && (i < j ==> (
        !is_unicode_whitespace(s[i]) && !is_unicode_whitespace(s[j - 1])));
    if i > 0 {
        assert(is_unicode_whitespace(s[0]));
    }
    if j < s.len() {
        assert(is_unicode_whitespace(s[s.len() - 1]));
    }
    assert(s.subrange(0, s.len() as int) =~= s);
}

} // verus!
