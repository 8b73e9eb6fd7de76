use vstd::prelude::*;

verus! {

/// The levels of a topic or filter: its characters cut at every `/`.
/// There is always at least one level; `"a//b"` has an empty middle level.
pub open spec fn split_levels(s: Seq<char>) -> Seq<Seq<char>>
    decreases s.len(),
{
    if s.len() == 0 {
        seq![Seq::<char>::empty()]
    } else {
        let rest = split_levels(s.drop_last());
        if s.last() == '/' {
            rest.push(Seq::<char>::empty())
        } else {
            rest.update(rest.len() - 1, rest.last().push(s.last()))
        }
    }
}

/// Level-by-level matching of filter levels `f` against topic levels `t`:
/// `+` takes exactly one level, `#` takes all that remain, even none.
pub open spec fn levels_match(f: Seq<Seq<char>>, t: Seq<Seq<char>>) -> bool
    decreases f.len(),
{
    if f.len() == 0 {
        t.len() == 0
    } else if f[0] == seq!['#'] {
        true
    } else if t.len() == 0 {
        false
    } else if f[0] == seq!['+'] || f[0] == t[0] {
        levels_match(f.drop_first(), t.drop_first())
    } else {
        false
    }
}

/// Whether a filter starts with a wildcard level.
pub open spec fn starts_with_wildcard(f: Seq<char>) -> bool {
    f.len() > 0 && (f[0] == '+' || f[0] == '#')
}

/// Whether the concrete topic `t` matches the filter `f`. Topics whose first
/// character is `$` are system topics: a filter that starts with a wildcard
/// never matches them.
pub open spec fn topic_matches(f: Seq<char>, t: Seq<char>) -> bool {
    &&& !(t.len() > 0 && t[0] == '$' && starts_with_wildcard(f))
    &&& levels_match(split_levels(f), split_levels(t))
}

/// Whether a level holds a wildcard character.
pub open spec fn has_wildcard(l: Seq<char>) -> bool {
    l.contains('+') || l.contains('#')
}

/// Level `i` of the filter levels `ls` is well placed: either free of
/// wildcards, or exactly `+`, or exactly `#` as the final level.
pub open spec fn level_ok(ls: Seq<Seq<char>>, i: int) -> bool {
    ||| !has_wildcard(ls[i])
    ||| ls[i] == seq!['+']
    ||| (ls[i] == seq!['#'] && i == ls.len() - 1)
}

/// A subscription filter: non-empty, with wildcards only as whole levels and
/// `#` only last.
pub open spec fn valid_filter(f: Seq<char>) -> bool {
    let ls = split_levels(f);
    &&& f.len() > 0
    &&& forall|i: int| 0 <= i < ls.len() ==> #[trigger] level_ok(ls, i)
}

/// A concrete topic, as publications need: non-empty and free of wildcards.
pub open spec fn valid_topic(t: Seq<char>) -> bool {
    t.len() > 0 && !has_wildcard(t)
}

/// The position of the first NUL character of `s`, if any.
pub open spec fn is_first_nul(s: Seq<char>, k: int) -> bool {
    &&& 0 <= k < s.len()
    &&& s[k] == '\0'
    &&& forall|j: int| 0 <= j < k ==> s[j] != '\0'
}

/// The characters of a string, one by one.
pub fn chars_of(s: &str) -> (r: Vec<char>)
    ensures
        r@ == s@,
{
    let n = s.unicode_len();
    let mut r: Vec<char> = Vec::new();
    let mut i: usize = 0;
    while i < n
        invariant
            n == s@.len(),
            i <= n,
            r@ == s@.take(i as int),
        decreases n - i,
    {
        let c = s.get_char(i);
        r.push(c);
        i = i + 1;
        assert(r@ =~= s@.take(i as int));
    }
    assert(r@ =~= s@);
    r
}

/// Finds the first NUL character, if any.
pub fn find_nul(s: &Vec<char>) -> (r: Option<usize>)
    ensures
        r matches Some(k) ==> is_first_nul(s@, k as int),
        r is None <==> !s@.contains('\0'),
{
    let mut i: usize = 0;
    while i < s.len()
        invariant
            i <= s@.len(),
            forall|j: int| 0 <= j < i ==> s@[j] != '\0',
        decreases s.len() - i,
    {
        if s[i] == '\0' {
            return Some(i);
        }
        i = i + 1;
    }
    None
}

/// Whether `c` occurs in `s[from..to]`.
fn range_contains(s: &Vec<char>, from: usize, to: usize, c: char) -> (r: bool)
    requires
        from <= to <= s@.len(),
    ensures
        r == s@.subrange(from as int, to as int).contains(c),
{
    let mut i: usize = from;
    while i < to
        invariant
            from <= i <= to <= s@.len(),
            forall|j: int| from <= j < i ==> s@[j] != c,
        decreases to - i,
    {
        if s[i] == c {
            assert(s@.subrange(from as int, to as int)[i - from] == c);
            return true;
        }
        i = i + 1;
    }
    assert forall|j: int| 0 <= j < to - from implies s@.subrange(from as int, to as int)[j] != c by {
        assert(s@.subrange(from as int, to as int)[j] == s@[from + j]);
    }
    false
}

/// The levels of `s` as character ranges `[start, end)`, one per level.
pub fn level_ranges(s: &Vec<char>) -> (r: Vec<(usize, usize)>)
    ensures
        r@.len() == split_levels(s@).len(),
        forall|k: int| #![trigger r@[k]] 0 <= k < r@.len() ==> r@[k].0 <= r@[k].1 <= s@.len(),
        forall|k: int|
            0 <= k < r@.len() ==> s@.subrange(r@[k].0 as int, r@[k].1 as int)
                == #[trigger] split_levels(s@)[k],
{
    let mut r: Vec<(usize, usize)> = Vec::new();
    r.push((0, 0));
    let mut i: usize = 0;
    proof {
        assert(s@.take(0) =~= Seq::<char>::empty());
        assert(s@.subrange(0, 0) =~= Seq::<char>::empty());
    }
    while i < s.len()
        invariant
            i <= s@.len(),
            r@.len() == split_levels(s@.take(i as int)).len(),
            r@.len() >= 1,
            r@[r@.len() - 1].1 == i,
            forall|k: int| #![trigger r@[k]] 0 <= k < r@.len() ==> r@[k].0 <= r@[k].1 <= i,
            forall|k: int|
                0 <= k < r@.len() ==> s@.subrange(r@[k].0 as int, r@[k].1 as int)
                    == #[trigger] split_levels(s@.take(i as int))[k],
        decreases s.len() - i,
    {
        let ghost prev = split_levels(s@.take(i as int));
        let ghost next_s = s@.take(i as int + 1);
        let ghost old_r = r@;
        proof {
            assert(next_s.drop_last() =~= s@.take(i as int));
            assert(next_s.last() == s@[i as int]);
        }
        if s[i] == '/' {
            r.push((i + 1, i + 1));
            proof {
                assert(split_levels(next_s) == prev.push(Seq::<char>::empty()));
                assert(s@.subrange(i + 1, i + 1) =~= Seq::<char>::empty());
                assert forall|k: int| 0 <= k < r@.len() implies s@.subrange(
                    r@[k].0 as int,
                    r@[k].1 as int,
                ) == #[trigger] split_levels(next_s)[k] by {
                    if k < prev.len() {
                        assert(split_levels(next_s)[k] == prev[k]);
                    }
                }
            }
        } else {
            let last = r.len() - 1;
            let (start, _) = r[last];
            r.set(last, (start, i + 1));
            proof {
                assert(split_levels(next_s) == prev.update(
                    prev.len() - 1,
                    prev.last().push(s@[i as int]),
                ));
                assert(s@.subrange(start as int, i + 1) =~= s@.subrange(
                    start as int,
                    i as int,
                ).push(s@[i as int]));
                assert forall|k: int| 0 <= k < r@.len() implies s@.subrange(
                    r@[k].0 as int,
                    r@[k].1 as int,
                ) == #[trigger] split_levels(next_s)[k] by {
                    if k < last {
                        assert(split_levels(next_s)[k] == prev[k]);
                    } else {
                        assert(prev.last() == prev[last as int]);
                    }
                }
            }
        }
        proof {
            assert forall|k: int| #![trigger r@[k]] 0 <= k < r@.len() implies r@[k].0 <= r@[k].1 <= i
                + 1 by {
                if k < old_r.len() && k != old_r.len() - 1 {
                    assert(r@[k] == old_r[k]);
                } else if k == old_r.len() - 1 {
                    assert(old_r[k].0 <= old_r[k].1);
                }
            }
        }
        i = i + 1;
    }
    assert(s@.take(s@.len() as int) =~= s@);
    assert forall|k: int| 0 <= k < r@.len() implies s@.subrange(
        r@[k].0 as int,
        r@[k].1 as int,
    ) == #[trigger] split_levels(s@)[k] by {
        assert(split_levels(s@.take(i as int))[k] == split_levels(s@)[k]);
    }
    r
}

} // verus!

verus! {

/// Whether `a[ar]` and `b[br]` hold the same characters.
fn ranges_equal(a: &Vec<char>, ar: (usize, usize), b: &Vec<char>, br: (usize, usize)) -> (r: bool)
    requires
        ar.0 <= ar.1 <= a@.len(),
        br.0 <= br.1 <= b@.len(),
    ensures
        r == (a@.subrange(ar.0 as int, ar.1 as int) == b@.subrange(br.0 as int, br.1 as int)),
{
    let ghost sa = a@.subrange(ar.0 as int, ar.1 as int);
    let ghost sb = b@.subrange(br.0 as int, br.1 as int);
    if ar.1 - ar.0 != br.1 - br.0 {
        assert(sa.len() != sb.len());
        return false;
    }
    let n = ar.1 - ar.0;
    let mut i: usize = 0;
    while i < n
        invariant
            n == ar.1 - ar.0 == br.1 - br.0,
            ar.0 <= ar.1 <= a@.len(),
            br.0 <= br.1 <= b@.len(),
            sa == a@.subrange(ar.0 as int, ar.1 as int),
            sb == b@.subrange(br.0 as int, br.1 as int),
            i <= n,
            forall|j: int| 0 <= j < i ==> sa[j] == sb[j],
        decreases n - i,
    {
        if a[ar.0 + i] != b[br.0 + i] {
            assert(sa[i as int] != sb[i as int]);
            return false;
        }
        i = i + 1;
    }
    assert(sa =~= sb);
    true
}

/// Whether `s[sr]` is the one-character level `c`.
fn range_is(s: &Vec<char>, sr: (usize, usize), c: char) -> (r: bool)
    requires
        sr.0 <= sr.1 <= s@.len(),
    ensures
        r == (s@.subrange(sr.0 as int, sr.1 as int) == seq![c]),
{
    if sr.1 - sr.0 == 1 && s[sr.0] == c {
        assert(s@.subrange(sr.0 as int, sr.1 as int) =~= seq![c]);
        true
    } else {
        if sr.1 - sr.0 == 1 {
            assert(s@.subrange(sr.0 as int, sr.1 as int)[0] != seq![c][0]);
        } else {
            assert(s@.subrange(sr.0 as int, sr.1 as int).len() != seq![c].len());
        }
        false
    }
}

proof fn lemma_skip_step<T>(s: Seq<T>, j: int)
    requires
        0 <= j < s.len(),
    ensures
        s.skip(j)[0] == s[j],
        s.skip(j).drop_first() == s.skip(j + 1),
        s.skip(j).len() > 0,
{
    assert(s.skip(j).drop_first() =~= s.skip(j + 1));
}

/// Level-by-level matching of two character sequences.
fn levels_match_exec(f: &Vec<char>, t: &Vec<char>) -> (r: bool)
    ensures
        r == levels_match(split_levels(f@), split_levels(t@)),
{
    let fr = level_ranges(f);
    let tr = level_ranges(t);
    let ghost fl = split_levels(f@);
    let ghost tl = split_levels(t@);
    let mut j: usize = 0;
    assert(fl.skip(0) =~= fl);
    assert(tl.skip(0) =~= tl);
    while j < fr.len()
        invariant
            fl == split_levels(f@),
            tl == split_levels(t@),
            fr@.len() == fl.len(),
            tr@.len() == tl.len(),
            forall|k: int| #![trigger fr@[k]] 0 <= k < fr@.len() ==> fr@[k].0 <= fr@[k].1 <= f@.len(),
            forall|k: int| #![trigger tr@[k]] 0 <= k < tr@.len() ==> tr@[k].0 <= tr@[k].1 <= t@.len(),
            forall|k: int|
                0 <= k < fr@.len() ==> f@.subrange(fr@[k].0 as int, fr@[k].1 as int)
                    == #[trigger] fl[k],
            forall|k: int|
                0 <= k < tr@.len() ==> t@.subrange(tr@[k].0 as int, tr@[k].1 as int)
                    == #[trigger] tl[k],
            j <= fl.len(),
            j <= tl.len(),
            levels_match(fl, tl) == levels_match(fl.skip(j as int), tl.skip(j as int)),
        decreases fr.len() - j,
    {
        proof {
            lemma_skip_step(fl, j as int);
            assert(fl[j as int] == fl.skip(j as int)[0]);
        }
        let ghost fj = fl.skip(j as int);
        let ghost tj = tl.skip(j as int);
        if range_is(f, fr[j], '#') {
            assert(fj[0] == seq!['#']);
            assert(levels_match(fj, tj));
            return true;
        }
        assert(fj[0] != seq!['#']);
        if j == tr.len() {
            assert(tj.len() == 0);
            assert(!levels_match(fj, tj));
            return false;
        }
        proof {
            lemma_skip_step(tl, j as int);
            assert(tl[j as int] == tj[0]);
        }
        if range_is(f, fr[j], '+') || ranges_equal(f, fr[j], t, tr[j]) {
            assert(levels_match(fj, tj) == levels_match(fj.drop_first(), tj.drop_first()));
            j = j + 1;
        } else {
            assert(!levels_match(fj, tj));
            return false;
        }
    }
    assert(fl.skip(j as int).len() == 0);
    assert(tl.skip(j as int).len() == 0 <==> j == tr.len());
    j == tr.len()
}

/// Whether the concrete topic `topic` matches the subscription filter `filter`.
pub fn filter_matches(filter: &Vec<char>, topic: &Vec<char>) -> (r: bool)
    ensures
        r == topic_matches(filter@, topic@),
{
    if topic.len() > 0 && topic[0] == '$' && filter.len() > 0 && (filter[0] == '+' || filter[0]
        == '#') {
        return false;
    }
    levels_match_exec(filter, topic)
}

/// Whether `s` holds no `+` and no `#`.
fn no_wildcard(s: &Vec<char>, sr: (usize, usize)) -> (r: bool)
    requires
        sr.0 <= sr.1 <= s@.len(),
    ensures
        r == !has_wildcard(s@.subrange(sr.0 as int, sr.1 as int)),
{
    !range_contains(s, sr.0, sr.1, '+') && !range_contains(s, sr.0, sr.1, '#')
}

/// Whether `filter` is a well-formed subscription filter.
pub fn is_valid_filter(filter: &Vec<char>) -> (r: bool)
    ensures
        r == valid_filter(filter@),
{
    if filter.len() == 0 {
        return false;
    }
    let fr = level_ranges(filter);
    let ghost fl = split_levels(filter@);
    let mut j: usize = 0;
    while j < fr.len()
        invariant
            fl == split_levels(filter@),
            filter@.len() > 0,
            fr@.len() == fl.len(),
            forall|k: int| #![trigger fr@[k]] 0 <= k < fr@.len() ==> fr@[k].0 <= fr@[k].1 <= filter@.len(),
            forall|k: int|
                0 <= k < fr@.len() ==> filter@.subrange(fr@[k].0 as int, fr@[k].1 as int)
                    == #[trigger] fl[k],
            j <= fl.len(),
            forall|k: int| 0 <= k < j ==> #[trigger] level_ok(fl, k),
        decreases fr.len() - j,
    {
        assert(fl[j as int] == filter@.subrange(fr@[j as int].0 as int, fr@[j as int].1 as int));
        let ok = no_wildcard(filter, fr[j]) || range_is(filter, fr[j], '+') || (range_is(
            filter,
            fr[j],
            '#',
        ) && j == fr.len() - 1);
        if !ok {
            assert(!level_ok(fl, j as int));
            assert(!valid_filter(filter@));
            return false;
        }
        j = j + 1;
    }
    true
}

/// Whether `topic` is a concrete topic that may be published to.
pub fn is_valid_topic(topic: &Vec<char>) -> (r: bool)
    ensures
        r == valid_topic(topic@),
{
    assert(topic@.subrange(0, topic@.len() as int) =~= topic@);
    topic.len() > 0 && no_wildcard(topic, (0, topic.len()))
}

} // verus!
