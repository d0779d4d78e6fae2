use vstd::prelude::*;

verus! {

/// Horizontal whitespace, as the token splitter sees it.
pub open spec fn is_space(c: char) -> bool {
    c == ' ' || c == '\t' || c == '\r'
}

/// The index of the first occurrence of `sep`, or the length when
/// absent.
pub open spec fn find_ch(s: Seq<char>, sep: char) -> int
    decreases s.len(),
{
    if s.len() == 0 {
        0
    } else if s[0] == sep {
        0
    } else {
        1 + find_ch(s.drop_first(), sep)
    }
}

/// The index of the first whitespace character, or the length.
pub open spec fn find_space(s: Seq<char>) -> int
    decreases s.len(),
{
    if s.len() == 0 {
        0
    } else if is_space(s[0]) {
        0
    } else {
        1 + find_space(s.drop_first())
    }
}

/// A first-occurrence characterisation: no hit before `i`, a hit or the
/// end at `i`.
pub(crate) proof fn lemma_find_ch(s: Seq<char>, sep: char, i: int)
    requires
        0 <= i <= s.len(),
        forall|j: int| 0 <= j < i ==> s[j] != sep,
        i < s.len() ==> s[i] == sep,
    ensures
        find_ch(s, sep) == i,
    decreases s.len(),
{
    if s.len() > 0 && s[0] != sep {
        let s0 = s.drop_first();
        assert(forall|j: int| 0 <= j < i - 1 ==> s0[j] == s[j + 1] && s0[j] != sep);
        lemma_find_ch(s0, sep, i - 1);
    }
}

/// The same characterisation for the whitespace find.
pub(crate) proof fn lemma_find_space(s: Seq<char>, i: int)
    requires
        0 <= i <= s.len(),
        forall|j: int| 0 <= j < i ==> !is_space(s[j]),
        i < s.len() ==> is_space(s[i]),
    ensures
        find_space(s) == i,
    decreases s.len(),
{
    if s.len() > 0 && !is_space(s[0]) {
        let s0 = s.drop_first();
        assert(forall|j: int| 0 <= j < i - 1 ==> s0[j] == s[j + 1] && !is_space(s0[j]));
        lemma_find_space(s0, i - 1);
    }
}

/// The whitespace find never leaves the string: it is between zero and
/// the length.
pub(crate) proof fn lemma_find_space_bounds(s: Seq<char>)
    ensures
        0 <= find_space(s) <= s.len(),
    decreases s.len(),
{
    if s.len() > 0 && !is_space(s[0]) {
        lemma_find_space_bounds(s.drop_first());
    }
}

/// The fields of `s` between occurrences of `sep`: always one more
/// field than separators. (The first branch also covers an
/// out-of-range find, which never actually happens.)
pub open spec fn split_ch(s: Seq<char>, sep: char) -> Seq<Seq<char>>
    decreases s.len(),
{
    let i = find_ch(s, sep);
    if i < 0 || i >= s.len() {
        seq![s]
    } else {
        seq![s.take(i)] + split_ch(s.skip(i + 1), sep)
    }
}

/// The whitespace-separated tokens of `s`, empties dropped. (The
/// out-of-range guard on the find is ruled out by
/// `lemma_find_space_bounds`.)
pub open spec fn tokens(s: Seq<char>) -> Seq<Seq<char>>
    decreases s.len(),
{
    if s.len() == 0 {
        Seq::empty()
    } else if is_space(s[0]) {
        tokens(s.drop_first())
    } else {
        let i = find_space(s);
        if i < 1 || i > s.len() {
            seq![s]
        } else {
            seq![s.take(i)] + tokens(s.skip(i))
        }
    }
}

/// `pat` occurs contiguously somewhere in `s`.
pub open spec fn contains_sub(s: Seq<char>, pat: Seq<char>) -> bool {
    exists|i: int| 0 <= i <= s.len() - pat.len() && #[trigger] s.subrange(i, i + pat.len()) == pat
}

/// What stands between the first `=` of a token and the next `=` or the
/// end; nothing when the token has no `=`.
pub open spec fn eq_value(t: Seq<char>) -> Option<Seq<char>> {
    let i = find_ch(t, '=');
    if i >= t.len() {
        None
    } else {
        let rest = t.skip(i + 1);
        Some(rest.take(find_ch(rest, '=')))
    }
}

/// The package name carried by one package line: the value of its third
/// token. A line with fewer tokens, or whose third token has no `=`,
/// carries none.
pub open spec fn pkg_of_line(line: Seq<char>) -> Option<Seq<char>> {
    if tokens(line).len() >= 3 {
        eq_value(tokens(line)[2])
    } else {
        None
    }
}

/// The lines that mention `pat`, in order.
pub open spec fn lines_with(ls: Seq<Seq<char>>, pat: Seq<char>) -> Seq<Seq<char>>
    decreases ls.len(),
{
    if ls.len() == 0 {
        Seq::empty()
    } else {
        lines_with(ls.drop_last(), pat) + if contains_sub(ls.last(), pat) {
            seq![ls.last()]
        } else {
            Seq::empty()
        }
    }
}

/// Package lines and focus lines correlated by position: a package is
/// in the foreground set when the focus line at the same rank says the
/// window can receive keys.
pub open spec fn zip_packages(ps: Seq<Seq<char>>, ks: Seq<Seq<char>>) -> Seq<Seq<char>>
    decreases ps.len(),
{
    if ps.len() == 0 || ks.len() == 0 {
        Seq::empty()
    } else {
        let rest = zip_packages(ps.drop_first(), ks.drop_first());
        if contains_sub(ks[0], "canReceiveKeys()=true"@) {
            match pkg_of_line(ps[0]) {
                Some(p) => seq![p] + rest,
                None => rest,
            }
        } else {
            rest
        }
    }
}

/// The foreground packages named by one introspection dump.
pub open spec fn top_pkgs_spec(dump: Seq<char>) -> Seq<Seq<char>> {
    let ls = split_ch(dump, '\n');
    zip_packages(lines_with(ls, "package="@), lines_with(ls, "canReceiveKeys()"@))
}

/// The index of the first occurrence of `sep` in `s`, or its length.
fn find_char(s: &str, sep: char) -> (r: usize)
    ensures
        r == find_ch(s@, sep),
        r <= s@.len(),
{
    let n = s.unicode_len();
    let mut i: usize = 0;
    while i < n
        invariant
            i <= n,
            n == s@.len(),
            forall|j: int| 0 <= j < i ==> s@[j] != sep,
        decreases n - i,
    {
        if s.get_char(i) == sep {
            proof {
                lemma_find_ch(s@, sep, i as int);
            }
            return i;
        }
        i = i + 1;
    }
    proof {
        lemma_find_ch(s@, sep, n as int);
    }
    n
}

/// Whether the character is horizontal whitespace.
fn space_char(c: char) -> (r: bool)
    ensures
        r == is_space(c),
{
    c == ' ' || c == '\t' || c == '\r'
}

/// The index of the first whitespace in `s`, or its length.
fn find_space_idx(s: &str) -> (r: usize)
    ensures
        r == find_space(s@),
        r <= s@.len(),
{
    let n = s.unicode_len();
    let mut i: usize = 0;
    while i < n
        invariant
            i <= n,
            n == s@.len(),
            forall|j: int| 0 <= j < i ==> !is_space(s@[j]),
        decreases n - i,
    {
        if space_char(s.get_char(i)) {
            proof {
                lemma_find_space(s@, i as int);
            }
            return i;
        }
        i = i + 1;
    }
    proof {
        lemma_find_space(s@, n as int);
    }
    n
}

/// Splits `s` at every occurrence of `sep`.
fn split_char(s: &str, sep: char) -> (r: Vec<String>)
    ensures
        r@.map_values(|x: String| x@) == split_ch(s@, sep),
    decreases s@.len(),
{
    let n = s.unicode_len();
    let i = find_char(s, sep);
    if i >= n {
        proof {
            assert(s@.take(n as int) =~= s@);
        }
        let mut one: Vec<String> = Vec::new();
        one.push(s.to_owned());
        proof {
            assert(one@.map_values(|x: String| x@) =~= seq![s@]);
        }
        one
    } else {
        let head = s.substring_char(0, i).to_owned();
        let tail = s.substring_char(i + 1, n);
        proof {
            assert(tail@ =~= s@.skip(i + 1));
            assert(head@ =~= s@.take(i as int));
        }
        let mut rest = split_char(tail, sep);
        rest.insert(0, head);
        proof {
            assert(rest@.map_values(|x: String| x@) =~= seq![s@.take(i as int)] + split_ch(
                s@.skip(i + 1),
                sep,
            ));
        }
        rest
    }
}

/// The whitespace-separated tokens of `s`.
fn split_tokens(s: &str) -> (r: Vec<String>)
    ensures
        r@.map_values(|x: String| x@) == tokens(s@),
    decreases s@.len(),
{
    let n = s.unicode_len();
    if n == 0 {
        let empty: Vec<String> = Vec::new();
        proof {
            assert(empty@.map_values(|x: String| x@) =~= Seq::<Seq<char>>::empty());
        }
        return empty;
    }
    if space_char(s.get_char(0)) {
        let rest = s.substring_char(1, n);
        proof {
            assert(rest@ =~= s@.drop_first());
        }
        split_tokens(rest)
    } else {
        let i = find_space_idx(s);
        proof {
            lemma_find_space_bounds(s@.drop_first());
        }
        assert(i >= 1);
        let head = s.substring_char(0, i).to_owned();
        let tail = s.substring_char(i, n);
        proof {
            assert(head@ =~= s@.take(i as int));
            assert(tail@ =~= s@.skip(i as int));
        }
        let mut rest = split_tokens(tail);
        rest.insert(0, head);
        proof {
            assert(rest@.map_values(|x: String| x@) =~= seq![s@.take(i as int)] + tokens(
                s@.skip(i as int),
            ));
        }
        rest
    }
}

/// Whether `pat` occurs contiguously in `s`.
fn contains_pat(s: &str, pat: &str) -> (r: bool)
    ensures
        r == contains_sub(s@, pat@),
{
    let n = s.unicode_len();
    let m = pat.unicode_len();
    if m > n {
        proof {
            assert forall|i: int|
                !(0 <= i <= s@.len() - pat@.len() && #[trigger] s@.subrange(i, i + pat@.len())
                    == pat@) by {
                assert(s@.len() - pat@.len() < 0);
            }
        }
        return false;
    }
    if m == 0 {
        proof {
            assert(s@.subrange(0, 0 + pat@.len() as int) =~= pat@);
            assert(0 <= 0 <= s@.len() - pat@.len());
        }
        return true;
    }
    let mut i: usize = 0;
    while i <= n - m
        invariant
            1 <= m <= n,
            n == s@.len(),
            m == pat@.len(),
            i <= n - m + 1,
            forall|q: int| 0 <= q < i ==> #[trigger] s@.subrange(q, q + pat@.len()) != pat@,
        decreases n - m - i + 1,
    {
        let mut j: usize = 0;
        let mut hit = true;
        while j < m
            invariant
                j <= m,
                i + m <= n,
                n == s@.len(),
                m == pat@.len(),
                hit ==> forall|t: int| 0 <= t < j ==> s@[i + t] == pat@[t],
                !hit ==> s@.subrange(i as int, i + pat@.len()) != pat@,
            decreases m - j,
        {
            if s.get_char(i + j) != pat.get_char(j) {
                proof {
                    assert(s@.subrange(i as int, i + pat@.len())[j as int] == s@[i + j]);
                    assert(s@.subrange(i as int, i + pat@.len()) != pat@);
                }
                hit = false;
                j = m;
            } else {
                j = j + 1;
            }
        }
        if hit {
            proof {
                assert(s@.subrange(i as int, i + pat@.len()) =~= pat@);
            }
            return true;
        }
        i = i + 1;
    }
    proof {
        assert forall|q: int|
            !(0 <= q <= s@.len() - pat@.len() && #[trigger] s@.subrange(q, q + pat@.len())
                == pat@) by {
            if 0 <= q <= s@.len() - pat@.len() {
                assert(s@.subrange(q, q + pat@.len()) != pat@);
            }
        }
    }
    false
}

/// The value after the first `=` of a token, up to the next `=`.
fn eq_value_exec(t: &str) -> (r: Option<String>)
    ensures
        match r {
            Some(v) => eq_value(t@) == Some(v@),
            None => eq_value(t@) is None,
        },
{
    let n = t.unicode_len();
    let i = find_char(t, '=');
    if i >= n {
        return None;
    }
    let rest = t.substring_char(i + 1, n);
    proof {
        assert(rest@ =~= t@.skip(i + 1));
    }
    let j = find_char(rest, '=');
    let v = rest.substring_char(0, j).to_owned();
    proof {
        assert(v@ =~= t@.skip(i + 1).take(find_ch(t@.skip(i + 1), '=')));
    }
    Some(v)
}

/// The lines of `ls` that mention `pat`, in order.
fn filter_lines(ls: &Vec<String>, pat: &str) -> (r: Vec<String>)
    ensures
        r@.map_values(|x: String| x@) == lines_with(ls@.map_values(|x: String| x@), pat@),
{
    let ghost lv = ls@.map_values(|x: String| x@);
    let mut out: Vec<String> = Vec::new();
    proof {
        assert(lv.take(0) =~= Seq::<Seq<char>>::empty());
        assert(out@.map_values(|x: String| x@) =~= lines_with(lv.take(0), pat@));
    }
    let mut i: usize = 0;
    while i < ls.len()
        invariant
            i <= ls@.len(),
            lv == ls@.map_values(|x: String| x@),
            out@.map_values(|x: String| x@) == lines_with(lv.take(i as int), pat@),
        decreases ls@.len() - i,
    {
        proof {
            assert(lv.take(i + 1).drop_last() =~= lv.take(i as int));
            assert(lv.take(i + 1).last() == lv[i as int]);
        }
        if contains_pat(ls[i].as_str(), pat) {
            out.push(ls[i].clone());
        }
        proof {
            assert(out@.map_values(|x: String| x@) =~= lines_with(lv.take(i + 1), pat@));
        }
        i = i + 1;
    }
    proof {
        assert(lv.take(ls@.len() as int) =~= lv);
    }
    out
}

/// The package named by one package line, if it names one.
fn pkg_of_line_exec(line: &str) -> (r: Option<String>)
    ensures
        match r {
            Some(v) => pkg_of_line(line@) == Some(v@),
            None => pkg_of_line(line@) is None,
        },
{
    let ts = split_tokens(line);
    if ts.len() < 3 {
        proof {
            assert(tokens(line@).len() == ts@.map_values(|x: String| x@).len());
        }
        return None;
    }
    proof {
        assert(ts@.map_values(|x: String| x@)[2] == ts@[2]@);
    }
    eq_value_exec(ts[2].as_str())
}

/// The foreground package names reported by one window-introspection
/// dump. A line that mentions `package=` contributes its third token's
/// value exactly when the focus line of the same rank says the window
/// can receive keys; the two line scans are correlated by position,
/// and the surplus of the longer scan is ignored. Lines that do not
/// carry a well-formed package token contribute nothing — malformed
/// input is dropped, never a panic.
pub fn get_top_pkgname(dump: &str) -> (r: Vec<String>)
    ensures
        r@.map_values(|x: String| x@) == top_pkgs_spec(dump@),
{
    let lines = split_char(dump, '\n');
    let pkg_lines = filter_lines(&lines, "package=");
    let key_lines = filter_lines(&lines, "canReceiveKeys()");
    let ghost ps = pkg_lines@.map_values(|x: String| x@);
    let ghost ks = key_lines@.map_values(|x: String| x@);
    let mut out: Vec<String> = Vec::new();
    let mut i: usize = 0;
    proof {
        assert(ps.skip(0) =~= ps);
        assert(ks.skip(0) =~= ks);
        assert(out@.map_values(|x: String| x@) + zip_packages(ps, ks) =~= zip_packages(ps, ks));
    }
    while i < pkg_lines.len() && i < key_lines.len()
        invariant
            i <= ps.len(),
            i <= ks.len(),
            ps == pkg_lines@.map_values(|x: String| x@),
            ks == key_lines@.map_values(|x: String| x@),
            zip_packages(ps, ks) == out@.map_values(|x: String| x@) + zip_packages(
                ps.skip(i as int),
                ks.skip(i as int),
            ),
        decreases ps.len() - i,
    {
        proof {
            assert(ps.skip(i as int)[0] == ps[i as int]);
            assert(ks.skip(i as int)[0] == ks[i as int]);
            assert(ps.skip(i as int).drop_first() =~= ps.skip(i + 1));
            assert(ks.skip(i as int).drop_first() =~= ks.skip(i + 1));
            assert(ps[i as int] == pkg_lines@[i as int]@);
            assert(ks[i as int] == key_lines@[i as int]@);
        }
        if contains_pat(key_lines[i].as_str(), "canReceiveKeys()=true") {
            match pkg_of_line_exec(pkg_lines[i].as_str()) {
                Some(p) => {
                    out.push(p);
                    proof {
                        assert(zip_packages(ps.skip(i as int), ks.skip(i as int)) =~= seq![
                            out@.map_values(|x: String| x@).last(),
                        ] + zip_packages(ps.skip(i + 1), ks.skip(i + 1)));
                        assert(zip_packages(ps, ks) =~= out@.map_values(|x: String| x@)
                            + zip_packages(ps.skip(i + 1), ks.skip(i + 1)));
                    }
                },
                None => {
                    proof {
                        assert(zip_packages(ps.skip(i as int), ks.skip(i as int))
                            == zip_packages(ps.skip(i + 1), ks.skip(i + 1)));
                    }
                },
            }
        } else {
            proof {
                assert(zip_packages(ps.skip(i as int), ks.skip(i as int)) == zip_packages(
                    ps.skip(i + 1),
                    ks.skip(i + 1),
                ));
            }
        }
        i = i + 1;
    }
    proof {
        if i >= ps.len() {
            assert(ps.skip(i as int).len() == 0);
        } else {
            assert(ks.skip(i as int).len() == 0);
        }
        assert(zip_packages(ps.skip(i as int), ks.skip(i as int)) =~= Seq::<Seq<char>>::empty());
        assert(out@.map_values(|x: String| x@) + Seq::<Seq<char>>::empty() =~= out@.map_values(
            |x: String| x@,
        ));
    }
    out
}

} // verus!
