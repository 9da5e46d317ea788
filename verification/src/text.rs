//! Character-level scanning primitives for log lines.
//!
//! Every log field is located through literal substring anchors, so the
//! whole parser rests on these few verified operations: substring search,
//! whitespace-token extraction and line splitting, all specified over the
//! `Seq<char>` view of a string.

use vstd::prelude::*;

verus! {

/// Pattern `p` occurs in `s` starting exactly at position `i`.
pub open spec fn match_at(s: Seq<char>, p: Seq<char>, i: int) -> bool {
    &&& 0 <= i
    &&& i + p.len() <= s.len()
    &&& forall|k: int| 0 <= k < p.len() ==> s[i + k] == p[k]
}

/// Pattern `p` occurs somewhere in `s`.
pub open spec fn str_has(s: Seq<char>, p: Seq<char>) -> bool {
    exists|i: int| match_at(s, p, i)
}

/// Position of the first occurrence of `p` in `s`, or `None` when `p`
/// does not occur at all.
pub fn str_index_of(s: &str, p: &str) -> (r: Option<usize>)
    ensures
        match r {
            Some(i) => match_at(s@, p@, i as int) && (forall|j: int|
                0 <= j < i ==> !match_at(s@, p@, j)),
            None => !str_has(s@, p@),
        },
{
    let n = s.unicode_len();
    let m = p.unicode_len();
    if m == 0 {
        return Some(0);
    }
    if m > n {
        assert(forall|j: int| !match_at(s@, p@, j));
        return None;
    }
    let mut i: usize = 0;
    while i <= n - m
        invariant
            n == s@.len(),
            m == p@.len(),
            0 < m <= n,
            i <= n - m + 1,
            forall|j: int| 0 <= j < i ==> !match_at(s@, p@, j),
        decreases n - m - i + 1,
    {
        let mut k: usize = 0;
        let mut ok = true;
        while k < m && ok
            invariant
                n == s@.len(),
                m == p@.len(),
                0 < m <= n,
                i + m <= n,
                k <= m,
                ok ==> forall|l: int| 0 <= l < k ==> s@[i + l] == p@[l],
                !ok ==> !match_at(s@, p@, i as int),
            decreases m - k + (if ok { 1int } else { 0int }),
        {
            if s.get_char(i + k) != p.get_char(k) {
                ok = false;
            } else {
                k += 1;
            }
        }
        if ok {
            assert(match_at(s@, p@, i as int));
            return Some(i);
        }
        i += 1;
    }
    assert(forall|j: int| 0 <= j < s@.len() - p@.len() + 1 ==> !match_at(s@, p@, j));
    None
}

/// Position search as a specification: the least position at or after
/// `i` where `p` matches, if any.
pub open spec fn find_from(s: Seq<char>, p: Seq<char>, i: int) -> Option<int>
    decreases s.len() - i,
{
    if i + p.len() > s.len() {
        None
    } else if match_at(s, p, i) {
        Some(i)
    } else {
        find_from(s, p, i + 1)
    }
}

/// The least position where `p` matches in `s`, if any: the value
/// [`str_index_of`] computes.
pub open spec fn find_idx(s: Seq<char>, p: Seq<char>) -> Option<int> {
    find_from(s, p, 0)
}

/// What [`find_from`] returns: the least match position at or after `i`.
pub proof fn lemma_find_from(s: Seq<char>, p: Seq<char>, i: int)
    ensures
        match find_from(s, p, i) {
            None => forall|j: int| j >= i ==> !match_at(s, p, j),
            Some(x) => x >= i && match_at(s, p, x) && (forall|j: int|
                i <= j < x ==> !match_at(s, p, j)),
        },
    decreases s.len() - i,
{
    if i + p.len() <= s.len() && !match_at(s, p, i) {
        lemma_find_from(s, p, i + 1);
    }
}

/// Substring containment test, the anchor operation of the classifier
/// and of the kill-line extractors.
pub fn str_contains(s: &str, p: &str) -> (r: bool)
    ensures
        r == str_has(s@, p@),
{
    match str_index_of(s, p) {
        Some(_) => true,
        None => false,
    }
}

/// Character-for-character string equality.
pub fn str_eq(a: &str, b: &str) -> (r: bool)
    ensures
        r == (a@ == b@),
{
    let n = a.unicode_len();
    if n != b.unicode_len() {
        return false;
    }
    let mut i: usize = 0;
    while i < n
        invariant
            n == a@.len(),
            n == b@.len(),
            i <= n,
            forall|j: int| 0 <= j < i ==> a@[j] == b@[j],
        decreases n - i,
    {
        if a.get_char(i) != b.get_char(i) {
            return false;
        }
        i += 1;
    }
    proof {
        assert(a@ =~= b@);
    }
    true
}

/// Whitespace as `char::is_whitespace` reports it: the characters with
/// the Unicode `White_Space` property.
pub open spec fn is_ws(c: char) -> bool {
    ||| c == ' '
    ||| c == '\t'
    ||| c == '\n'
    ||| c == '\u{b}'
    ||| c == '\u{c}'
    ||| c == '\r'
    ||| c == '\u{85}'
    ||| c == '\u{a0}'
    ||| c == '\u{1680}'
    ||| c == '\u{2000}'
    ||| c == '\u{2001}'
    ||| c == '\u{2002}'
    ||| c == '\u{2003}'
    ||| c == '\u{2004}'
    ||| c == '\u{2005}'
    ||| c == '\u{2006}'
    ||| c == '\u{2007}'
    ||| c == '\u{2008}'
    ||| c == '\u{2009}'
    ||| c == '\u{200a}'
    ||| c == '\u{2028}'
    ||| c == '\u{2029}'
    ||| c == '\u{202f}'
    ||| c == '\u{205f}'
    ||| c == '\u{3000}'
}

/// Executable test for [`is_ws`].
pub fn ws_char(c: char) -> (r: bool)
    ensures
        r == is_ws(c),
{
    c == ' ' || c == '\t' || c == '\n' || c == '\u{b}' || c == '\u{c}' || c == '\r'
        || c == '\u{85}' || c == '\u{a0}' || c == '\u{1680}' || c == '\u{2000}'
        || c == '\u{2001}' || c == '\u{2002}' || c == '\u{2003}' || c == '\u{2004}'
        || c == '\u{2005}' || c == '\u{2006}' || c == '\u{2007}' || c == '\u{2008}'
        || c == '\u{2009}' || c == '\u{200a}' || c == '\u{2028}' || c == '\u{2029}'
        || c == '\u{202f}' || c == '\u{205f}' || c == '\u{3000}'
}

/// Index of the last character of `s` that is not whitespace, if any.
pub open spec fn last_nonws_idx(s: Seq<char>) -> Option<int>
    decreases s.len(),
{
    if s.len() == 0 {
        None
    } else if !is_ws(s.last()) {
        Some(s.len() - 1)
    } else {
        last_nonws_idx(s.drop_last())
    }
}

/// Start of the maximal whitespace-free run of `s` that ends just
/// before position `e`; equals `e` itself when `s[e - 1]` is whitespace.
pub open spec fn run_start(s: Seq<char>, e: int) -> int
    decreases e,
{
    if e <= 0 {
        0
    } else if is_ws(s[e - 1]) {
        e
    } else {
        run_start(s, e - 1)
    }
}

/// The token `str::split_whitespace` would hand out last: the maximal
/// whitespace-free run that ends at the last non-whitespace character.
pub open spec fn last_token(s: Seq<char>) -> Option<Seq<char>> {
    match last_nonws_idx(s) {
        None => None,
        Some(e) => Some(s.subrange(run_start(s, e), e + 1)),
    }
}

/// The last whitespace-delimited token of `s`, or `None` when `s` holds
/// only whitespace.
pub fn last_token_of<'a>(s: &'a str) -> (r: Option<&'a str>)
    ensures
        match r {
            Some(t) => last_token(s@) == Some(t@),
            None => last_token(s@) is None,
        },
{
    let n = s.unicode_len();
    proof {
        assert(s@.subrange(0, n as int) =~= s@);
    }
    let mut i: usize = n;
    while i > 0 && ws_char(s.get_char(i - 1))
        invariant
            n == s@.len(),
            i <= n,
            last_nonws_idx(s@) == last_nonws_idx(s@.subrange(0, i as int)),
        decreases i,
    {
        proof {
            assert(s@.subrange(0, i as int).drop_last() =~= s@.subrange(0, i - 1));
        }
        i -= 1;
    }
    proof {
        assert(s@.subrange(0, n as int) =~= s@);
    }
    if i == 0 {
        return None;
    }
    let e = i - 1;
    assert(last_nonws_idx(s@) == Some(e as int));
    let mut b: usize = e;
    while b > 0 && !ws_char(s.get_char(b - 1))
        invariant
            n == s@.len(),
            b <= e < n,
            run_start(s@, e as int) == run_start(s@, b as int),
        decreases b,
    {
        b -= 1;
    }
    Some(s.substring_char(b, e + 1))
}

/// Index of the first line feed in `s`, if any.
pub open spec fn first_nl(s: Seq<char>) -> Option<int>
    decreases s.len(),
{
    if s.len() == 0 {
        None
    } else if s[0] == '\n' {
        Some(0)
    } else {
        match first_nl(s.drop_first()) {
            None => None,
            Some(j) => Some(j + 1),
        }
    }
}

/// What [`first_nl`] returns: the least index holding a line feed.
pub proof fn lemma_first_nl(s: Seq<char>)
    ensures
        match first_nl(s) {
            None => forall|j: int| 0 <= j < s.len() ==> s[j] != '\n',
            Some(i) => 0 <= i < s.len() && s[i] == '\n' && (forall|j: int|
                0 <= j < i ==> s[j] != '\n'),
        },
    decreases s.len(),
{
    if s.len() > 0 && s[0] != '\n' {
        let t = s.drop_first();
        lemma_first_nl(t);
        match first_nl(t) {
            None => {
                assert forall|j: int| 0 <= j < s.len() implies s[j] != '\n' by {
                    if j > 0 {
                        assert(t[j - 1] == s[j]);
                    }
                }
            },
            Some(i) => {
                assert(s[i + 1] == t[i]);
                assert forall|j: int| 0 <= j < i + 1 implies s[j] != '\n' by {
                    if j > 0 {
                        assert(t[j - 1] == s[j]);
                    }
                }
            },
        }
    }
}

/// A line with a trailing carriage return loses it, as under `str::lines`.
pub open spec fn strip_cr(t: Seq<char>) -> Seq<char> {
    if t.len() > 0 && t.last() == '\r' {
        t.drop_last()
    } else {
        t
    }
}

/// The lines of `s`, split as `str::lines` splits them: at each line
/// feed, dropping a carriage return that stands just before it, with no
/// empty line after a final line terminator.
pub open spec fn spec_lines(s: Seq<char>) -> Seq<Seq<char>>
    decreases s.len(),
    via spec_lines_decreases
{
    if s.len() == 0 {
        seq![]
    } else {
        match first_nl(s) {
            None => seq![s],
            Some(i) => seq![strip_cr(s.subrange(0, i))] + spec_lines(
                s.subrange(i + 1, s.len() as int),
            ),
        }
    }
}

#[via_fn]
proof fn spec_lines_decreases(s: Seq<char>) {
    lemma_first_nl(s);
}

/// The views of a vector of strings, element by element.
pub open spec fn views_of(v: Seq<String>) -> Seq<Seq<char>> {
    Seq::new(v.len(), |i: int| v[i]@)
}

/// Splits `s` into its lines, exactly as iterating `str::lines` would.
pub fn lines_of(s: &str) -> (r: Vec<String>)
    ensures
        views_of(r@) == spec_lines(s@),
{
    let n = s.unicode_len();
    let mut out: Vec<String> = Vec::new();
    proof {
        assert(s@.subrange(0, n as int) =~= s@);
        assert(views_of(out@) =~= Seq::<Seq<char>>::empty());
        assert(views_of(out@) + spec_lines(s@) =~= spec_lines(s@));
    }
    let mut start: usize = 0;
    while start < n
        invariant
            n == s@.len(),
            start <= n,
            spec_lines(s@) == views_of(out@) + spec_lines(s@.subrange(start as int, n as int)),
        decreases n - start,
    {
        let ghost rest = s@.subrange(start as int, n as int);
        let mut idx: usize = start;
        while idx < n && s.get_char(idx) != '\n'
            invariant
                n == s@.len(),
                start <= idx <= n,
                forall|j: int| start <= j < idx ==> s@[j] != '\n',
            decreases n - idx,
        {
            idx += 1;
        }
        proof {
            lemma_first_nl(rest);
            if idx == n {
                assert(first_nl(rest) is None) by {
                    if first_nl(rest) is Some {
                        let i = first_nl(rest)->Some_0;
                        assert(s@[start + i] == '\n');
                    }
                }
            } else {
                assert(first_nl(rest) == Some(idx - start as int)) by {
                    assert(rest[idx - start as int] == '\n');
                    match first_nl(rest) {
                        None => {
                            assert(false);
                        },
                        Some(i) => {
                            if i < idx - start as int {
                                assert(s@[start + i] == rest[i]);
                                assert(false);
                            }
                            if i > idx - start as int {
                                assert(false);
                            }
                        },
                    }
                }
            }
        }
        if idx == n {
            let line = s.substring_char(start, n);
            out.push(line.to_owned());
            proof {
                assert(rest =~= line@);
                assert(spec_lines(rest) == seq![rest]);
                assert(views_of(out@) =~= views_of(out@.drop_last()) + seq![line@]);
                assert(spec_lines(s@) =~= views_of(out@) + spec_lines(
                    s@.subrange(n as int, n as int),
                )) by {
                    assert(s@.subrange(n as int, n as int) =~= Seq::<char>::empty());
                    assert(spec_lines(s@.subrange(n as int, n as int)) =~= Seq::<
                        Seq<char>,
                    >::empty());
                }
            }
            start = n;
        } else {
            let line_end = if idx > start && s.get_char(idx - 1) == '\r' {
                idx - 1
            } else {
                idx
            };
            let line = s.substring_char(start, line_end);
            out.push(line.to_owned());
            proof {
                assert(strip_cr(rest.subrange(0, idx - start as int)) =~= line@) by {
                    assert(rest.subrange(0, idx - start as int) =~= s@.subrange(
                        start as int,
                        idx as int,
                    ));
                    if idx > start && s@[idx - 1] == '\r' {
                        assert(s@.subrange(start as int, idx as int).drop_last() =~= s@.subrange(
                            start as int,
                            idx - 1,
                        ));
                    }
                }
                assert(rest.subrange(idx - start as int + 1, rest.len() as int) =~= s@.subrange(
                    idx + 1,
                    n as int,
                ));
                assert(views_of(out@) =~= views_of(out@.drop_last()) + seq![line@]);
                assert(spec_lines(s@) == views_of(out@) + spec_lines(
                    s@.subrange(idx + 1, n as int),
                )) by {
                    assert(spec_lines(rest) == seq![line@] + spec_lines(
                        s@.subrange(idx + 1, n as int),
                    ));
                    assert(views_of(out@.drop_last()) + (seq![line@] + spec_lines(
                        s@.subrange(idx + 1, n as int),
                    )) =~= views_of(out@) + spec_lines(s@.subrange(idx + 1, n as int)));
                }
            }
            start = idx + 1;
        }
    }
    proof {
        assert(s@.subrange(start as int, n as int) =~= Seq::<char>::empty());
        assert(spec_lines(s@.subrange(start as int, n as int)) =~= Seq::<Seq<char>>::empty());
        assert(spec_lines(s@) =~= views_of(out@));
    }
    out
}

} // verus!
