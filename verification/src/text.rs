use vstd::prelude::*;

verus! {

/// The characters with the Unicode `White_Space` property, the set that
/// `str::trim_end` and friends strip.
pub open spec fn is_ws_char(c: char) -> bool {
    ||| c == ' '
    ||| c == '\t'
    ||| c == '\n'
    ||| c == '\u{b}'
    ||| c == '\u{c}'
    ||| c == '\r'
    ||| c == '\u{85}'
    ||| c == '\u{a0}'
    ||| c == '\u{1680}'
    ||| (0x2000 <= c as u32 && c as u32 <= 0x200a)
    ||| c == '\u{2028}'
    ||| c == '\u{2029}'
    ||| c == '\u{202f}'
    ||| c == '\u{205f}'
    ||| c == '\u{3000}'
}

pub fn is_whitespace_char(c: char) -> (r: bool)
    ensures
        r == is_ws_char(c),
{
    c == ' ' || c == '\t' || c == '\n' || c == '\u{b}' || c == '\u{c}' || c == '\r'
        || c == '\u{85}' || c == '\u{a0}' || c == '\u{1680}'
        || ((c as u32) >= 0x2000 && (c as u32) <= 0x200a)
        || c == '\u{2028}' || c == '\u{2029}' || c == '\u{202f}' || c == '\u{205f}'
        || c == '\u{3000}'
}

/// `s` with every trailing whitespace character removed.
pub open spec fn spec_trim_end(s: Seq<char>) -> Seq<char>
    decreases s.len(),
{
    if s.len() == 0 {
        s
    } else if is_ws_char(s.last()) {
        spec_trim_end(s.drop_last())
    } else {
        s
    }
}

/// `s` with every leading whitespace character removed.
pub open spec fn spec_trim_start(s: Seq<char>) -> Seq<char>
    decreases s.len(),
{
    if s.len() == 0 {
        s
    } else if is_ws_char(s[0]) {
        spec_trim_start(s.drop_first())
    } else {
        s
    }
}

/// `s` with whitespace removed from both ends.
pub open spec fn spec_trim(s: Seq<char>) -> Seq<char> {
    spec_trim_end(spec_trim_start(s))
}

pub fn trim_end_str(s: &str) -> (r: String)
    ensures
        r@ == spec_trim_end(s@),
{
    let n = s.unicode_len();
    let mut end = n;
    proof {
        assert(s@.take(n as int) =~= s@);
    }
    while end > 0 && is_whitespace_char(s.get_char(end - 1))
        invariant
            end <= n,
            n == s@.len(),
            spec_trim_end(s@) == spec_trim_end(s@.take(end as int)),
        decreases end,
    {
        proof {
            assert(s@.take(end as int).last() == s@[end - 1]);
            assert(s@.take(end as int).drop_last() =~= s@.take(end - 1));
        }
        end = end - 1;
    }
    proof {
        assert(s@.take(n as int) =~= s@);
        if end > 0 {
            assert(!is_ws_char(s@.take(end as int).last()));
        }
        assert(spec_trim_end(s@.take(end as int)) == s@.take(end as int));
    }
    s.substring_char(0, end).to_owned()
}

pub fn trim_str(s: &str) -> (r: String)
    ensures
        r@ == spec_trim(s@),
{
    let n = s.unicode_len();
    let mut start: usize = 0;
    proof {
        assert(s@.skip(0) =~= s@);
    }
    while start < n && is_whitespace_char(s.get_char(start))
        invariant
            start <= n,
            n == s@.len(),
            spec_trim_start(s@) == spec_trim_start(s@.skip(start as int)),
        decreases n - start,
    {
        proof {
            assert(s@.skip(start as int)[0] == s@[start as int]);
            assert(s@.skip(start as int).drop_first() =~= s@.skip(start + 1));
        }
        start = start + 1;
    }
    proof {
        if start < n {
            assert(!is_ws_char(s@.skip(start as int)[0]));
        } else {
            assert(s@.skip(start as int).len() == 0);
        }
        assert(spec_trim_start(s@) == s@.skip(start as int));
    }
    let mut end = n;
    while end > start && is_whitespace_char(s.get_char(end - 1))
        invariant
            start <= end <= n,
            n == s@.len(),
            spec_trim_start(s@) == s@.skip(start as int),
            spec_trim_end(s@.skip(start as int)) == spec_trim_end(s@.subrange(start as int, end as int)),
        decreases end,
    {
        proof {
            assert(s@.subrange(start as int, end as int).last() == s@[end - 1]);
            assert(s@.subrange(start as int, end as int).drop_last() =~= s@.subrange(
                start as int,
                end - 1,
            ));
        }
        end = end - 1;
    }
    proof {
        assert(s@.subrange(start as int, n as int) =~= s@.skip(start as int));
        if end > start {
            assert(!is_ws_char(s@.subrange(start as int, end as int).last()));
        } else {
            assert(s@.subrange(start as int, end as int).len() == 0);
        }
        assert(spec_trim_end(s@.subrange(start as int, end as int)) == s@.subrange(
            start as int,
            end as int,
        ));
    }
    s.substring_char(start, end).to_owned()
}

/// The views of a sequence of strings.
pub open spec fn strs_view(v: Seq<String>) -> Seq<Seq<char>> {
    v.map_values(|x: String| x@)
}

/// Index of the first newline in `s`, or `s.len()` when there is none.
pub open spec fn first_nl(s: Seq<char>) -> nat
    decreases s.len(),
{
    if s.len() == 0 {
        0
    } else if s[0] == '\n' {
        0
    } else {
        1 + first_nl(s.drop_first())
    }
}

pub proof fn lemma_first_nl_is(s: Seq<char>, j: int)
    requires
        0 <= j <= s.len(),
        forall|k: int| 0 <= k < j ==> s[k] != '\n',
        j < s.len() ==> s[j] == '\n',
    ensures
        first_nl(s) == j,
    decreases s.len(),
{
    if s.len() != 0 && s[0] != '\n' {
        assert forall|k: int| 0 <= k < j - 1 implies s.drop_first()[k] != '\n' by {
            assert(s.drop_first()[k] == s[k + 1]);
        }
        if j - 1 < s.drop_first().len() {
            assert(s.drop_first()[j - 1] == s[j]);
        }
        lemma_first_nl_is(s.drop_first(), j - 1);
    }
}

/// One trailing carriage return removed, the way line splitting treats a
/// segment that a newline terminated.
pub open spec fn chop_cr(l: Seq<char>) -> Seq<char> {
    if l.len() > 0 && l.last() == '\r' {
        l.drop_last()
    } else {
        l
    }
}

/// The lines of `s`: split at `'\n'`, one `'\r'` stripped before each split
/// point, no final empty line when the text ends with a newline.
pub open spec fn spec_lines(s: Seq<char>) -> Seq<Seq<char>>
    decreases s.len(),
{
    if s.len() == 0 {
        Seq::empty()
    } else {
        let i = first_nl(s) as int;
        if i >= s.len() {
            seq![s]
        } else {
            seq![chop_cr(s.take(i))].add(spec_lines(s.skip(i + 1)))
        }
    }
}

pub fn split_lines(s: &str) -> (r: Vec<String>)
    ensures
        strs_view(r@) == spec_lines(s@),
{
    let n = s.unicode_len();
    let mut r: Vec<String> = Vec::new();
    let mut pos: usize = 0;
    proof {
        assert(s@.skip(0) =~= s@);
        assert(strs_view(r@) + spec_lines(s@) =~= spec_lines(s@));
    }
    while pos < n
        invariant
            pos <= n,
            n == s@.len(),
            spec_lines(s@) == strs_view(r@) + spec_lines(s@.skip(pos as int)),
        decreases n - pos,
    {
        let mut j = pos;
        while j < n && s.get_char(j) != '\n'
            invariant
                pos <= j <= n,
                n == s@.len(),
                forall|k: int| pos <= k < j ==> s@[k] != '\n',
            decreases n - j,
        {
            j = j + 1;
        }
        let ghost suffix = s@.skip(pos as int);
        proof {
            assert forall|k: int| 0 <= k < j - pos implies suffix[k] != '\n' by {
                assert(suffix[k] == s@[pos + k]);
            }
            if j < n {
                assert(suffix[j - pos] == s@[j as int]);
            }
            lemma_first_nl_is(suffix, j - pos);
        }
        if j < n {
            let mut line_end = j;
            if j > pos && s.get_char(j - 1) == '\r' {
                line_end = j - 1;
            }
            let line = s.substring_char(pos, line_end).to_owned();
            proof {
                assert(suffix.take(j - pos) =~= s@.subrange(pos as int, j as int));
                if j > pos && s@[j - 1] == '\r' {
                    assert(suffix.take(j - pos).last() == s@[j - 1]);
                    assert(suffix.take(j - pos).drop_last() =~= s@.subrange(
                        pos as int,
                        j - 1,
                    ));
                } else if j > pos {
                    assert(suffix.take(j - pos).last() == s@[j - 1]);
                }
                assert(chop_cr(suffix.take(j - pos)) == s@.subrange(pos as int, line_end as int));
                assert(suffix.skip(j - pos + 1) =~= s@.skip(j + 1));
                assert(spec_lines(suffix) == seq![s@.subrange(pos as int, line_end as int)].add(
                    spec_lines(s@.skip(j + 1)),
                ));
            }
            let ghost old_r = r@;
            r.push(line);
            proof {
                assert(strs_view(r@) =~= strs_view(old_r).push(line@));
                assert(strs_view(old_r) + spec_lines(suffix) =~= strs_view(r@) + spec_lines(
                    s@.skip(j + 1),
                ));
            }
            pos = j + 1;
        } else {
            let line = s.substring_char(pos, n).to_owned();
            proof {
                assert(suffix =~= s@.subrange(pos as int, n as int));
                assert(spec_lines(suffix) == seq![suffix]);
            }
            let ghost old_r = r@;
            r.push(line);
            proof {
                assert(strs_view(r@) =~= strs_view(old_r).push(line@));
                assert(strs_view(old_r) + spec_lines(suffix) =~= strs_view(r@) + spec_lines(
                    s@.skip(n as int),
                ));
            }
            pos = n;
        }
    }
    proof {
        assert(spec_lines(s@.skip(pos as int)).len() == 0);
        assert(strs_view(r@) + spec_lines(s@.skip(pos as int)) =~= strs_view(r@));
    }
    r
}

/// An owned copy of a vector of lines, exact to the element.
pub fn clone_lines(v: &Vec<String>) -> (r: Vec<String>)
    ensures
        r@ == v@,
{
    let mut r: Vec<String> = Vec::new();
    let mut i: usize = 0;
    while i < v.len()
        invariant
            i <= v@.len(),
            r@ == v@.take(i as int),
        decreases v@.len() - i,
    {
        let line = (&v[i]).clone();
        r.push(line);
        proof {
            assert(v@.take(i + 1) =~= v@.take(i as int).push(v@[i as int]));
        }
        i = i + 1;
    }
    proof {
        assert(v@.take(v@.len() as int) =~= v@);
    }
    r
}

/// Does `s` end with `suffix`?
pub open spec fn spec_ends_with(s: Seq<char>, suffix: Seq<char>) -> bool {
    s.len() >= suffix.len() && s.skip(s.len() - suffix.len()) == suffix
}

pub fn str_ends_with(s: &str, suffix: &str) -> (r: bool)
    ensures
        r == spec_ends_with(s@, suffix@),
{
    let n = s.unicode_len();
    let m = suffix.unicode_len();
    if n < m {
        return false;
    }
    let off = n - m;
    let mut i: usize = 0;
    while i < m
        invariant
            i <= m,
            m == suffix@.len(),
            n == s@.len(),
            off == n - m,
            forall|k: int| 0 <= k < i ==> s@[off + k] == suffix@[k],
        decreases m - i,
    {
        if s.get_char(off + i) != suffix.get_char(i) {
            proof {
                assert(s@.skip(off as int)[i as int] == s@[off + i]);
            }
            return false;
        }
        i = i + 1;
    }
    proof {
        assert forall|k: int| 0 <= k < m implies s@.skip(off as int)[k] == suffix@[k] by {
            assert(s@.skip(off as int)[k] == s@[off + k]);
        }
        assert(s@.skip(off as int) =~= suffix@);
    }
    true
}

} // verus!
