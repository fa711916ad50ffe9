//! Character-level helpers on strings, each with the sequence it computes.

use vstd::prelude::*;

verus! {

/// `c` with an ASCII capital letter turned into its small letter.
pub open spec fn ascii_lower(c: char) -> char {
    if 'A' <= c && c <= 'Z' {
        ((c as u32) + 32) as char
    } else {
        c
    }
}

/// `s` with every ASCII capital letter turned into its small letter.
pub open spec fn ascii_lower_seq(s: Seq<char>) -> Seq<char> {
    s.map_values(|c: char| ascii_lower(c))
}

/// Whether `c`, lowered as ASCII, is `d`.
fn lowers_to(c: char, d: char) -> (r: bool)
    ensures
        r == (ascii_lower(c) == d),
{
    if 'A' <= c && c <= 'Z' {
        (c as u32) + 32 == d as u32
    } else {
        c == d
    }
}

/// Whether `s`, with its ASCII capitals lowered, is exactly `word`.
pub fn equals_folded(s: &str, word: &str) -> (r: bool)
    ensures
        r == (ascii_lower_seq(s@) == word@),
{
    let n = s.unicode_len();
    if n != word.unicode_len() {
        proof {
            assert(ascii_lower_seq(s@).len() == s@.len());
        }
        return false;
    }
    let mut i: usize = 0;
    while i < n
        invariant
            n == s@.len(),
            n == word@.len(),
            i <= n,
            forall|j: int| 0 <= j < i ==> ascii_lower(#[trigger] s@[j]) == word@[j],
        decreases n - i,
    {
        if !lowers_to(s.get_char(i), word.get_char(i)) {
            proof {
                assert(ascii_lower_seq(s@)[i as int] != word@[i as int]);
            }
            return false;
        }
        i = i + 1;
    }
    proof {
        assert(ascii_lower_seq(s@) =~= word@);
    }
    true
}

/// Whether `s` ends with `suffix`.
pub open spec fn has_suffix(s: Seq<char>, suffix: Seq<char>) -> bool {
    suffix.len() <= s.len() && s.subrange(s.len() - suffix.len(), s.len() as int) == suffix
}

/// Whether `pat` stands in `s` at character position `start`.
fn matches_at(s: &str, pat: &str, start: usize) -> (r: bool)
    requires
        start + pat@.len() <= s@.len(),
    ensures
        r == (s@.subrange(start as int, start + pat@.len()) == pat@),
{
    let n = s.unicode_len();
    let m = pat.unicode_len();
    let mut i: usize = 0;
    while i < m
        invariant
            n == s@.len(),
            start + m <= n,
            m == pat@.len(),
            i <= m,
            forall|j: int| 0 <= j < i ==> s@[start + j] == #[trigger] pat@[j],
        decreases m - i,
    {
        if s.get_char(start + i) != pat.get_char(i) {
            proof {
                assert(s@.subrange(start as int, start + m)[i as int] != pat@[i as int]);
            }
            return false;
        }
        i = i + 1;
    }
    proof {
        assert(s@.subrange(start as int, start + m) =~= pat@);
    }
    true
}

/// Whether `s` ends with `suffix`.
pub fn ends_with(s: &str, suffix: &str) -> (r: bool)
    ensures
        r == has_suffix(s@, suffix@),
{
    let n = s.unicode_len();
    let m = suffix.unicode_len();
    if m > n {
        return false;
    }
    matches_at(s, suffix, n - m)
}

/// `s` with each occurrence of `pat`, taken from the left without overlap,
/// replaced by `rep`; an empty `pat` occurs before each character and at the
/// end.
pub open spec fn replace_all(s: Seq<char>, pat: Seq<char>, rep: Seq<char>) -> Seq<char>
    decreases s.len(),
{
    if pat.len() == 0 {
        if s.len() == 0 {
            rep
        } else {
            rep + seq![s[0]] + replace_all(s.drop_first(), pat, rep)
        }
    } else if s.len() == 0 {
        s
    } else if pat.len() <= s.len() && s.subrange(0, pat.len() as int) == pat {
        rep + replace_all(s.subrange(pat.len() as int, s.len() as int), pat, rep)
    } else {
        seq![s[0]] + replace_all(s.drop_first(), pat, rep)
    }
}

/// `s` with each occurrence of `pat`, taken from the left without overlap,
/// replaced by `rep`; an empty `pat` occurs before each character and at the
/// end.
pub fn replace(s: &str, pat: &str, rep: &str) -> (r: String)
    ensures
        r@ == replace_all(s@, pat@, rep@),
{
    let n = s.unicode_len();
    let m = pat.unicode_len();
    if m == 0 {
        return interleave(s, pat, rep);
    }
    let mut out = String::new();
    let mut last: usize = 0;
    let mut i: usize = 0;
    proof {
        assert(s@.subrange(0, n as int) =~= s@);
        assert(out@ + s@.subrange(0, 0) =~= Seq::<char>::empty());
    }
    while i < n
        invariant
            n == s@.len(),
            m == pat@.len(),
            m > 0,
            last <= i <= n,
            out@ + s@.subrange(last as int, i as int) + replace_all(
                s@.subrange(i as int, n as int),
                pat@,
                rep@,
            ) == replace_all(s@, pat@, rep@),
        decreases n - i,
    {
        let ghost t = s@.subrange(i as int, n as int);
        if m <= n - i && matches_at(s, pat, i) {
            proof {
                assert(t.subrange(0, m as int) =~= s@.subrange(i as int, i + m));
                assert(t.subrange(m as int, t.len() as int) =~= s@.subrange(i + m, n as int));
            }
            let ghost before = out@;
            let ghost (last0, i0) = (last, i);
            out.append(s.substring_char(last, i));
            out.append(rep);
            i = i + m;
            last = i;
            proof {
                let rest = replace_all(s@.subrange(i as int, n as int), pat@, rep@);
                assert(out@ + s@.subrange(last as int, i as int) + rest =~= before + s@.subrange(
                    last0 as int,
                    i0 as int,
                ) + (rep@ + rest));
            }
        } else {
            proof {
                if m <= n - i {
                    assert(t.subrange(0, m as int) =~= s@.subrange(i as int, i + m));
                }
                assert(t.drop_first() =~= s@.subrange(i + 1, n as int));
                assert(s@.subrange(last as int, i + 1) =~= s@.subrange(last as int, i as int).push(
                    s@[i as int],
                ));
            }
            i = i + 1;
        }
    }
    out.append(s.substring_char(last, n));
    out
}

/// `rep` before each character of `s` and once more at the end: what
/// replacing an empty pattern gives.
fn interleave(s: &str, pat: &str, rep: &str) -> (r: String)
    requires
        pat@.len() == 0,
    ensures
        r@ == replace_all(s@, pat@, rep@),
{
    let n = s.unicode_len();
    let mut out = String::new();
    let mut i: usize = 0;
    proof {
        assert(s@.subrange(0, n as int) =~= s@);
        assert(out@ + replace_all(s@, pat@, rep@) =~= replace_all(s@, pat@, rep@));
    }
    while i < n
        invariant
            n == s@.len(),
            pat@.len() == 0,
            i <= n,
            out@ + replace_all(s@.subrange(i as int, n as int), pat@, rep@) == replace_all(
                s@,
                pat@,
                rep@,
            ),
        decreases n - i,
    {
        let ghost t = s@.subrange(i as int, n as int);
        let ghost before = out@;
        proof {
            assert(t.drop_first() =~= s@.subrange(i + 1, n as int));
        }
        out.append(rep);
        let c = s.substring_char(i, i + 1);
        out.append(c);
        proof {
            assert(c@ =~= seq![t[0]]);
            let rest = replace_all(s@.subrange(i + 1, n as int), pat@, rep@);
            assert(out@ + rest =~= before + (rep@ + seq![t[0]] + rest));
        }
        i = i + 1;
    }
    proof {
        assert(s@.subrange(n as int, n as int) =~= Seq::<char>::empty());
    }
    out.append(rep);
    out
}

/// Whether `c` is a round bracket.
pub open spec fn is_paren(c: char) -> bool {
    c == '(' || c == ')'
}

/// Whether `c` has the Unicode White_Space property, the white space that
/// `str::trim` removes.
pub open spec fn is_white_space(c: char) -> bool {
    let u = c as u32;
    ||| 0x09 <= u <= 0x0d
    ||| u == 0x20
    ||| u == 0x85
    ||| u == 0xa0
    ||| u == 0x1680
    ||| 0x2000 <= u <= 0x200a
    ||| u == 0x2028
    ||| u == 0x2029
    ||| u == 0x202f
    ||| u == 0x205f
    ||| u == 0x3000
}

/// A set of characters that may be stripped from both ends of a string.
pub enum EdgeClass {
    Parens,
    WhiteSpace,
}

/// Whether `c` belongs to `class`.
pub open spec fn in_class(class: EdgeClass, c: char) -> bool {
    match class {
        EdgeClass::Parens => is_paren(c),
        EdgeClass::WhiteSpace => is_white_space(c),
    }
}

/// `s` with all characters of `class` at its start and at its end removed.
pub open spec fn strip_edges(s: Seq<char>, class: EdgeClass) -> Seq<char>
    decreases s.len(),
{
    if s.len() > 0 && in_class(class, s[0]) {
        strip_edges(s.drop_first(), class)
    } else if s.len() > 0 && in_class(class, s.last()) {
        strip_edges(s.drop_last(), class)
    } else {
        s
    }
}

/// `s` with all round brackets at its start and at its end removed.
pub open spec fn strip_parens(s: Seq<char>) -> Seq<char> {
    strip_edges(s, EdgeClass::Parens)
}

/// `s` with all white space at its start and at its end removed.
pub open spec fn strip_white_space(s: Seq<char>) -> Seq<char> {
    strip_edges(s, EdgeClass::WhiteSpace)
}

/// `s` with all round brackets at its start and at its end removed.
pub fn trim_parens(s: &str) -> (r: &str)
    ensures
        r@ == strip_parens(s@),
{
    trim_edges(s, EdgeClass::Parens)
}

/// `s` with all white space at its start and at its end removed, as
/// `str::trim` does.
pub fn trim(s: &str) -> (r: &str)
    ensures
        r@ == strip_white_space(s@),
{
    trim_edges(s, EdgeClass::WhiteSpace)
}

fn trim_edges(s: &str, class: EdgeClass) -> (r: &str)
    ensures
        r@ == strip_edges(s@, class),
{
    let n = s.unicode_len();
    let mut lo: usize = 0;
    proof {
        assert(s@.subrange(0, n as int) =~= s@);
    }
    while lo < n && is_in_class(&class, s.get_char(lo))
        invariant
            n == s@.len(),
            lo <= n,
            strip_edges(s@.subrange(lo as int, n as int), class) == strip_edges(s@, class),
        decreases n - lo,
    {
        proof {
            assert(s@.subrange(lo as int, n as int).drop_first() =~= s@.subrange(
                lo + 1,
                n as int,
            ));
        }
        lo = lo + 1;
    }
    let mut hi: usize = n;
    while hi > lo && is_in_class(&class, s.get_char(hi - 1))
        invariant
            n == s@.len(),
            lo <= hi <= n,
            lo < n ==> !in_class(class, s@[lo as int]),
            strip_edges(s@.subrange(lo as int, hi as int), class) == strip_edges(s@, class),
        decreases hi - lo,
    {
        proof {
            let sub = s@.subrange(lo as int, hi as int);
            if hi - 1 == lo {
                assert(in_class(class, s@[lo as int]));
            }
            assert(sub.drop_last() =~= s@.subrange(lo as int, hi - 1));
        }
        hi = hi - 1;
    }
    s.substring_char(lo, hi)
}

fn is_in_class(class: &EdgeClass, c: char) -> (r: bool)
    ensures
        r == in_class(*class, c),
{
    match class {
        EdgeClass::Parens => c == '(' || c == ')',
        EdgeClass::WhiteSpace => {
            let u = c as u32;
            (0x09 <= u && u <= 0x0d) || u == 0x20 || u == 0x85 || u == 0xa0 || u == 0x1680 || (
            0x2000 <= u && u <= 0x200a) || u == 0x2028 || u == 0x2029 || u == 0x202f || u
                == 0x205f || u == 0x3000
        },
    }
}

/// The pieces of `s` between its commas, in order: always one more piece than
/// there are commas.
pub open spec fn split_commas(s: Seq<char>) -> Seq<Seq<char>>
    decreases s.len(),
{
    if s.len() == 0 {
        seq![Seq::empty()]
    } else {
        let pieces = split_commas(s.drop_last());
        if s.last() == ',' {
            pieces.push(Seq::empty())
        } else {
            pieces.update(pieces.len() - 1, pieces.last().push(s.last()))
        }
    }
}

/// The views of a sequence of string slices.
pub open spec fn views(v: Seq<&str>) -> Seq<Seq<char>> {
    v.map_values(|p: &str| p@)
}

/// The pieces of `s` between its commas.
pub fn split_on_commas<'a>(s: &'a str) -> (r: Vec<&'a str>)
    ensures
        views(r@) == split_commas(s@),
{
    let n = s.unicode_len();
    let mut pieces: Vec<&'a str> = Vec::new();
    let mut start: usize = 0;
    let mut i: usize = 0;
    proof {
        assert(s@.subrange(0, 0) =~= Seq::<char>::empty());
        assert(views(pieces@).push(s@.subrange(0, 0)) =~= split_commas(s@.subrange(0, 0)));
    }
    while i < n
        invariant
            n == s@.len(),
            start <= i <= n,
            views(pieces@).push(s@.subrange(start as int, i as int)) == split_commas(
                s@.subrange(0, i as int),
            ),
        decreases n - i,
    {
        let c = s.get_char(i);
        proof {
            assert(s@.subrange(0, i + 1).drop_last() =~= s@.subrange(0, i as int));
        }
        if c == ',' {
            let piece = s.substring_char(start, i);
            let ghost before = pieces@;
            pieces.push(piece);
            start = i + 1;
            proof {
                assert(views(pieces@) =~= views(before).push(piece@));
                assert(s@.subrange(start as int, i + 1) =~= Seq::<char>::empty());
            }
        } else {
            proof {
                assert(s@.subrange(start as int, i + 1) =~= s@.subrange(start as int, i as int).push(c));
            }
        }
        i = i + 1;
    }
    let piece = s.substring_char(start, n);
    pieces.push(piece);
    proof {
        assert(s@.subrange(0, n as int) =~= s@);
    }
    pieces
}

} // verus!
