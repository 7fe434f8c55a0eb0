//! Verified text primitives the core is built on: literal substring
//! replacement, line splitting, and lexicographic comparison of names.

use vstd::prelude::*;

verus! {

/// The pattern `pat` occurs in `s` starting at index `i`.
pub open spec fn match_at(s: Seq<char>, pat: Seq<char>, i: int) -> bool {
    &&& 0 <= i
    &&& i + pat.len() <= s.len()
    &&& s.subrange(i, i + pat.len()) == pat
}

/// The pattern `pat` occurs somewhere in `s`.
pub open spec fn occurs(s: Seq<char>, pat: Seq<char>) -> bool {
    exists|i: int| match_at(s, pat, i)
}

/// Left-to-right, non-overlapping replacement of every occurrence of
/// `pat` in `s` by `rep`.  A replacement is never rescanned: matching
/// resumes after the inserted text, as `str::replace` does.  An empty
/// pattern leaves `s` unchanged.
pub open spec fn replace_all_spec(s: Seq<char>, pat: Seq<char>, rep: Seq<char>) -> Seq<char>
    decreases s.len(),
{
    if pat.len() == 0 || s.len() < pat.len() {
        s
    } else if s.subrange(0, pat.len() as int) == pat {
        rep + replace_all_spec(s.skip(pat.len() as int), pat, rep)
    } else {
        seq![s[0]] + replace_all_spec(s.skip(1), pat, rep)
    }
}

/// A match of `pat` within `s` at position `i` is the same thing as a
/// match at the front of the suffix of `s` that starts at `i`.
proof fn lemma_match_at_skip(s: Seq<char>, pat: Seq<char>, i: int)
    requires
        0 <= i <= s.len(),
    ensures
        match_at(s, pat, i) <==> match_at(s.skip(i), pat, 0),
{
    if i + pat.len() <= s.len() {
        assert(s.skip(i).subrange(0, pat.len() as int) =~= s.subrange(i, i + pat.len()));
    }
}

/// A line without any occurrence of the pattern is left untouched by
/// replacement.
pub proof fn lemma_replace_all_no_occurrence(s: Seq<char>, pat: Seq<char>, rep: Seq<char>)
    requires
        !occurs(s, pat),
    ensures
        replace_all_spec(s, pat, rep) == s,
    decreases s.len(),
{
    if pat.len() == 0 || s.len() < pat.len() {
    } else if s.subrange(0, pat.len() as int) == pat {
        assert(match_at(s, pat, 0));
        assert(false);
    } else {
        assert forall|i: int| !match_at(s.skip(1), pat, i) by {
            if match_at(s.skip(1), pat, i) {
                assert(s.subrange(i + 1, i + 1 + pat.len()) =~= s.skip(1).subrange(
                    i,
                    i + pat.len(),
                ));
                assert(match_at(s, pat, i + 1));
            }
        }
        lemma_replace_all_no_occurrence(s.skip(1), pat, rep);
        assert(seq![s[0]] + s.skip(1) =~= s);
    }
}

/// Lexicographic order on character sequences by scalar value; agrees
/// with the byte order of the UTF-8 encodings the host reports names in.
pub open spec fn lex_leq(a: Seq<char>, b: Seq<char>) -> bool
    decreases a.len(),
{
    if a.len() == 0 {
        true
    } else if b.len() == 0 {
        false
    } else if (a[0] as u32) < (b[0] as u32) {
        true
    } else if (b[0] as u32) < (a[0] as u32) {
        false
    } else {
        lex_leq(a.skip(1), b.skip(1))
    }
}

/// The order is total: of any two sequences one is below the other.
pub proof fn lemma_lex_leq_total(a: Seq<char>, b: Seq<char>)
    ensures
        lex_leq(a, b) || lex_leq(b, a),
    decreases a.len(),
{
    if a.len() > 0 && b.len() > 0 && (a[0] as u32) == (b[0] as u32) {
        lemma_lex_leq_total(a.skip(1), b.skip(1));
    }
}

/// The order is transitive.
pub proof fn lemma_lex_leq_trans(a: Seq<char>, b: Seq<char>, c: Seq<char>)
    requires
        lex_leq(a, b),
        lex_leq(b, c),
    ensures
        lex_leq(a, c),
    decreases a.len(),
{
    if a.len() > 0 {
        assert(b.len() > 0);
        assert(c.len() > 0);
        if (a[0] as u32) == (b[0] as u32) && (b[0] as u32) == (c[0] as u32) {
            lemma_lex_leq_trans(a.skip(1), b.skip(1), c.skip(1));
        }
    }
}

/// True exactly when `a` is at or below `b` in the lexicographic order.
pub fn str_leq(a: &str, b: &str) -> (r: bool)
    ensures
        r == lex_leq(a@, b@),
{
    let na = a.unicode_len();
    let nb = b.unicode_len();
    let mut i: usize = 0;
    proof {
        assert(a@.skip(0) =~= a@);
        assert(b@.skip(0) =~= b@);
    }
    loop
        invariant
            na == a@.len(),
            nb == b@.len(),
            i <= na,
            i <= nb,
            lex_leq(a@, b@) == lex_leq(a@.skip(i as int), b@.skip(i as int)),
        decreases na - i,
    {
        if i == na {
            return true;
        }
        if i == nb {
            return false;
        }
        let ca = a.get_char(i);
        let cb = b.get_char(i);
        proof {
            assert(a@.skip(i as int)[0] == a@[i as int]);
            assert(b@.skip(i as int)[0] == b@[i as int]);
            assert(a@.skip(i as int).skip(1) =~= a@.skip(i + 1));
            assert(b@.skip(i as int).skip(1) =~= b@.skip(i + 1));
        }
        if (ca as u32) < (cb as u32) {
            return true;
        }
        if (cb as u32) < (ca as u32) {
            return false;
        }
        i += 1;
    }
}

/// Index of the first line feed in `s`, or the length of `s` when it
/// holds none.
pub open spec fn find_newline(s: Seq<char>) -> nat
    decreases s.len(),
{
    if s.len() == 0 {
        0
    } else if s[0] == '\n' {
        0
    } else {
        1 + find_newline(s.skip(1))
    }
}

/// What `find_newline` returns: the position of a line feed with none
/// before it, or the length of a sequence without one.
pub proof fn lemma_find_newline(s: Seq<char>)
    ensures
        find_newline(s) <= s.len(),
        forall|k: int| 0 <= k < find_newline(s) ==> s[k] != '\n',
        find_newline(s) < s.len() ==> s[find_newline(s) as int] == '\n',
    decreases s.len(),
{
    if s.len() > 0 && s[0] != '\n' {
        lemma_find_newline(s.skip(1));
        assert forall|k: int| 0 <= k < find_newline(s) implies s[k] != '\n' by {
            if k > 0 {
                assert(s.skip(1)[k - 1] == s[k]);
            }
        }
    }
}

/// A carriage return directly before a line break is part of the break
/// and not of the line.
pub open spec fn strip_cr(l: Seq<char>) -> Seq<char> {
    if l.len() > 0 && l[l.len() - 1] == '\r' {
        l.drop_last()
    } else {
        l
    }
}

/// The lines of `s`: segments between line breaks, a break being a line
/// feed or a carriage return followed by a line feed.  A final segment
/// without a break is a line of its own; a trailing break opens no
/// empty last line.
pub open spec fn split_lines_spec(s: Seq<char>) -> Seq<Seq<char>>
    decreases s.len(),
{
    if s.len() == 0 {
        Seq::empty()
    } else {
        let i = find_newline(s);
        if i >= s.len() {
            seq![s]
        } else {
            seq![strip_cr(s.subrange(0, i as int))] + split_lines_spec(s.skip(i as int + 1))
        }
    }
}

/// Splits `content` into its lines.
pub fn split_lines(content: &str) -> (r: Vec<String>)
    ensures
        r.deep_view() == split_lines_spec(content@),
{
    let n = content.unicode_len();
    let mut r: Vec<String> = Vec::new();
    let mut start: usize = 0;
    let mut i: usize = 0;
    proof {
        assert(content@.skip(0) =~= content@);
        assert(r.deep_view() + split_lines_spec(content@) =~= split_lines_spec(content@));
    }
    while i < n
        invariant
            n == content@.len(),
            start <= i <= n,
            forall|k: int| start <= k < i ==> content@[k] != '\n',
            split_lines_spec(content@) == r.deep_view() + split_lines_spec(
                content@.skip(start as int),
            ),
        decreases n - i,
    {
        if content.get_char(i) == '\n' {
            let end = if i > start && content.get_char(i - 1) == '\r' {
                i - 1
            } else {
                i
            };
            let line = content.substring_char(start, end);
            let ghost old_r = r;
            r.push(String::from_str(line));
            proof {
                let s = content@.skip(start as int);
                lemma_find_newline(s);
                let j = i - start;
                assert(s[j as int] == content@[i as int]);
                assert forall|k: int| 0 <= k < j implies s[k] != '\n' by {
                    assert(s[k] == content@[start + k]);
                }
                assert(find_newline(s) == j);
                assert(s.subrange(0, j as int) =~= content@.subrange(start as int, i as int));
                assert(strip_cr(s.subrange(0, j as int)) =~= content@.subrange(
                    start as int,
                    end as int,
                ));
                assert(s.skip(j + 1) =~= content@.skip(i + 1));
                assert(split_lines_spec(s) == seq![line@] + split_lines_spec(
                    content@.skip(i + 1),
                ));
                assert(r.deep_view() =~= old_r.deep_view().push(line@));
                assert(r.deep_view() + split_lines_spec(content@.skip(i + 1))
                    =~= old_r.deep_view() + split_lines_spec(s));
            }
            i += 1;
            start = i;
        } else {
            i += 1;
        }
    }
    if start < n {
        let line = content.substring_char(start, n);
        let ghost old_r = r;
        r.push(String::from_str(line));
        proof {
            let s = content@.skip(start as int);
            lemma_find_newline(s);
            assert forall|k: int| 0 <= k < s.len() implies s[k] != '\n' by {
                assert(s[k] == content@[start + k]);
            }
            assert(find_newline(s) == s.len());
            assert(s =~= content@.subrange(start as int, n as int));
            assert(split_lines_spec(s) == seq![s]);
            assert(r.deep_view() =~= old_r.deep_view().push(line@));
            assert(r.deep_view() =~= old_r.deep_view() + split_lines_spec(s));
        }
    } else {
        proof {
            assert(content@.skip(start as int) =~= Seq::<char>::empty());
            assert(r.deep_view() + split_lines_spec(Seq::<char>::empty()) =~= r.deep_view());
        }
    }
    r
}

/// Relies on `char::to_string`: the returned string holds exactly the
/// one character it was called on.
#[verifier::external_body]
fn char_to_string(c: char) -> (r: String)
    ensures
        r@ == seq![c],
{
    c.to_string()
}

/// True exactly when `pat` occurs in `line` starting at index `i`.
fn matches_at(line: &str, pat: &str, i: usize, n: usize, m: usize) -> (r: bool)
    requires
        n == line@.len(),
        m == pat@.len(),
        i + m <= n,
    ensures
        r == match_at(line@, pat@, i as int),
{
    let mut j: usize = 0;
    while j < m
        invariant
            n == line@.len(),
            m == pat@.len(),
            i + m <= n,
            0 <= j <= m,
            forall|k: int| 0 <= k < j ==> line@[i + k] == pat@[k],
        decreases m - j,
    {
        if line.get_char(i + j) != pat.get_char(j) {
            assert(line@.subrange(i as int, i + m) != pat@) by {
                assert(line@.subrange(i as int, i + m)[j as int] != pat@[j as int]);
            }
            return false;
        }
        j += 1;
    }
    assert(line@.subrange(i as int, i + m) =~= pat@);
    true
}

/// Replaces every occurrence of `pat` in `line` by `rep`, scanning left
/// to right and never rescanning replaced text.
pub fn replace_all(line: &str, pat: &str, rep: &str) -> (r: String)
    requires
        pat@.len() > 0,
    ensures
        r@ == replace_all_spec(line@, pat@, rep@),
{
    let n = line.unicode_len();
    let m = pat.unicode_len();
    let mut out = String::new();
    let mut i: usize = 0;
    proof {
        assert(line@.skip(0) =~= line@);
        assert(Seq::<char>::empty() + replace_all_spec(line@, pat@, rep@)
            =~= replace_all_spec(line@, pat@, rep@));
    }
    while i < n
        invariant
            n == line@.len(),
            m == pat@.len(),
            m > 0,
            0 <= i <= n,
            replace_all_spec(line@, pat@, rep@) == out@ + replace_all_spec(
                line@.skip(i as int),
                pat@,
                rep@,
            ),
        decreases n - i,
    {
        let ghost suffix = line@.skip(i as int);
        if n - i >= m && matches_at(line, pat, i, n, m) {
            proof {
                lemma_match_at_skip(line@, pat@, i as int);
                assert(suffix.subrange(0, m as int) == pat@);
                assert(suffix.skip(m as int) =~= line@.skip(i + m));
            }
            out.append(rep);
            i += m;
            proof {
                assert(out@ + replace_all_spec(line@.skip(i as int), pat@, rep@)
                    =~= replace_all_spec(line@, pat@, rep@));
            }
        } else {
            let c = line.get_char(i);
            proof {
                if i + m <= n {
                    lemma_match_at_skip(line@, pat@, i as int);
                    assert(suffix.subrange(0, m as int) != pat@);
                }
                assert(suffix.skip(1) =~= line@.skip(i + 1));
                assert(suffix[0] == line@[i as int]);
            }
            let cs = char_to_string(c);
            out.append(cs.as_str());
            i += 1;
            proof {
                assert(out@ + replace_all_spec(line@.skip(i as int), pat@, rep@)
                    =~= replace_all_spec(line@, pat@, rep@));
            }
        }
    }
    proof {
        assert(line@.skip(n as int) =~= Seq::<char>::empty());
        assert(out@ + replace_all_spec(line@.skip(n as int), pat@, rep@) =~= out@);
    }
    out
}

} // verus!
