//! Character-level helpers: whitespace, tokenizing, case folding, comparison.
use vstd::prelude::*;

verus! {

/// The characters that carry the Unicode `White_Space` property.
pub open spec fn is_white_space(c: char) -> bool {
    ||| ('\u{9}' <= c && c <= '\u{d}')
    ||| c == ' '
    ||| c == '\u{85}'
    ||| c == '\u{a0}'
    ||| c == '\u{1680}'
    ||| ('\u{2000}' <= c && c <= '\u{200a}')
    ||| c == '\u{2028}'
    ||| c == '\u{2029}'
    ||| c == '\u{202f}'
    ||| c == '\u{205f}'
    ||| c == '\u{3000}'
}

/// The maximal runs of non-whitespace characters of `s`, left to right.
pub open spec fn tokens(s: Seq<char>) -> Seq<Seq<char>>
    decreases s.len(),
{
    if s.len() == 0 {
        Seq::empty()
    } else {
        let rest = tokens(s.drop_last());
        let c = s.last();
        if is_white_space(c) {
            rest
        } else if s.len() >= 2 && !is_white_space(s[s.len() - 2]) {
            rest.update(rest.len() - 1, rest.last().push(c))
        } else {
            rest.push(seq![c])
        }
    }
}

/// The case-folded form of a text, as `str::to_lowercase` computes it.
pub uninterp spec fn lower_of(s: Seq<char>) -> Seq<char>;

/// The views of a sequence of string slices.
pub open spec fn views(v: Seq<&str>) -> Seq<Seq<char>> {
    v.map_values(|t: &str| t@)
}

/// Relies on `char::is_whitespace`, which tests for the Unicode `White_Space` property.
#[verifier::external_body]
fn is_space(c: char) -> (r: bool)
    ensures
        r == is_white_space(c),
{
    c.is_whitespace()
}

/// Relies on `str::to_lowercase`: the result depends on the characters alone.
#[verifier::external_body]
pub(crate) fn lowercase(s: &str) -> (r: String)
    ensures
        r@ == lower_of(s@),
{
    s.to_lowercase()
}

/// Relies on `==` of `str`: two slices are equal when their characters are.
#[verifier::external_body]
pub(crate) fn same_text(a: &str, b: &str) -> (r: bool)
    ensures
        r == (a@ == b@),
{
    a == b
}

proof fn lemma_tokens_step(s: Seq<char>, i: int)
    requires
        0 <= i < s.len(),
    ensures
        s.subrange(0, i + 1).drop_last() == s.subrange(0, i),
        s.subrange(0, i + 1).last() == s[i],
        i >= 1 ==> s.subrange(0, i + 1)[i - 1] == s[i - 1],
{
    assert(s.subrange(0, i + 1).drop_last() =~= s.subrange(0, i));
}

/// Splits `s` into its whitespace-separated tokens, each a slice of `s`.
pub fn split_tokens<'a>(s: &'a str) -> (r: Vec<&'a str>)
    ensures
        views(r@) == tokens(s@),
{
    let n = s.unicode_len();
    let mut out: Vec<&'a str> = Vec::new();
    let mut in_token = false;
    let mut start: usize = 0;
    let mut i: usize = 0;
    while i < n
        invariant
            n == s@.len(),
            i <= n,
            start <= i,
            in_token <==> (i > 0 && !is_white_space(s@[i - 1])),
            in_token ==> tokens(s@.subrange(0, i as int)).len() > 0,
            in_token ==> views(out@) == tokens(s@.subrange(0, i as int)).drop_last(),
            in_token ==> tokens(s@.subrange(0, i as int)).last() == s@.subrange(start as int, i as int),
            !in_token ==> views(out@) == tokens(s@.subrange(0, i as int)),
        decreases n - i,
    {
        let c = s.get_char(i);
        proof {
            lemma_tokens_step(s@, i as int);
        }
        let ghost prefix = s@.subrange(0, i as int);
        let ghost next = s@.subrange(0, i + 1);
        assert(tokens(next) == if is_white_space(c) {
            tokens(prefix)
        } else if in_token {
            tokens(prefix).update(tokens(prefix).len() - 1, tokens(prefix).last().push(c))
        } else {
            tokens(prefix).push(seq![c])
        });
        if is_space(c) {
            if in_token {
                let t = s.substring_char(start, i);
                let ghost before = out@;
                out.push(t);
                assert(views(out@) =~= views(before).push(t@));
                assert(tokens(prefix) =~= tokens(prefix).drop_last().push(tokens(prefix).last()));
                in_token = false;
            }
        } else if !in_token {
            start = i;
            in_token = true;
            assert(s@.subrange(start as int, i + 1) =~= seq![c]);
        } else {
            assert(s@.subrange(start as int, i + 1) =~= s@.subrange(start as int, i as int).push(c));
        }
        i = i + 1;
    }
    if in_token {
        let t = s.substring_char(start, n);
        let ghost before = out@;
        out.push(t);
        assert(views(out@) =~= views(before).push(t@));
        let ghost all = tokens(s@.subrange(0, n as int));
        assert(all =~= all.drop_last().push(all.last()));
    }
    assert(s@.subrange(0, n as int) =~= s@);
    out
}

} // verus!
