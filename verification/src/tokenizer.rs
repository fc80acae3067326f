//! Splitting an input line into whitespace-delimited tokens.
//!
//! Tokens are exactly the maximal runs of non-whitespace characters, in
//! order; leading, trailing and repeated whitespace is discarded, and there
//! is no quoting or escaping.

use vstd::prelude::*;

verus! {

/// The whitespace characters that delimit tokens.
pub open spec fn is_space(c: char) -> bool {
    c == ' ' || c == '\t' || c == '\n' || c == '\r'
}

/// The tokens of `s`: its maximal runs of non-whitespace characters.
pub open spec fn tokens_of(s: Seq<char>) -> Seq<Seq<char>>
    decreases s.len(),
{
    if s.len() == 0 {
        Seq::empty()
    } else {
        let rest = tokens_of(s.drop_first());
        if is_space(s[0]) {
            rest
        } else if s.len() == 1 || is_space(s[1]) {
            seq![seq![s[0]]] + rest
        } else {
            seq![seq![s[0]] + rest[0]] + rest.drop_first()
        }
    }
}

/// When the first `m` characters of `s` are non-whitespace and the one
/// after them (if any) is whitespace, the first token is exactly those
/// `m` characters.
pub proof fn lemma_tokens_word(s: Seq<char>, m: int)
    requires
        1 <= m <= s.len(),
        forall|j: int| 0 <= j < m ==> !is_space(s[j]),
        m < s.len() ==> is_space(s[m]),
    ensures
        tokens_of(s) == seq![s.take(m)] + tokens_of(s.skip(m)),
    decreases m,
{
    let t = s.drop_first();
    if m == 1 {
        if s.len() == 1 {
            assert(tokens_of(s) =~~= seq![s.take(1)] + tokens_of(s.skip(1)));
        } else {
            assert(is_space(s[1]));
            assert(seq![s[0]] =~= s.take(1));
            assert(t =~= s.skip(1));
            assert(tokens_of(s) =~~= seq![s.take(1)] + tokens_of(s.skip(1)));
        }
    } else {
        assert(forall|j: int| 0 <= j < m - 1 ==> !is_space(t[j]));
        lemma_tokens_word(t, m - 1);
        let rest = tokens_of(t);
        assert(rest == seq![t.take(m - 1)] + tokens_of(t.skip(m - 1)));
        assert(!is_space(s[1]));
        assert(seq![s[0]] + rest[0] =~= s.take(m));
        assert(rest.drop_first() =~~= tokens_of(t.skip(m - 1)));
        assert(t.skip(m - 1) =~= s.skip(m));
        assert(tokens_of(s) =~~= seq![s.take(m)] + tokens_of(s.skip(m)));
    }
}

/// Whether `c` is one of the whitespace characters that delimit tokens.
pub fn is_space_char(c: char) -> (r: bool)
    ensures
        r == is_space(c),
{
    c == ' ' || c == '\t' || c == '\n' || c == '\r'
}

/// Splits a line into its whitespace-delimited tokens, in order.
pub fn tokenize(line: &str) -> (r: Vec<String>)
    ensures
        r.deep_view() == tokens_of(line@),
{
    let n = line.unicode_len();
    let mut r: Vec<String> = Vec::new();
    let mut i: usize = 0;
    proof {
        assert(line@.skip(0) =~= line@);
        assert(r.deep_view() =~~= Seq::<Seq<char>>::empty());
    }
    while i < n
        invariant
            i <= n,
            n == line@.len(),
            tokens_of(line@) =~~= r.deep_view() + tokens_of(line@.skip(i as int)),
        decreases n - i,
    {
        if is_space_char(line.get_char(i)) {
            proof {
                assert(line@.skip(i as int).drop_first() =~= line@.skip(i + 1));
            }
            i += 1;
        } else {
            let ghost prefix = r.deep_view();
            let mut j: usize = i + 1;
            while j < n && !is_space_char(line.get_char(j))
                invariant
                    i < j <= n,
                    n == line@.len(),
                    forall|k: int| i <= k < j ==> !is_space(line@[k]),
                decreases n - j,
            {
                j += 1;
            }
            let tok = line.substring_char(i, j);
            r.push(String::from_str(tok));
            proof {
                let tail = line@.skip(i as int);
                assert(forall|k: int| 0 <= k < j - i ==> !is_space(tail[k]));
                lemma_tokens_word(tail, j - i);
                assert(tok@ =~= tail.take(j - i));
                assert(tail.skip(j - i) =~= line@.skip(j as int));
                assert(r.deep_view() =~~= prefix.push(tok@));
                assert(r.deep_view() + tokens_of(line@.skip(j as int)) =~~= prefix + tokens_of(
                    tail,
                ));
            }
            i = j;
        }
    }
    proof {
        assert(tokens_of(line@.skip(n as int)) =~~= Seq::<Seq<char>>::empty());
        assert(r.deep_view() + tokens_of(line@.skip(n as int)) =~~= r.deep_view());
    }
    r
}

} // verus!
