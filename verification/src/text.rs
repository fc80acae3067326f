//! Character-exact string helpers: equality, separator splitting and
//! joining, and membership in a list of strings.

use vstd::prelude::*;

verus! {

/// Compares two string slices character by character.
pub fn str_eq(a: &str, b: &str) -> (r: bool)
    ensures
        r == (a@ == b@),
{
    let n = a.unicode_len();
    let m = b.unicode_len();
    if n != m {
        return false;
    }
    let mut i: usize = 0;
    while i < n
        invariant
            n == a@.len(),
            n == b@.len(),
            i <= n,
            forall|j: int| 0 <= j < i ==> a@[j] == b@[j],
        decreases n - i,
    {
        if a.get_char(i) != b.get_char(i) {
            return false;
        }
        i += 1;
    }
    proof {
        assert(a@ =~= b@);
    }
    true
}

/// The pieces of `s` between occurrences of the separator `sep`, in order.
/// A string without the separator is one piece, so the result is never
/// empty; adjacent separators and separators at either end give empty
/// pieces, as splitting an environment variable such as `PATH` must.
pub open spec fn split_sep(s: Seq<char>, sep: char) -> Seq<Seq<char>>
    decreases s.len(),
{
    if s.len() == 0 {
        seq![Seq::<char>::empty()]
    } else if s[0] == sep {
        seq![Seq::<char>::empty()] + split_sep(s.drop_first(), sep)
    } else {
        let rest = split_sep(s.drop_first(), sep);
        seq![seq![s[0]] + rest[0]] + rest.drop_first()
    }
}

pub proof fn lemma_split_sep_nonempty(s: Seq<char>, sep: char)
    ensures
        split_sep(s, sep).len() >= 1,
    decreases s.len(),
{
    if s.len() != 0 {
        lemma_split_sep_nonempty(s.drop_first(), sep);
    }
}

/// When the first `m` characters of `s` are free of the separator and the
/// one after them (if any) is the separator, the first piece is exactly
/// those `m` characters.
pub proof fn lemma_split_sep_word(s: Seq<char>, sep: char, m: int)
    requires
        0 <= m <= s.len(),
        forall|j: int| 0 <= j < m ==> s[j] != sep,
        m < s.len() ==> s[m] == sep,
    ensures
        m == s.len() ==> split_sep(s, sep) == seq![s],
        m < s.len() ==> split_sep(s, sep) == seq![s.take(m)] + split_sep(s.skip(m + 1), sep),
    decreases m,
{
    if m == 0 {
        if s.len() == 0 {
            assert(split_sep(s, sep) =~~= seq![s]);
        } else {
            assert(s.take(0) =~= Seq::<char>::empty());
            assert(s.skip(1) =~= s.drop_first());
            assert(split_sep(s, sep) =~~= seq![s.take(0)] + split_sep(s.skip(1), sep));
        }
    } else {
        let t = s.drop_first();
        assert(forall|j: int| 0 <= j < m - 1 ==> t[j] != sep);
        lemma_split_sep_word(t, sep, m - 1);
        lemma_split_sep_nonempty(t, sep);
        let rest = split_sep(t, sep);
        if m == s.len() {
            assert(rest == seq![t]);
            assert(seq![s[0]] + rest[0] =~= s);
            assert(split_sep(s, sep) =~~= seq![s]);
        } else {
            assert(rest == seq![t.take(m - 1)] + split_sep(t.skip(m), sep));
            assert(seq![s[0]] + rest[0] =~= s.take(m));
            assert(rest.drop_first() =~~= split_sep(t.skip(m), sep));
            assert(t.skip(m) =~= s.skip(m + 1));
            assert(split_sep(s, sep) =~~= seq![s.take(m)] + split_sep(s.skip(m + 1), sep));
        }
    }
}

/// No piece of a split contains the separator it was split on.
pub proof fn lemma_split_sep_free(s: Seq<char>, sep: char)
    ensures
        forall|i: int|
            0 <= i < split_sep(s, sep).len() ==> !(#[trigger] split_sep(s, sep)[i]).contains(sep),
    decreases s.len(),
{
    if s.len() == 0 {
        assert(!split_sep(s, sep)[0].contains(sep));
    } else {
        lemma_split_sep_free(s.drop_first(), sep);
        lemma_split_sep_nonempty(s.drop_first(), sep);
        let rest = split_sep(s.drop_first(), sep);
        if s[0] == sep {
            assert(!split_sep(s, sep)[0].contains(sep));
            assert(forall|i: int|
                1 <= i < split_sep(s, sep).len() ==> !(#[trigger] split_sep(s, sep)[i]).contains(
                    sep,
                ));
        } else {
            let first = seq![s[0]] + rest[0];
            assert(!rest[0].contains(sep));
            assert forall|k: int| 0 <= k < first.len() implies first[k] != sep by {
                if k > 0 {
                    assert(first[k] == rest[0][k - 1]);
                }
            }
            assert(!first.contains(sep));
            assert(forall|i: int|
                1 <= i < split_sep(s, sep).len() ==> split_sep(s, sep)[i] == rest[i]);
        }
    }
}

/// Splits a string on a separator character, keeping empty pieces.
pub fn split_char(s: &str, sep: char) -> (r: Vec<String>)
    ensures
        r.deep_view() == split_sep(s@, sep),
{
    let n = s.unicode_len();
    let mut r: Vec<String> = Vec::new();
    let mut i: usize = 0;
    proof {
        assert(s@.skip(0) =~= s@);
        assert(r.deep_view() =~~= Seq::<Seq<char>>::empty());
    }
    loop
        invariant_except_break
            i <= n,
            n == s@.len(),
            split_sep(s@, sep) =~~= r.deep_view() + split_sep(s@.skip(i as int), sep),
        ensures
            r.deep_view() == split_sep(s@, sep),
        decreases n - i,
    {
        let ghost prefix = r.deep_view();
        let mut j: usize = i;
        while j < n && s.get_char(j) != sep
            invariant
                i <= j <= n,
                n == s@.len(),
                forall|k: int| i <= k < j ==> s@[k] != sep,
            decreases n - j,
        {
            j += 1;
        }
        let piece = s.substring_char(i, j);
        r.push(String::from_str(piece));
        proof {
            let tail = s@.skip(i as int);
            assert(forall|k: int| 0 <= k < j - i ==> tail[k] != sep);
            lemma_split_sep_word(tail, sep, j - i);
            assert(piece@ =~= tail.take(j - i));
            assert(r.deep_view() =~~= prefix.push(piece@));
        }
        if j == n {
            proof {
                assert(s@.skip(i as int) =~= s@.skip(i as int).take(j - i));
                assert(split_sep(s@.skip(i as int), sep) =~~= seq![piece@]);
                assert(r.deep_view() =~~= prefix + seq![piece@]);
            }
            break;
        }
        proof {
            assert(s@.skip(i as int).skip(j - i + 1) =~= s@.skip(j + 1));
            assert(split_sep(s@.skip(i as int), sep) =~~= seq![piece@] + split_sep(
                s@.skip(j + 1),
                sep,
            ));
            assert(r.deep_view() + split_sep(s@.skip(j + 1), sep) =~~= prefix + split_sep(
                s@.skip(i as int),
                sep,
            ));
        }
        i = j + 1;
    }
    r
}

/// The strings of `parts` laid end to end with `sep` between neighbours.
pub open spec fn join_with(parts: Seq<Seq<char>>, sep: char) -> Seq<char>
    decreases parts.len(),
{
    if parts.len() == 0 {
        Seq::empty()
    } else if parts.len() == 1 {
        parts[0]
    } else {
        parts[0] + seq![sep] + join_with(parts.drop_first(), sep)
    }
}

pub proof fn lemma_join_with_push(parts: Seq<Seq<char>>, sep: char, x: Seq<char>)
    requires
        parts.len() >= 1,
    ensures
        join_with(parts.push(x), sep) == join_with(parts, sep) + seq![sep] + x,
    decreases parts.len(),
{
    if parts.len() == 1 {
        assert(parts.push(x).drop_first() =~~= seq![x]);
        assert(join_with(seq![x], sep) == x);
        assert(join_with(parts.push(x), sep) =~= parts[0] + seq![sep] + x);
    } else {
        assert(parts.push(x).drop_first() =~~= parts.drop_first().push(x));
        lemma_join_with_push(parts.drop_first(), sep, x);
        assert(join_with(parts.push(x), sep) =~= join_with(parts, sep) + seq![sep] + x);
    }
}

/// Splitting a joined sequence of separator-free pieces recovers the pieces.
pub proof fn lemma_split_join(parts: Seq<Seq<char>>, sep: char)
    requires
        parts.len() >= 1,
        forall|i: int| 0 <= i < parts.len() ==> !(#[trigger] parts[i]).contains(sep),
    ensures
        split_sep(join_with(parts, sep), sep) == parts,
    decreases parts.len(),
{
    let s = join_with(parts, sep);
    if parts.len() == 1 {
        assert(forall|j: int| 0 <= j < s.len() ==> s[j] != sep);
        lemma_split_sep_word(s, sep, s.len() as int);
        assert(split_sep(s, sep) =~~= parts);
    } else {
        let head = parts[0];
        let m = head.len() as int;
        assert(s =~= head + seq![sep] + join_with(parts.drop_first(), sep));
        assert(forall|j: int| 0 <= j < m ==> s[j] == head[j]);
        assert(forall|j: int| 0 <= j < m ==> s[j] != sep);
        assert(s[m] == sep);
        lemma_split_sep_word(s, sep, m);
        assert(s.take(m) =~= head);
        assert(s.skip(m + 1) =~= join_with(parts.drop_first(), sep));
        lemma_split_join(parts.drop_first(), sep);
        assert(split_sep(s, sep) =~~= parts);
    }
}

/// Joins strings with a one-character separator between neighbours.
pub fn join_strs(parts: &Vec<String>, sep: &str) -> (r: String)
    requires
        sep@.len() == 1,
    ensures
        r@ == join_with(parts.deep_view(), sep@[0]),
{
    let ghost sc = sep@[0];
    proof {
        assert(sep@ =~= seq![sc]);
    }
    let n = parts.len();
    let mut r = String::new();
    let mut i: usize = 0;
    while i < n
        invariant
            i <= n,
            n == parts@.len(),
            sep@ =~= seq![sc],
            r@ == join_with(parts.deep_view().take(i as int), sc),
        decreases n - i,
    {
        proof {
            assert(parts.deep_view().take(i + 1).drop_last() =~~= parts.deep_view().take(i as int));
            assert(parts.deep_view().take(i + 1) =~~= parts.deep_view().take(i as int).push(
                parts.deep_view()[i as int],
            ));
        }
        if i > 0 {
            proof {
                lemma_join_with_push(parts.deep_view().take(i as int), sc, parts.deep_view()[i as int]);
            }
            r.append(sep);
        } else {
            proof {
                assert(join_with(parts.deep_view().take(1), sc) == parts.deep_view()[0]);
            }
        }
        r.append(parts[i].as_str());
        i += 1;
    }
    proof {
        assert(parts.deep_view().take(n as int) =~~= parts.deep_view());
    }
    r
}

/// Whether one of the strings in `v` has exactly the characters of `s`.
pub fn contains_str(v: &Vec<String>, s: &str) -> (r: bool)
    ensures
        r == v.deep_view().contains(s@),
{
    let n = v.len();
    let mut i: usize = 0;
    while i < n
        invariant
            n == v@.len(),
            i <= n,
            forall|j: int| 0 <= j < i ==> v.deep_view()[j] != s@,
        decreases n - i,
    {
        if str_eq(v[i].as_str(), s) {
            proof {
                assert(v.deep_view()[i as int] == s@);
            }
            return true;
        }
        i += 1;
    }
    proof {
        assert(forall|j: int| 0 <= j < v.deep_view().len() ==> v.deep_view()[j] != s@);
    }
    false
}

} // verus!
