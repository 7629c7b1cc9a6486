//! Verified text helpers: splitting a string on a separator character,
//! joining parts back together, and taking prefixes of a string.
//!
//! Lineages are semicolon-delimited strings, and accession identifiers are
//! normalized by cutting at the first `.`; both operations are defined here
//! against spec-level functions over `Seq<char>`.

use vstd::prelude::*;

verus! {

/// The parts of `s` split on the separator `sep`, exactly as `str::split`
/// yields them: the empty sequence splits into one empty part, and a
/// separator at either end yields an empty part on that side.
pub open spec fn spec_split(s: Seq<char>, sep: char) -> Seq<Seq<char>>
    decreases s.len(),
{
    if s.len() == 0 {
        seq![Seq::<char>::empty()]
    } else if s[0] == sep {
        seq![Seq::<char>::empty()] + spec_split(s.skip(1), sep)
    } else {
        let rest = spec_split(s.skip(1), sep);
        seq![seq![s[0]] + rest[0]] + rest.skip(1)
    }
}

/// The parts of `parts` joined with the separator `sep` between each pair.
pub open spec fn spec_join(parts: Seq<Seq<char>>, sep: char) -> Seq<char>
    decreases parts.len(),
{
    if parts.len() == 0 {
        Seq::<char>::empty()
    } else if parts.len() == 1 {
        parts[0]
    } else {
        parts[0] + seq![sep] + spec_join(parts.skip(1), sep)
    }
}

/// Splitting always yields at least one part.
pub broadcast proof fn lemma_split_nonempty(s: Seq<char>, sep: char)
    ensures
        #[trigger] spec_split(s, sep).len() >= 1,
    decreases s.len(),
{
    if s.len() != 0 && s[0] != sep {
        lemma_split_nonempty(s.skip(1), sep);
    }
}

/// Appending one character to a string extends its split: a separator opens
/// a fresh empty part, any other character grows the last part.
pub proof fn lemma_split_push(s: Seq<char>, sep: char, c: char)
    ensures
        c == sep ==> spec_split(s.push(c), sep) == spec_split(s, sep).push(Seq::<char>::empty()),
        c != sep ==> spec_split(s.push(c), sep) == spec_split(s, sep).drop_last().push(
            spec_split(s, sep).last().push(c),
        ),
    decreases s.len(),
{
    lemma_split_nonempty(s, sep);
    if s.len() == 0 {
        assert(s.push(c) =~= seq![c]);
        assert(s.push(c).skip(1) =~= Seq::<char>::empty());
        assert(spec_split(Seq::<char>::empty(), sep) =~~= seq![Seq::<char>::empty()]);
        if c == sep {
            assert(spec_split(s.push(c), sep) =~~= seq![Seq::<char>::empty()] + spec_split(
                s.push(c).skip(1),
                sep,
            ));
            assert(spec_split(s.push(c), sep) =~~= spec_split(s, sep).push(Seq::<char>::empty()));
        } else {
            assert(seq![c] + spec_split(Seq::<char>::empty(), sep)[0] =~= seq![c]);
            assert(spec_split(s.push(c), sep) =~~= spec_split(s, sep).drop_last().push(
                spec_split(s, sep).last().push(c),
            ));
        }
    } else {
        let t = s.skip(1);
        lemma_split_nonempty(t, sep);
        assert(s.push(c).skip(1) =~= t.push(c));
        lemma_split_push(t, sep, c);
        if s[0] == sep {
            if c == sep {
                assert(spec_split(s.push(c), sep) =~= spec_split(s, sep).push(
                    Seq::<char>::empty(),
                ));
            } else {
                assert(spec_split(s, sep).drop_last() =~~= seq![Seq::<char>::empty()] + spec_split(
                    t,
                    sep,
                ).drop_last());
                assert(spec_split(s, sep).last() == spec_split(t, sep).last());
                assert(spec_split(s.push(c), sep) =~~= spec_split(s, sep).drop_last().push(
                    spec_split(s, sep).last().push(c),
                ));
            }
        } else {
            let rest = spec_split(t, sep);
            let restc = spec_split(t.push(c), sep);
            if c == sep {
                assert(restc == rest.push(Seq::<char>::empty()));
                assert(restc[0] == rest[0]);
                assert(restc.skip(1) =~~= rest.skip(1).push(Seq::<char>::empty()));
                assert(spec_split(s.push(c), sep) =~= spec_split(s, sep).push(
                    Seq::<char>::empty(),
                ));
            } else {
                if rest.len() == 1 {
                    assert(restc[0] == rest[0].push(c));
                    assert(restc.skip(1) =~~= rest.skip(1));
                    assert(spec_split(s, sep).drop_last() =~= Seq::<Seq<char>>::empty());
                    assert(spec_split(s, sep).last() == seq![s[0]] + rest[0]);
                    assert((seq![s[0]] + rest[0]).push(c) =~= seq![s[0]] + rest[0].push(c));
                    assert(spec_split(s.push(c), sep) =~~= spec_split(s, sep).drop_last().push(
                        spec_split(s, sep).last().push(c),
                    ));
                } else {
                    assert(restc[0] == rest[0]);
                    assert(restc.skip(1) =~~= rest.skip(1).drop_last().push(
                        rest.skip(1).last().push(c),
                    ));
                    assert(spec_split(s, sep).last() == rest.last());
                    assert(spec_split(s, sep).drop_last() =~~= seq![seq![s[0]] + rest[0]]
                        + rest.skip(1).drop_last());
                    assert(spec_split(s.push(c), sep) =~~= spec_split(s, sep).drop_last().push(
                        spec_split(s, sep).last().push(c),
                    ));
                }
            }
        }
    }
}

/// Joining the parts of a split restores the original string.
pub proof fn lemma_join_split(s: Seq<char>, sep: char)
    ensures
        spec_join(spec_split(s, sep), sep) == s,
    decreases s.len(),
{
    lemma_split_nonempty(s, sep);
    if s.len() == 0 {
    } else {
        let t = s.skip(1);
        lemma_split_nonempty(t, sep);
        lemma_join_split(t, sep);
        if s[0] == sep {
            assert(spec_split(s, sep).skip(1) =~~= spec_split(t, sep));
            assert(Seq::<char>::empty() + seq![sep] + t =~= s);
        } else {
            let rest = spec_split(t, sep);
            let parts = spec_split(s, sep);
            if rest.len() == 1 {
                assert(parts.len() == 1);
                assert(parts[0] =~= seq![s[0]] + t);
                assert(seq![s[0]] + t =~= s);
            } else {
                assert(parts.len() >= 2);
                assert(parts.skip(1) =~~= rest.skip(1));
                assert(parts[0] + seq![sep] + spec_join(rest.skip(1), sep) =~= seq![s[0]] + (
                rest[0] + seq![sep] + spec_join(rest.skip(1), sep)));
                assert(seq![s[0]] + t =~= s);
            }
        }
    }
}

/// Splits `s` on the separator character `sep` into owned parts.
pub fn split_on_char(s: &str, sep: char) -> (parts: Vec<String>)
    ensures
        parts.deep_view() == spec_split(s@, sep),
{
    let n = s.unicode_len();
    let mut parts: Vec<String> = Vec::new();
    let mut start: usize = 0;
    let mut i: usize = 0;
    proof {
        assert(s@.take(0) =~= Seq::<char>::empty());
    }
    while i < n
        invariant
            i <= n,
            start <= i,
            n == s@.len(),
            spec_split(s@.take(i as int), sep) == parts.deep_view().push(
                s@.subrange(start as int, i as int),
            ),
        decreases n - i,
    {
        proof {
            lemma_split_push(s@.take(i as int), sep, s@[i as int]);
            assert(s@.take(i + 1) =~= s@.take(i as int).push(s@[i as int]));
        }
        if s.get_char(i) == sep {
            let part = s.substring_char(start, i).to_owned();
            parts.push(part);
            start = i + 1;
            proof {
                assert(spec_split(s@.take(i + 1), sep) =~~= parts.deep_view().push(
                    s@.subrange(start as int, i + 1),
                ));
            }
        } else {
            proof {
                let old_parts = parts.deep_view();
                let prev = spec_split(s@.take(i as int), sep);
                assert(prev.drop_last() =~~= old_parts);
                assert(prev.last() == s@.subrange(start as int, i as int));
                assert(s@.subrange(start as int, i as int).push(s@[i as int]) =~= s@.subrange(
                    start as int,
                    i + 1,
                ));
                assert(spec_split(s@.take(i + 1), sep) =~~= parts.deep_view().push(
                    s@.subrange(start as int, i + 1),
                ));
            }
        }
        i += 1;
    }
    let last = s.substring_char(start, n).to_owned();
    parts.push(last);
    proof {
        assert(s@.take(n as int) =~= s@);
    }
    parts
}

/// Joins `parts` with the one-character separator `sep`.
pub fn join_with_char(parts: &Vec<String>, sep: &str) -> (r: String)
    requires
        sep@.len() == 1,
    ensures
        r@ == spec_join(parts.deep_view(), sep@[0]),
{
    let mut r = String::new();
    let mut i: usize = 0;
    proof {
        assert(parts.deep_view().take(0) =~= Seq::<Seq<char>>::empty());
    }
    while i < parts.len()
        invariant
            i <= parts.deep_view().len(),
            parts.deep_view().len() == parts.len(),
            sep@.len() == 1,
            r@ == spec_join(parts.deep_view().take(i as int), sep@[0]),
        decreases parts.len() - i,
    {
        if i > 0 {
            r.append(sep);
        }
        r.append(parts[i].as_str());
        proof {
            lemma_join_push(parts.deep_view().take(i as int), sep@[0], parts.deep_view()[i as int]);
            assert(parts.deep_view().take(i + 1) =~= parts.deep_view().take(i as int).push(
                parts.deep_view()[i as int],
            ));
        }
        i += 1;
    }
    proof {
        assert(parts.deep_view().take(parts.deep_view().len() as int) =~= parts.deep_view());
    }
    r
}

/// Appending one more part to a join appends a separator (when anything was
/// joined already) and then the part.
pub proof fn lemma_join_push(parts: Seq<Seq<char>>, sep: char, p: Seq<char>)
    ensures
        parts.len() == 0 ==> spec_join(parts.push(p), sep) == p,
        parts.len() > 0 ==> spec_join(parts.push(p), sep) == spec_join(parts, sep) + seq![sep] + p,
    decreases parts.len(),
{
    if parts.len() == 0 {
        assert(spec_join(parts.push(p), sep) == parts.push(p)[0]);
        assert(parts.push(p)[0] == p);
    } else if parts.len() == 1 {
        assert(parts.push(p).skip(1) =~~= seq![p]);
        assert(parts.push(p)[0] == parts[0]);
        assert(spec_join(seq![p], sep) == p);
        assert(spec_join(parts, sep) == parts[0]);
        assert(spec_join(parts.push(p), sep) == parts[0] + seq![sep] + p);
    } else {
        lemma_join_push(parts.skip(1), sep, p);
        assert(parts.push(p).skip(1) =~~= parts.skip(1).push(p));
        assert(parts.push(p)[0] == parts[0]);
        assert(parts[0] + seq![sep] + (spec_join(parts.skip(1), sep) + seq![sep] + p) =~= (parts[0]
            + seq![sep] + spec_join(parts.skip(1), sep)) + seq![sep] + p);
    }
}

/// The prefix of `s` up to (and not including) the first occurrence of `sep`,
/// or all of `s` when `sep` does not occur: the first part of the split.
pub fn prefix_before_char(s: &str, sep: char) -> (r: String)
    ensures
        r@ == spec_split(s@, sep)[0],
{
    let n = s.unicode_len();
    let mut i: usize = 0;
    while i < n && s.get_char(i) != sep
        invariant
            i <= n,
            n == s@.len(),
            forall|k: int| 0 <= k < i ==> s@[k] != sep,
        decreases n - i,
    {
        i += 1;
    }
    let r = s.substring_char(0, i).to_owned();
    proof {
        lemma_split_first_part(s@, sep, i as int);
    }
    r
}

/// Whether a character counts as whitespace for tokenizing dataset names.
/// What `char::is_whitespace` returns depends on the character alone.
pub uninterp spec fn char_is_whitespace(c: char) -> bool;

/// Relies on `char::is_whitespace`: whether the character has the Unicode
/// `White_Space` property.
pub assume_specification[ char::is_whitespace ](c: char) -> (r: bool)
    ensures
        r == char_is_whitespace(c),
;

/// The longest run of non-whitespace characters at the start of `s`.
pub open spec fn spec_token_run(s: Seq<char>) -> Seq<char>
    decreases s.len(),
{
    if s.len() > 0 && !char_is_whitespace(s[0]) {
        seq![s[0]] + spec_token_run(s.skip(1))
    } else {
        Seq::<char>::empty()
    }
}

/// The first whitespace-delimited token of `s`, or nothing when `s` holds
/// only whitespace (or nothing at all).
pub open spec fn spec_first_token(s: Seq<char>) -> Option<Seq<char>>
    decreases s.len(),
{
    if s.len() == 0 {
        None
    } else if char_is_whitespace(s[0]) {
        spec_first_token(s.skip(1))
    } else {
        Some(spec_token_run(s))
    }
}

/// The token run is everything up to the first whitespace character.
pub proof fn lemma_token_run(s: Seq<char>, j: int)
    requires
        0 <= j <= s.len(),
        forall|k: int| 0 <= k < j ==> !char_is_whitespace(s[k]),
        j < s.len() ==> char_is_whitespace(s[j]),
    ensures
        spec_token_run(s) == s.take(j),
    decreases j,
{
    if j == 0 {
        assert(spec_token_run(s) =~= s.take(0));
    } else {
        let t = s.skip(1);
        assert(forall|k: int| 0 <= k < j - 1 ==> !char_is_whitespace(t[k]));
        lemma_token_run(t, j - 1);
        assert(seq![s[0]] + t.take(j - 1) =~= s.take(j));
    }
}

/// The first whitespace-delimited token of `s`, as `str::split_whitespace`
/// would yield it, or nothing when `s` holds no non-whitespace character.
pub fn first_whitespace_token(s: &str) -> (r: Option<String>)
    ensures
        r.deep_view() == spec_first_token(s@),
{
    let n = s.unicode_len();
    let mut b: usize = 0;
    proof {
        assert(s@.skip(0) =~= s@);
    }
    while b < n && s.get_char(b).is_whitespace()
        invariant
            b <= n,
            n == s@.len(),
            spec_first_token(s@) == spec_first_token(s@.skip(b as int)),
        decreases n - b,
    {
        proof {
            assert(s@.skip(b as int).skip(1) =~= s@.skip(b + 1));
            assert(s@.skip(b as int)[0] == s@[b as int]);
        }
        b += 1;
    }
    if b == n {
        proof {
            assert(s@.skip(b as int) =~= Seq::<char>::empty());
        }
        return None;
    }
    let mut e = b;
    proof {
        assert(s@.skip(b as int)[0] == s@[b as int]);
    }
    while e < n && !s.get_char(e).is_whitespace()
        invariant
            b <= e <= n,
            n == s@.len(),
            forall|k: int| b <= k < e ==> !char_is_whitespace(s@[k]),
        decreases n - e,
    {
        e += 1;
    }
    let tok = s.substring_char(b, e).to_owned();
    proof {
        let t = s@.skip(b as int);
        assert(forall|k: int| 0 <= k < e - b ==> !char_is_whitespace(t[k]));
        lemma_token_run(t, e - b);
        assert(t.take(e - b) =~= s@.subrange(b as int, e as int));
    }
    Some(tok)
}

/// The first part of a split is the run of characters before the first
/// separator.
pub proof fn lemma_split_first_part(s: Seq<char>, sep: char, i: int)
    requires
        0 <= i <= s.len(),
        forall|k: int| 0 <= k < i ==> s[k] != sep,
        i < s.len() ==> s[i] == sep,
    ensures
        spec_split(s, sep)[0] == s.take(i),
    decreases i,
{
    if i == 0 {
        if s.len() == 0 {
            assert(spec_split(s, sep)[0] =~= s.take(0));
        } else {
            assert(s[0] == sep);
            assert(spec_split(s, sep)[0] =~= s.take(0));
        }
    } else {
        let t = s.skip(1);
        assert(forall|k: int| 0 <= k < i - 1 ==> t[k] != sep);
        lemma_split_first_part(t, sep, i - 1);
        lemma_split_nonempty(t, sep);
        assert(spec_split(s, sep)[0] == seq![s[0]] + spec_split(t, sep)[0]);
        assert(seq![s[0]] + t.take(i - 1) =~= s.take(i));
    }
}

} // verus!
