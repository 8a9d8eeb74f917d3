//! The delimited splitter: comma- and colon-separated lists whose items may
//! be quoted, escaped literals.
use crate::error::{Error, Expected};
use crate::text::{
    chars_of, find, sub_chars, find_from, lemma_find, lemma_lead_ws, skip_ws, string_of, trim_end,
    trim_end_at, trim_start,
};
use crate::unescape::{escape_at, unescape_chars, unescape_from};
use vstd::prelude::*;

verus! {

/// The views of a sequence of strings.
pub open spec fn strings_view(v: Seq<String>) -> Seq<Seq<char>> {
    v.map_values(|x: String| x@)
}

/// The views of a sequence of string pairs.
pub open spec fn pairs_view(v: Seq<(String, String)>) -> Seq<(Seq<char>, Seq<char>)> {
    crate::keytree::pairs_of(v)
}

/// The token at the head of `s` and the text after the delimiter that ends it.
///
/// Leading whitespace is skipped. A quoted token is an escaped literal that
/// must be followed by `delim`, or, where `end_ok`, by the end of the input
/// (whitespace aside). Any other token runs up to the first `delim`, or,
/// where `end_ok`, to the end, and loses its trailing whitespace.
pub open spec fn split_token(s: Seq<char>, delim: char, end_ok: bool) -> Result<
    (Seq<char>, Seq<char>),
    (),
> {
    let t = trim_start(s);
    if t.len() > 0 && t[0] == '"' {
        match unescape_from(t, 1) {
            Ok((d, Some(tail))) => {
                let tl = trim_start(tail);
                if tl.len() == 0 && end_ok {
                    Ok((d, tl))
                } else if tl.len() > 0 && tl[0] == delim {
                    Ok((d, tl.drop_first()))
                } else {
                    Err(())
                }
            },
            _ => Err(()),
        }
    } else {
        match find(t, delim) {
            None => if end_ok {
                Ok((trim_end(t), Seq::empty()))
            } else {
                Err(())
            },
            Some(i) => Ok((trim_end(t.take(i)), t.skip(i + 1))),
        }
    }
}

/// The items of a comma-separated list. Blank input, or a blank tail after a
/// comma, ends the list.
pub open spec fn seq_items(s: Seq<char>) -> Result<Seq<Seq<char>>, ()>
    decreases s.len(),
{
    if trim_start(s).len() == 0 {
        Ok(Seq::empty())
    } else {
        match split_token(s, ',', true) {
            Err(()) => Err(()),
            Ok((tok, rest)) => if rest.len() < s.len() {
                match seq_items(rest) {
                    Ok(v) => Ok(seq![tok] + v),
                    Err(()) => Err(()),
                }
            } else {
                Err(())
            },
        }
    }
}

/// The entries of a list of `key:value` pairs separated by commas, in order.
/// A key ends at the first `:`, and must be followed by one.
pub open spec fn map_entries(s: Seq<char>) -> Result<Seq<(Seq<char>, Seq<char>)>, ()>
    decreases s.len(),
{
    if trim_start(s).len() == 0 {
        Ok(Seq::empty())
    } else {
        match split_token(s, ':', false) {
            Err(()) => Err(()),
            Ok((k, r1)) => match split_token(r1, ',', true) {
                Err(()) => Err(()),
                Ok((v, r2)) => if r2.len() < s.len() {
                    match map_entries(r2) {
                        Ok(m) => Ok(seq![(k, v)] + m),
                        Err(()) => Err(()),
                    }
                } else {
                    Err(())
                },
            },
        }
    }
}

/// The variant tag of an enum value and the text of its payload: the tag
/// runs up to the first `:`; without one the whole text is a unit tag.
pub open spec fn variant_split(s: Seq<char>) -> Result<(Seq<char>, Seq<char>), ()> {
    if trim_start(s).len() == 0 {
        Err(())
    } else {
        split_token(s, ':', true)
    }
}

proof fn lemma_escape_skip(s: Seq<char>, k: int, i: int)
    requires
        0 <= k <= s.len(),
        0 <= i,
    ensures
        escape_at(s.skip(k), i) == escape_at(s, k + i),
{
    if i < s.len() - k {
        assert(s.skip(k)[i] == s[k + i]);
        assert(s.skip(k).skip(i + 1) =~= s.skip(k + i + 1));
    }
}

pub proof fn lemma_unescape_skip(s: Seq<char>, k: int, i: int)
    requires
        0 <= k <= s.len(),
        0 <= i,
    ensures
        unescape_from(s.skip(k), i) == unescape_from(s, k + i),
    decreases s.len() - k - i,
{
    let t = s.skip(k);
    if i < t.len() {
        assert(t[i] == s[k + i]);
        if t[i] == '"' {
            assert(t.skip(i + 1) =~= s.skip(k + i + 1));
        } else if t[i] == '\\' {
            lemma_escape_skip(s, k, i + 1);
            match escape_at(t, i + 1) {
                Some((c, n)) => {
                    if i + 2 + n <= t.len() {
                        lemma_unescape_skip(s, k, i + 2 + n);
                    }
                },
                None => {},
            }
        } else {
            lemma_unescape_skip(s, k, i + 1);
        }
    }
}

proof fn lemma_trim_start_skip(s: Seq<char>, from: int, k: int)
    requires
        0 <= from <= s.len(),
        k == from + crate::text::lead_ws(s.skip(from)),
    ensures
        from <= k <= s.len(),
        trim_start(s.skip(from)) == s.skip(k),
{
    lemma_lead_ws(s.skip(from));
    assert(s.skip(from).skip(k - from) =~= s.skip(k));
}

/// The token of `split_token` on `cs[from..]`, and the index where the rest
/// starts.
fn token_at(cs: &Vec<char>, from: usize, delim: char, end_ok: bool) -> (r: Result<
    (Vec<char>, usize),
    (),
>)
    requires
        from <= cs.len(),
    ensures
        r is Err <==> split_token(cs@.skip(from as int), delim, end_ok) is Err,
        r matches Ok((tok, next)) ==> next <= cs.len() && split_token(
            cs@.skip(from as int),
            delim,
            end_ok,
        ) == Ok::<(Seq<char>, Seq<char>), ()>((tok@, cs@.skip(next as int))) && (trim_start(
            cs@.skip(from as int),
        ).len() > 0 ==> from < next),
{
    let k = skip_ws(cs, from);
    proof {
        lemma_trim_start_skip(cs@, from as int, k as int);
    }
    let ghost t = cs@.skip(k as int);
    if k < cs.len() && cs[k] == '"' {
        proof {
            lemma_unescape_skip(cs@, k as int, 1);
        }
        match unescape_chars(cs, k + 1) {
            Err(_) => Err(()),
            Ok((_, None)) => Err(()),
            Ok((d, Some(j))) => {
                let m = skip_ws(cs, j);
                proof {
                    lemma_trim_start_skip(cs@, j as int, m as int);
                }
                if m == cs.len() && end_ok {
                    Ok((d, m))
                } else if m < cs.len() && cs[m] == delim {
                    assert(cs@.skip(m as int).drop_first() =~= cs@.skip(m + 1));
                    Ok((d, m + 1))
                } else {
                    Err(())
                }
            },
        }
    } else {
        proof {
            lemma_find(t, delim);
        }
        match find_from(cs, k, delim) {
            None => {
                if !end_ok {
                    return Err(());
                }
                let e = trim_end_at(cs, k, cs.len());
                assert(cs@.subrange(k as int, cs@.len() as int) =~= t);
                assert(cs@.skip(cs@.len() as int) =~= Seq::<char>::empty());
                Ok((sub_chars(cs, k, e), cs.len()))
            },
            Some(i) => {
                let e = trim_end_at(cs, k, i);
                assert(cs@.subrange(k as int, i as int) =~= t.take(i - k));
                assert(t.skip(i - k + 1) =~= cs@.skip(i + 1));
                Ok((sub_chars(cs, k, e), i + 1))
            },
        }
    }
}

/// Splits a comma-separated list into its items (`seq_items`).
pub fn split_seq(value: &str) -> (r: Result<Vec<String>, Error>)
    ensures
        match r {
            Ok(v) => seq_items(value@) == Ok::<Seq<Seq<char>>, ()>(strings_view(v@)),
            Err(e) => seq_items(value@) is Err && e.value@ == value@ && e.expected
                == Expected::Sequence,
        },
{
    let cs = chars_of(value);
    let mut out: Vec<String> = Vec::new();
    let mut i: usize = 0;
    assert(cs@.skip(0) =~= cs@);
    while i < cs.len()
        invariant
            i <= cs.len(),
            cs@ == value@,
            seq_items(value@) == match seq_items(cs@.skip(i as int)) {
                Ok(v) => Ok(strings_view(out@) + v),
                Err(()) => Err(()),
            },
        decreases cs.len() - i,
    {
        let k = skip_ws(&cs, i);
        proof {
            lemma_trim_start_skip(cs@, i as int, k as int);
        }
        if k == cs.len() {
            assert(strings_view(out@) + Seq::<Seq<char>>::empty() =~= strings_view(out@));
            return Ok(out);
        }
        match token_at(&cs, i, ',', true) {
            Err(()) => {
                return Err(Error::invalid(value, Expected::Sequence));
            },
            Ok((tok, next)) => {
                let s = string_of(&tok, 0, tok.len());
                proof {
                    assert(tok@.subrange(0, tok@.len() as int) =~= tok@);
                    match seq_items(cs@.skip(next as int)) {
                        Ok(v) => {
                            assert(strings_view(out@.push(s)) =~= strings_view(out@).push(s@));
                            assert(strings_view(out@) + (seq![tok@] + v) =~= strings_view(
                                out@.push(s),
                            ) + v);
                        },
                        Err(()) => {},
                    }
                }
                out.push(s);
                i = next;
            },
        }
    }
    assert(cs@.skip(i as int) =~= Seq::<char>::empty());
    assert(strings_view(out@) + Seq::<Seq<char>>::empty() =~= strings_view(out@));
    Ok(out)
}

/// Splits a list of `key:value` pairs into its entries (`map_entries`).
pub fn split_map(value: &str) -> (r: Result<Vec<(String, String)>, Error>)
    ensures
        match r {
            Ok(v) => map_entries(value@) == Ok::<Seq<(Seq<char>, Seq<char>)>, ()>(
                pairs_view(v@),
            ),
            Err(e) => map_entries(value@) is Err && e.value@ == value@ && e.expected
                == Expected::KeyValues,
        },
{
    let cs = chars_of(value);
    let mut out: Vec<(String, String)> = Vec::new();
    let mut i: usize = 0;
    assert(cs@.skip(0) =~= cs@);
    while i < cs.len()
        invariant
            i <= cs.len(),
            cs@ == value@,
            map_entries(value@) == match map_entries(cs@.skip(i as int)) {
                Ok(v) => Ok(pairs_view(out@) + v),
                Err(()) => Err(()),
            },
        decreases cs.len() - i,
    {
        let k = skip_ws(&cs, i);
        proof {
            lemma_trim_start_skip(cs@, i as int, k as int);
        }
        if k == cs.len() {
            assert(pairs_view(out@) + Seq::<(Seq<char>, Seq<char>)>::empty() =~= pairs_view(
                out@,
            ));
            return Ok(out);
        }
        match token_at(&cs, i, ':', false) {
            Err(()) => {
                return Err(Error::invalid(value, Expected::KeyValues));
            },
            Ok((key, j)) => match token_at(&cs, j, ',', true) {
                Err(()) => {
                    return Err(Error::invalid(value, Expected::KeyValues));
                },
                Ok((val, next)) => {
                    let ks = string_of(&key, 0, key.len());
                    let vs = string_of(&val, 0, val.len());
                    proof {
                        assert(key@.subrange(0, key@.len() as int) =~= key@);
                        assert(val@.subrange(0, val@.len() as int) =~= val@);
                        match map_entries(cs@.skip(next as int)) {
                            Ok(v) => {
                                assert(pairs_view(out@.push((ks, vs))) =~= pairs_view(out@).push(
                                    (ks@, vs@),
                                ));
                                assert(pairs_view(out@) + (seq![(key@, val@)] + v)
                                    =~= pairs_view(out@.push((ks, vs))) + v);
                            },
                            Err(()) => {},
                        }
                    }
                    out.push((ks, vs));
                    i = next;
                },
            },
        }
    }
    assert(cs@.skip(i as int) =~= Seq::<char>::empty());
    assert(pairs_view(out@) + Seq::<(Seq<char>, Seq<char>)>::empty() =~= pairs_view(out@));
    Ok(out)
}

/// Splits an enum value into its variant tag and payload (`variant_split`).
pub fn split_variant(value: &str) -> (r: Result<(String, String), Error>)
    ensures
        match r {
            Ok((tag, payload)) => variant_split(value@) == Ok::<(Seq<char>, Seq<char>), ()>(
                (tag@, payload@),
            ),
            Err(e) => variant_split(value@) is Err && e.value@ == value@ && e.expected
                == Expected::Variant,
        },
{
    let cs = chars_of(value);
    assert(cs@.skip(0) =~= cs@);
    let k = skip_ws(&cs, 0);
    proof {
        lemma_trim_start_skip(cs@, 0, k as int);
    }
    if k == cs.len() {
        return Err(Error::invalid(value, Expected::Variant));
    }
    match token_at(&cs, 0, ':', true) {
        Err(()) => Err(Error::invalid(value, Expected::Variant)),
        Ok((tag, next)) => {
            assert(tag@.subrange(0, tag@.len() as int) =~= tag@);
            assert(cs@.subrange(next as int, cs@.len() as int) =~= cs@.skip(next as int));
            Ok((string_of(&tag, 0, tag.len()), string_of(&cs, next, cs.len())))
        },
    }
}

} // verus!
