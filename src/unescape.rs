//! The backslash-escape grammar of quoted string literals.
use crate::text::{chars_of, string_of};
use vstd::prelude::*;

verus! {

/// A malformed escape sequence, or a quoted literal that is not closed.
#[derive(Debug, Clone, Copy, PartialEq, Eq)]
pub struct EscapeError;

pub open spec fn is_hex_digit(c: char) -> bool {
    ('0' <= c && c <= '9') || ('a' <= c && c <= 'f') || ('A' <= c && c <= 'F')
}

pub open spec fn hex_digit_value(c: char) -> nat {
    if '0' <= c && c <= '9' {
        (c as nat - '0' as nat) as nat
    } else if 'a' <= c && c <= 'f' {
        (c as nat - 'a' as nat + 10) as nat
    } else {
        (c as nat - 'A' as nat + 10) as nat
    }
}

/// The number that a string of hexadecimal digits writes.
pub open spec fn hex_value(d: Seq<char>) -> nat
    decreases d.len(),
{
    if d.len() == 0 {
        0
    } else {
        hex_value(d.drop_last()) * 16 + hex_digit_value(d.last())
    }
}

/// A Unicode scalar value: a code point that is not a surrogate.
pub open spec fn is_scalar(v: nat) -> bool {
    v < 0xD800 || (0xE000 <= v && v < 0x110000)
}

/// The character that the hexadecimal digits `d` name, if they name one.
pub open spec fn code_char(d: Seq<char>) -> Option<char> {
    if d.len() > 0 && (forall|i: int| 0 <= i < d.len() ==> is_hex_digit(#[trigger] d[i]))
        && is_scalar(hex_value(d)) {
        Some((hex_value(d) as u32) as char)
    } else {
        None
    }
}

/// How many hexadecimal digits the fixed-width form of escape letter `c` takes.
pub open spec fn hex_width(c: char) -> nat {
    if c == 'x' {
        2
    } else if c == 'u' {
        4
    } else {
        8
    }
}

/// The escape that starts at `s[i]`, the character after a backslash: the
/// character it stands for, and how many characters it takes after `s[i]`.
pub open spec fn escape_at(s: Seq<char>, i: int) -> Option<(char, nat)> {
    if i < 0 || i >= s.len() {
        None
    } else {
        let c = s[i];
        if c == 'n' {
            Some(('\n', 0))
        } else if c == 'r' {
            Some(('\r', 0))
        } else if c == 't' {
            Some(('\t', 0))
        } else if c == '0' {
            Some(('\0', 0))
        } else if c == '\\' || c == '"' || c == '\'' {
            Some((c, 0))
        } else if c == 'x' || c == 'u' || c == 'U' {
            let rest = s.skip(i + 1);
            if rest.len() > 0 && rest[0] == '{' {
                match crate::text::find(rest, '}') {
                    None => None,
                    Some(n) => match code_char(rest.subrange(1, n)) {
                        Some(ch) => Some((ch, (n + 1) as nat)),
                        None => None,
                    },
                }
            } else if rest.len() < hex_width(c) {
                None
            } else {
                match code_char(rest.take(hex_width(c) as int)) {
                    Some(ch) => Some((ch, hex_width(c))),
                    None => None,
                }
            }
        } else {
            None
        }
    }
}

/// Decoding of `s[i..]`: the literal text up to the first unescaped `"`,
/// and what follows that quote, if there is one.
pub open spec fn unescape_from(s: Seq<char>, i: int) -> Result<(Seq<char>, Option<Seq<char>>), ()>
    decreases s.len() - i,
{
    if i < 0 || i >= s.len() {
        Ok((Seq::empty(), None))
    } else if s[i] == '"' {
        Ok((Seq::empty(), Some(s.skip(i + 1))))
    } else if s[i] == '\\' {
        match escape_at(s, i + 1) {
            None => Err(()),
            Some((c, n)) => if i + 2 + n <= s.len() {
                match unescape_from(s, i + 2 + n) {
                    Ok((d, rest)) => Ok((seq![c] + d, rest)),
                    Err(()) => Err(()),
                }
            } else {
                Err(())
            },
        }
    } else {
        match unescape_from(s, i + 1) {
            Ok((d, rest)) => Ok((seq![s[i]] + d, rest)),
            Err(()) => Err(()),
        }
    }
}

pub open spec fn unescape_spec(s: Seq<char>) -> Result<(Seq<char>, Option<Seq<char>>), ()> {
    unescape_from(s, 0)
}

/// What `unescaped` gives: text that does not start with a quote as it is;
/// a quoted literal decoded, where it is closed and nothing follows its
/// closing quote.
pub open spec fn unescaped_spec(s: Seq<char>) -> Result<Seq<char>, ()> {
    if s.len() > 0 && s[0] == '"' {
        match unescape_from(s, 1) {
            Ok((d, None)) => Err(()),
            Ok((d, Some(rest))) => if rest.len() == 0 {
                Ok(d)
            } else {
                Err(())
            },
            Err(()) => Err(()),
        }
    } else {
        Ok(s)
    }
}

/// Relies on `char::from_u32`: `Some` exactly for a Unicode scalar value, the
/// character with that code.
#[verifier::external_body]
fn char_from_code(v: u32) -> (r: Option<char>)
    ensures
        r is Some <==> is_scalar(v as nat),
        r matches Some(c) ==> c as u32 == v,
{
    char::from_u32(v)
}

fn hex_digit(c: char) -> (r: Option<u32>)
    ensures
        r is Some <==> is_hex_digit(c),
        r matches Some(v) ==> v as nat == hex_digit_value(c) && v < 16,
{
    if '0' <= c && c <= '9' {
        Some(c as u32 - '0' as u32)
    } else if 'a' <= c && c <= 'f' {
        Some(c as u32 - 'a' as u32 + 10)
    } else if 'A' <= c && c <= 'F' {
        Some(c as u32 - 'A' as u32 + 10)
    } else {
        None
    }
}

proof fn lemma_hex_value_grows(d: Seq<char>, k: int)
    requires
        0 <= k <= d.len(),
    ensures
        hex_value(d.take(k)) <= hex_value(d),
    decreases d.len(),
{
    if k < d.len() {
        assert(d.drop_last().take(k) =~= d.take(k));
        lemma_hex_value_grows(d.drop_last(), k);
    } else {
        assert(d.take(k) =~= d);
    }
}

/// The character that `cs[from..to]` names as hexadecimal digits.
fn code_char_at(cs: &Vec<char>, from: usize, to: usize) -> (r: Option<char>)
    requires
        from <= to <= cs.len(),
    ensures
        r == code_char(cs@.subrange(from as int, to as int)),
{
    let ghost d = cs@.subrange(from as int, to as int);
    if from == to {
        return None;
    }
    let mut v: u32 = 0;
    let mut i = from;
    while i < to
        invariant
            from <= i <= to <= cs.len(),
            d == cs@.subrange(from as int, to as int),
            forall|k: int| 0 <= k < i - from ==> is_hex_digit(#[trigger] d[k]),
            v as nat == hex_value(d.take(i - from)),
            v < 0x110000,
        decreases to - i,
    {
        let ghost t = d.take(i - from + 1);
        assert(t.drop_last() =~= d.take(i - from));
        assert(t.last() == cs@[i as int]);
        match hex_digit(cs[i]) {
            None => {
                assert(!is_hex_digit(d[i - from]));
                assert(code_char(d) is None);
                return None;
            },
            Some(h) => {
                assert(hex_value(t) == hex_value(t.drop_last()) * 16 + hex_digit_value(t.last()));
                if v > 0x10FFF {
                    proof {
                        lemma_hex_value_grows(d, i - from + 1);
                        assert(hex_value(t) >= 0x110000) by (nonlinear_arith)
                            requires
                                hex_value(t) == v * 16 + hex_digit_value(t.last()),
                                v > 0x10FFF,
                        ;
                    }
                    assert(code_char(d) is None);
                    return None;
                }
                v = v * 16 + h;
                if v >= 0x110000 {
                    proof {
                        lemma_hex_value_grows(d, i - from + 1);
                    }
                    assert(code_char(d) is None);
                    return None;
                }
            },
        }
        i = i + 1;
    }
    assert(d.take(to - from) =~= d);
    match char_from_code(v) {
        None => {
            assert(code_char(d) is None);
            None
        },
        Some(c) => {
            proof {
                vstd::utf8::char_u32_cast(c, v);
            }
            Some(c)
        },
    }
}

/// Decodes the escape after a backslash at `cs[i - 1]`: the character and
/// the index just past the escape.
fn escape_at_exec(cs: &Vec<char>, i: usize) -> (r: Option<(char, usize)>)
    requires
        1 <= i <= cs.len(),
    ensures
        r matches Some((c, next)) ==> escape_at(cs@, i as int) matches Some((c2, n)) && c == c2
            && next == i + 1 + n && next <= cs.len(),
        r is None ==> escape_at(cs@, i as int) is None,
{
    if i >= cs.len() {
        return None;
    }
    let c = cs[i];
    if c == 'n' {
        Some(('\n', i + 1))
    } else if c == 'r' {
        Some(('\r', i + 1))
    } else if c == 't' {
        Some(('\t', i + 1))
    } else if c == '0' {
        Some(('\0', i + 1))
    } else if c == '\\' || c == '"' || c == '\'' {
        Some((c, i + 1))
    } else if c == 'x' || c == 'u' || c == 'U' {
        let ghost rest = cs@.skip(i + 1);
        if i + 1 < cs.len() && cs[i + 1] == '{' {
            assert(rest[0] == '{');
            proof {
                crate::text::lemma_find(rest, '}');
            }
            match crate::text::find_from(cs, i + 1, '}') {
                None => None,
                Some(n) => {
                    let ghost m = n - (i + 1);
                    assert(rest.subrange(1, m) =~= cs@.subrange(i + 2, n as int));
                    match code_char_at(cs, i + 2, n) {
                        Some(ch) => Some((ch, n + 1)),
                        None => None,
                    }
                },
            }
        } else {
            let w: usize = if c == 'x' {
                2
            } else if c == 'u' {
                4
            } else {
                8
            };
            assert(w == hex_width(c));
            if cs.len() - (i + 1) < w {
                None
            } else {
                assert(rest.take(w as int) =~= cs@.subrange(i + 1, i + 1 + w));
                match code_char_at(cs, i + 1, i + 1 + w) {
                    Some(ch) => Some((ch, i + 1 + w)),
                    None => None,
                }
            }
        }
    } else {
        None
    }
}

/// Decodes `cs[from..]` as the text after an opening quote: the decoded
/// characters, and the index just past the closing quote, if there is one.
pub(crate) fn unescape_chars(cs: &Vec<char>, from: usize) -> (r: Result<(Vec<char>, Option<usize>), EscapeError>)
    requires
        from <= cs.len(),
    ensures
        r is Err <==> unescape_from(cs@, from as int) is Err,
        r matches Ok((d, rest)) ==> unescape_from(cs@, from as int) matches Ok((d2, rest2)) && d@
            == d2 && (match rest {
            Some(k) => from < k <= cs.len() && rest2 == Some(cs@.skip(k as int)),
            None => rest2 is None,
        }),
{
    let mut out: Vec<char> = Vec::new();
    let mut i: usize = from;
    assert(out@ + Seq::<char>::empty() =~= out@);
    while i < cs.len()
        invariant
            from <= i <= cs.len(),
            unescape_from(cs@, from as int) == match unescape_from(cs@, i as int) {
                Ok((d, rest)) => Ok((out@ + d, rest)),
                Err(()) => Err(()),
            },
        decreases cs.len() - i,
    {
        let c = cs[i];
        if c == '"' {
            assert(out@ + Seq::<char>::empty() =~= out@);
            return Ok((out, Some(i + 1)));
        } else if c == '\\' {
            match escape_at_exec(cs, i + 1) {
                None => {
                    return Err(EscapeError);
                },
                Some((e, next)) => {
                    proof {
                        match unescape_from(cs@, next as int) {
                            Ok((d, rest)) => {
                                assert(out@ + (seq![e] + d) =~= out@.push(e) + d);
                            },
                            Err(()) => {},
                        }
                    }
                    out.push(e);
                    i = next;
                },
            }
        } else {
            proof {
                match unescape_from(cs@, i + 1) {
                    Ok((d, rest)) => {
                        assert(out@ + (seq![c] + d) =~= out@.push(c) + d);
                    },
                    Err(()) => {},
                }
            }
            out.push(c);
            i = i + 1;
        }
    }
    assert(out@ + Seq::<char>::empty() =~= out@);
    Ok((out, None))
}

/// Decodes an escaped literal, the text after its opening quote.
///
/// Returns the decoded text up to the first unescaped `"` and what follows
/// that quote, or `None` where the input ends without one.
pub fn unescape(s: &str) -> (r: Result<(String, Option<String>), EscapeError>)
    ensures
        r is Err <==> unescape_spec(s@) is Err,
        r matches Ok((d, rest)) ==> unescape_spec(s@) matches Ok((d2, rest2)) && d@ == d2 && (
        match rest {
            Some(t) => rest2 == Some(t@),
            None => rest2 is None,
        }),
{
    let cs = chars_of(s);
    let (d, rest) = unescape_chars(&cs, 0)?;
    let text = string_of(&d, 0, d.len());
    assert(d@.subrange(0, d@.len() as int) =~= d@);
    match rest {
        None => Ok((text, None)),
        Some(k) => {
            assert(cs@.subrange(k as int, cs@.len() as int) =~= cs@.skip(k as int));
            Ok((text, Some(string_of(&cs, k, cs.len()))))
        },
    }
}

/// Decodes `s` where it is a quoted literal; returns other text unchanged.
///
/// A quoted literal fails when it is not closed, or when anything follows
/// its closing quote.
pub fn unescaped(s: &str) -> (r: Result<String, EscapeError>)
    ensures
        r is Err <==> unescaped_spec(s@) is Err,
        r matches Ok(d) ==> unescaped_spec(s@) == Ok::<Seq<char>, ()>(d@),
{
    let cs = chars_of(s);
    assert(cs@.subrange(0, cs@.len() as int) =~= cs@);
    if cs.len() > 0 && cs[0] == '"' {
        let (d, tail) = unescape_chars(&cs, 1)?;
        assert(d@.subrange(0, d@.len() as int) =~= d@);
        match tail {
            None => Err(EscapeError),
            Some(k) => if k == cs.len() {
                Ok(string_of(&d, 0, d.len()))
            } else {
                Err(EscapeError)
            },
        }
    } else {
        Ok(string_of(&cs, 0, cs.len()))
    }
}

/// The character that a one-letter escape `\\c` stands for.
pub open spec fn simple_escape(c: char) -> char {
    if c == 'n' {
        '\n'
    } else if c == 'r' {
        '\r'
    } else if c == 't' {
        '\t'
    } else if c == '0' {
        '\0'
    } else {
        c
    }
}

pub open spec fn is_simple_escape(c: char) -> bool {
    c == 'n' || c == 'r' || c == 't' || c == '0' || c == '\\' || c == '"' || c == '\''
}

/// Every one-letter escape decodes to the character it stands for.
pub proof fn lemma_simple_escape(c: char)
    requires
        is_simple_escape(c),
    ensures
        unescape_spec(seq!['\\', c]) == Ok::<(Seq<char>, Option<Seq<char>>), ()>(
            (seq![simple_escape(c)], None),
        ),
{
    let s = seq!['\\', c];
    assert(unescape_from(s, 2) == Ok::<(Seq<char>, Option<Seq<char>>), ()>((Seq::empty(), None)));
    assert(seq![simple_escape(c)] + Seq::<char>::empty() =~= seq![simple_escape(c)]);
}

/// The fixed-width forms `\\xHH`, `\\uHHHH` and `\\UHHHHHHHH` decode to the
/// character with the code point that their digits write.
pub proof fn lemma_fixed_hex_escape(l: char, d: Seq<char>)
    requires
        l == 'x' || l == 'u' || l == 'U',
        d.len() == hex_width(l),
        code_char(d) is Some,
    ensures
        unescape_spec(seq!['\\', l] + d) == Ok::<(Seq<char>, Option<Seq<char>>), ()>(
            (seq![code_char(d)->0], None),
        ),
{
    let s = seq!['\\', l] + d;
    let ch = code_char(d)->0;
    assert(s[0] == '\\');
    assert(s[1] == l);
    assert(is_hex_digit(d[0]));
    assert(s.skip(2) =~= d);
    assert(s.skip(2).take(hex_width(l) as int) =~= d);
    assert(escape_at(s, 1) == Some((ch, hex_width(l))));
    assert(unescape_from(s, 2 + hex_width(l) as int) == Ok::<(Seq<char>, Option<Seq<char>>), ()>(
        (Seq::empty(), None),
    ));
    assert(seq![ch] + Seq::<char>::empty() =~= seq![ch]);
}

/// The brace forms `\\x{H..}`, `\\u{H..}` and `\\U{H..}` decode to the
/// character with the code point that their digits write.
pub proof fn lemma_brace_hex_escape(l: char, d: Seq<char>)
    requires
        l == 'x' || l == 'u' || l == 'U',
        code_char(d) is Some,
    ensures
        unescape_spec(seq!['\\', l, '{'] + d + seq!['}']) == Ok::<
            (Seq<char>, Option<Seq<char>>),
            (),
        >((seq![code_char(d)->0], None)),
{
    let s = seq!['\\', l, '{'] + d + seq!['}'];
    let ch = code_char(d)->0;
    let rest = s.skip(2);
    assert(s[0] == '\\');
    assert(s[1] == l);
    assert(rest =~= seq!['{'] + d + seq!['}']);
    assert(rest[0] == '{');
    crate::text::lemma_find(rest, '}');
    assert(rest[d.len() as int + 1] == '}');
    assert forall|j: int| 0 <= j < d.len() + 1 implies rest[j] != '}' by {
        if j > 0 {
            assert(rest[j] == d[j - 1]);
            assert(is_hex_digit(d[j - 1]));
        }
    }
    assert(crate::text::find(rest, '}') == Some(d.len() as int + 1));
    assert(rest.subrange(1, d.len() as int + 1) =~= d);
    assert(escape_at(s, 1) == Some((ch, (d.len() + 2) as nat)));
    assert(unescape_from(s, s.len() as int) == Ok::<(Seq<char>, Option<Seq<char>>), ()>(
        (Seq::empty(), None),
    ));
    assert(seq![ch] + Seq::<char>::empty() =~= seq![ch]);
}

} // verus!
