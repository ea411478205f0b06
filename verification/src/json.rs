//! Byte-level primitives for the JSON subset that the Redfish chassis
//! document and the login request use.
//!
//! Parsing works on raw bytes in suffix style: a parser takes the input
//! and, on success, returns what it read together with the remaining
//! bytes.  Strings handle the short escape pairs (`\"`, `\\`, `\/`, `\b`,
//! `\f`, `\n`, `\r`, `\t`); non-ASCII bytes pass through unchanged, so any
//! UTF-8 text is carried faithfully.  `\u` escapes are not decoded and make
//! a string fail to parse; inside ignored fields they are skipped without
//! being interpreted.  The encoder escapes exactly the quote and the
//! backslash, which is enough for every byte sequence to survive a
//! round trip.

use vstd::prelude::*;
use vstd::slice::slice_subrange;

verus! {

/// JSON whitespace.
pub open spec fn is_ws_byte(b: u8) -> bool {
    b == 32 || b == 9 || b == 10 || b == 13
}

/// The input with its leading whitespace removed.
pub open spec fn spec_skip_ws(s: Seq<u8>) -> Seq<u8>
    decreases s.len(),
{
    if s.len() > 0 && is_ws_byte(s[0]) {
        spec_skip_ws(s.skip(1))
    } else {
        s
    }
}

pub proof fn lemma_skip_ws_len(s: Seq<u8>)
    ensures
        spec_skip_ws(s).len() <= s.len(),
    decreases s.len(),
{
    if s.len() > 0 && is_ws_byte(s[0]) {
        lemma_skip_ws_len(s.skip(1));
    }
}

/// The character that may follow a backslash in a string.
pub open spec fn is_escape_code(b: u8) -> bool {
    b == 34 || b == 92 || b == 47 || b == 98 || b == 102 || b == 110 || b == 114 || b == 116
}

/// The byte that an escape pair denotes.
pub open spec fn unescape_byte(b: u8) -> u8 {
    if b == 98 {
        8
    } else if b == 102 {
        12
    } else if b == 110 {
        10
    } else if b == 114 {
        13
    } else if b == 116 {
        9
    } else {
        b
    }
}

/// String contents from just after the opening quote: the decoded bytes
/// and the remainder after the closing quote.
pub open spec fn spec_parse_string_body(s: Seq<u8>) -> Option<(Seq<u8>, Seq<u8>)>
    decreases s.len(),
{
    if s.len() == 0 {
        None
    } else if s[0] == 34 {
        Some((Seq::empty(), s.skip(1)))
    } else if s[0] == 92 {
        if s.len() >= 2 && is_escape_code(s[1]) {
            match spec_parse_string_body(s.skip(2)) {
                Some(p) => Some((seq![unescape_byte(s[1])] + p.0, p.1)),
                None => None,
            }
        } else {
            None
        }
    } else {
        match spec_parse_string_body(s.skip(1)) {
            Some(p) => Some((seq![s[0]] + p.0, p.1)),
            None => None,
        }
    }
}

/// A quoted string: the decoded bytes and the remainder.
pub open spec fn spec_parse_string(s: Seq<u8>) -> Option<(Seq<u8>, Seq<u8>)> {
    if s.len() > 0 && s[0] == 34 {
        spec_parse_string_body(s.skip(1))
    } else {
        None
    }
}

pub proof fn lemma_parse_string_body_len(s: Seq<u8>)
    requires
        spec_parse_string_body(s) is Some,
    ensures
        spec_parse_string_body(s)->Some_0.1.len() < s.len(),
    decreases s.len(),
{
    if s[0] == 34 {
    } else if s[0] == 92 {
        lemma_parse_string_body_len(s.skip(2));
    } else {
        lemma_parse_string_body_len(s.skip(1));
    }
}

pub proof fn lemma_parse_string_len(s: Seq<u8>)
    requires
        spec_parse_string(s) is Some,
    ensures
        spec_parse_string(s)->Some_0.1.len() + 2 <= s.len(),
{
    lemma_parse_string_body_len(s.skip(1));
}

/// One step of skipping an arbitrary JSON value without interpreting it.
/// `depth` counts unclosed braces and brackets, `instr` tells whether the
/// position is inside a string, `esc` whether the previous byte was a
/// backslash inside that string.  A value ends, at nesting depth zero and
/// outside any string, right before a comma, closing brace or closing
/// bracket, or when the closing byte of the value itself is consumed.
pub open spec fn spec_skip_value_from(s: Seq<u8>, depth: nat, instr: bool, esc: bool) -> Option<
    Seq<u8>,
>
    decreases s.len(),
{
    if s.len() == 0 {
        if depth == 0 && !instr {
            Some(s)
        } else {
            None
        }
    } else {
        let b = s[0];
        if instr {
            if esc {
                spec_skip_value_from(s.skip(1), depth, true, false)
            } else if b == 92 {
                spec_skip_value_from(s.skip(1), depth, true, true)
            } else if b == 34 {
                spec_skip_value_from(s.skip(1), depth, false, false)
            } else {
                spec_skip_value_from(s.skip(1), depth, true, false)
            }
        } else if depth == 0 && (b == 44 || b == 125 || b == 93) {
            Some(s)
        } else if b == 34 {
            spec_skip_value_from(s.skip(1), depth, true, false)
        } else if b == 123 || b == 91 {
            spec_skip_value_from(s.skip(1), depth + 1, false, false)
        } else if b == 125 || b == 93 {
            if depth == 1 {
                Some(s.skip(1))
            } else {
                spec_skip_value_from(s.skip(1), (depth - 1) as nat, false, false)
            }
        } else {
            spec_skip_value_from(s.skip(1), depth, false, false)
        }
    }
}

/// Skip one ignored JSON value.
pub open spec fn spec_skip_value(s: Seq<u8>) -> Option<Seq<u8>> {
    spec_skip_value_from(s, 0, false, false)
}

pub proof fn lemma_skip_value_from_len(s: Seq<u8>, depth: nat, instr: bool, esc: bool)
    requires
        spec_skip_value_from(s, depth, instr, esc) is Some,
    ensures
        spec_skip_value_from(s, depth, instr, esc)->Some_0.len() <= s.len(),
    decreases s.len(),
{
    if s.len() == 0 {
    } else {
        let b = s[0];
        if instr {
            if esc {
                lemma_skip_value_from_len(s.skip(1), depth, true, false);
            } else if b == 92 {
                lemma_skip_value_from_len(s.skip(1), depth, true, true);
            } else if b == 34 {
                lemma_skip_value_from_len(s.skip(1), depth, false, false);
            } else {
                lemma_skip_value_from_len(s.skip(1), depth, true, false);
            }
        } else if depth == 0 && (b == 44 || b == 125 || b == 93) {
        } else if b == 34 {
            lemma_skip_value_from_len(s.skip(1), depth, true, false);
        } else if b == 123 || b == 91 {
            lemma_skip_value_from_len(s.skip(1), depth + 1, false, false);
        } else if b == 125 || b == 93 {
            if depth == 1 {
            } else {
                lemma_skip_value_from_len(s.skip(1), (depth - 1) as nat, false, false);
            }
        } else {
            lemma_skip_value_from_len(s.skip(1), depth, false, false);
        }
    }
}

pub proof fn lemma_skip_value_len(s: Seq<u8>)
    requires
        spec_skip_value(s) is Some,
    ensures
        spec_skip_value(s)->Some_0.len() <= s.len(),
{
    lemma_skip_value_from_len(s, 0, false, false);
}

/// A byte the encoder must escape.
pub open spec fn needs_escape(b: u8) -> bool {
    b == 34 || b == 92
}

/// Encoded string contents: quote and backslash get a backslash in front,
/// every other byte passes through.
pub open spec fn spec_encode_string_body(t: Seq<u8>) -> Seq<u8>
    decreases t.len(),
{
    if t.len() == 0 {
        Seq::empty()
    } else {
        (if needs_escape(t[0]) {
            seq![92u8, t[0]]
        } else {
            seq![t[0]]
        }) + spec_encode_string_body(t.skip(1))
    }
}

/// A quoted, escaped string.
pub open spec fn spec_encode_string(t: Seq<u8>) -> Seq<u8> {
    seq![34u8] + spec_encode_string_body(t) + seq![34u8]
}

/// Decoding inverts encoding, whatever bytes the string holds and whatever
/// follows it.
pub proof fn lemma_parse_encoded_string_body(t: Seq<u8>, rest: Seq<u8>)
    ensures
        spec_parse_string_body(spec_encode_string_body(t) + seq![34u8] + rest) == Some((t, rest)),
    decreases t.len(),
{
    let s = spec_encode_string_body(t) + seq![34u8] + rest;
    if t.len() == 0 {
        assert(s =~= seq![34u8] + rest);
        assert(s.skip(1) =~= rest);
    } else {
        lemma_parse_encoded_string_body(t.skip(1), rest);
        let tail = spec_encode_string_body(t.skip(1)) + seq![34u8] + rest;
        if needs_escape(t[0]) {
            assert(s =~= seq![92u8, t[0]] + tail);
            assert(s[0] == 92 && s[1] == t[0]);
            assert(s.skip(2) =~= tail);
            assert(is_escape_code(t[0]) && unescape_byte(t[0]) == t[0]);
            assert(seq![t[0]] + t.skip(1) =~= t);
        } else {
            assert(s =~= seq![t[0]] + tail);
            assert(s[0] == t[0] && t[0] != 34 && t[0] != 92);
            assert(s.skip(1) =~= tail);
            assert(seq![t[0]] + t.skip(1) =~= t);
        }
    }
}

pub proof fn lemma_parse_encoded_string(t: Seq<u8>, rest: Seq<u8>)
    ensures
        spec_parse_string(spec_encode_string(t) + rest) == Some((t, rest)),
{
    let s = spec_encode_string(t) + rest;
    assert(s[0] == 34);
    assert(s.skip(1) =~= spec_encode_string_body(t) + seq![34u8] + rest);
    lemma_parse_encoded_string_body(t, rest);
}

/// Remove leading whitespace.
pub fn skip_ws(s: &[u8]) -> (r: &[u8])
    ensures
        r@ == spec_skip_ws(s@),
        r@.len() <= s@.len(),
    decreases s.len(),
{
    if s.len() > 0 && (s[0] == 32 || s[0] == 9 || s[0] == 10 || s[0] == 13) {
        let rest = slice_subrange(s, 1, s.len());
        assert(rest@ =~= s@.skip(1));
        skip_ws(rest)
    } else {
        s
    }
}

/// Read a quoted string, decoding escape pairs.
pub fn parse_string(s: &[u8]) -> (r: Option<(Vec<u8>, &[u8])>)
    ensures
        match r {
            Some(p) => spec_parse_string(s@) == Some((p.0@, p.1@)),
            None => spec_parse_string(s@) is None,
        },
{
    if s.len() > 0 && s[0] == 34 {
        let rest = slice_subrange(s, 1, s.len());
        assert(rest@ =~= s@.skip(1));
        parse_string_body(rest)
    } else {
        None
    }
}

fn parse_string_body(s: &[u8]) -> (r: Option<(Vec<u8>, &[u8])>)
    ensures
        match r {
            Some(p) => spec_parse_string_body(s@) == Some((p.0@, p.1@)),
            None => spec_parse_string_body(s@) is None,
        },
    decreases s.len(),
{
    if s.len() == 0 {
        None
    } else if s[0] == 34 {
        let rest = slice_subrange(s, 1, s.len());
        assert(rest@ =~= s@.skip(1));
        Some((Vec::new(), rest))
    } else if s[0] == 92 {
        if s.len() >= 2 && (s[1] == 34 || s[1] == 92 || s[1] == 47 || s[1] == 98 || s[1] == 102
            || s[1] == 110 || s[1] == 114 || s[1] == 116) {
            let c = s[1];
            let d: u8 = if c == 98 {
                8
            } else if c == 102 {
                12
            } else if c == 110 {
                10
            } else if c == 114 {
                13
            } else if c == 116 {
                9
            } else {
                c
            };
            let rest = slice_subrange(s, 2, s.len());
            assert(rest@ =~= s@.skip(2));
            match parse_string_body(rest) {
                Some((mut v, r2)) => {
                    v.insert(0, d);
                    assert(v@ =~= seq![unescape_byte(s@[1])] + v@.skip(1));
                    Some((v, r2))
                },
                None => None,
            }
        } else {
            None
        }
    } else {
        let b = s[0];
        let rest = slice_subrange(s, 1, s.len());
        assert(rest@ =~= s@.skip(1));
        match parse_string_body(rest) {
            Some((mut v, r2)) => {
                v.insert(0, b);
                assert(v@ =~= seq![s@[0]] + v@.skip(1));
                Some((v, r2))
            },
            None => None,
        }
    }
}

/// Skip one ignored JSON value without interpreting it.
pub fn skip_value(s: &[u8]) -> (r: Option<&[u8]>)
    ensures
        match r {
            Some(r2) => spec_skip_value(s@) == Some(r2@) && r2@.len() <= s@.len(),
            None => spec_skip_value(s@) is None,
        },
{
    let r = skip_value_from(s, 0, false, false);
    proof {
        if spec_skip_value(s@) is Some {
            lemma_skip_value_len(s@);
        }
    }
    r
}

fn skip_value_from(s: &[u8], depth: usize, instr: bool, esc: bool) -> (r: Option<&[u8]>)
    requires
        depth + s.len() <= usize::MAX,
    ensures
        match r {
            Some(r2) => spec_skip_value_from(s@, depth as nat, instr, esc) == Some(r2@),
            None => spec_skip_value_from(s@, depth as nat, instr, esc) is None,
        },
    decreases s.len(),
{
    if s.len() == 0 {
        if depth == 0 && !instr {
            Some(s)
        } else {
            None
        }
    } else {
        let b = s[0];
        let rest = slice_subrange(s, 1, s.len());
        assert(rest@ =~= s@.skip(1));
        if instr {
            if esc {
                skip_value_from(rest, depth, true, false)
            } else if b == 92 {
                skip_value_from(rest, depth, true, true)
            } else if b == 34 {
                skip_value_from(rest, depth, false, false)
            } else {
                skip_value_from(rest, depth, true, false)
            }
        } else if depth == 0 && (b == 44 || b == 125 || b == 93) {
            Some(s)
        } else if b == 34 {
            skip_value_from(rest, depth, true, false)
        } else if b == 123 || b == 91 {
            skip_value_from(rest, depth + 1, false, false)
        } else if b == 125 || b == 93 {
            if depth == 1 {
                Some(rest)
            } else {
                skip_value_from(rest, depth - 1, false, false)
            }
        } else {
            skip_value_from(rest, depth, false, false)
        }
    }
}

/// Append the encoded contents of `t` (no quotes) to `out`.
fn append_string_body(out: &mut Vec<u8>, t: &[u8])
    ensures
        final(out)@ == old(out)@ + spec_encode_string_body(t@),
    decreases t.len(),
{
    if t.len() == 0 {
        assert(out@ =~= out@ + spec_encode_string_body(t@));
    } else {
        let b = t[0];
        if b == 34 || b == 92 {
            out.push(92);
            out.push(b);
        } else {
            out.push(b);
        }
        let rest = slice_subrange(t, 1, t.len());
        assert(rest@ =~= t@.skip(1));
        append_string_body(out, rest);
        proof {
            if needs_escape(t@[0]) {
                assert(old(out)@ + seq![92u8, t@[0]] + spec_encode_string_body(t@.skip(1)) =~= old(
                    out,
                )@ + spec_encode_string_body(t@));
            } else {
                assert(old(out)@ + seq![t@[0]] + spec_encode_string_body(t@.skip(1)) =~= old(out)@
                    + spec_encode_string_body(t@));
            }
        }
    }
}

/// Append the quoted, escaped encoding of `t` to `out`.
pub fn append_string(out: &mut Vec<u8>, t: &[u8])
    ensures
        final(out)@ == old(out)@ + spec_encode_string(t@),
{
    out.push(34);
    append_string_body(out, t);
    out.push(34);
    assert(out@ =~= old(out)@ + spec_encode_string(t@));
}

} // verus!
