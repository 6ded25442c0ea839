//! Decoding of a file's transport content and the project-name substitution.
//!
//! A file's content arrives as a quoted, escaped byte string: one leading and
//! one trailing quote, with embedded quotes written `\"` and line breaks
//! written `\n`. Decoding strips the quotes and unescapes, scanning left to
//! right. Encoding is the inverse, used to state the round-trip law.

use vstd::prelude::*;

verus! {

pub const QUOTE: u8 = 34;
pub const BACKSLASH: u8 = 92;
pub const LOWER_N: u8 = 110;
pub const NEWLINE: u8 = 10;

/// A transport value is wrapped when it carries the one leading and one
/// trailing quote that decoding strips.
pub open spec fn wrapped(t: Seq<u8>) -> bool {
    t.len() >= 2 && t[0] == QUOTE && t[t.len() - 1] == QUOTE
}

/// Unescape the quote-stripped body, left to right: `\n` becomes a line
/// break, `\"` becomes a quote, everything else is kept.
pub open spec fn decode_body(t: Seq<u8>) -> Seq<u8>
    decreases t.len(),
{
    if t.len() == 0 {
        Seq::empty()
    } else if t.len() >= 2 && t[0] == BACKSLASH && t[1] == LOWER_N {
        seq![NEWLINE] + decode_body(t.skip(2))
    } else if t.len() >= 2 && t[0] == BACKSLASH && t[1] == QUOTE {
        seq![QUOTE] + decode_body(t.skip(2))
    } else {
        seq![t[0]] + decode_body(t.skip(1))
    }
}

/// The decoded plain text of a wrapped transport value.
pub open spec fn decode_spec(t: Seq<u8>) -> Seq<u8> {
    decode_body(t.subrange(1, t.len() - 1))
}

/// Escape a plain text: a quote becomes `\"`, a line break becomes `\n`.
pub open spec fn encode_body(s: Seq<u8>) -> Seq<u8>
    decreases s.len(),
{
    if s.len() == 0 {
        Seq::empty()
    } else if s[0] == QUOTE {
        seq![BACKSLASH, QUOTE] + encode_body(s.skip(1))
    } else if s[0] == NEWLINE {
        seq![BACKSLASH, LOWER_N] + encode_body(s.skip(1))
    } else {
        seq![s[0]] + encode_body(s.skip(1))
    }
}

/// The transport form of a plain text: the escaped body between two quotes.
pub open spec fn encode_spec(s: Seq<u8>) -> Seq<u8> {
    seq![QUOTE] + encode_body(s) + seq![QUOTE]
}

/// Decode a transport value; `None` when it is not a quoted string.
pub fn decode_content(t: &Vec<u8>) -> (r: Option<Vec<u8>>)
    ensures
        r is Some <==> wrapped(t@),
        r matches Some(v) ==> v@ == decode_spec(t@),
{
    if t.len() < 2 || t[0] != QUOTE || t[t.len() - 1] != QUOTE {
        return None;
    }
    let end: usize = t.len() - 1;
    let mut out: Vec<u8> = Vec::new();
    let mut i: usize = 1;
    while i < end
        invariant
            1 <= i <= end,
            end == t@.len() - 1,
            t@.len() >= 2,
            decode_body(t@.subrange(1, end as int)) == out@ + decode_body(
                t@.subrange(i as int, end as int),
            ),
        decreases end - i,
    {
        let ghost u = t@.subrange(i as int, end as int);
        if t[i] == BACKSLASH && i + 1 < end && (t[i + 1] == LOWER_N || t[i + 1] == QUOTE) {
            if t[i + 1] == LOWER_N {
                out.push(NEWLINE);
            } else {
                out.push(QUOTE);
            }
            proof {
                assert(u.skip(2) =~= t@.subrange(i + 2, end as int));
                assert(decode_body(t@.subrange(1, end as int)) == out@ + decode_body(
                    t@.subrange(i + 2, end as int),
                ));
            }
            i = i + 2;
        } else {
            out.push(t[i]);
            proof {
                assert(u.skip(1) =~= t@.subrange(i + 1, end as int));
                if u.len() >= 2 && u[0] == BACKSLASH && (u[1] == LOWER_N || u[1] == QUOTE) {
                    assert(i + 1 < end);
                }
                assert(decode_body(t@.subrange(1, end as int)) == out@ + decode_body(
                    t@.subrange(i + 1, end as int),
                ));
            }
            i = i + 1;
        }
    }
    proof {
        assert(t@.subrange(i as int, end as int) =~= Seq::<u8>::empty());
        assert(out@ + Seq::<u8>::empty() =~= out@);
    }
    Some(out)
}

/// Encode a plain text into its transport form.
pub fn encode_content(s: &Vec<u8>) -> (r: Vec<u8>)
    ensures
        r@ == encode_spec(s@),
{
    let mut out: Vec<u8> = Vec::new();
    out.push(QUOTE);
    let mut i: usize = 0;
    while i < s.len()
        invariant
            0 <= i <= s@.len(),
            out@ == seq![QUOTE] + encode_body(s@.take(i as int)),
        decreases s@.len() - i,
    {
        let ghost before = s@.take(i as int);
        if s[i] == QUOTE {
            out.push(BACKSLASH);
            out.push(QUOTE);
        } else if s[i] == NEWLINE {
            out.push(BACKSLASH);
            out.push(LOWER_N);
        } else {
            out.push(s[i]);
        }
        proof {
            lemma_encode_body_snoc(s@, i as int);
        }
        i = i + 1;
    }
    out.push(QUOTE);
    proof {
        assert(s@.take(s@.len() as int) =~= s@);
        assert((seq![QUOTE] + encode_body(s@)).push(QUOTE) =~= seq![QUOTE] + encode_body(s@)
            + seq![QUOTE]);
    }
    out
}

/// Whether the text holds a literal backslash immediately followed by a
/// literal `n`; such a pair is indistinguishable from an escaped line break.
pub open spec fn has_backslash_n(s: Seq<u8>) -> bool {
    exists|i: int|
        #![trigger s[i]]
        0 <= i && i + 1 < s.len() && s[i] == BACKSLASH && s[i + 1] == LOWER_N
}

proof fn lemma_decode_encode_body(s: Seq<u8>)
    requires
        !has_backslash_n(s),
    ensures
        decode_body(encode_body(s)) == s,
    decreases s.len(),
{
    if s.len() == 0 {
        assert(encode_body(s) =~= Seq::<u8>::empty());
        assert(decode_body(encode_body(s)) =~= s);
    } else {
        let rest = s.skip(1);
        assert(!has_backslash_n(rest)) by {
            if has_backslash_n(rest) {
                let i = choose|i: int|
                    #![trigger rest[i]]
                    0 <= i && i + 1 < rest.len() && rest[i] == BACKSLASH && rest[i + 1] == LOWER_N;
                assert(s[i + 1] == BACKSLASH && s[i + 2] == LOWER_N);
                assert(has_backslash_n(s));
            }
        }
        lemma_decode_encode_body(rest);
        if s[0] == QUOTE {
            let t = seq![BACKSLASH, QUOTE] + encode_body(rest);
            assert(encode_body(s) == t);
            assert(t.skip(2) =~= encode_body(rest));
            assert(decode_body(t) == seq![QUOTE] + decode_body(encode_body(rest)));
            assert(seq![QUOTE] + rest =~= s);
        } else if s[0] == NEWLINE {
            let t = seq![BACKSLASH, LOWER_N] + encode_body(rest);
            assert(encode_body(s) == t);
            assert(t.skip(2) =~= encode_body(rest));
            assert(decode_body(t) == seq![NEWLINE] + decode_body(encode_body(rest)));
            assert(seq![NEWLINE] + rest =~= s);
        } else {
            let t = seq![s[0]] + encode_body(rest);
            assert(encode_body(s) == t);
            if t.len() >= 2 && t[0] == BACKSLASH {
                // The byte after a kept backslash is never the start of an
                // escape: a quote or line break in the rest is itself escaped
                // with a leading backslash, and a literal `n` right after a
                // backslash is ruled out above.
                assert(rest.len() > 0);
                assert(t[1] == encode_body(rest)[0]);
                if rest[0] == QUOTE || rest[0] == NEWLINE {
                    assert(encode_body(rest)[0] == BACKSLASH);
                } else {
                    assert(encode_body(rest)[0] == rest[0]);
                    assert(s[0] == BACKSLASH && s[1] == rest[0]);
                    if rest[0] == LOWER_N {
                        assert(has_backslash_n(s));
                    }
                }
                assert(t[1] != LOWER_N && t[1] != QUOTE);
            }
            assert(t.skip(1) =~= encode_body(rest));
            assert(decode_body(t) == seq![s[0]] + decode_body(encode_body(rest)));
            assert(seq![s[0]] + rest =~= s);
        }
    }
}

/// Law: decoding inverts encoding. For any plain text that does not already
/// hold a literal backslash followed by `n`, wrapping and escaping it and
/// then decoding the result yields the original text exactly.
pub proof fn lemma_round_trip(s: Seq<u8>)
    requires
        !has_backslash_n(s),
    ensures
        wrapped(encode_spec(s)),
        decode_spec(encode_spec(s)) == s,
{
    let t = encode_spec(s);
    assert(t.len() == encode_body(s).len() + 2);
    assert(t[0] == QUOTE);
    assert(t[t.len() - 1] == QUOTE);
    assert(t.subrange(1, t.len() - 1) =~= encode_body(s));
    lemma_decode_encode_body(s);
}

/// Appending one byte to a text appends its escape to the escaped body.
proof fn lemma_encode_body_snoc(s: Seq<u8>, i: int)
    requires
        0 <= i < s.len(),
    ensures
        encode_body(s.take(i + 1)) == encode_body(s.take(i)) + (if s[i] == QUOTE {
            seq![BACKSLASH, QUOTE]
        } else if s[i] == NEWLINE {
            seq![BACKSLASH, LOWER_N]
        } else {
            seq![s[i]]
        }),
    decreases i,
{
    if i == 0 {
        assert(s.take(0) =~= Seq::<u8>::empty());
        assert(s.take(1) =~= seq![s[0]]);
        assert(seq![s[0]].skip(1) =~= Seq::<u8>::empty());
        assert(encode_body(Seq::<u8>::empty()) == Seq::<u8>::empty());
        if s[0] == QUOTE {
            assert(encode_body(seq![s[0]]) =~= seq![BACKSLASH, QUOTE]);
        } else if s[0] == NEWLINE {
            assert(encode_body(seq![s[0]]) =~= seq![BACKSLASH, LOWER_N]);
        } else {
            assert(encode_body(seq![s[0]]) =~= seq![s[0]]);
        }
    } else {
        lemma_encode_body_snoc(s.skip(1), i - 1);
        assert(s.skip(1).take(i) =~= s.take(i + 1).skip(1));
        assert(s.skip(1).take(i - 1) =~= s.take(i).skip(1));
        assert(s.skip(1)[i - 1] == s[i]);
        assert(s.take(i + 1)[0] == s[0]);
        assert(s.take(i)[0] == s[0]);
        let esc0 = if s[0] == QUOTE {
            seq![BACKSLASH, QUOTE]
        } else if s[0] == NEWLINE {
            seq![BACKSLASH, LOWER_N]
        } else {
            seq![s[0]]
        };
        let esci = if s[i] == QUOTE {
            seq![BACKSLASH, QUOTE]
        } else if s[i] == NEWLINE {
            seq![BACKSLASH, LOWER_N]
        } else {
            seq![s[i]]
        };
        assert(encode_body(s.take(i + 1)) == esc0 + (encode_body(s.skip(1).take(i - 1)) + esci));
        assert(encode_body(s.take(i)) == esc0 + encode_body(s.skip(1).take(i - 1)));
        assert(esc0 + (encode_body(s.skip(1).take(i - 1)) + esci) =~= (esc0 + encode_body(
            s.skip(1).take(i - 1),
        )) + esci);
    }
}

} // verus!
