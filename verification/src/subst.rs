//! Substitution of the `{name}` placeholder token by the project name,
//! scanning left to right and replacing non-overlapping occurrences.

use vstd::prelude::*;

verus! {

pub const LBRACE: u8 = 123;
pub const RBRACE: u8 = 125;
pub const SUB_N: u8 = 110;
pub const SUB_A: u8 = 97;
pub const SUB_M: u8 = 109;
pub const SUB_E: u8 = 101;

/// The placeholder token `{name}` as bytes.
pub open spec fn token() -> Seq<u8> {
    seq![LBRACE, SUB_N, SUB_A, SUB_M, SUB_E, RBRACE]
}

/// The token occurs in `s` starting at position `i`.
pub open spec fn token_at(s: Seq<u8>, i: int) -> bool {
    0 <= i && i + 6 <= s.len() && s.subrange(i, i + 6) == token()
}

pub open spec fn contains_token(s: Seq<u8>) -> bool {
    exists|i: int| token_at(s, i)
}

/// Replace every occurrence of the token by `name`, left to right; a byte
/// that does not start an occurrence is kept.
pub open spec fn subst_spec(s: Seq<u8>, name: Seq<u8>) -> Seq<u8>
    decreases s.len(),
{
    if s.len() == 0 {
        Seq::empty()
    } else if token_at(s, 0) {
        name + subst_spec(s.skip(6), name)
    } else {
        seq![s[0]] + subst_spec(s.skip(1), name)
    }
}

/// Append all of `src` to `out`.
pub fn push_all(out: &mut Vec<u8>, src: &Vec<u8>)
    ensures
        final(out)@ == old(out)@ + src@,
{
    let ghost base = old(out)@;
    let mut j: usize = 0;
    while j < src.len()
        invariant
            0 <= j <= src@.len(),
            out@ == base + src@.take(j as int),
        decreases src@.len() - j,
    {
        out.push(src[j]);
        proof {
            assert(base + src@.take(j + 1) =~= (base + src@.take(j as int)).push(
                src@[j as int],
            ));
        }
        j = j + 1;
    }
    proof {
        assert(src@.take(src@.len() as int) =~= src@);
    }
}

/// Replace every occurrence of the `{name}` token in `s` by `name`.
pub fn substitute_name(s: &Vec<u8>, name: &Vec<u8>) -> (r: Vec<u8>)
    ensures
        r@ == subst_spec(s@, name@),
{
    let mut out: Vec<u8> = Vec::new();
    proof {
        assert(s@.skip(0) =~= s@);
        assert(Seq::<u8>::empty() + subst_spec(s@, name@) =~= subst_spec(s@, name@));
    }
    let mut i: usize = 0;
    while i < s.len()
        invariant
            0 <= i <= s@.len(),
            subst_spec(s@, name@) == out@ + subst_spec(s@.skip(i as int), name@),
        decreases s@.len() - i,
    {
        let ghost u = s@.skip(i as int);
        if s.len() - i >= 6 && s[i] == LBRACE && s[i + 1] == SUB_N && s[i + 2] == SUB_A && s[i + 3]
            == SUB_M && s[i + 4] == SUB_E && s[i + 5] == RBRACE {
            proof {
                assert(u.subrange(0, 6) =~= token());
                assert(token_at(u, 0));
                assert(u.skip(6) =~= s@.skip(i + 6));
                assert(out@ + (name@ + subst_spec(s@.skip(i + 6), name@)) =~= (out@ + name@)
                    + subst_spec(s@.skip(i + 6), name@));
            }
            push_all(&mut out, name);
            i = i + 6;
        } else {
            proof {
                assert(!token_at(u, 0)) by {
                    if token_at(u, 0) {
                        assert(u.subrange(0, 6) == token());
                        assert(u.subrange(0, 6)[0] == LBRACE);
                        assert(u.subrange(0, 6)[1] == SUB_N);
                        assert(u.subrange(0, 6)[2] == SUB_A);
                        assert(u.subrange(0, 6)[3] == SUB_M);
                        assert(u.subrange(0, 6)[4] == SUB_E);
                        assert(u.subrange(0, 6)[5] == RBRACE);
                    }
                }
                assert(u.skip(1) =~= s@.skip(i + 1));
                assert(u[0] == s@[i as int]);
                assert(out@ + (seq![s@[i as int]] + subst_spec(s@.skip(i + 1), name@)) =~= out@.push(
                    s@[i as int],
                ) + subst_spec(s@.skip(i + 1), name@));
            }
            out.push(s[i]);
            i = i + 1;
        }
    }
    proof {
        assert(s@.skip(s@.len() as int) =~= Seq::<u8>::empty());
        assert(out@ + Seq::<u8>::empty() =~= out@);
    }
    out
}

/// Law: a text without the placeholder token passes through substitution
/// unchanged.
pub proof fn lemma_subst_no_occurrence(s: Seq<u8>, name: Seq<u8>)
    requires
        !contains_token(s),
    ensures
        subst_spec(s, name) == s,
    decreases s.len(),
{
    if s.len() == 0 {
        assert(subst_spec(s, name) =~= s);
    } else {
        assert(!token_at(s, 0));
        assert(!contains_token(s.skip(1))) by {
            if contains_token(s.skip(1)) {
                let i = choose|i: int| token_at(s.skip(1), i);
                assert(s.subrange(i + 1, i + 7) =~= s.skip(1).subrange(i, i + 6));
                assert(token_at(s, i + 1));
            }
        }
        lemma_subst_no_occurrence(s.skip(1), name);
        assert(seq![s[0]] + s.skip(1) =~= s);
    }
}

/// Law: substitution rewrites the leftmost occurrence of the token to the
/// project name and continues after it, so repeated application of this law
/// together with the previous one accounts for every occurrence.
pub proof fn lemma_subst_leftmost(s: Seq<u8>, name: Seq<u8>, i: int)
    requires
        token_at(s, i),
        forall|j: int| 0 <= j < i ==> !token_at(s, j),
    ensures
        subst_spec(s, name) == s.subrange(0, i) + name + subst_spec(s.skip(i + 6), name),
    decreases i,
{
    if i == 0 {
        assert(s.subrange(0, 0) =~= Seq::<u8>::empty());
        assert((Seq::<u8>::empty() + name) + subst_spec(s.skip(6), name) =~= name + subst_spec(
            s.skip(6),
            name,
        ));
    } else {
        assert(!token_at(s, 0));
        assert(s.skip(1).subrange(i - 1, i + 5) =~= s.subrange(i, i + 6));
        assert(token_at(s.skip(1), i - 1));
        assert forall|j: int| 0 <= j < i - 1 implies !token_at(s.skip(1), j) by {
            if token_at(s.skip(1), j) {
                assert(s.subrange(j + 1, j + 7) =~= s.skip(1).subrange(j, j + 6));
                assert(token_at(s, j + 1));
            }
        }
        lemma_subst_leftmost(s.skip(1), name, i - 1);
        assert(s.skip(1).subrange(0, i - 1) =~= s.subrange(1, i));
        assert(s.skip(1).skip(i + 5) =~= s.skip(i + 6));
        assert(seq![s[0]] + ((s.subrange(1, i) + name) + subst_spec(s.skip(i + 6), name)) =~= (
        s.subrange(0, i) + name) + subst_spec(s.skip(i + 6), name));
    }
}

} // verus!
