//! The role transformation applied to payloads when a pairing completes.
//!
//! A payload is an opaque byte blob. When two callers are paired, each
//! payload is rewritten according to the arrival order of its submitter:
//! every occurrence of the role placeholder `actpass` in the first arrival's
//! payload becomes `active`, and every occurrence in the second arrival's
//! payload becomes `passive`. The rewrite is a pure function of the payload
//! and the role alone; it never inspects table state.

use vstd::prelude::*;

verus! {

/// The placeholder that marks the spot where a party's role is written:
/// the bytes of `actpass`.
pub open spec fn placeholder() -> Seq<u8> {
    seq!['a' as u8, 'c' as u8, 't' as u8, 'p' as u8, 'a' as u8, 's' as u8, 's' as u8]
}

/// The mark written into the first arrival's payload: the bytes of `active`.
pub open spec fn first_mark() -> Seq<u8> {
    seq!['a' as u8, 'c' as u8, 't' as u8, 'i' as u8, 'v' as u8, 'e' as u8]
}

/// The mark written into the second arrival's payload: the bytes of
/// `passive`.
pub open spec fn second_mark() -> Seq<u8> {
    seq!['p' as u8, 'a' as u8, 's' as u8, 's' as u8, 'i' as u8, 'v' as u8, 'e' as u8]
}

/// `s` with every leftmost, non-overlapping occurrence of `pat` replaced by
/// `rep`, scanning left to right.
pub open spec fn replaced(s: Seq<u8>, pat: Seq<u8>, rep: Seq<u8>) -> Seq<u8>
    decreases s.len(),
{
    if pat.len() == 0 || s.len() < pat.len() {
        s
    } else if s.subrange(0, pat.len() as int) == pat {
        rep + replaced(s.skip(pat.len() as int), pat, rep)
    } else {
        seq![s[0]] + replaced(s.skip(1), pat, rep)
    }
}

/// What the first arrival's payload becomes: `actpass` rewritten to
/// `active`.
pub open spec fn marked_first(p: Seq<u8>) -> Seq<u8> {
    replaced(p, placeholder(), first_mark())
}

/// What the second arrival's payload becomes: `actpass` rewritten to
/// `passive`.
pub open spec fn marked_second(p: Seq<u8>) -> Seq<u8> {
    replaced(p, placeholder(), second_mark())
}

/// Whether `pat` occurs in `s` at position `i`.
fn match_at(s: &Vec<u8>, i: usize, pat: &Vec<u8>) -> (r: bool)
    requires
        i + pat@.len() <= s@.len(),
    ensures
        r == (s@.subrange(i as int, i + pat@.len()) == pat@),
{
    let ghost window = s@.subrange(i as int, i + pat@.len());
    let slen = s.len();
    let mut j: usize = 0;
    while j < pat.len()
        invariant
            j <= pat@.len(),
            i + pat@.len() <= s@.len(),
            s@.len() == slen,
            window == s@.subrange(i as int, i + pat@.len()),
            forall|k: int| 0 <= k < j ==> s@[i + k] == pat@[k],
        decreases pat@.len() - j,
    {
        if s[i + j] != pat[j] {
            proof {
                assert(window[j as int] == s@[i + j]);
            }
            return false;
        }
        j += 1;
    }
    proof {
        assert(window =~= pat@);
    }
    true
}

/// Appends all of `src` to `out`.
fn push_all(out: &mut Vec<u8>, src: &Vec<u8>)
    ensures
        final(out)@ == old(out)@ + src@,
{
    let mut j: usize = 0;
    while j < src.len()
        invariant
            j <= src@.len(),
            out@ == old(out)@ + src@.subrange(0, j as int),
        decreases src@.len() - j,
    {
        let b = src[j];
        out.push(b);
        proof {
            assert(out@ =~= old(out)@ + src@.subrange(0, j + 1));
        }
        j += 1;
    }
    proof {
        assert(old(out)@ + src@.subrange(0, src@.len() as int) =~= old(out)@ + src@);
    }
}

/// Replaces every leftmost, non-overlapping occurrence of `pat` in `s` with
/// `rep`, scanning left to right.
pub fn replace_all(s: &Vec<u8>, pat: &Vec<u8>, rep: &Vec<u8>) -> (r: Vec<u8>)
    requires
        pat@.len() > 0,
    ensures
        r@ == replaced(s@, pat@, rep@),
{
    let mut out: Vec<u8> = Vec::new();
    let mut i: usize = 0;
    proof {
        assert(s@.skip(0) =~= s@);
        assert(Seq::<u8>::empty() + replaced(s@, pat@, rep@) =~= replaced(s@, pat@, rep@));
    }
    while i < s.len()
        invariant
            i <= s@.len(),
            pat@.len() > 0,
            replaced(s@, pat@, rep@) == out@ + replaced(s@.skip(i as int), pat@, rep@),
        decreases s@.len() - i,
    {
        let ghost tail = s@.skip(i as int);
        if pat.len() <= s.len() - i && match_at(s, i, pat) {
            proof {
                assert(tail.subrange(0, pat@.len() as int) =~= s@.subrange(
                    i as int,
                    i + pat@.len(),
                ));
                assert(replaced(tail, pat@, rep@) == rep@ + replaced(
                    tail.skip(pat@.len() as int),
                    pat@,
                    rep@,
                ));
                assert(tail.skip(pat@.len() as int) =~= s@.skip(i + pat@.len()));
            }
            push_all(&mut out, rep);
            i += pat.len();
            proof {
                assert(replaced(s@, pat@, rep@) == out@ + replaced(
                    s@.skip(i as int),
                    pat@,
                    rep@,
                ));
            }
        } else {
            proof {
                if i + pat@.len() <= s@.len() {
                    assert(tail.subrange(0, pat@.len() as int) =~= s@.subrange(
                        i as int,
                        i + pat@.len(),
                    ));
                    assert(replaced(tail, pat@, rep@) == seq![tail[0]] + replaced(
                        tail.skip(1),
                        pat@,
                        rep@,
                    ));
                } else {
                    assert(tail.len() < pat@.len());
                    assert(replaced(tail, pat@, rep@) == tail);
                    assert(replaced(tail.skip(1), pat@, rep@) == tail.skip(1));
                    assert(tail =~= seq![tail[0]] + tail.skip(1));
                }
                assert(tail[0] == s@[i as int]);
                assert(tail.skip(1) =~= s@.skip(i + 1));
            }
            let b = s[i];
            out.push(b);
            i += 1;
            proof {
                assert(out@ + replaced(s@.skip(i as int), pat@, rep@) =~= (out@.drop_last()
                    + seq![b]) + replaced(s@.skip(i as int), pat@, rep@));
                assert(replaced(s@, pat@, rep@) == out@ + replaced(
                    s@.skip(i as int),
                    pat@,
                    rep@,
                ));
            }
        }
    }
    proof {
        assert(s@.skip(s@.len() as int) =~= Seq::<u8>::empty());
        assert(replaced(Seq::<u8>::empty(), pat@, rep@) == Seq::<u8>::empty());
        assert(out@ + Seq::<u8>::empty() =~= out@);
    }
    out
}

/// The placeholder `actpass` as a byte vector.
pub fn placeholder_bytes() -> (r: Vec<u8>)
    ensures
        r@ == placeholder(),
{
    let mut v: Vec<u8> = Vec::new();
    v.push('a' as u8);
    v.push('c' as u8);
    v.push('t' as u8);
    v.push('p' as u8);
    v.push('a' as u8);
    v.push('s' as u8);
    v.push('s' as u8);
    proof {
        assert(v@ =~= placeholder());
    }
    v
}

/// The first-role mark `active` as a byte vector.
pub fn first_mark_bytes() -> (r: Vec<u8>)
    ensures
        r@ == first_mark(),
{
    let mut v: Vec<u8> = Vec::new();
    v.push('a' as u8);
    v.push('c' as u8);
    v.push('t' as u8);
    v.push('i' as u8);
    v.push('v' as u8);
    v.push('e' as u8);
    proof {
        assert(v@ =~= first_mark());
    }
    v
}

/// The second-role mark `passive` as a byte vector.
pub fn second_mark_bytes() -> (r: Vec<u8>)
    ensures
        r@ == second_mark(),
{
    let mut v: Vec<u8> = Vec::new();
    v.push('p' as u8);
    v.push('a' as u8);
    v.push('s' as u8);
    v.push('s' as u8);
    v.push('i' as u8);
    v.push('v' as u8);
    v.push('e' as u8);
    proof {
        assert(v@ =~= second_mark());
    }
    v
}

/// Rewrites the first arrival's payload with the initiating role mark.
pub fn mark_first_payload(p: &Vec<u8>) -> (r: Vec<u8>)
    ensures
        r@ == marked_first(p@),
{
    let pat = placeholder_bytes();
    let rep = first_mark_bytes();
    replace_all(p, &pat, &rep)
}

/// Rewrites the second arrival's payload with the responding role mark.
pub fn mark_second_payload(p: &Vec<u8>) -> (r: Vec<u8>)
    ensures
        r@ == marked_second(p@),
{
    let pat = placeholder_bytes();
    let rep = second_mark_bytes();
    replace_all(p, &pat, &rep)
}

} // verus!
