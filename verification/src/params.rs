//! Kernel-parameter reconciliation.
//!
//! A parameter is a token `KEY` or `KEY=VALUE`; its identity for replacement
//! is the KEY, the part before the first `=`. A parameter set holds no
//! exact duplicates; adding a parameter first removes every parameter with
//! the same KEY, so an added parameter ends up as the one carrier of its
//! KEY, and the set serializes as the sorted, space-joined line.

use vstd::prelude::*;
use crate::strutil::{push_char, is_token, split_ws, join_with, lemma_split_join_tokens};

verus! {

/// Position of the first `=` in `p`, or `p.len()` when there is none.
pub open spec fn eq_pos(p: Seq<char>) -> int
    decreases p.len(),
{
    if p.len() == 0 {
        0
    } else if p[0] == '=' {
        0
    } else {
        1 + eq_pos(p.drop_first())
    }
}

/// The KEY of a parameter: everything before the first `=`.
pub open spec fn key_of(p: Seq<char>) -> Seq<char> {
    p.take(eq_pos(p))
}

/// Two parameters name the same KEY.
pub open spec fn same_key(a: Seq<char>, b: Seq<char>) -> bool {
    key_of(a) == key_of(b)
}

/// `eq_pos` points at the first `=`, or past the end.
pub proof fn lemma_eq_pos(p: Seq<char>)
    ensures
        0 <= eq_pos(p) <= p.len(),
        eq_pos(p) < p.len() ==> p[eq_pos(p)] == '=',
        forall|k: int| 0 <= k < eq_pos(p) ==> p[k] != '=',
    decreases p.len(),
{
    if p.len() > 0 && p[0] != '=' {
        lemma_eq_pos(p.drop_first());
        assert forall|k: int| 0 <= k < eq_pos(p) implies p[k] != '=' by {
            if k > 0 {
                assert(p.drop_first()[k - 1] == p[k]);
            }
        }
    }
}

/// The KEY of a token, as a fresh vector.
pub fn token_key(t: &Vec<char>) -> (r: Vec<char>)
    ensures
        r@ == key_of(t@),
{
    proof {
        lemma_eq_pos(t@);
    }
    let mut i: usize = 0;
    let mut out: Vec<char> = Vec::new();
    while i < t.len()
        invariant
            0 <= i <= t@.len(),
            forall|k: int| 0 <= k < i ==> t@[k] != '=',
            out@ == t@.take(i as int),
            0 <= eq_pos(t@) <= t@.len(),
            eq_pos(t@) < t@.len() ==> t@[eq_pos(t@)] == '=',
            forall|k: int| 0 <= k < eq_pos(t@) ==> t@[k] != '=',
        decreases t.len() - i,
    {
        if t[i] == '=' {
            proof {
                assert(eq_pos(t@) == i);
            }
            return out;
        }
        out.push(t[i]);
        proof {
            assert(out@ =~= t@.take(i + 1 as int));
        }
        i = i + 1;
    }
    proof {
        assert(eq_pos(t@) == t@.len());
        assert(out@ =~= t@.take(eq_pos(t@)));
    }
    out
}

/// Character-wise equality of two vectors.
pub fn eq_chars(a: &Vec<char>, b: &Vec<char>) -> (r: bool)
    ensures
        r == (a@ == b@),
{
    if a.len() != b.len() {
        proof {
            assert(a@ != b@);
        }
        return false;
    }
    let mut i: usize = 0;
    while i < a.len()
        invariant
            i <= a.len(),
            a@.len() == b@.len(),
            forall|k: int| 0 <= k < i ==> a@[k] == b@[k],
        decreases a.len() - i,
    {
        if a[i] != b[i] {
            return false;
        }
        i = i + 1;
    }
    proof {
        assert(a@ =~= b@);
    }
    true
}

/// Whether the tokens share a KEY.
pub fn tokens_same_key(a: &Vec<char>, b: &Vec<char>) -> (r: bool)
    ensures
        r == same_key(a@, b@),
{
    let ka = token_key(a);
    let kb = token_key(b);
    eq_chars(&ka, &kb)
}

pub fn has_token(v: &Vec<Vec<char>>, t: &Vec<char>) -> (r: bool)
    ensures
        r == v@.map_values(|x: Vec<char>| x@).contains(t@),
{
    let ghost m = v@.map_values(|x: Vec<char>| x@);
    let mut i: usize = 0;
    while i < v.len()
        invariant
            i <= v.len(),
            m == v@.map_values(|x: Vec<char>| x@),
            forall|k: int| 0 <= k < i ==> m[k] != t@,
        decreases v.len() - i,
    {
        if eq_chars(&v[i], t) {
            proof {
                assert(m[i as int] == t@);
            }
            return true;
        }
        i = i + 1;
    }
    proof {
        assert(forall|k: int| 0 <= k < m.len() ==> m[k] != t@);
    }
    false
}

/// First-occurrence deduplication.
pub open spec fn dedup_first(s: Seq<Seq<char>>) -> Seq<Seq<char>>
    decreases s.len(),
{
    if s.len() == 0 {
        s
    } else {
        let d = dedup_first(s.drop_last());
        if d.contains(s.last()) {
            d
        } else {
            d.push(s.last())
        }
    }
}

/// Deduplication keeps exactly the members of the input.
pub proof fn lemma_dedup_first_contains(s: Seq<Seq<char>>, t: Seq<char>)
    ensures
        dedup_first(s).contains(t) == s.contains(t),
    decreases s.len(),
{
    if s.len() > 0 {
        let d0 = dedup_first(s.drop_last());
        lemma_dedup_first_contains(s.drop_last(), t);
        if s.contains(t) {
            let i = choose|i: int| 0 <= i < s.len() && s[i] == t;
            if i < s.len() - 1 {
                assert(s.drop_last()[i] == t);
                assert(s.drop_last().contains(t));
                if !d0.contains(s.last()) {
                    let j = choose|j: int| 0 <= j < d0.len() && d0[j] == t;
                    assert(d0.push(s.last())[j] == t);
                }
            } else {
                if d0.contains(s.last()) {
                    assert(d0.contains(t));
                } else {
                    assert(d0.push(s.last())[d0.len() as int] == t);
                }
            }
            assert(dedup_first(s).contains(t));
        } else {
            assert(!s.drop_last().contains(t)) by {
                if s.drop_last().contains(t) {
                    let j = choose|j: int| 0 <= j < s.len() - 1 && s.drop_last()[j] == t;
                    assert(s[j] == t);
                }
            }
            assert(s[s.len() - 1] != t);
            if !d0.contains(s.last()) {
                if dedup_first(s).contains(t) {
                    let j = choose|j: int| 0 <= j < d0.len() + 1 && d0.push(s.last())[j] == t;
                    if j < d0.len() {
                        assert(d0[j] == t);
                    }
                    assert(false);
                }
            }
        }
    }
}

/// Removes exact duplicate tokens, keeping first occurrences.
pub fn dedup_tokens(v: &Vec<Vec<char>>) -> (r: Vec<Vec<char>>)
    ensures
        r@.map_values(|x: Vec<char>| x@) == dedup_first(v@.map_values(|x: Vec<char>| x@)),
{
    let ghost m = v@.map_values(|x: Vec<char>| x@);
    let mut out: Vec<Vec<char>> = Vec::new();
    let mut i: usize = 0;
    proof {
        assert(m.take(0) =~= Seq::<Seq<char>>::empty());
        assert(out@.map_values(|x: Vec<char>| x@) =~= dedup_first(m.take(0)));
    }
    while i < v.len()
        invariant
            i <= v.len(),
            m == v@.map_values(|x: Vec<char>| x@),
            out@.map_values(|x: Vec<char>| x@) == dedup_first(m.take(i as int)),
        decreases v.len() - i,
    {
        let ghost om = out@.map_values(|x: Vec<char>| x@);
        proof {
            assert(m.take(i + 1 as int).drop_last() =~= m.take(i as int));
            assert(m.take(i + 1 as int).last() == m[i as int]);
        }
        let present = has_token(&out, &v[i]);
        if !present {
            out.push(v[i].clone());
            proof {
                assert(out@.map_values(|x: Vec<char>| x@) =~= om.push(m[i as int]));
            }
        }
        i = i + 1;
    }
    proof {
        assert(m.take(i as int) =~= m);
    }
    out
}

/// No requested parameter shares a KEY with `t`.
pub open spec fn no_key_in(reqs: Seq<Seq<char>>, t: Seq<char>) -> bool {
    forall|i: int| 0 <= i < reqs.len() ==> !same_key(t, reqs[i])
}

pub fn any_same_key(reqs: &Vec<Vec<char>>, t: &Vec<char>) -> (r: bool)
    ensures
        r == !no_key_in(reqs@.map_values(|x: Vec<char>| x@), t@),
{
    let ghost m = reqs@.map_values(|x: Vec<char>| x@);
    let mut i: usize = 0;
    while i < reqs.len()
        invariant
            i <= reqs.len(),
            m == reqs@.map_values(|x: Vec<char>| x@),
            forall|k: int| 0 <= k < i ==> !same_key(t@, m[k]),
        decreases reqs.len() - i,
    {
        if tokens_same_key(t, &reqs[i]) {
            proof {
                assert(same_key(t@, m[i as int]));
            }
            return true;
        }
        i = i + 1;
    }
    false
}

/// The tokens of `v` whose KEY is named by no request, in order.
pub open spec fn keep_no_key(v: Seq<Seq<char>>, reqs: Seq<Seq<char>>) -> Seq<Seq<char>>
    decreases v.len(),
{
    if v.len() == 0 {
        v
    } else {
        let s = keep_no_key(v.drop_last(), reqs);
        if no_key_in(reqs, v.last()) {
            s.push(v.last())
        } else {
            s
        }
    }
}

/// Keeps the tokens whose KEY is named by no request, and reports whether
/// any token was dropped.
pub fn filter_no_key(v: &Vec<Vec<char>>, reqs: &Vec<Vec<char>>) -> (r: (Vec<Vec<char>>, bool))
    ensures
        r.0@.map_values(|x: Vec<char>| x@)
            == keep_no_key(
                v@.map_values(|x: Vec<char>| x@),
                reqs@.map_values(|x: Vec<char>| x@),
            ),
        r.1 == exists|k: int| 0 <= k < v@.len()
            && !no_key_in(reqs@.map_values(|x: Vec<char>| x@), (#[trigger] v@[k])@),
{
    let ghost m = v@.map_values(|x: Vec<char>| x@);
    let ghost rm = reqs@.map_values(|x: Vec<char>| x@);
    let mut out: Vec<Vec<char>> = Vec::new();
    let mut dropped = false;
    let mut i: usize = 0;
    proof {
        assert(m.take(0) =~= Seq::<Seq<char>>::empty());
        assert(out@.map_values(|x: Vec<char>| x@) =~= keep_no_key(m.take(0), rm));
    }
    while i < v.len()
        invariant
            i <= v.len(),
            m == v@.map_values(|x: Vec<char>| x@),
            rm == reqs@.map_values(|x: Vec<char>| x@),
            out@.map_values(|x: Vec<char>| x@) == keep_no_key(m.take(i as int), rm),
            dropped == exists|k: int| 0 <= k < i && !no_key_in(rm, #[trigger] m[k]),
        decreases v.len() - i,
    {
        let ghost om = out@.map_values(|x: Vec<char>| x@);
        proof {
            assert(m.take(i + 1 as int).drop_last() =~= m.take(i as int));
            assert(m.take(i + 1 as int).last() == m[i as int]);
        }
        let clash = any_same_key(reqs, &v[i]);
        if clash {
            dropped = true;
        } else {
            out.push(v[i].clone());
            proof {
                assert(out@.map_values(|x: Vec<char>| x@) =~= om.push(m[i as int]));
            }
        }
        i = i + 1;
    }
    proof {
        assert(m.take(i as int) =~= m);
        assert forall|k: int| 0 <= k < v@.len() implies m[k] == (#[trigger] v@[k])@ by {}
    }
    (out, dropped)
}

/// The tokens of `v` that do not share a KEY with `x`, in order.
pub open spec fn drop_key(v: Seq<Seq<char>>, x: Seq<char>) -> Seq<Seq<char>>
    decreases v.len(),
{
    if v.len() == 0 {
        v
    } else {
        let s = drop_key(v.drop_last(), x);
        if !same_key(v.last(), x) {
            s.push(v.last())
        } else {
            s
        }
    }
}

/// Keeps the tokens that do not share a KEY with `x`.
pub fn filter_not_same_key(v: &Vec<Vec<char>>, x: &Vec<char>) -> (r: Vec<Vec<char>>)
    ensures
        r@.map_values(|t: Vec<char>| t@)
            == drop_key(v@.map_values(|t: Vec<char>| t@), x@),
{
    let ghost m = v@.map_values(|t: Vec<char>| t@);
    let mut out: Vec<Vec<char>> = Vec::new();
    let mut i: usize = 0;
    proof {
        assert(m.take(0) =~= Seq::<Seq<char>>::empty());
        assert(out@.map_values(|t: Vec<char>| t@) =~= drop_key(m.take(0), x@));
    }
    while i < v.len()
        invariant
            i <= v.len(),
            m == v@.map_values(|t: Vec<char>| t@),
            out@.map_values(|t: Vec<char>| t@) == drop_key(m.take(i as int), x@),
        decreases v.len() - i,
    {
        let ghost om = out@.map_values(|t: Vec<char>| t@);
        proof {
            assert(m.take(i + 1 as int).drop_last() =~= m.take(i as int));
            assert(m.take(i + 1 as int).last() == m[i as int]);
        }
        if !tokens_same_key(&v[i], x) {
            out.push(v[i].clone());
            proof {
                assert(out@.map_values(|t: Vec<char>| t@) =~= om.push(m[i as int]));
            }
        }
        i = i + 1;
    }
    proof {
        assert(m.take(i as int) =~= m);
    }
    out
}

/// Requested parameters that are not overridden by a later request with
/// the same KEY, in order of their last occurrence.
pub open spec fn winners(reqs: Seq<Seq<char>>) -> Seq<Seq<char>>
    decreases reqs.len(),
{
    if reqs.len() == 0 {
        reqs
    } else {
        drop_key(winners(reqs.drop_last()), reqs.last()).push(reqs.last())
    }
}

pub fn pick_winners(reqs: &Vec<Vec<char>>) -> (r: Vec<Vec<char>>)
    ensures
        r@.map_values(|t: Vec<char>| t@) == winners(reqs@.map_values(|t: Vec<char>| t@)),
{
    let ghost m = reqs@.map_values(|t: Vec<char>| t@);
    let mut out: Vec<Vec<char>> = Vec::new();
    let mut i: usize = 0;
    proof {
        assert(m.take(0) =~= Seq::<Seq<char>>::empty());
        assert(out@.map_values(|t: Vec<char>| t@) =~= winners(m.take(0)));
    }
    while i < reqs.len()
        invariant
            i <= reqs.len(),
            m == reqs@.map_values(|t: Vec<char>| t@),
            out@.map_values(|t: Vec<char>| t@) == winners(m.take(i as int)),
        decreases reqs.len() - i,
    {
        proof {
            assert(m.take(i + 1 as int).drop_last() =~= m.take(i as int));
            assert(m.take(i + 1 as int).last() == m[i as int]);
        }
        let filtered = filter_not_same_key(&out, &reqs[i]);
        out = filtered;
        let ghost om = out@.map_values(|t: Vec<char>| t@);
        out.push(reqs[i].clone());
        proof {
            assert(out@.map_values(|t: Vec<char>| t@) =~= om.push(m[i as int]));
        }
        i = i + 1;
    }
    proof {
        assert(m.take(i as int) =~= m);
    }
    out
}

/// `p` sits in `cur` exactly once for its KEY: it is a member, and every
/// member with its KEY is `p` itself.
pub open spec fn key_match_unique(cur: Seq<Seq<char>>, p: Seq<char>) -> bool {
    cur.contains(p)
        && forall|k: int| 0 <= k < cur.len() && same_key(#[trigger] cur[k], p) ==> cur[k] == p
}

pub fn match_unique(cur: &Vec<Vec<char>>, p: &Vec<char>) -> (r: bool)
    ensures
        r == key_match_unique(cur@.map_values(|t: Vec<char>| t@), p@),
{
    let ghost m = cur@.map_values(|t: Vec<char>| t@);
    let mut found = false;
    let mut clash = false;
    let mut i: usize = 0;
    while i < cur.len()
        invariant
            i <= cur.len(),
            m == cur@.map_values(|t: Vec<char>| t@),
            found == exists|k: int| 0 <= k < i && #[trigger] m[k] == p@,
            clash == exists|k: int| 0 <= k < i && same_key(#[trigger] m[k], p@) && m[k] != p@,
        decreases cur.len() - i,
    {
        if eq_chars(&cur[i], p) {
            found = true;
            proof {
                assert(m[i as int] == p@);
            }
        } else if tokens_same_key(&cur[i], p) {
            clash = true;
            proof {
                assert(same_key(m[i as int], p@) && m[i as int] != p@);
            }
        }
        i = i + 1;
    }
    proof {
        if found {
            let k = choose|k: int| 0 <= k < m.len() && m[k] == p@;
            assert(m.contains(p@));
        }
        if m.contains(p@) {
            let k = choose|k: int| 0 <= k < m.len() && m[k] == p@;
            assert(m[k] == p@);
        }
    }
    found && !clash
}

/// The reconciled parameter list after an add: surviving current
/// parameters, then the requested ones.
pub open spec fn spec_add(cur: Seq<Seq<char>>, reqs: Seq<Seq<char>>) -> Seq<Seq<char>> {
    keep_no_key(dedup_first(cur), reqs) + winners(reqs)
}

/// An add reports a change exactly when some requested parameter is not
/// already present as the only carrier of its KEY.
pub open spec fn spec_add_changed(cur: Seq<Seq<char>>, reqs: Seq<Seq<char>>) -> bool {
    exists|i: int| 0 <= i < reqs.len() && !key_match_unique(dedup_first(cur), #[trigger] reqs[i])
}

/// Reconciles an add request against the current parameters: every
/// parameter sharing a KEY with a request is replaced by the request.
pub fn add_tokens(cur: &Vec<Vec<char>>, reqs: &Vec<Vec<char>>) -> (r: (Vec<Vec<char>>, bool))
    ensures
        r.0@.map_values(|t: Vec<char>| t@)
            == spec_add(cur@.map_values(|t: Vec<char>| t@), reqs@.map_values(|t: Vec<char>| t@)),
        r.1 == spec_add_changed(
            cur@.map_values(|t: Vec<char>| t@),
            reqs@.map_values(|t: Vec<char>| t@),
        ),
{
    let ghost cm = cur@.map_values(|t: Vec<char>| t@);
    let ghost rm = reqs@.map_values(|t: Vec<char>| t@);
    let d = dedup_tokens(cur);
    let (mut out, _) = filter_no_key(&d, reqs);
    let ghost fm = out@.map_values(|t: Vec<char>| t@);
    let win = pick_winners(reqs);
    let mut j: usize = 0;
    proof {
        assert(fm + win@.map_values(|t: Vec<char>| t@).take(0) =~= fm);
    }
    while j < win.len()
        invariant
            j <= win.len(),
            out@.map_values(|t: Vec<char>| t@)
                == fm + win@.map_values(|t: Vec<char>| t@).take(j as int),
        decreases win.len() - j,
    {
        let ghost om = out@.map_values(|t: Vec<char>| t@);
        let ghost wm = win@.map_values(|t: Vec<char>| t@);
        out.push(win[j].clone());
        proof {
            assert(out@.map_values(|t: Vec<char>| t@) =~= om.push(wm[j as int]));
            assert(om.push(wm[j as int]) =~= fm + wm.take(j + 1 as int));
        }
        j = j + 1;
    }
    proof {
        assert(win@.map_values(|t: Vec<char>| t@).take(win@.len() as int)
            =~= win@.map_values(|t: Vec<char>| t@));
    }
    let mut changed = false;
    let mut i: usize = 0;
    while i < reqs.len()
        invariant
            i <= reqs.len(),
            rm == reqs@.map_values(|t: Vec<char>| t@),
            d@.map_values(|t: Vec<char>| t@) == dedup_first(cm),
            changed == exists|k: int| 0 <= k < i
                && !key_match_unique(dedup_first(cm), #[trigger] rm[k]),
        decreases reqs.len() - i,
    {
        if !match_unique(&d, &reqs[i]) {
            changed = true;
            proof {
                assert(!key_match_unique(dedup_first(cm), rm[i as int]));
            }
        }
        i = i + 1;
    }
    (out, changed)
}

/// The reconciled parameter list after a remove: every parameter whose
/// exact string or KEY matches a request is dropped.
pub open spec fn spec_remove(cur: Seq<Seq<char>>, reqs: Seq<Seq<char>>) -> Seq<Seq<char>> {
    keep_no_key(dedup_first(cur), reqs)
}

/// A remove reports a change exactly when it dropped something.
pub open spec fn spec_remove_changed(cur: Seq<Seq<char>>, reqs: Seq<Seq<char>>) -> bool {
    exists|k: int| 0 <= k < dedup_first(cur).len()
        && !no_key_in(reqs, #[trigger] dedup_first(cur)[k])
}

/// Reconciles a remove request against the current parameters.
pub fn remove_tokens(cur: &Vec<Vec<char>>, reqs: &Vec<Vec<char>>) -> (r: (Vec<Vec<char>>, bool))
    ensures
        r.0@.map_values(|t: Vec<char>| t@)
            == spec_remove(cur@.map_values(|t: Vec<char>| t@), reqs@.map_values(|t: Vec<char>| t@)),
        r.1 == spec_remove_changed(
            cur@.map_values(|t: Vec<char>| t@),
            reqs@.map_values(|t: Vec<char>| t@),
        ),
{
    let ghost cm = cur@.map_values(|t: Vec<char>| t@);
    let ghost rm = reqs@.map_values(|t: Vec<char>| t@);
    let d = dedup_tokens(cur);
    let r = filter_no_key(&d, reqs);
    proof {
        let dm = d@.map_values(|t: Vec<char>| t@);
        assert forall|k: int| 0 <= k < d@.len() implies (#[trigger] d@[k])@ == dm[k] by {}
        assert(r.1 == spec_remove_changed(cm, rm));
    }
    r
}


/// Lexicographic order on character sequences, by code point.
pub open spec fn lex_le(a: Seq<char>, b: Seq<char>) -> bool
    decreases a.len(),
{
    if a.len() == 0 {
        true
    } else if b.len() == 0 {
        false
    } else if a[0] == b[0] {
        lex_le(a.drop_first(), b.drop_first())
    } else {
        (a[0] as u32) < (b[0] as u32)
    }
}


/// Distinct characters have distinct code points.
proof fn lemma_char_codepoint(c1: char, c2: char)
    requires
        c1 != c2,
    ensures
        c1 as u32 != c2 as u32,
{
}


pub proof fn lemma_lex_le_total(a: Seq<char>, b: Seq<char>)
    ensures
        lex_le(a, b) || lex_le(b, a),
    decreases a.len(),
{
    if a.len() == 0 {
        assert(lex_le(a, b));
    } else if b.len() == 0 {
        assert(lex_le(b, a));
    } else if a[0] == b[0] {
        lemma_lex_le_total(a.drop_first(), b.drop_first());
        assert(lex_le(a, b) == lex_le(a.drop_first(), b.drop_first()));
        assert(lex_le(b, a) == lex_le(b.drop_first(), a.drop_first()));
    } else {
        let c1 = a[0];
        let c2 = b[0];
        lemma_char_codepoint(c1, c2);
        assert(lex_le(a, b) == ((c1 as u32) < (c2 as u32)));
        assert(lex_le(b, a) == ((c2 as u32) < (c1 as u32)));
    }
}

pub proof fn lemma_lex_le_antisym(a: Seq<char>, b: Seq<char>)
    requires
        lex_le(a, b),
        lex_le(b, a),
    ensures
        a == b,
    decreases a.len(),
{
    if a.len() == 0 {
        assert(b.len() == 0);
        assert(a =~= b);
    } else {
        assert(b.len() > 0);
        if a[0] != b[0] {
            let c1 = a[0];
            let c2 = b[0];
            lemma_char_codepoint(c1, c2);
            assert(false);
        }
        lemma_lex_le_antisym(a.drop_first(), b.drop_first());
        assert(a.len() == b.len());
        assert forall|k: int| 0 <= k < a.len() implies a[k] == b[k] by {
            if k > 0 {
                assert(a[k] == a.drop_first()[k - 1]);
                assert(b[k] == b.drop_first()[k - 1]);
            }
        }
        assert(a =~= b);
    }
}

pub proof fn lemma_lex_le_trans(a: Seq<char>, b: Seq<char>, c: Seq<char>)
    requires
        lex_le(a, b),
        lex_le(b, c),
    ensures
        lex_le(a, c),
    decreases a.len(),
{
    if a.len() > 0 {
        assert(b.len() > 0);
        assert(c.len() > 0);
        if a[0] == b[0] && b[0] == c[0] {
            lemma_lex_le_trans(a.drop_first(), b.drop_first(), c.drop_first());
        }
    }
}

/// Comparison of two tokens in lexicographic order.
pub proof fn lemma_lex_le_skip(a: Seq<char>, b: Seq<char>, i: int)
    requires
        0 <= i <= a.len(),
        i <= b.len(),
        forall|k: int| 0 <= k < i ==> a[k] == b[k],
    ensures
        lex_le(a, b) == lex_le(a.skip(i), b.skip(i)),
    decreases i,
{
    if i == 0 {
        assert(a.skip(0) =~= a);
        assert(b.skip(0) =~= b);
    } else {
        assert(a.len() > 0 && b.len() > 0 && a[0] == b[0]);
        assert(a.drop_first().skip(i - 1) =~= a.skip(i));
        assert(b.drop_first().skip(i - 1) =~= b.skip(i));
        lemma_lex_le_skip(a.drop_first(), b.drop_first(), i - 1);
    }
}

pub fn lex_le_tokens(a: &Vec<char>, b: &Vec<char>) -> (r: bool)
    ensures
        r == lex_le(a@, b@),
{
    let mut i: usize = 0;
    while i < a.len() && i < b.len()
        invariant
            i <= a.len(),
            i <= b.len(),
            forall|k: int| 0 <= k < i ==> a@[k] == b@[k],
        decreases a.len() - i,
    {
        if a[i] != b[i] {
            proof {
                lemma_lex_le_skip(a@, b@, i as int);
                assert(a@.skip(i as int)[0] == a@[i as int]);
                assert(b@.skip(i as int)[0] == b@[i as int]);
            }
            return (a[i] as u32) < (b[i] as u32);
        }
        i = i + 1;
    }
    proof {
        lemma_lex_le_skip(a@, b@, i as int);
        if a@.len() <= b@.len() {
            assert(a@.skip(i as int).len() == 0);
        } else {
            assert(b@.skip(i as int).len() == 0);
            assert(a@.skip(i as int).len() > 0);
        }
    }
    a.len() <= b.len()
}

/// Tokens in weakly increasing lexicographic order.
pub open spec fn tokens_sorted(s: Seq<Seq<char>>) -> bool {
    forall|i: int, j: int| 0 <= i < j < s.len() ==> lex_le(#[trigger] s[i], #[trigger] s[j])
}

/// The canonical sorted arrangement of the tokens.
pub open spec fn sorted_form(s: Seq<Seq<char>>) -> Seq<Seq<char>> {
    s.sort_by(|a: Seq<char>, b: Seq<char>| lex_le(a, b))
}

/// `lex_le` is a total order, in the packaged form vstd's sorting
/// lemmas expect.
pub proof fn lemma_lex_total_ordering()
    ensures
        vstd::relations::total_ordering(|a: Seq<char>, b: Seq<char>| lex_le(a, b)),
{
    let leq = |a: Seq<char>, b: Seq<char>| lex_le(a, b);
    assert forall|a: Seq<char>| #[trigger] leq(a, a) by {
        lemma_lex_le_total(a, a);
    }
    assert forall|a: Seq<char>, b: Seq<char>| #[trigger] leq(a, b) && #[trigger] leq(b, a)
        implies a == b by {
        lemma_lex_le_antisym(a, b);
    }
    assert forall|a: Seq<char>, b: Seq<char>, c: Seq<char>|
        #[trigger] leq(a, b) && #[trigger] leq(b, c) implies leq(a, c) by {
        lemma_lex_le_trans(a, b, c);
    }
    assert forall|a: Seq<char>, b: Seq<char>| #[trigger] leq(a, b) || #[trigger] leq(b, a) by {
        lemma_lex_le_total(a, b);
    }
}

/// Sequences with the same tokens have the same sorted arrangement.
pub proof fn lemma_sorted_form_of_multiset(x: Seq<Seq<char>>, y: Seq<Seq<char>>)
    requires
        x.to_multiset() == y.to_multiset(),
    ensures
        sorted_form(x) == sorted_form(y),
{
    let leq = |a: Seq<char>, b: Seq<char>| lex_le(a, b);
    lemma_lex_total_ordering();
    x.lemma_sort_by_ensures(leq);
    y.lemma_sort_by_ensures(leq);
    vstd::seq_lib::lemma_sorted_unique(x.sort_by(leq), y.sort_by(leq), leq);
}

/// Inserting preserves the token multiset.
proof fn lemma_insert_to_multiset(s: Seq<Seq<char>>, pos: int, x: Seq<char>)
    requires
        0 <= pos <= s.len(),
    ensures
        s.insert(pos, x).to_multiset() == s.to_multiset().insert(x),
{
    broadcast use vstd::multiset::group_multiset_axioms;
    broadcast use vstd::seq_lib::group_to_multiset_ensures;
    assert(s.insert(pos, x) =~= s.take(pos).push(x) + s.skip(pos));
    vstd::seq_lib::lemma_multiset_commutative(s.take(pos).push(x), s.skip(pos));
    vstd::seq_lib::lemma_multiset_commutative(s.take(pos), s.skip(pos));
    assert(s.take(pos) + s.skip(pos) =~= s);
    assert(s.take(pos).push(x).to_multiset() =~= s.take(pos).to_multiset().insert(x));
    assert(s.take(pos).to_multiset().insert(x).add(s.skip(pos).to_multiset())
        =~= s.take(pos).to_multiset().add(s.skip(pos).to_multiset()).insert(x));
}

/// Sorts tokens lexicographically by insertion.
pub fn sort_tokens(v: &Vec<Vec<char>>) -> (r: Vec<Vec<char>>)
    ensures
        r@.map_values(|t: Vec<char>| t@) == sorted_form(v@.map_values(|t: Vec<char>| t@)),
{
    broadcast use vstd::seq_lib::group_to_multiset_ensures;
    let ghost m = v@.map_values(|t: Vec<char>| t@);
    let mut out: Vec<Vec<char>> = Vec::new();
    let mut i: usize = 0;
    proof {
        assert(m.take(0) =~= Seq::<Seq<char>>::empty());
        assert(out@.map_values(|t: Vec<char>| t@).to_multiset()
            =~= m.take(0).to_multiset());
    }
    while i < v.len()
        invariant
            i <= v.len(),
            m == v@.map_values(|t: Vec<char>| t@),
            tokens_sorted(out@.map_values(|t: Vec<char>| t@)),
            out@.map_values(|t: Vec<char>| t@).to_multiset() == m.take(i as int).to_multiset(),
        decreases v.len() - i,
    {
        broadcast use vstd::seq_lib::group_to_multiset_ensures;
        let ghost om = out@.map_values(|t: Vec<char>| t@);
        let x = v[i].clone();
        let mut pos: usize = 0;
        while pos < out.len() && lex_le_tokens(&out[pos], &x)
            invariant
                pos <= out.len(),
                x@ == m[i as int],
                om == out@.map_values(|t: Vec<char>| t@),
                forall|k: int| 0 <= k < pos ==> lex_le(#[trigger] om[k], x@),
            decreases out.len() - pos,
        {
            proof {
                assert(om[pos as int] == out@[pos as int]@);
            }
            pos = pos + 1;
        }
        proof {
            if pos < out.len() {
                assert(!lex_le(om[pos as int], x@));
                lemma_lex_le_total(om[pos as int], x@);
                assert(lex_le(x@, om[pos as int]));
            }
            assert forall|k: int| pos <= k < om.len() implies lex_le(x@, #[trigger] om[k]) by {
                assert(!lex_le(om[pos as int], x@));
                lemma_lex_le_total(om[pos as int], x@);
                if k > pos {
                    assert(lex_le(om[pos as int], om[k]));
                    lemma_lex_le_trans(x@, om[pos as int], om[k]);
                }
            }
        }
        out.insert(pos, x);
        proof {
            let nm = out@.map_values(|t: Vec<char>| t@);
            assert(nm =~= om.insert(pos as int, m[i as int]));
            lemma_insert_to_multiset(om, pos as int, m[i as int]);
            assert(m.take(i + 1 as int).drop_last() =~= m.take(i as int));
            assert(m.take(i + 1 as int) =~= m.take(i as int).push(m[i as int]));
            assert(m.take(i + 1 as int).to_multiset() =~= m.take(i as int).to_multiset().insert(m[i as int]));
            assert forall|a: int, b: int| 0 <= a < b < nm.len()
                implies lex_le(#[trigger] nm[a], #[trigger] nm[b]) by {
                if b < pos {
                    assert(nm[a] == om[a] && nm[b] == om[b]);
                } else if a > pos {
                    assert(nm[a] == om[a - 1] && nm[b] == om[b - 1]);
                } else if a == pos {
                    assert(nm[a] == m[i as int] && nm[b] == om[b - 1]);
                } else if b == pos {
                    assert(nm[a] == om[a] && nm[b] == m[i as int]);
                } else {
                    assert(a < pos && b > pos);
                    assert(nm[a] == om[a] && nm[b] == om[b - 1]);
                    lemma_lex_le_trans(om[a], m[i as int], om[b - 1]);
                }
            }
        }
        i = i + 1;
    }
    proof {
        assert(m.take(i as int) =~= m);
        let leq = |a: Seq<char>, b: Seq<char>| lex_le(a, b);
        lemma_lex_total_ordering();
        m.lemma_sort_by_ensures(leq);
        let fin = out@.map_values(|t: Vec<char>| t@);
        assert(vstd::relations::sorted_by(fin, leq)) by {
            assert forall|a: int, b: int| 0 <= a < b < fin.len()
                implies #[trigger] leq(fin[a], fin[b]) by {
                assert(lex_le(fin[a], fin[b]));
            }
        }
        vstd::seq_lib::lemma_sorted_unique(fin, sorted_form(m), leq);
    }
    out
}

/// The canonical serialized parameter line: tokens sorted
/// lexicographically and joined by single spaces.
pub open spec fn spec_render_line(s: Seq<Seq<char>>) -> Seq<char> {
    crate::strutil::join_with(sorted_form(s), ' ')
}

/// Serializes tokens as the sorted, space-joined parameter line.
pub fn render_line(tokens: &Vec<Vec<char>>) -> (r: Vec<char>)
    ensures
        r@ == spec_render_line(tokens@.map_values(|t: Vec<char>| t@)),
{
    let sorted = sort_tokens(tokens);
    crate::strutil::join_chars(&sorted, ' ')
}


/// Pairwise distinct KEYs in a request list.
pub open spec fn distinct_keys(reqs: Seq<Seq<char>>) -> bool {
    forall|i: int, j: int| 0 <= i < j < reqs.len()
        ==> !same_key(#[trigger] reqs[i], #[trigger] reqs[j])
}

/// No element repeats.
pub open spec fn no_dups(s: Seq<Seq<char>>) -> bool {
    forall|i: int, j: int| 0 <= i < j < s.len() ==> #[trigger] s[i] != #[trigger] s[j]
}

/// Dropping a KEY leaves a list untouched when no element carries it.
proof fn lemma_drop_key_all_kept(s: Seq<Seq<char>>, x: Seq<char>)
    requires
        forall|k: int| 0 <= k < s.len() ==> !same_key(#[trigger] s[k], x),
    ensures
        drop_key(s, x) == s,
    decreases s.len(),
{
    if s.len() > 0 {
        assert(forall|k: int| 0 <= k < s.len() - 1 ==> s.drop_last()[k] == s[k]);
        lemma_drop_key_all_kept(s.drop_last(), x);
        assert(drop_key(s, x) =~= s) by {
            assert(s[s.len() - 1] == s.last());
            assert(drop_key(s, x) == s.drop_last().push(s.last()));
            assert(s.drop_last().push(s.last()) =~= s);
        }
    }
}

/// With pairwise distinct KEYs every request is its own winner.
pub proof fn lemma_winners_distinct_keys(reqs: Seq<Seq<char>>)
    requires
        distinct_keys(reqs),
    ensures
        winners(reqs) == reqs,
    decreases reqs.len(),
{
    if reqs.len() > 0 {
        assert(forall|k: int| 0 <= k < reqs.len() - 1 ==> reqs.drop_last()[k] == reqs[k]);
        lemma_winners_distinct_keys(reqs.drop_last());
        assert(forall|k: int| 0 <= k < reqs.len() - 1
            ==> !same_key(#[trigger] reqs.drop_last()[k], reqs.last()));
        lemma_drop_key_all_kept(reqs.drop_last(), reqs.last());
        assert(winners(reqs) == reqs.drop_last().push(reqs.last()));
        assert(reqs.drop_last().push(reqs.last()) =~= reqs);
    }
}

/// `keep_no_key` distributes over concatenation.
proof fn lemma_keep_no_key_concat(a: Seq<Seq<char>>, b: Seq<Seq<char>>, reqs: Seq<Seq<char>>)
    ensures
        keep_no_key(a + b, reqs) == keep_no_key(a, reqs) + keep_no_key(b, reqs),
    decreases b.len(),
{
    if b.len() == 0 {
        assert(a + b =~= a);
        assert(keep_no_key(b, reqs) =~= Seq::<Seq<char>>::empty());
        assert(keep_no_key(a, reqs) + keep_no_key(b, reqs) =~= keep_no_key(a, reqs));
    } else {
        assert((a + b).drop_last() =~= a + b.drop_last());
        assert((a + b).last() == b.last());
        lemma_keep_no_key_concat(a, b.drop_last(), reqs);
        if no_key_in(reqs, b.last()) {
            assert((keep_no_key(a, reqs) + keep_no_key(b.drop_last(), reqs)).push(b.last())
                =~= keep_no_key(a, reqs) + keep_no_key(b.drop_last(), reqs).push(b.last()));
        }
    }
}

/// `keep_no_key` keeps everything when no element clashes.
proof fn lemma_keep_no_key_all_kept(s: Seq<Seq<char>>, reqs: Seq<Seq<char>>)
    requires
        forall|k: int| 0 <= k < s.len() ==> no_key_in(reqs, #[trigger] s[k]),
    ensures
        keep_no_key(s, reqs) == s,
    decreases s.len(),
{
    if s.len() > 0 {
        assert(forall|k: int| 0 <= k < s.len() - 1 ==> s.drop_last()[k] == s[k]);
        lemma_keep_no_key_all_kept(s.drop_last(), reqs);
        assert(s[s.len() - 1] == s.last());
        assert(keep_no_key(s, reqs) == s.drop_last().push(s.last()));
        assert(s.drop_last().push(s.last()) =~= s);
    }
}

/// `keep_no_key` keeps nothing when every element clashes.
proof fn lemma_keep_no_key_none_kept(s: Seq<Seq<char>>, reqs: Seq<Seq<char>>)
    requires
        forall|k: int| 0 <= k < s.len() ==> !no_key_in(reqs, #[trigger] s[k]),
    ensures
        keep_no_key(s, reqs) == Seq::<Seq<char>>::empty(),
    decreases s.len(),
{
    if s.len() > 0 {
        assert(forall|k: int| 0 <= k < s.len() - 1 ==> s.drop_last()[k] == s[k]);
        lemma_keep_no_key_none_kept(s.drop_last(), reqs);
        assert(s[s.len() - 1] == s.last());
    }
}

/// Every element kept by `keep_no_key` is an element of the input with no
/// KEY clash, in particular the output of a deduplicated input repeats
/// nothing.
proof fn lemma_keep_no_key_elems(s: Seq<Seq<char>>, reqs: Seq<Seq<char>>)
    ensures
        forall|k: int| 0 <= k < keep_no_key(s, reqs).len()
            ==> no_key_in(reqs, #[trigger] keep_no_key(s, reqs)[k])
                && s.contains(keep_no_key(s, reqs)[k]),
        no_dups(s) ==> no_dups(keep_no_key(s, reqs)),
    decreases s.len(),
{
    if s.len() > 0 {
        lemma_keep_no_key_elems(s.drop_last(), reqs);
        let kp = keep_no_key(s.drop_last(), reqs);
        assert(forall|k: int| 0 <= k < s.len() - 1 ==> s.drop_last()[k] == s[k]);
        assert forall|k: int| 0 <= k < kp.len() implies s.contains(kp[k]) by {
            assert(s.drop_last().contains(kp[k]));
            let j = choose|j: int| 0 <= j < s.len() - 1 && s.drop_last()[j] == kp[k];
            assert(s[j] == kp[k]);
        }
        if no_key_in(reqs, s.last()) {
            assert(keep_no_key(s, reqs) == kp.push(s.last()));
            assert(s.contains(s.last())) by {
                assert(s[s.len() - 1] == s.last());
            }
            if no_dups(s) {
                assert(no_dups(s.drop_last()));
                assert forall|a: int, b: int| 0 <= a < b < kp.push(s.last()).len()
                    implies #[trigger] kp.push(s.last())[a] != #[trigger] kp.push(s.last())[b] by {
                    if b == kp.len() {
                        assert(kp.push(s.last())[b] == s.last());
                        assert(kp.push(s.last())[a] == kp[a]);
                        assert(s.drop_last().contains(kp[a]));
                        let j = choose|j: int| 0 <= j < s.len() - 1 && s.drop_last()[j] == kp[a];
                        assert(s[j] == kp[a]);
                        assert(s[j] != s[s.len() - 1]);
                    } else {
                        assert(kp.push(s.last())[a] == kp[a]);
                        assert(kp.push(s.last())[b] == kp[b]);
                    }
                }
            }
        } else {
            if no_dups(s) {
                assert(no_dups(s.drop_last()));
            }
        }
    }
}

/// Deduplication of a repetition-free list is the identity.
proof fn lemma_dedup_of_nodup(s: Seq<Seq<char>>)
    requires
        no_dups(s),
    ensures
        dedup_first(s) == s,
    decreases s.len(),
{
    if s.len() > 0 {
        assert(forall|k: int| 0 <= k < s.len() - 1 ==> s.drop_last()[k] == s[k]);
        assert(no_dups(s.drop_last()));
        lemma_dedup_of_nodup(s.drop_last());
        assert(!s.drop_last().contains(s.last())) by {
            if s.drop_last().contains(s.last()) {
                let j = choose|j: int| 0 <= j < s.len() - 1 && s.drop_last()[j] == s.last();
                assert(s[j] == s[s.len() - 1]);
            }
        }
        assert(dedup_first(s) == s.drop_last().push(s.last()));
        assert(s.drop_last().push(s.last()) =~= s);
    }
}

/// The reconciled list after an add has no repeated parameter, and each
/// requested parameter is the one and only carrier of its KEY.
///
/// Law: adding `["iommu=pt"]` while `"iommu=on"` is present leaves exactly
/// one parameter with the KEY `iommu`, and its value is `pt`.
pub proof fn lemma_add_key_unique(cur: Seq<Seq<char>>, reqs: Seq<Seq<char>>)
    requires
        distinct_keys(reqs),
    ensures
        no_dups(spec_add(cur, reqs)),
        forall|i: int| 0 <= i < reqs.len()
            ==> key_match_unique(spec_add(cur, reqs), #[trigger] reqs[i]),
{
    let d = dedup_first(cur);
    let kept = keep_no_key(d, reqs);
    lemma_winners_distinct_keys(reqs);
    let r = spec_add(cur, reqs);
    assert(r == kept + reqs);
    lemma_keep_no_key_elems(d, reqs);
    assert(no_dups(d)) by {
        lemma_dedup_no_dups(cur);
    }
    assert(no_dups(kept));
    assert forall|a: int, b: int| 0 <= a < b < r.len()
        implies #[trigger] r[a] != #[trigger] r[b] by {
        if b < kept.len() {
            assert(r[a] == kept[a] && r[b] == kept[b]);
        } else if a >= kept.len() {
            assert(r[a] == reqs[a - kept.len()] && r[b] == reqs[b - kept.len()]);
            assert(!same_key(reqs[a - kept.len()], reqs[b - kept.len()]));
        } else {
            assert(r[a] == kept[a] && r[b] == reqs[b - kept.len()]);
            assert(no_key_in(reqs, kept[a]));
            assert(!same_key(kept[a], reqs[b - kept.len()]));
        }
    }
    assert forall|i: int| 0 <= i < reqs.len()
        implies key_match_unique(r, #[trigger] reqs[i]) by {
        assert(r[kept.len() + i] == reqs[i]);
        assert(r.contains(reqs[i]));
        assert forall|k: int| 0 <= k < r.len() && same_key(#[trigger] r[k], reqs[i])
            implies r[k] == reqs[i] by {
            if k < kept.len() {
                assert(no_key_in(reqs, kept[k]));
                assert(!same_key(kept[k], reqs[i]));
            } else {
                let j = k - kept.len();
                assert(r[k] == reqs[j]);
                if j != i {
                    assert(!same_key(reqs[j], reqs[i])) by {
                        if j < i {
                            assert(!same_key(reqs[j], reqs[i]));
                        } else {
                            assert(!same_key(reqs[i], reqs[j]));
                        }
                    }
                }
            }
        }
    }
}

/// Deduplication leaves no repetitions.
proof fn lemma_dedup_no_dups(s: Seq<Seq<char>>)
    ensures
        no_dups(dedup_first(s)),
    decreases s.len(),
{
    if s.len() > 0 {
        lemma_dedup_no_dups(s.drop_last());
        let d = dedup_first(s.drop_last());
        if !d.contains(s.last()) {
            assert forall|a: int, b: int| 0 <= a < b < d.push(s.last()).len()
                implies #[trigger] d.push(s.last())[a] != #[trigger] d.push(s.last())[b] by {
                if b == d.len() {
                    assert(d.push(s.last())[a] == d[a]);
                    assert(d.contains(d[a]));
                } else {
                    assert(d.push(s.last())[a] == d[a]);
                    assert(d.push(s.last())[b] == d[b]);
                }
            }
        }
    }
}

/// Law: reconciling the same add request twice changes nothing the second
/// time — the reconciled list, and hence the serialized parameter line,
/// is identical, and the second call reports `changed == false`.
pub proof fn lemma_add_idempotent(cur: Seq<Seq<char>>, reqs: Seq<Seq<char>>)
    requires
        distinct_keys(reqs),
    ensures
        spec_add(spec_add(cur, reqs), reqs) == spec_add(cur, reqs),
        !spec_add_changed(spec_add(cur, reqs), reqs),
        spec_render_line(spec_add(spec_add(cur, reqs), reqs))
            == spec_render_line(spec_add(cur, reqs)),
{
    let d = dedup_first(cur);
    let kept = keep_no_key(d, reqs);
    lemma_winners_distinct_keys(reqs);
    let r1 = spec_add(cur, reqs);
    assert(r1 == kept + reqs);
    lemma_add_key_unique(cur, reqs);
    lemma_dedup_of_nodup(r1);
    // the second reconciliation keeps the survivors and re-appends the
    // requests
    lemma_keep_no_key_concat(kept, reqs, reqs);
    lemma_keep_no_key_elems(d, reqs);
    lemma_keep_no_key_all_kept(kept, reqs);
    assert forall|k: int| 0 <= k < reqs.len() implies !no_key_in(reqs, #[trigger] reqs[k]) by {
        assert(same_key(reqs[k], reqs[k]));
    }
    lemma_keep_no_key_none_kept(reqs, reqs);
    assert(keep_no_key(r1, reqs) =~= kept);
    assert(spec_add(r1, reqs) == kept + reqs);
    // the second call reports no change
    assert forall|i: int| 0 <= i < reqs.len()
        implies key_match_unique(dedup_first(r1), #[trigger] reqs[i]) by {
        assert(key_match_unique(r1, reqs[i]));
    }
}


/// Sequences with equal multisets hold the same elements.
proof fn lemma_multiset_contains(x: Seq<Seq<char>>, y: Seq<Seq<char>>, t: Seq<char>)
    requires
        x.to_multiset() == y.to_multiset(),
        x.contains(t),
    ensures
        y.contains(t),
{
    broadcast use vstd::seq_lib::group_to_multiset_ensures;

    assert(x.to_multiset().count(t) > 0);
    assert(y.to_multiset().count(t) > 0);
}

/// The sorted arrangement holds the same elements.
proof fn lemma_sorted_form_contains(s: Seq<Seq<char>>, t: Seq<char>)
    requires
        s.contains(t) || sorted_form(s).contains(t),
    ensures
        s.contains(t) && sorted_form(s).contains(t),
{
    let leq = |a: Seq<char>, b: Seq<char>| lex_le(a, b);
    lemma_lex_total_ordering();
    s.lemma_sort_by_ensures(leq);
    if s.contains(t) {
        lemma_multiset_contains(s, sorted_form(s), t);
    } else {
        lemma_multiset_contains(sorted_form(s), s, t);
    }
}

/// Multiset-equal repetition-free sequences stay repetition-free.
proof fn lemma_no_dups_multiset(x: Seq<Seq<char>>, y: Seq<Seq<char>>)
    requires
        x.to_multiset() == y.to_multiset(),
        no_dups(x),
    ensures
        no_dups(y),
{
    broadcast use vstd::seq_lib::group_to_multiset_ensures;

    assert(forall|i: int, j: int| 0 <= i < j < x.len() ==> #[trigger] x[i] != #[trigger] x[j]);
    x.lemma_multiset_has_no_duplicates();
    assert forall|i: int, j: int| 0 <= i < j < y.len() implies #[trigger] y[i]
        != #[trigger] y[j] by {
        if y[i] == y[j] {
            y.lemma_multiset_has_no_duplicates_conv();
        }
    }
}

/// Every reconciled parameter is a current parameter or a request.
proof fn lemma_spec_add_elems(cur: Seq<Seq<char>>, reqs: Seq<Seq<char>>)
    requires
        distinct_keys(reqs),
    ensures
        forall|k: int| 0 <= k < spec_add(cur, reqs).len() ==> cur.contains(
            #[trigger] spec_add(cur, reqs)[k],
        ) || reqs.contains(spec_add(cur, reqs)[k]),
{
    lemma_winners_distinct_keys(reqs);
    let d = dedup_first(cur);
    let kept = keep_no_key(d, reqs);
    lemma_keep_no_key_elems(d, reqs);
    assert forall|k: int| 0 <= k < spec_add(cur, reqs).len() implies cur.contains(
        #[trigger] spec_add(cur, reqs)[k],
    ) || reqs.contains(spec_add(cur, reqs)[k]) by {
        let r = spec_add(cur, reqs);
        if k < kept.len() {
            assert(r[k] == kept[k]);
            assert(d.contains(kept[k]));
            lemma_dedup_first_contains(cur, kept[k]);
        } else {
            assert(r[k] == reqs[k - kept.len()]);
            assert(reqs.contains(r[k]));
        }
    }
}

/// Law: reconciling an add against a persisted parameter line and
/// reading the written line back detects no further change, so the file
/// is never rewritten a second time.
///
/// `payload` is whatever the configuration file held; the requests must
/// be well-formed tokens with pairwise distinct KEYs.
pub proof fn lemma_add_idempotent_on_file(payload: Seq<char>, reqs: Seq<Seq<char>>)
    requires
        distinct_keys(reqs),
        forall|i: int| 0 <= i < reqs.len() ==> is_token(#[trigger] reqs[i]),
    ensures
        ({
            let written = spec_render_line(spec_add(split_ws(payload), reqs));
            !spec_add_changed(split_ws(written), reqs)
        }),
{
    let cur = split_ws(payload);
    crate::strutil::lemma_split_ws_tokens(payload, Seq::empty());
    let r1 = spec_add(cur, reqs);
    lemma_add_key_unique(cur, reqs);
    lemma_spec_add_elems(cur, reqs);
    // every reconciled parameter is a well-formed token
    assert forall|k: int| 0 <= k < r1.len() implies is_token(#[trigger] r1[k]) by {
        if cur.contains(r1[k]) {
            let j = choose|j: int| 0 <= j < cur.len() && cur[j] == r1[k];
            assert(is_token(cur[j]));
        } else {
            let j = choose|j: int| 0 <= j < reqs.len() && reqs[j] == r1[k];
            assert(is_token(reqs[j]));
        }
    }
    // the written line parses back to the sorted arrangement
    let s2 = sorted_form(r1);
    assert forall|k: int| 0 <= k < s2.len() implies is_token(#[trigger] s2[k]) by {
        assert(s2.contains(s2[k]));
        lemma_sorted_form_contains(r1, s2[k]);
        let j = choose|j: int| 0 <= j < r1.len() && r1[j] == s2[k];
        assert(is_token(r1[j]));
    }
    lemma_split_join_tokens(s2);
    assert(split_ws(spec_render_line(r1)) == s2);
    // the sorted arrangement still carries each request as the unique
    // holder of its KEY
    let leq = |a: Seq<char>, b: Seq<char>| lex_le(a, b);
    lemma_lex_total_ordering();
    r1.lemma_sort_by_ensures(leq);
    lemma_no_dups_multiset(r1, s2);
    lemma_dedup_of_nodup(s2);
    assert forall|i: int| 0 <= i < reqs.len() implies key_match_unique(
        dedup_first(s2),
        #[trigger] reqs[i],
    ) by {
        assert(key_match_unique(r1, reqs[i]));
        lemma_sorted_form_contains(r1, reqs[i]);
        assert(s2.contains(reqs[i]));
        assert forall|k: int| 0 <= k < s2.len() && same_key(#[trigger] s2[k], reqs[i])
            implies s2[k] == reqs[i] by {
            assert(s2.contains(s2[k]));
            lemma_sorted_form_contains(r1, s2[k]);
            let j = choose|j: int| 0 <= j < r1.len() && r1[j] == s2[k];
            assert(same_key(r1[j], reqs[i]));
        }
    }
}

} // verus!