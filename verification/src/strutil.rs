//! Character-level string utilities: conversions between `String` and
//! `Vec<char>`, whitespace tokenization, line splitting, searching,
//! numeric parsing and lexicographic sorting.
//!
//! All logic works on `Vec<char>` / `Seq<char>`; the `String` form appears
//! only at the boundaries.

use vstd::prelude::*;
use vstd::string::*;

verus! {

/// Relies on `String::push`: appends exactly the given character.
#[verifier::external_body]
pub(crate) fn push_char(s: &mut String, c: char)
    ensures
        final(s)@ == old(s)@.push(c),
{
    s.push(c)
}

/// The characters of a `&str`, in order, as a vector.
pub fn chars_vec(s: &str) -> (r: Vec<char>)
    ensures
        r@ == s@,
{
    let n = s.unicode_len();
    let mut v: Vec<char> = Vec::new();
    let mut i: usize = 0;
    while i < n
        invariant
            i <= n,
            n == s@.len(),
            v@ == s@.take(i as int),
        decreases n - i,
    {
        v.push(s.get_char(i));
        proof {
            assert(v@ =~= s@.take(i + 1 as int));
        }
        i = i + 1;
    }
    proof {
        assert(v@ =~= s@);
    }
    v
}

/// The characters of a vector, in order, as a `String`.
pub fn chars_to_string(v: &Vec<char>) -> (r: String)
    ensures
        r@ == v@,
{
    let mut s = String::new();
    let mut i: usize = 0;
    while i < v.len()
        invariant
            i <= v.len(),
            s@ == v@.take(i as int),
        decreases v.len() - i,
    {
        push_char(&mut s, v[i]);
        proof {
            assert(s@ =~= v@.take(i + 1 as int));
        }
        i = i + 1;
    }
    proof {
        assert(s@ =~= v@);
    }
    s
}

/// Whitespace for the purposes of kernel-parameter tokenization.
pub open spec fn is_space(c: char) -> bool {
    c == ' ' || c == '\t' || c == '\n' || c == '\r'
}

pub fn space_char(c: char) -> (r: bool)
    ensures
        r == is_space(c),
{
    c == ' ' || c == '\t' || c == '\n' || c == '\r'
}

/// Close the current token: a pending empty token contributes nothing.
pub open spec fn close_tok(cur: Seq<char>) -> Seq<Seq<char>> {
    if cur.len() == 0 {
        Seq::empty()
    } else {
        seq![cur]
    }
}

/// Whitespace-separated tokens of `s`, given a partial token `cur`
/// already read.
pub open spec fn split_ws_acc(s: Seq<char>, cur: Seq<char>) -> Seq<Seq<char>>
    decreases s.len(),
{
    if s.len() == 0 {
        close_tok(cur)
    } else if is_space(s[0]) {
        close_tok(cur) + split_ws_acc(s.drop_first(), Seq::empty())
    } else {
        split_ws_acc(s.drop_first(), cur.push(s[0]))
    }
}

/// The whitespace-separated tokens of `s`: maximal runs of non-space
/// characters, in order.
pub open spec fn split_ws(s: Seq<char>) -> Seq<Seq<char>> {
    split_ws_acc(s, Seq::empty())
}

/// Tokens of `v`, as vectors of characters.
pub fn split_whitespace_chars(v: &Vec<char>) -> (r: Vec<Vec<char>>)
    ensures
        r@.map_values(|t: Vec<char>| t@) == split_ws(v@),
{
    let mut out: Vec<Vec<char>> = Vec::new();
    let mut cur: Vec<char> = Vec::new();
    let mut i: usize = 0;
    proof {
        assert(v@.skip(0) =~= v@);
        assert(out@.map_values(|t: Vec<char>| t@) =~= Seq::<Seq<char>>::empty());
        assert(Seq::<Seq<char>>::empty() + split_ws_acc(v@, cur@) =~= split_ws_acc(v@, cur@));
    }
    while i < v.len()
        invariant
            i <= v.len(),
            out@.map_values(|t: Vec<char>| t@) + split_ws_acc(v@.skip(i as int), cur@)
                =~= split_ws(v@),
        decreases v.len() - i,
    {
        let ghost pre = v@.skip(i as int);
        let ghost om = out@.map_values(|t: Vec<char>| t@);
        let ghost oc = cur@;
        proof {
            assert(pre.drop_first() =~= v@.skip(i + 1 as int));
            assert(pre[0] == v@[i as int]);
        }
        let c = v[i];
        if space_char(c) {
            let ghost rest = split_ws_acc(v@.skip(i + 1 as int), Seq::empty());
            proof {
                assert(split_ws_acc(pre, oc) == close_tok(oc) + rest);
                assert(om + (close_tok(oc) + rest) =~= (om + close_tok(oc)) + rest);
            }
            if cur.len() > 0 {
                out.push(cur);
                cur = Vec::new();
                proof {
                    assert(out@.map_values(|t: Vec<char>| t@) =~= om.push(oc));
                    assert(om.push(oc) =~= om + close_tok(oc));
                    assert(out@.map_values(|t: Vec<char>| t@)
                        + split_ws_acc(v@.skip(i + 1 as int), cur@) =~= split_ws(v@));
                }
            } else {
                proof {
                    assert(oc =~= Seq::<char>::empty());
                    assert(om + close_tok(oc) =~= om);
                    assert(out@.map_values(|t: Vec<char>| t@)
                        + split_ws_acc(v@.skip(i + 1 as int), cur@) =~= split_ws(v@));
                }
            }
        } else {
            cur.push(c);
            proof {
                assert(split_ws_acc(pre, oc) == split_ws_acc(v@.skip(i + 1 as int), oc.push(c)));
                assert(out@.map_values(|t: Vec<char>| t@)
                    + split_ws_acc(v@.skip(i + 1 as int), cur@) =~= split_ws(v@));
            }
        }
        i = i + 1;
    }
    proof {
        assert(v@.skip(i as int) =~= Seq::<char>::empty());
    }
    let ghost om = out@.map_values(|t: Vec<char>| t@);
    let ghost oc = cur@;
    if cur.len() > 0 {
        out.push(cur);
        proof {
            assert(out@.map_values(|t: Vec<char>| t@) =~= om.push(oc));
            assert(om.push(oc) =~= om + close_tok(oc));
        }
    } else {
        proof {
            assert(om + close_tok(oc) =~= om);
        }
    }
    out
}

/// The tokens joined by a single separator character.
pub open spec fn join_with(v: Seq<Seq<char>>, sep: char) -> Seq<char>
    decreases v.len(),
{
    if v.len() == 0 {
        Seq::empty()
    } else if v.len() == 1 {
        v[0]
    } else {
        v[0] + seq![sep] + join_with(v.drop_first(), sep)
    }
}

/// Appending one token extends the join by one separator and the token.
pub proof fn lemma_join_push(v: Seq<Seq<char>>, x: Seq<char>, sep: char)
    ensures
        join_with(v.push(x), sep) == if v.len() == 0 {
            x
        } else {
            join_with(v, sep) + seq![sep] + x
        },
    decreases v.len(),
{
    if v.len() == 0 {
        assert(v.push(x)[0] == x);
    } else {
        assert(v.push(x).drop_first() =~= v.drop_first().push(x));
        assert(v.push(x)[0] == v[0]);
        lemma_join_push(v.drop_first(), x, sep);
        if v.len() == 1 {
            assert(join_with(v.push(x), sep)
                == v[0] + seq![sep] + join_with(v.drop_first().push(x), sep));
        } else {
            assert(v[0] + seq![sep] + (join_with(v.drop_first(), sep) + seq![sep] + x)
                =~= (v[0] + seq![sep] + join_with(v.drop_first(), sep)) + seq![sep] + x);
        }
    }
}

/// Joins token vectors with one separator character between them.
pub fn join_chars(v: &Vec<Vec<char>>, sep: char) -> (r: Vec<char>)
    ensures
        r@ == join_with(v@.map_values(|t: Vec<char>| t@), sep),
{
    let ghost m = v@.map_values(|t: Vec<char>| t@);
    let mut out: Vec<char> = Vec::new();
    let mut i: usize = 0;
    while i < v.len()
        invariant
            i <= v.len(),
            m == v@.map_values(|t: Vec<char>| t@),
            out@ == join_with(m.take(i as int), sep),
        decreases v.len() - i,
    {
        proof {
            assert(m.take(i as int).push(m[i as int]) =~= m.take(i + 1 as int));
            lemma_join_push(m.take(i as int), m[i as int], sep);
        }
        if i > 0 {
            out.push(sep);
        }
        let ghost base = out@;
        let mut j: usize = 0;
        let ti = &v[i];
        proof {
            assert(ti@ == m[i as int]);
        }
        while j < ti.len()
            invariant
                j <= ti.len(),
                ti@ == m[i as int],
                out@ == base + ti@.take(j as int),
            decreases ti.len() - j,
        {
            out.push(ti[j]);
            proof {
                assert(base + ti@.take(j + 1 as int) =~= (base + ti@.take(j as int)).push(ti@[j as int]));
            }
            j = j + 1;
        }
        proof {
            assert(ti@.take(ti@.len() as int) =~= ti@);
            if i > 0 {
                assert(out@ =~= join_with(m.take(i as int), sep) + seq![sep] + m[i as int]);
            } else {
                assert(out@ =~= m[i as int]);
                assert(m.take(0) =~= Seq::<Seq<char>>::empty());
            }
        }
        i = i + 1;
    }
    proof {
        assert(m.take(v@.len() as int) =~= m);
    }
    out
}


/// The lines of `s` split at `\n`, keeping empty lines, given a partial
/// line `cur` already read.
pub open spec fn split_nl_acc(s: Seq<char>, cur: Seq<char>) -> Seq<Seq<char>>
    decreases s.len(),
{
    if s.len() == 0 {
        seq![cur]
    } else if s[0] == '\n' {
        seq![cur] + split_nl_acc(s.drop_first(), Seq::empty())
    } else {
        split_nl_acc(s.drop_first(), cur.push(s[0]))
    }
}

/// The lines of `s`: maximal runs between `\n` separators, empty runs
/// included, so joining them with `\n` restores `s` exactly.
pub open spec fn split_nl(s: Seq<char>) -> Seq<Seq<char>> {
    split_nl_acc(s, Seq::empty())
}

pub proof fn lemma_split_nl_acc_len(s: Seq<char>, cur: Seq<char>)
    ensures
        split_nl_acc(s, cur).len() >= 1,
    decreases s.len(),
{
    if s.len() > 0 && s[0] == '\n' {
        lemma_split_nl_acc_len(s.drop_first(), Seq::empty());
    } else if s.len() > 0 {
        lemma_split_nl_acc_len(s.drop_first(), cur.push(s[0]));
    }
}

/// Joining a head element onto a nonempty tail.
pub proof fn lemma_join_head(x: Seq<char>, rest: Seq<Seq<char>>, sep: char)
    requires
        rest.len() >= 1,
    ensures
        join_with(seq![x] + rest, sep) == x + seq![sep] + join_with(rest, sep),
{
    let v = seq![x] + rest;
    assert(v.len() >= 2);
    assert(v[0] == x);
    assert(v.drop_first() =~= rest);
}

/// Splitting at newlines and rejoining restores the text byte for byte.
pub proof fn lemma_split_nl_join(s: Seq<char>, cur: Seq<char>)
    ensures
        join_with(split_nl_acc(s, cur), '\n') == cur + s,
    decreases s.len(),
{
    if s.len() == 0 {
        assert(join_with(seq![cur], '\n') == cur);
        assert(cur + s =~= cur);
    } else if s[0] == '\n' {
        let rest = split_nl_acc(s.drop_first(), Seq::empty());
        lemma_split_nl_acc_len(s.drop_first(), Seq::empty());
        lemma_join_head(cur, rest, '\n');
        lemma_split_nl_join(s.drop_first(), Seq::empty());
        assert(Seq::<char>::empty() + s.drop_first() =~= s.drop_first());
        assert(cur + seq!['\n'] + s.drop_first() =~= cur + s) by {
            assert(s =~= seq![s[0]] + s.drop_first());
        }
    } else {
        lemma_split_nl_join(s.drop_first(), cur.push(s[0]));
        assert(cur.push(s[0]) + s.drop_first() =~= cur + s) by {
            assert(s =~= seq![s[0]] + s.drop_first());
        }
    }
}

/// The lines of `v`, split at `\n` and keeping empty lines.
pub fn split_lines_chars(v: &Vec<char>) -> (r: Vec<Vec<char>>)
    ensures
        r@.map_values(|t: Vec<char>| t@) == split_nl(v@),
{
    let mut out: Vec<Vec<char>> = Vec::new();
    let mut cur: Vec<char> = Vec::new();
    let mut i: usize = 0;
    proof {
        assert(v@.skip(0) =~= v@);
        assert(out@.map_values(|t: Vec<char>| t@) =~= Seq::<Seq<char>>::empty());
        assert(Seq::<Seq<char>>::empty() + split_nl_acc(v@, cur@) =~= split_nl_acc(v@, cur@));
    }
    while i < v.len()
        invariant
            i <= v.len(),
            out@.map_values(|t: Vec<char>| t@) + split_nl_acc(v@.skip(i as int), cur@)
                =~= split_nl(v@),
        decreases v.len() - i,
    {
        let ghost pre = v@.skip(i as int);
        let ghost om = out@.map_values(|t: Vec<char>| t@);
        let ghost oc = cur@;
        proof {
            assert(pre.drop_first() =~= v@.skip(i + 1 as int));
            assert(pre[0] == v@[i as int]);
        }
        let c = v[i];
        if c == '\n' {
            let ghost rest = split_nl_acc(v@.skip(i + 1 as int), Seq::empty());
            proof {
                assert(split_nl_acc(pre, oc) == seq![oc] + rest);
                assert(om + (seq![oc] + rest) =~= (om + seq![oc]) + rest);
            }
            out.push(cur);
            cur = Vec::new();
            proof {
                assert(out@.map_values(|t: Vec<char>| t@) =~= om.push(oc));
                assert(om.push(oc) =~= om + seq![oc]);
            }
        } else {
            cur.push(c);
            proof {
                assert(split_nl_acc(pre, oc) == split_nl_acc(v@.skip(i + 1 as int), oc.push(c)));
            }
        }
        i = i + 1;
    }
    proof {
        assert(v@.skip(i as int) =~= Seq::<char>::empty());
    }
    let ghost om = out@.map_values(|t: Vec<char>| t@);
    let ghost oc = cur@;
    out.push(cur);
    proof {
        assert(out@.map_values(|t: Vec<char>| t@) =~= om.push(oc));
        assert(om.push(oc) =~= om + seq![oc]);
        assert(split_nl_acc(Seq::<char>::empty(), oc) == seq![oc]);
    }
    out
}


/// The strings' characters, string by string.
pub fn strings_to_tokens(v: &Vec<String>) -> (r: Vec<Vec<char>>)
    ensures
        r@.map_values(|t: Vec<char>| t@) == v@.map_values(|s: String| s@),
{
    let mut out: Vec<Vec<char>> = Vec::new();
    let mut i: usize = 0;
    while i < v.len()
        invariant
            i <= v.len(),
            out@.map_values(|t: Vec<char>| t@)
                == v@.map_values(|s: String| s@).take(i as int),
        decreases v.len() - i,
    {
        let ghost om = out@.map_values(|t: Vec<char>| t@);
        out.push(chars_vec(v[i].as_str()));
        proof {
            assert(out@.map_values(|t: Vec<char>| t@)
                =~= om.push(v@.map_values(|s: String| s@)[i as int]));
            assert(om.push(v@.map_values(|s: String| s@)[i as int])
                =~= v@.map_values(|s: String| s@).take(i + 1 as int));
        }
        i = i + 1;
    }
    proof {
        let m = v@.map_values(|s: String| s@);
        assert(m.take(m.len() as int) =~= m);
    }
    out
}

/// The tokens as strings, token by token.
pub fn tokens_to_strings(v: &Vec<Vec<char>>) -> (r: Vec<String>)
    ensures
        r@.map_values(|s: String| s@) == v@.map_values(|t: Vec<char>| t@),
{
    let mut out: Vec<String> = Vec::new();
    let mut i: usize = 0;
    while i < v.len()
        invariant
            i <= v.len(),
            out@.map_values(|s: String| s@)
                == v@.map_values(|t: Vec<char>| t@).take(i as int),
        decreases v.len() - i,
    {
        let ghost om = out@.map_values(|s: String| s@);
        out.push(chars_to_string(&v[i]));
        proof {
            assert(out@.map_values(|s: String| s@)
                =~= om.push(v@.map_values(|t: Vec<char>| t@)[i as int]));
            assert(om.push(v@.map_values(|t: Vec<char>| t@)[i as int])
                =~= v@.map_values(|t: Vec<char>| t@).take(i + 1 as int));
        }
        i = i + 1;
    }
    proof {
        let m = v@.map_values(|t: Vec<char>| t@);
        assert(m.take(m.len() as int) =~= m);
    }
    out
}


/// Appends a piece to a character buffer.
pub fn append_chars(out: &mut Vec<char>, piece: &Vec<char>)
    ensures
        final(out)@ == old(out)@ + piece@,
{
    let ghost g = out@;
    let mut i: usize = 0;
    while i < piece.len()
        invariant
            i <= piece.len(),
            out@ == g + piece@.take(i as int),
        decreases piece.len() - i,
    {
        out.push(piece[i]);
        proof {
            assert(out@ =~= g + piece@.take(i + 1 as int));
        }
        i = i + 1;
    }
    proof {
        assert(piece@.take(piece@.len() as int) =~= piece@);
    }
}

/// Appends a string literal's characters to a character buffer.
pub fn append_str(out: &mut Vec<char>, s: &str)
    ensures
        final(out)@ == old(out)@ + s@,
{
    let piece = chars_vec(s);
    append_chars(out, &piece);
}

/// The literal `lit` occurs in `s` at position `i`.
pub open spec fn match_at(s: Seq<char>, i: int, lit: Seq<char>) -> bool {
    0 <= i && i + lit.len() <= s.len() && s.subrange(i, i + lit.len()) == lit
}

pub fn match_at_x(v: &Vec<char>, i: usize, lit: &Vec<char>) -> (r: bool)
    requires
        i <= v.len(),
    ensures
        r == match_at(v@, i as int, lit@),
{
    if v.len() - i < lit.len() {
        proof {
            assert(!match_at(v@, i as int, lit@));
        }
        return false;
    }
    let mut k: usize = 0;
    while k < lit.len()
        invariant
            k <= lit.len(),
            i + lit.len() <= v.len(),
            forall|j: int| 0 <= j < k ==> v@[i + j] == lit@[j],
        decreases lit.len() - k,
    {
        if v[i + k] != lit[k] {
            proof {
                assert(v@.subrange(i as int, i + lit@.len())[k as int] == v@[i + k]);
            }
            return false;
        }
        k = k + 1;
    }
    proof {
        assert(v@.subrange(i as int, i + lit@.len()) =~= lit@);
    }
    true
}



/// The pieces of `s` split at `sep`, keeping empty pieces, given a
/// partial piece `cur` already read.
pub open spec fn split_ch_acc(s: Seq<char>, cur: Seq<char>, sep: char) -> Seq<Seq<char>>
    decreases s.len(),
{
    if s.len() == 0 {
        seq![cur]
    } else if s[0] == sep {
        seq![cur] + split_ch_acc(s.drop_first(), Seq::empty(), sep)
    } else {
        split_ch_acc(s.drop_first(), cur.push(s[0]), sep)
    }
}

/// The pieces of `s` split at `sep`, keeping empty pieces.
pub open spec fn split_ch(s: Seq<char>, sep: char) -> Seq<Seq<char>> {
    split_ch_acc(s, Seq::empty(), sep)
}

pub proof fn lemma_split_ch_len(s: Seq<char>, cur: Seq<char>, sep: char)
    ensures
        split_ch_acc(s, cur, sep).len() >= 1,
    decreases s.len(),
{
    if s.len() > 0 {
        if s[0] == sep {
            lemma_split_ch_len(s.drop_first(), Seq::empty(), sep);
        } else {
            lemma_split_ch_len(s.drop_first(), cur.push(s[0]), sep);
        }
    }
}

/// Splits at a separator character, keeping empty pieces.
pub fn split_char_chars(v: &Vec<char>, sep: char) -> (r: Vec<Vec<char>>)
    ensures
        r@.map_values(|t: Vec<char>| t@) == split_ch(v@, sep),
        r@.len() >= 1,
{
    let mut out: Vec<Vec<char>> = Vec::new();
    let mut cur: Vec<char> = Vec::new();
    let mut i: usize = 0;
    proof {
        assert(v@.skip(0) =~= v@);
        assert(out@.map_values(|t: Vec<char>| t@) =~= Seq::<Seq<char>>::empty());
        assert(Seq::<Seq<char>>::empty() + split_ch_acc(v@, cur@, sep)
            =~= split_ch_acc(v@, cur@, sep));
    }
    while i < v.len()
        invariant
            i <= v.len(),
            out@.map_values(|t: Vec<char>| t@) + split_ch_acc(v@.skip(i as int), cur@, sep)
                =~= split_ch(v@, sep),
        decreases v.len() - i,
    {
        let ghost pre = v@.skip(i as int);
        let ghost om = out@.map_values(|t: Vec<char>| t@);
        let ghost oc = cur@;
        proof {
            assert(pre.drop_first() =~= v@.skip(i + 1 as int));
            assert(pre[0] == v@[i as int]);
        }
        let c = v[i];
        if c == sep {
            let ghost rest = split_ch_acc(v@.skip(i + 1 as int), Seq::empty(), sep);
            proof {
                assert(split_ch_acc(pre, oc, sep) == seq![oc] + rest);
                assert(om + (seq![oc] + rest) =~= (om + seq![oc]) + rest);
            }
            out.push(cur);
            cur = Vec::new();
            proof {
                assert(out@.map_values(|t: Vec<char>| t@) =~= om.push(oc));
                assert(om.push(oc) =~= om + seq![oc]);
            }
        } else {
            cur.push(c);
            proof {
                assert(split_ch_acc(pre, oc, sep) == split_ch_acc(
                    v@.skip(i + 1 as int),
                    oc.push(c),
                    sep,
                ));
            }
        }
        i = i + 1;
    }
    proof {
        assert(v@.skip(i as int) =~= Seq::<char>::empty());
    }
    let ghost om = out@.map_values(|t: Vec<char>| t@);
    let ghost oc = cur@;
    out.push(cur);
    proof {
        assert(out@.map_values(|t: Vec<char>| t@) =~= om.push(oc));
        assert(om.push(oc) =~= om + seq![oc]);
        assert(split_ch_acc(Seq::<char>::empty(), oc, sep) == seq![oc]);
    }
    out
}

/// `sub` occurs somewhere in `s`.
pub open spec fn has_sub(s: Seq<char>, sub: Seq<char>) -> bool {
    exists|k: int| 0 <= k && k + sub.len() <= s.len() && match_at(s, k, sub)
}

/// Whether `sub` occurs in `v`.
pub fn contains_sub(v: &Vec<char>, sub: &Vec<char>) -> (r: bool)
    ensures
        r == has_sub(v@, sub@),
{
    if sub.len() > v.len() {
        proof {
            assert(!has_sub(v@, sub@));
        }
        return false;
    }
    if sub.len() == 0 {
        proof {
            assert(v@.subrange(0, 0) =~= sub@);
            assert(match_at(v@, 0, sub@));
        }
        return true;
    }
    let mut k: usize = 0;
    while k <= v.len() - sub.len()
        invariant
            1 <= sub@.len() <= v@.len(),
            k <= v@.len() - sub@.len() + 1,
            forall|j: int| 0 <= j < k ==> !match_at(v@, j, sub@),
        decreases v.len() - sub.len() + 1 - k,
    {
        if match_at_x(v, k, sub) {
            proof {
                assert(match_at(v@, k as int, sub@));
            }
            return true;
        }
        k = k + 1;
    }
    proof {
        assert forall|j: int| 0 <= j && j + sub@.len() <= v@.len()
            implies !match_at(v@, j, sub@) by {
            assert(j < k);
        }
    }
    false
}

/// Index of the first non-space character.
pub open spec fn lead_sp(s: Seq<char>, i: int) -> int
    decreases s.len() - i,
{
    if 0 <= i < s.len() && is_space(s[i]) {
        lead_sp(s, i + 1)
    } else {
        i
    }
}

/// One past the last non-space character at or before `j`.
pub open spec fn trail_sp(s: Seq<char>, j: int) -> int
    decreases j,
{
    if 0 < j <= s.len() && is_space(s[j - 1]) {
        trail_sp(s, j - 1)
    } else {
        j
    }
}

/// `s` with leading and trailing whitespace removed.
pub open spec fn spec_trim(s: Seq<char>) -> Seq<char> {
    let a = lead_sp(s, 0);
    let b = trail_sp(s, s.len() as int);
    if a <= b {
        s.subrange(a, b)
    } else {
        Seq::empty()
    }
}

pub proof fn lemma_lead_sp(s: Seq<char>, i: int)
    requires
        0 <= i <= s.len(),
    ensures
        i <= lead_sp(s, i) <= s.len(),
    decreases s.len() - i,
{
    if i < s.len() && is_space(s[i]) {
        lemma_lead_sp(s, i + 1);
    }
}

pub proof fn lemma_trail_sp(s: Seq<char>, j: int)
    requires
        0 <= j <= s.len(),
    ensures
        0 <= trail_sp(s, j) <= j,
    decreases j,
{
    if 0 < j && is_space(s[j - 1]) {
        lemma_trail_sp(s, j - 1);
    }
}

fn lead_sp_x(v: &Vec<char>, i: usize) -> (r: usize)
    requires
        i <= v.len(),
    ensures
        r as int == lead_sp(v@, i as int),
        i <= r <= v.len(),
    decreases v.len() - i,
{
    if i < v.len() && space_char(v[i]) {
        lead_sp_x(v, i + 1)
    } else {
        i
    }
}

fn trail_sp_x(v: &Vec<char>, j: usize) -> (r: usize)
    requires
        j <= v.len(),
    ensures
        r as int == trail_sp(v@, j as int),
        r <= j,
    decreases j,
{
    if 0 < j && space_char(v[j - 1]) {
        trail_sp_x(v, j - 1)
    } else {
        j
    }
}

/// Removes leading and trailing whitespace.
pub fn trim_chars(v: &Vec<char>) -> (r: Vec<char>)
    ensures
        r@ == spec_trim(v@),
{
    let a = lead_sp_x(v, 0);
    let b = trail_sp_x(v, v.len());
    if a >= b {
        proof {
            assert(spec_trim(v@) == if lead_sp(v@, 0) <= trail_sp(v@, v@.len() as int) {
                v@.subrange(lead_sp(v@, 0), trail_sp(v@, v@.len() as int))
            } else {
                Seq::<char>::empty()
            });
            if lead_sp(v@, 0) <= trail_sp(v@, v@.len() as int) {
                assert(v@.subrange(a as int, b as int) =~= Seq::<char>::empty());
            }
        }
        return Vec::new();
    }
    let mut out: Vec<char> = Vec::new();
    let mut i: usize = a;
    while i < b
        invariant
            a <= i <= b <= v@.len(),
            out@ == v@.subrange(a as int, i as int),
        decreases b - i,
    {
        out.push(v[i]);
        proof {
            assert(out@ =~= v@.subrange(a as int, i + 1 as int));
        }
        i = i + 1;
    }
    out
}

/// ASCII lowercase of one character.
pub open spec fn lower_ch(c: char) -> char {
    if 'A' <= c <= 'Z' {
        ((c as u8) + 32) as char
    } else {
        c
    }
}

/// ASCII lowercase, character by character.
pub open spec fn lower(s: Seq<char>) -> Seq<char>
    decreases s.len(),
{
    if s.len() == 0 {
        s
    } else {
        lower(s.drop_last()).push(lower_ch(s.last()))
    }
}

/// Lowercases the ASCII letters of a text.
pub fn lower_chars(v: &Vec<char>) -> (r: Vec<char>)
    ensures
        r@ == lower(v@),
{
    let mut out: Vec<char> = Vec::new();
    let mut i: usize = 0;
    proof {
        assert(v@.take(0) =~= Seq::<char>::empty());
        assert(out@ =~= lower(v@.take(0)));
    }
    while i < v.len()
        invariant
            i <= v.len(),
            out@ == lower(v@.take(i as int)),
        decreases v.len() - i,
    {
        proof {
            assert(v@.take(i + 1 as int).drop_last() =~= v@.take(i as int));
            assert(v@.take(i + 1 as int).last() == v@[i as int]);
        }
        let c = v[i];
        if 'A' <= c && c <= 'Z' {
            out.push(((c as u8) + 32) as char);
        } else {
            out.push(c);
        }
        i = i + 1;
    }
    proof {
        assert(v@.take(v@.len() as int) =~= v@);
    }
    out
}

/// `s` with every leading repetition of `p` removed.
pub open spec fn strip_pref_rep(s: Seq<char>, p: Seq<char>) -> Seq<char>
    decreases s.len(),
{
    if p.len() > 0 && match_at(s, 0, p) {
        strip_pref_rep(s.skip(p.len() as int), p)
    } else {
        s
    }
}

/// Removes every leading repetition of `p`.
pub fn strip_prefix_rep(v: &Vec<char>, p: &Vec<char>) -> (r: Vec<char>)
    ensures
        r@ == strip_pref_rep(v@, p@),
    decreases v.len(),
{
    if p.len() > 0 && match_at_x(v, 0, p) {
        let mut rest: Vec<char> = Vec::new();
        let mut i: usize = p.len();
        while i < v.len()
            invariant
                p@.len() <= i <= v@.len(),
                rest@ == v@.subrange(p@.len() as int, i as int),
            decreases v.len() - i,
        {
            rest.push(v[i]);
            proof {
                assert(rest@ =~= v@.subrange(p@.len() as int, i + 1 as int));
            }
            i = i + 1;
        }
        proof {
            assert(rest@ =~= v@.skip(p@.len() as int));
            assert(rest@.len() < v@.len() || v@.len() == p@.len());
            if v@.len() == p@.len() {
                assert(rest@ =~= Seq::<char>::empty());
            }
        }
        strip_prefix_rep(&rest, p)
    } else {
        v.clone()
    }
}

/// `s` with matching `ch` characters removed from both ends, repeatedly.
pub open spec fn strip_matches(s: Seq<char>, ch: char) -> Seq<char>
    decreases s.len(),
{
    if s.len() >= 2 && s[0] == ch && s.last() == ch {
        strip_matches(s.subrange(1, s.len() - 1), ch)
    } else if s.len() == 1 && s[0] == ch {
        Seq::empty()
    } else {
        s
    }
}

/// Removes `ch` from both ends, repeatedly, as `str::trim_matches` does.
pub fn strip_matches_chars(v: &Vec<char>, ch: char) -> (r: Vec<char>)
    ensures
        r@ == strip_matches(v@, ch),
    decreases v.len(),
{
    if v.len() >= 2 && v[0] == ch && v[v.len() - 1] == ch {
        let mut inner: Vec<char> = Vec::new();
        let mut i: usize = 1;
        while i < v.len() - 1
            invariant
                v@.len() >= 2,
                1 <= i <= v@.len() - 1,
                inner@ == v@.subrange(1, i as int),
            decreases v.len() - i,
        {
            inner.push(v[i]);
            proof {
                assert(inner@ =~= v@.subrange(1, i + 1 as int));
            }
            i = i + 1;
        }
        strip_matches_chars(&inner, ch)
    } else if v.len() == 1 && v[0] == ch {
        Vec::new()
    } else {
        v.clone()
    }
}

/// A decimal digit.
pub open spec fn is_digit(c: char) -> bool {
    '0' <= c <= '9'
}

/// The value of a digit string.
pub open spec fn digits_val(s: Seq<char>) -> int
    decreases s.len(),
{
    if s.len() == 0 {
        0
    } else {
        digits_val(s.drop_last()) * 10 + (s.last() as int - '0' as int)
    }
}

/// A decimal number parse: all-digit, nonempty text whose value fits.
pub open spec fn spec_parse_u32(s: Seq<char>) -> Option<u32> {
    if s.len() > 0 && (forall|k: int| 0 <= k < s.len() ==> is_digit(#[trigger] s[k]))
        && digits_val(s) <= u32::MAX {
        Some(digits_val(s) as u32)
    } else {
        None
    }
}

/// The value of a digit string is not negative.
proof fn lemma_digits_val_nonneg(s: Seq<char>)
    requires
        forall|k: int| 0 <= k < s.len() ==> is_digit(#[trigger] s[k]),
    ensures
        digits_val(s) >= 0,
    decreases s.len(),
{
    if s.len() > 0 {
        assert(forall|k: int| 0 <= k < s.len() - 1 ==> s.drop_last()[k] == s[k]);
        lemma_digits_val_nonneg(s.drop_last());
    }
}

/// A longer digit string is worth at least as much.
proof fn lemma_digits_val_grows(s: Seq<char>, i: int, j: int)
    requires
        0 <= i <= j <= s.len(),
        forall|k: int| 0 <= k < s.len() ==> is_digit(#[trigger] s[k]),
    ensures
        digits_val(s.take(i)) <= digits_val(s.take(j)),
    decreases j - i,
{
    if i < j {
        lemma_digits_val_grows(s, i, j - 1);
        assert(s.take(j).drop_last() =~= s.take(j - 1));
        assert(forall|k: int| 0 <= k < j - 1 ==> s.take(j - 1)[k] == s[k]);
        lemma_digits_val_nonneg(s.take(j - 1));
        assert(digits_val(s.take(j)) == digits_val(s.take(j - 1)) * 10 + (s.take(j).last() as int
            - '0' as int));
        assert(s.take(j).last() == s[j - 1]);
        assert(s.take(j).last() as int - '0' as int >= 0);
    }
}

/// Parses a decimal number that must fit in 32 bits.
pub fn parse_u32(v: &Vec<char>) -> (r: Option<u32>)
    ensures
        r == spec_parse_u32(v@),
{
    if v.len() == 0 {
        return None;
    }
    let mut acc: u64 = 0;
    let mut i: usize = 0;
    proof {
        assert(v@.take(0) =~= Seq::<char>::empty());
    }
    while i < v.len()
        invariant
            i <= v.len(),
            forall|k: int| 0 <= k < i ==> is_digit(#[trigger] v@[k]),
            acc == digits_val(v@.take(i as int)),
            acc <= u32::MAX as u64,
        decreases v.len() - i,
    {
        let c = v[i];
        if !('0' <= c && c <= '9') {
            return None;
        }
        proof {
            assert(v@.take(i + 1 as int).drop_last() =~= v@.take(i as int));
            assert(v@.take(i + 1 as int).last() == v@[i as int]);
        }
        let d = (c as u32) - ('0' as u32);
        acc = acc * 10 + (d as u64);
        if acc > 0xFFFF_FFFFu64 {
            proof {
                assert(digits_val(v@.take(i + 1 as int)) > u32::MAX);
                if forall|k: int| 0 <= k < v@.len() ==> is_digit(#[trigger] v@[k]) {
                    lemma_digits_val_grows(v@, i + 1, v@.len() as int);
                    assert(v@.take(v@.len() as int) =~= v@);
                    assert(digits_val(v@) > u32::MAX);
                }
            }
            return None;
        }
        i = i + 1;
    }
    proof {
        assert(v@.take(v@.len() as int) =~= v@);
    }
    Some(acc as u32)
}

/// The run of leading digits.
pub open spec fn digit_prefix_len(s: Seq<char>, i: int) -> int
    decreases s.len() - i,
{
    if 0 <= i < s.len() && is_digit(s[i]) {
        digit_prefix_len(s, i + 1)
    } else {
        i
    }
}

/// The leading digits of `v`.
pub fn digit_prefix(v: &Vec<char>) -> (r: Vec<char>)
    ensures
        r@ == v@.take(digit_prefix_len(v@, 0)),
{
    let mut out: Vec<char> = Vec::new();
    let mut i: usize = 0;
    while i < v.len() && '0' <= v[i] && v[i] <= '9'
        invariant
            i <= v.len(),
            out@ == v@.take(i as int),
            forall|k: int| 0 <= k < i ==> is_digit(#[trigger] v@[k]),
            digit_prefix_len(v@, 0) == digit_prefix_len(v@, i as int),
        decreases v.len() - i,
    {
        out.push(v[i]);
        proof {
            assert(out@ =~= v@.take(i + 1 as int));
        }
        i = i + 1;
    }
    proof {
        assert(digit_prefix_len(v@, i as int) == i);
    }
    out
}


/// The lines of a text as `str::lines` reads them: split at `\n`, with
/// a final empty piece (from a trailing newline) dropped.
pub open spec fn lines_of(s: Seq<char>) -> Seq<Seq<char>> {
    if s.len() == 0 {
        Seq::empty()
    } else {
        let p = split_nl(s);
        if p.last().len() == 0 {
            p.drop_last()
        } else {
            p
        }
    }
}

/// The lines of `v`, as `str::lines` reads them.
pub fn lines_of_chars(v: &Vec<char>) -> (r: Vec<Vec<char>>)
    ensures
        r@.map_values(|t: Vec<char>| t@) == lines_of(v@),
{
    if v.len() == 0 {
        let out: Vec<Vec<char>> = Vec::new();
        proof {
            assert(out@.map_values(|t: Vec<char>| t@) =~= Seq::<Seq<char>>::empty());
        }
        return out;
    }
    let mut p = split_lines_chars(v);
    let ghost pm = p@.map_values(|t: Vec<char>| t@);
    proof {
        crate::strutil::lemma_split_nl_acc_len(v@, Seq::empty());
    }
    if p[p.len() - 1].len() == 0 {
        let ghost om = p@.map_values(|t: Vec<char>| t@);
        let _ = p.pop();
        proof {
            assert(p@.map_values(|t: Vec<char>| t@) =~= om.drop_last());
        }
    }
    p
}


/// A well-formed parameter token: nonempty, with no whitespace.
pub open spec fn is_token(t: Seq<char>) -> bool {
    t.len() > 0 && forall|k: int| 0 <= k < t.len() ==> !is_space(#[trigger] t[k])
}

/// Whitespace splitting yields well-formed tokens.
pub proof fn lemma_split_ws_tokens(s: Seq<char>, cur: Seq<char>)
    requires
        forall|k: int| 0 <= k < cur.len() ==> !is_space(#[trigger] cur[k]),
    ensures
        forall|i: int| 0 <= i < split_ws_acc(s, cur).len() ==> is_token(
            #[trigger] split_ws_acc(s, cur)[i],
        ),
    decreases s.len(),
{
    if s.len() == 0 {
        assert forall|i: int| 0 <= i < split_ws_acc(s, cur).len() implies is_token(
            #[trigger] split_ws_acc(s, cur)[i],
        ) by {
            assert(split_ws_acc(s, cur) == close_tok(cur));
            assert(cur.len() > 0);
            assert(split_ws_acc(s, cur)[i] == cur);
        }
    } else if is_space(s[0]) {
        lemma_split_ws_tokens(s.drop_first(), Seq::empty());
        assert forall|i: int| 0 <= i < split_ws_acc(s, cur).len() implies is_token(
            #[trigger] split_ws_acc(s, cur)[i],
        ) by {
            let head = close_tok(cur);
            if i < head.len() {
                assert(cur.len() > 0);
                assert(split_ws_acc(s, cur)[i] == cur);
                assert(is_token(cur));
            } else {
                assert(split_ws_acc(s, cur)[i] == split_ws_acc(s.drop_first(), Seq::empty())[i
                    - head.len()]);
                assert(is_token(split_ws_acc(s.drop_first(), Seq::empty())[i - head.len()]));
            }
        }
    } else {
        assert forall|k: int| 0 <= k < cur.push(s[0]).len() implies !is_space(
            #[trigger] cur.push(s[0])[k],
        ) by {
            if k < cur.len() {
                assert(cur.push(s[0])[k] == cur[k]);
            }
        }
        lemma_split_ws_tokens(s.drop_first(), cur.push(s[0]));
        assert forall|i: int| 0 <= i < split_ws_acc(s, cur).len() implies is_token(
            #[trigger] split_ws_acc(s, cur)[i],
        ) by {
            assert(split_ws_acc(s, cur) == split_ws_acc(s.drop_first(), cur.push(s[0])));
            assert(is_token(split_ws_acc(s.drop_first(), cur.push(s[0]))[i]));
        }
    }
}

/// Reading a token's characters extends the pending token.
proof fn lemma_split_ws_take_token(tok: Seq<char>, s: Seq<char>, cur: Seq<char>)
    requires
        forall|k: int| 0 <= k < tok.len() ==> !is_space(#[trigger] tok[k]),
    ensures
        split_ws_acc(tok + s, cur) == split_ws_acc(s, cur + tok),
    decreases tok.len(),
{
    if tok.len() == 0 {
        assert(tok + s =~= s);
        assert(cur + tok =~= cur);
    } else {
        assert((tok + s)[0] == tok[0]);
        assert(!is_space(tok[0]));
        assert((tok + s).drop_first() =~= tok.drop_first() + s);
        assert(forall|k: int| 0 <= k < tok.len() - 1 ==> tok.drop_first()[k] == tok[k + 1]);
        lemma_split_ws_take_token(tok.drop_first(), s, cur.push(tok[0]));
        assert(cur.push(tok[0]) + tok.drop_first() =~= cur + tok);
    }
}

/// Splitting the space-joined form of well-formed tokens yields them back.
pub proof fn lemma_split_join_tokens(v: Seq<Seq<char>>)
    requires
        forall|i: int| 0 <= i < v.len() ==> is_token(#[trigger] v[i]),
    ensures
        split_ws(join_with(v, ' ')) == v,
    decreases v.len(),
{
    if v.len() == 0 {
    } else if v.len() == 1 {
        assert(join_with(v, ' ') == v[0]);
        assert(v[0] + Seq::<char>::empty() =~= v[0]);
        lemma_split_ws_take_token(v[0], Seq::empty(), Seq::empty());
        assert(Seq::<char>::empty() + v[0] =~= v[0]);
        assert(split_ws_acc(Seq::<char>::empty(), v[0]) == close_tok(v[0]));
        assert(close_tok(v[0]) =~= seq![v[0]]);
        assert(seq![v[0]] =~= v);
    } else {
        let rest = join_with(v.drop_first(), ' ');
        assert(join_with(v, ' ') == v[0] + seq![' '] + rest);
        assert(v[0] + seq![' '] + rest =~= v[0] + (seq![' '] + rest));
        lemma_split_ws_take_token(v[0], seq![' '] + rest, Seq::empty());
        assert(Seq::<char>::empty() + v[0] =~= v[0]);
        // a space closes the pending token
        assert((seq![' '] + rest)[0] == ' ');
        assert((seq![' '] + rest).drop_first() =~= rest);
        assert(split_ws_acc(seq![' '] + rest, v[0]) == close_tok(v[0]) + split_ws_acc(
            rest,
            Seq::empty(),
        ));
        assert(forall|i: int| 0 <= i < v.len() - 1 ==> v.drop_first()[i] == v[i + 1]);
        lemma_split_join_tokens(v.drop_first());
        assert(close_tok(v[0]) =~= seq![v[0]]);
        assert(seq![v[0]] + v.drop_first() =~= v);
    }
}

} // verus!
