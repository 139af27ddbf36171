//! Laws of the boolean grammar on sentences written without parentheses:
//! literals joined by `&&` and `||`, with `&&` binding tighter than `||`.
//!
//! A sentence `w0 && w1 && ... || v0 && v1 && ... || ...` is a disjunction of
//! conjunctions of literals; its value is true exactly when every literal of
//! some conjunction is `true`.
use vstd::prelude::*;

use crate::parser::bool_parse::{
    has_at, is_blank, op_and, op_or, parse_and, parse_and_rest, parse_input, parse_or,
    parse_or_rest, parse_term, skip_blank, word_false, word_true,
};

verus! {

/// The literal that writes `b`: `true` or `false`.
pub open spec fn literal(b: bool) -> Seq<char> {
    if b {
        word_true()
    } else {
        word_false()
    }
}

/// A connective with one space on each side, as in `" && "`.
pub open spec fn spaced(op: Seq<char>) -> Seq<char> {
    seq![' '] + op + seq![' ']
}

/// The pieces written one after the other, `sep` between two neighbours.
pub open spec fn join(pieces: Seq<Seq<char>>, sep: Seq<char>) -> Seq<char>
    decreases pieces.len(),
{
    if pieces.len() == 0 {
        seq![]
    } else if pieces.len() == 1 {
        pieces[0]
    } else {
        join(pieces.drop_last(), sep) + sep + pieces.last()
    }
}

/// The literals of `ws`, in order.
pub open spec fn literals(ws: Seq<bool>) -> Seq<Seq<char>> {
    ws.map_values(|w: bool| literal(w))
}

/// `w0 && w1 && ...`: the literals of `ws` joined by `&&`.
pub open spec fn and_chain(ws: Seq<bool>) -> Seq<char> {
    join(literals(ws), spaced(op_and()))
}

/// `w0 || w1 || ...`: the literals of `ws` joined by `||`.
pub open spec fn or_chain(ws: Seq<bool>) -> Seq<char> {
    join(literals(ws), spaced(op_or()))
}

/// The conjunctions `and_chain(m[i])`, in order.
pub open spec fn and_chains(m: Seq<Seq<bool>>) -> Seq<Seq<char>> {
    m.map_values(|ws: Seq<bool>| and_chain(ws))
}

/// `c0 || c1 || ...` where each `ci` is the conjunction `and_chain(m[i])`,
/// written without parentheses.
pub open spec fn or_of_and_chains(m: Seq<Seq<bool>>) -> Seq<char> {
    join(and_chains(m), spaced(op_or()))
}

/// Every one of `ws` is true.
pub open spec fn all_of(ws: Seq<bool>) -> bool {
    forall|i: int| 0 <= i < ws.len() ==> ws[i]
}

/// Some one of `ws` is true.
pub open spec fn any_of(ws: Seq<bool>) -> bool {
    exists|i: int| 0 <= i < ws.len() && ws[i]
}

/// Every one of `ws` from index `k` on is true.
spec fn all_from(ws: Seq<bool>, k: int) -> bool {
    forall|i: int| k <= i < ws.len() ==> ws[i]
}

/// Some `m[i]` with `i >= k` is all true.
spec fn any_all_from(m: Seq<Seq<bool>>, k: int) -> bool {
    exists|i: int| k <= i < m.len() && all_of(#[trigger] m[i])
}

/// Where the `k`-th piece (from 0) ends in `join(pieces, sep)`.
spec fn piece_end(pieces: Seq<Seq<char>>, sep: Seq<char>, k: int) -> int {
    join(pieces.take(k + 1), sep).len() as int
}

proof fn lemma_join_prefix(pieces: Seq<Seq<char>>, sep: Seq<char>, k: int)
    requires
        1 <= k <= pieces.len(),
    ensures
        join(pieces.take(k), sep).len() <= join(pieces, sep).len(),
        join(pieces, sep).subrange(0, join(pieces.take(k), sep).len() as int) == join(
            pieces.take(k),
            sep,
        ),
    decreases pieces.len(),
{
    let c = join(pieces, sep);
    if k == pieces.len() {
        assert(pieces.take(k) =~= pieces);
        assert(c.subrange(0, c.len() as int) =~= c);
    } else {
        let d = pieces.drop_last();
        assert(d.take(k) =~= pieces.take(k));
        lemma_join_prefix(d, sep, k);
        let j = join(d, sep);
        let t = join(pieces.take(k), sep);
        assert(c == j + sep + pieces.last());
        assert(c.subrange(0, t.len() as int) =~= j.subrange(0, t.len() as int));
    }
}

proof fn lemma_join_ends(pieces: Seq<Seq<char>>, sep: Seq<char>)
    requires
        pieces.len() >= 1,
    ensures
        piece_end(pieces, sep, 0) == pieces[0].len(),
        pieces[0].len() <= join(pieces, sep).len(),
        join(pieces, sep).subrange(0, pieces[0].len() as int) == pieces[0],
        piece_end(pieces, sep, pieces.len() - 1) == join(pieces, sep).len(),
{
    assert(pieces.take(1) =~= seq![pieces[0]]);
    assert(join(seq![pieces[0]], sep) == pieces[0]);
    lemma_join_prefix(pieces, sep, 1);
    assert(pieces.take(pieces.len() as int) =~= pieces);
}

proof fn lemma_join_step(pieces: Seq<Seq<char>>, sep: Seq<char>, k: int)
    requires
        0 <= k,
        k + 2 <= pieces.len(),
    ensures
        piece_end(pieces, sep, k + 1) == piece_end(pieces, sep, k) + sep.len() + pieces[k
            + 1].len(),
        piece_end(pieces, sep, k + 1) <= join(pieces, sep).len(),
        join(pieces, sep).subrange(
            piece_end(pieces, sep, k),
            piece_end(pieces, sep, k) + sep.len(),
        ) == sep,
        join(pieces, sep).subrange(
            piece_end(pieces, sep, k) + sep.len(),
            piece_end(pieces, sep, k + 1),
        ) == pieces[k + 1],
{
    let t2 = pieces.take(k + 2);
    let t1 = pieces.take(k + 1);
    assert(t2.drop_last() =~= t1);
    assert(t2.last() == pieces[k + 1]);
    let j1 = join(t1, sep);
    let j2 = join(t2, sep);
    assert(j2 == j1 + sep + pieces[k + 1]);
    lemma_join_prefix(pieces, sep, k + 2);
    let c = join(pieces, sep);
    let e0 = j1.len() as int;
    let e1 = j2.len() as int;
    assert(c.subrange(e0, e0 + sep.len()) =~= j2.subrange(e0, e0 + sep.len()));
    assert(j2.subrange(e0, e0 + sep.len()) =~= sep);
    assert(c.subrange(e0 + sep.len(), e1) =~= j2.subrange(e0 + sep.len(), e1));
    assert(j2.subrange(e0 + sep.len(), e1) =~= pieces[k + 1]);
}

/// A piece of `c` that stands at `o` in `s` is a piece of `s`.
proof fn lemma_sub_piece(s: Seq<char>, o: int, c: Seq<char>, a: int, b: int)
    requires
        0 <= o,
        o + c.len() <= s.len(),
        s.subrange(o, o + c.len()) == c,
        0 <= a <= b <= c.len(),
    ensures
        s.subrange(o + a, o + b) == c.subrange(a, b),
{
    assert(s.subrange(o + a, o + b) =~= c.subrange(a, b)) by {
        assert forall|i: int| 0 <= i < b - a implies s.subrange(o + a, o + b)[i] == c.subrange(
            a,
            b,
        )[i] by {
            assert(s[o + a + i] == s.subrange(o, o + c.len())[a + i]);
        }
    }
}

/// A literal standing at `p` is a term of its value that ends right after it.
proof fn lemma_literal_term(s: Seq<char>, p: int, b: bool)
    requires
        0 <= p,
        p + literal(b).len() <= s.len(),
        s.subrange(p, p + literal(b).len()) == literal(b),
    ensures
        parse_term(s, p) == Some((b, p + literal(b).len())),
        s[p] == (if b { 't' } else { 'f' }),
{
    let l = literal(b);
    assert(s[p] == s.subrange(p, p + l.len())[0]);
    if !b {
        assert(has_at(s, p, word_false()));
        if has_at(s, p, word_true()) {
            assert(s.subrange(p, p + 4)[0] == s[p]);
        }
    }
}

/// `" && "` or `" || "` at `p`, followed by a character that is not a blank:
/// the blanks are skipped and the connective is found.
proof fn lemma_separator(s: Seq<char>, p: int, op: Seq<char>)
    requires
        op == op_and() || op == op_or(),
        0 <= p,
        p + 5 <= s.len(),
        s.subrange(p, p + 4) == spaced(op),
        !is_blank(s[p + 4]),
    ensures
        skip_blank(s, p) == p + 1,
        has_at(s, p + 1, op),
        has_at(s, p + 1, op_and()) == (op == op_and()),
        skip_blank(s, p + 3) == p + 4,
{
    let sub = s.subrange(p, p + 4);
    assert(sub[1] == op[0] && sub[2] == op[1]);
    assert(s[p] == sub[0]);
    assert(s[p + 1] == sub[1]);
    assert(s[p + 2] == sub[2]);
    assert(s[p + 3] == sub[3]);
    assert(skip_blank(s, p + 1) == p + 1);
    assert(skip_blank(s, p + 4) == p + 4);
    assert(s.subrange(p + 1, p + 3) =~= op);
    if op == op_or() && has_at(s, p + 1, op_and()) {
        assert(s.subrange(p + 1, p + 3)[0] == s[p + 1]);
    }
}

/// The first character of a conjunction is that of its first literal.
proof fn lemma_and_chain_first(ws: Seq<bool>)
    requires
        ws.len() >= 1,
    ensures
        and_chain(ws).len() >= 4,
        and_chain(ws)[0] == (if ws[0] { 't' } else { 'f' }),
{
    let pieces = literals(ws);
    lemma_join_ends(pieces, spaced(op_and()));
    let c = and_chain(ws);
    assert(c[0] == c.subrange(0, pieces[0].len() as int)[0]);
}

proof fn lemma_and_chain_rest(s: Seq<char>, o: int, ws: Seq<bool>, k: int, acc: bool)
    requires
        1 <= ws.len(),
        0 <= k < ws.len(),
        0 <= o,
        o + and_chain(ws).len() <= s.len(),
        s.subrange(o, o + and_chain(ws).len()) == and_chain(ws),
        !has_at(s, skip_blank(s, o + and_chain(ws).len()), op_and()),
    ensures
        parse_and_rest(s, o + piece_end(literals(ws), spaced(op_and()), k), acc) == Some(
            (acc && all_from(ws, k + 1), o + and_chain(ws).len()),
        ),
    decreases ws.len() - k,
{
    let pieces = literals(ws);
    let sep = spaced(op_and());
    let c = and_chain(ws);
    lemma_join_ends(pieces, sep);
    if k == ws.len() - 1 {
        assert(all_from(ws, k + 1));
    } else {
        lemma_join_step(pieces, sep, k);
        let e0 = piece_end(pieces, sep, k);
        let e1 = piece_end(pieces, sep, k + 1);
        let p = o + e0;
        let w = ws[k + 1];
        assert(pieces[k + 1] == literal(w));
        lemma_sub_piece(s, o, c, e0, e0 + 4);
        lemma_sub_piece(s, o, c, e0 + 4, e1);
        lemma_literal_term(s, p + 4, w);
        lemma_separator(s, p, op_and());
        lemma_and_chain_rest(s, o, ws, k + 1, acc && w);
        assert(all_from(ws, k + 1) == (w && all_from(ws, k + 2)));
    }
}

/// A conjunction of literals standing at `o`, not followed by `&&`, is a
/// `logical_and` whose value is the conjunction of the literals.
proof fn lemma_and_chain(s: Seq<char>, o: int, ws: Seq<bool>)
    requires
        1 <= ws.len(),
        0 <= o,
        o + and_chain(ws).len() <= s.len(),
        s.subrange(o, o + and_chain(ws).len()) == and_chain(ws),
        !has_at(s, skip_blank(s, o + and_chain(ws).len()), op_and()),
    ensures
        parse_and(s, o) == Some((all_of(ws), o + and_chain(ws).len())),
{
    let pieces = literals(ws);
    let sep = spaced(op_and());
    let c = and_chain(ws);
    lemma_join_ends(pieces, sep);
    assert(pieces[0] == literal(ws[0]));
    lemma_sub_piece(s, o, c, 0, pieces[0].len() as int);
    lemma_literal_term(s, o, ws[0]);
    lemma_and_chain_rest(s, o, ws, 0, ws[0]);
    assert(all_of(ws) == (ws[0] && all_from(ws, 1)));
}

/// What follows the `k`-th conjunction of a disjunction standing at `o`:
/// never `&&`, and `" || "` before the next conjunction when there is one.
proof fn lemma_after_conjunction(s: Seq<char>, o: int, m: Seq<Seq<bool>>, k: int)
    requires
        1 <= m.len(),
        forall|i: int| 0 <= i < m.len() ==> (#[trigger] m[i]).len() >= 1,
        0 <= k < m.len(),
        0 <= o,
        o + or_of_and_chains(m).len() <= s.len(),
        s.subrange(o, o + or_of_and_chains(m).len()) == or_of_and_chains(m),
        !has_at(s, skip_blank(s, o + or_of_and_chains(m).len()), op_and()),
    ensures
        !has_at(s, skip_blank(s, o + piece_end(and_chains(m), spaced(op_or()), k)), op_and()),
        k + 1 < m.len() ==> ({
            let e = o + piece_end(and_chains(m), spaced(op_or()), k);
            &&& skip_blank(s, e) == e + 1
            &&& has_at(s, e + 1, op_or())
            &&& skip_blank(s, e + 3) == e + 4
        }),
{
    let pieces = and_chains(m);
    let sep = spaced(op_or());
    let c = or_of_and_chains(m);
    lemma_join_ends(pieces, sep);
    if k + 1 < m.len() {
        lemma_join_step(pieces, sep, k);
        let e0 = piece_end(pieces, sep, k);
        let e1 = piece_end(pieces, sep, k + 1);
        lemma_sub_piece(s, o, c, e0, e0 + 4);
        lemma_sub_piece(s, o, c, e0 + 4, e1);
        lemma_and_chain_first(m[k + 1]);
        assert(pieces[k + 1] == and_chain(m[k + 1]));
        assert(s[o + e0 + 4] == s.subrange(o + e0 + 4, o + e1)[0]);
        lemma_separator(s, o + e0, op_or());
    }
}

proof fn lemma_or_chain_rest(s: Seq<char>, o: int, m: Seq<Seq<bool>>, k: int, acc: bool)
    requires
        1 <= m.len(),
        forall|i: int| 0 <= i < m.len() ==> (#[trigger] m[i]).len() >= 1,
        0 <= k < m.len(),
        0 <= o,
        o + or_of_and_chains(m).len() <= s.len(),
        s.subrange(o, o + or_of_and_chains(m).len()) == or_of_and_chains(m),
        !has_at(s, skip_blank(s, o + or_of_and_chains(m).len()), op_and()),
        !has_at(s, skip_blank(s, o + or_of_and_chains(m).len()), op_or()),
    ensures
        parse_or_rest(s, o + piece_end(and_chains(m), spaced(op_or()), k), acc) == Some(
            (acc || any_all_from(m, k + 1), o + or_of_and_chains(m).len()),
        ),
    decreases m.len() - k,
{
    let pieces = and_chains(m);
    let sep = spaced(op_or());
    let c = or_of_and_chains(m);
    lemma_join_ends(pieces, sep);
    if k == m.len() - 1 {
        assert(!any_all_from(m, k + 1));
    } else {
        lemma_join_step(pieces, sep, k);
        let e0 = piece_end(pieces, sep, k);
        let e1 = piece_end(pieces, sep, k + 1);
        let ws = m[k + 1];
        assert(pieces[k + 1] == and_chain(ws));
        lemma_sub_piece(s, o, c, e0 + 4, e1);
        lemma_after_conjunction(s, o, m, k);
        lemma_after_conjunction(s, o, m, k + 1);
        lemma_and_chain(s, o + e0 + 4, ws);
        lemma_or_chain_rest(s, o, m, k + 1, acc || all_of(ws));
        assert(any_all_from(m, k + 1) == (all_of(ws) || any_all_from(m, k + 2))) by {
            if all_of(ws) {
                assert(all_of(m[k + 1]));
            }
            if any_all_from(m, k + 2) {
                let i = choose|i: int| k + 2 <= i < m.len() && all_of(#[trigger] m[i]);
                assert(all_of(m[i]));
            }
        }
    }
}

proof fn lemma_or_from_parts(s: Seq<char>, v: bool, e: int, w: bool, n: int)
    requires
        parse_and(s, 0) == Some((v, e)),
        0 < e <= s.len(),
        parse_or_rest(s, e, v) == Some((w, n)),
    ensures
        parse_or(s, 0) == Some((w, n)),
{
}

proof fn lemma_any_all_first(m: Seq<Seq<bool>>)
    requires
        1 <= m.len(),
    ensures
        any_all_from(m, 0) == (all_of(m[0]) || any_all_from(m, 1)),
{
    if any_all_from(m, 1) {
        let i = choose|i: int| 1 <= i < m.len() && all_of(#[trigger] m[i]);
        assert(all_of(m[i]));
    }
    if any_all_from(m, 0) {
        let i = choose|i: int| 0 <= i < m.len() && all_of(#[trigger] m[i]);
        assert(all_of(m[i]));
    }
}

proof fn lemma_disjunction(m: Seq<Seq<bool>>)
    requires
        1 <= m.len(),
        forall|i: int| 0 <= i < m.len() ==> (#[trigger] m[i]).len() >= 1,
    ensures
        parse_or(or_of_and_chains(m), 0) == Some(
            (any_all_from(m, 0), or_of_and_chains(m).len() as int),
        ),
        skip_blank(or_of_and_chains(m), 0) == 0,
        skip_blank(or_of_and_chains(m), or_of_and_chains(m).len() as int) == or_of_and_chains(
            m,
        ).len(),
{
    let s = or_of_and_chains(m);
    let pieces = and_chains(m);
    let sep = spaced(op_or());
    lemma_join_ends(pieces, sep);
    let n = s.len() as int;
    assert(s.subrange(0, n) =~= s);
    assert(skip_blank(s, n) == n);
    let ws = m[0];
    assert(pieces[0] == and_chain(ws));
    let e0 = piece_end(pieces, sep, 0);
    lemma_sub_piece(s, 0, s, 0, e0);
    lemma_and_chain_first(ws);
    assert(s[0] == s.subrange(0, e0)[0]);
    lemma_after_conjunction(s, 0, m, 0);
    lemma_and_chain(s, 0, ws);
    lemma_or_chain_rest(s, 0, m, 0, all_of(ws));
    lemma_any_all_first(m);
    lemma_or_from_parts(s, all_of(ws), e0, any_all_from(m, 0), n);
}

/// Precedence without parentheses: a disjunction of conjunctions of
/// literals, `w00 && w01 && ... || w10 && ... || ...`, is a sentence whose
/// value is true exactly when some conjunction has only `true` literals.
pub proof fn law_or_of_and_chains(m: Seq<Seq<bool>>)
    requires
        1 <= m.len(),
        forall|i: int| 0 <= i < m.len() ==> (#[trigger] m[i]).len() >= 1,
    ensures
        parse_input(or_of_and_chains(m)) == Some(
            exists|i: int| 0 <= i < m.len() && all_of(#[trigger] m[i]),
        ),
{
    lemma_disjunction(m);
}

/// Conjunction without parentheses: `w0 && w1 && ...` is a sentence whose
/// value is true exactly when every literal is `true` (so `false && true` is
/// false).
pub proof fn law_and_chain(ws: Seq<bool>)
    requires
        1 <= ws.len(),
    ensures
        parse_input(and_chain(ws)) == Some(all_of(ws)),
{
    let m = seq![ws];
    assert(and_chains(m) =~= seq![and_chain(ws)]);
    assert(or_of_and_chains(m) == and_chain(ws));
    law_or_of_and_chains(m);
    if all_of(ws) {
        assert(all_of(m[0]));
    }
}

/// Disjunction without parentheses: `w0 || w1 || ...` is a sentence whose
/// value is true exactly when some literal is `true`.
pub proof fn law_or_chain(ws: Seq<bool>)
    requires
        1 <= ws.len(),
    ensures
        parse_input(or_chain(ws)) == Some(any_of(ws)),
{
    let m = ws.map_values(|w: bool| seq![w]);
    assert forall|i: int| 0 <= i < m.len() implies (#[trigger] m[i]).len() >= 1 && and_chain(m[i])
        == literal(ws[i]) && (all_of(m[i]) == ws[i]) by {
        assert(literals(m[i]) =~= seq![literal(ws[i])]);
        if ws[i] {
            assert(all_of(m[i]));
        } else {
            assert(!m[i][0]);
        }
    }
    assert(and_chains(m) =~= literals(ws));
    law_or_of_and_chains(m);
    if any_of(ws) {
        let i = choose|i: int| 0 <= i < ws.len() && ws[i];
        assert(all_of(m[i]));
    }
}

proof fn lemma_two_pieces(a: Seq<char>, b: Seq<char>, sep: Seq<char>)
    ensures
        join(seq![a, b], sep) == a + sep + b,
{
    let t = seq![a, b];
    assert(t.drop_last() =~= seq![a]);
    assert(t.last() == b);
    assert(join(seq![a], sep) == a);
}

proof fn lemma_shape_or_and(u: bool, v: bool, w: bool)
    ensures
        or_of_and_chains(seq![seq![u], seq![v, w]]) == literal(u) + spaced(op_or()) + literal(v)
            + spaced(op_and()) + literal(w),
{
    let sa = spaced(op_and());
    let so = spaced(op_or());
    let m = seq![seq![u], seq![v, w]];
    assert(literals(seq![u]) =~= seq![literal(u)]);
    assert(literals(seq![v, w]) =~= seq![literal(v), literal(w)]);
    lemma_two_pieces(literal(v), literal(w), sa);
    assert(and_chains(m) =~= seq![literal(u), literal(v) + sa + literal(w)]);
    lemma_two_pieces(literal(u), literal(v) + sa + literal(w), so);
    assert(literal(u) + so + (literal(v) + sa + literal(w)) =~= literal(u) + so + literal(v) + sa
        + literal(w));
}

proof fn lemma_shape_and_or(u: bool, v: bool, w: bool)
    ensures
        or_of_and_chains(seq![seq![u, v], seq![w]]) == literal(u) + spaced(op_and()) + literal(v)
            + spaced(op_or()) + literal(w),
{
    let sa = spaced(op_and());
    let so = spaced(op_or());
    let m = seq![seq![u, v], seq![w]];
    assert(literals(seq![u, v]) =~= seq![literal(u), literal(v)]);
    assert(literals(seq![w]) =~= seq![literal(w)]);
    lemma_two_pieces(literal(u), literal(v), sa);
    assert(and_chains(m) =~= seq![literal(u) + sa + literal(v), literal(w)]);
    lemma_two_pieces(literal(u) + sa + literal(v), literal(w), so);
}

proof fn lemma_some_all_of_two(m: Seq<Seq<bool>>)
    requires
        m.len() == 2,
    ensures
        (exists|i: int| 0 <= i < m.len() && all_of(#[trigger] m[i])) == (all_of(m[0]) || all_of(
            m[1],
        )),
{
    if exists|i: int| 0 <= i < m.len() && all_of(#[trigger] m[i]) {
        let i = choose|i: int| 0 <= i < m.len() && all_of(#[trigger] m[i]);
        assert(i == 0 || i == 1);
    }
    if all_of(m[0]) {
        assert(0 <= 0 < m.len() && all_of(m[0]));
    }
    if all_of(m[1]) {
        assert(0 <= 1 < m.len() && all_of(m[1]));
    }
}

proof fn lemma_all_of_small(u: bool, v: bool)
    ensures
        all_of(seq![u]) == u,
        all_of(seq![u, v]) == (u && v),
{
    if !u {
        assert(!seq![u][0]);
        assert(!seq![u, v][0]);
    }
    if !v {
        assert(!seq![u, v][1]);
    }
}

proof fn lemma_same_text(x: Seq<char>, y: Seq<char>, r: bool)
    requires
        x == y,
        parse_input(x) == Some(r),
    ensures
        parse_input(y) == Some(r),
{
}

proof fn lemma_truth_or_and(m: Seq<Seq<bool>>, u: bool, v: bool, w: bool)
    requires
        m == seq![seq![u], seq![v, w]],
    ensures
        (exists|i: int| 0 <= i < m.len() && all_of(#[trigger] m[i])) == (u || (v && w)),
{
    lemma_some_all_of_two(m);
    lemma_all_of_small(u, u);
    lemma_all_of_small(v, w);
}

proof fn lemma_truth_and_or(m: Seq<Seq<bool>>, u: bool, v: bool, w: bool)
    requires
        m == seq![seq![u, v], seq![w]],
    ensures
        (exists|i: int| 0 <= i < m.len() && all_of(#[trigger] m[i])) == ((u && v) || w),
{
    lemma_some_all_of_two(m);
    lemma_all_of_small(u, v);
    lemma_all_of_small(w, w);
}

#[verifier::spinoff_prover]
proof fn lemma_value_or_and(u: bool, v: bool, w: bool)
    ensures
        parse_input(or_of_and_chains(seq![seq![u], seq![v, w]])) == Some(u || (v && w)),
{
    let m = seq![seq![u], seq![v, w]];
    law_or_of_and_chains(m);
    lemma_truth_or_and(m, u, v, w);
}

#[verifier::spinoff_prover]
proof fn lemma_value_and_or(u: bool, v: bool, w: bool)
    ensures
        parse_input(or_of_and_chains(seq![seq![u, v], seq![w]])) == Some((u && v) || w),
{
    let m = seq![seq![u, v], seq![w]];
    law_or_of_and_chains(m);
    lemma_truth_and_or(m, u, v, w);
}

/// `&&` binds tighter than `||` on its right: `u || v && w` is
/// `u || (v && w)`.
pub proof fn law_precedence_or_and(u: bool, v: bool, w: bool)
    ensures
        parse_input(literal(u) + spaced(op_or()) + literal(v) + spaced(op_and()) + literal(w))
            == Some(u || (v && w)),
{
    lemma_value_or_and(u, v, w);
    lemma_shape_or_and(u, v, w);
    lemma_same_text(
        or_of_and_chains(seq![seq![u], seq![v, w]]),
        literal(u) + spaced(op_or()) + literal(v) + spaced(op_and()) + literal(w),
        u || (v && w),
    );
}

/// `&&` binds tighter than `||` on its left: `u && v || w` is
/// `(u && v) || w`.
pub proof fn law_precedence_and_or(u: bool, v: bool, w: bool)
    ensures
        parse_input(literal(u) + spaced(op_and()) + literal(v) + spaced(op_or()) + literal(w))
            == Some((u && v) || w),
{
    lemma_value_and_or(u, v, w);
    lemma_shape_and_or(u, v, w);
    lemma_same_text(
        or_of_and_chains(seq![seq![u, v], seq![w]]),
        literal(u) + spaced(op_and()) + literal(v) + spaced(op_or()) + literal(w),
        (u && v) || w,
    );
}

/// `k` negation signs.
pub open spec fn bangs(k: nat) -> Seq<char> {
    Seq::new(k, |i: int| '!')
}

proof fn lemma_negated_term(k: nat, b: bool, i: int)
    requires
        0 <= i <= k,
    ensures
        parse_term(bangs(k) + literal(b), i) == Some(
            (if (k - i) % 2 == 0 {
                b
            } else {
                !b
            }, (k + literal(b).len()) as int),
        ),
    decreases k - i,
{
    let s = bangs(k) + literal(b);
    let l = literal(b);
    if i == k {
        assert(s.subrange(k as int, k + l.len() as int) =~= l);
        lemma_literal_term(s, k as int, b);
    } else {
        assert(s[i] == '!');
        if i + 1 < k {
            assert(s[i + 1] == '!');
        } else {
            assert(s[i + 1] == l[0]);
        }
        assert(skip_blank(s, i + 1) == i + 1);
        lemma_negated_term(k, b, i + 1);
    }
}

/// Negation without parentheses: a literal behind `k` signs `!` is a
/// sentence whose value is the literal's for an even `k` and its negation
/// for an odd `k` (`!true` is false, `!!true` is true).
pub proof fn law_negated_literal(k: nat, b: bool)
    ensures
        parse_input(bangs(k) + literal(b)) == Some(
            if k % 2 == 0 {
                b
            } else {
                !b
            },
        ),
{
    let s = bangs(k) + literal(b);
    let l = literal(b);
    let n = s.len() as int;
    let v = if k % 2 == 0 {
        b
    } else {
        !b
    };
    lemma_negated_term(k, b, 0);
    if k > 0 {
        assert(s[0] == '!');
    } else {
        assert(s[0] == l[0]);
    }
    assert(skip_blank(s, 0) == 0);
    assert(skip_blank(s, n) == n);
    assert(parse_and_rest(s, n, v) == Some((v, n)));
    assert(parse_and(s, 0) == Some((v, n)));
    assert(parse_or_rest(s, n, v) == Some((v, n)));
    assert(parse_or(s, 0) == Some((v, n)));
}

} // verus!
