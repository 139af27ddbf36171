//! Laws of the boolean grammar: a sentence keeps its value when it is
//! parenthesised inside a larger sentence, so that `!`, `&&` and `||` compute
//! negation, conjunction and disjunction of the values of their operands.
use vstd::prelude::*;

use crate::parser::bool_parse::{
    has_at, is_blank, op_and, op_or, parse_and, parse_and_rest, parse_input, parse_or,
    parse_or_rest, parse_term, skip_blank, word_false, word_true, lemma_skip_blank,
};

verus! {

/// `y` cannot continue what precedes it: it is empty or starts with a
/// character that is neither a blank nor part of a connective.
pub open spec fn stopper(y: Seq<char>) -> bool {
    y.len() == 0 || (!is_blank(y[0]) && y[0] != '&' && y[0] != '|')
}

/// Position `q` of `a` is followed, after blanks, by `t`.
pub open spec fn followed_by(a: Seq<char>, q: int, t: Seq<char>) -> bool {
    has_at(a, skip_blank(a, q), t)
}

proof fn lemma_skip_shift(x: Seq<char>, a: Seq<char>, y: Seq<char>, p: int)
    requires
        0 <= p <= a.len(),
        stopper(y),
    ensures
        skip_blank(x + a + y, x.len() + p) == x.len() + skip_blank(a, p),
    decreases a.len() - p,
{
    let s = x + a + y;
    if p < a.len() {
        assert(s[x.len() + p] == a[p]);
        if is_blank(a[p]) {
            lemma_skip_shift(x, a, y, p + 1);
        }
    } else if y.len() > 0 {
        assert(s[x.len() + p] == y[0]);
    }
}

proof fn lemma_has_at_shift(x: Seq<char>, a: Seq<char>, y: Seq<char>, r: int, t: Seq<char>)
    requires
        0 <= r,
        has_at(a, r, t),
    ensures
        has_at(x + a + y, x.len() + r, t),
{
    let s = x + a + y;
    assert(s.subrange(x.len() + r, x.len() + r + t.len()) =~= a.subrange(r, r + t.len()));
}

proof fn lemma_connective_shift(x: Seq<char>, a: Seq<char>, y: Seq<char>, r: int, t: Seq<char>)
    requires
        0 <= r <= a.len(),
        stopper(y),
        t == op_and() || t == op_or(),
    ensures
        has_at(x + a + y, x.len() + r, t) == has_at(a, r, t),
{
    let s = x + a + y;
    if r + 2 <= a.len() {
        assert(s.subrange(x.len() + r, x.len() + r + 2) =~= a.subrange(r, r + 2));
    } else if has_at(s, x.len() + r, t) {
        let sub = s.subrange(x.len() + r, x.len() + r + 2);
        if r == a.len() {
            assert(sub[0] == y[0]);
        } else {
            assert(sub[1] == y[0]);
        }
    }
}

proof fn lemma_term_shift(x: Seq<char>, a: Seq<char>, y: Seq<char>, p: int)
    requires
        0 <= p <= a.len(),
        stopper(y),
        parse_term(a, p) is Some,
    ensures
        parse_term(x + a + y, x.len() + p) == (match parse_term(a, p) {
            Some((v, q)) => Some((v, x.len() + q)),
            None => None,
        }),
    decreases a.len() - p, 0int,
{
    let s = x + a + y;
    let off = x.len() as int;
    assert(s[off + p] == a[p]);
    if a[p] == '!' {
        lemma_skip_blank(a, p + 1);
        lemma_skip_shift(x, a, y, p + 1);
        lemma_term_shift(x, a, y, skip_blank(a, p + 1));
    } else if a[p] == '(' {
        lemma_skip_blank(a, p + 1);
        lemma_skip_shift(x, a, y, p + 1);
        let r = skip_blank(a, p + 1);
        let (v, q) = parse_or(a, r)->0;
        lemma_or_bounds(a, r);
        let e = skip_blank(a, q);
        lemma_skip_blank(a, q);
        assert(a[e] == ')');
        assert(!followed_by(a, q, op_and())) by {
            if has_at(a, e, op_and()) {
                assert(a.subrange(e, e + 2)[0] == a[e]);
            }
        }
        assert(!followed_by(a, q, op_or())) by {
            if has_at(a, e, op_or()) {
                assert(a.subrange(e, e + 2)[0] == a[e]);
            }
        }
        lemma_or_shift(x, a, y, r);
        lemma_skip_shift(x, a, y, q);
        assert(s[off + e] == a[e]);
    } else if has_at(a, p, word_true()) {
        lemma_has_at_shift(x, a, y, p, word_true());
    } else {
        assert(has_at(a, p, word_false()));
        lemma_has_at_shift(x, a, y, p, word_false());
        assert(a.subrange(p, p + 5)[0] == a[p]);
        if has_at(s, off + p, word_true()) {
            assert(s.subrange(off + p, off + p + 4)[0] == s[off + p]);
        }
    }
}

proof fn lemma_and_rest_shift(x: Seq<char>, a: Seq<char>, y: Seq<char>, p: int, acc: bool)
    requires
        0 <= p <= a.len(),
        stopper(y),
        parse_and_rest(a, p, acc) matches Some((_, q)) && !followed_by(a, q, op_and()),
    ensures
        parse_and_rest(x + a + y, x.len() + p, acc) == (match parse_and_rest(a, p, acc) {
            Some((v, q)) => Some((v, x.len() + q)),
            None => None,
        }),
    decreases a.len() - p, 1int,
{
    let s = x + a + y;
    let off = x.len() as int;
    let r = skip_blank(a, p);
    lemma_skip_blank(a, p);
    lemma_skip_shift(x, a, y, p);
    lemma_connective_shift(x, a, y, r, op_and());
    if has_at(a, r, op_and()) {
        lemma_skip_blank(a, r + 2);
        let t = skip_blank(a, r + 2);
        lemma_skip_shift(x, a, y, r + 2);
        match parse_term(a, t) {
            Some((v, q1)) => {
                if p < q1 <= a.len() {
                    lemma_term_shift(x, a, y, t);
                    lemma_and_rest_shift(x, a, y, q1, acc && v);
                }
            },
            None => {},
        }
    }
}

proof fn lemma_and_shift(x: Seq<char>, a: Seq<char>, y: Seq<char>, p: int)
    requires
        0 <= p <= a.len(),
        stopper(y),
        parse_and(a, p) matches Some((_, q)) && !followed_by(a, q, op_and()),
    ensures
        parse_and(x + a + y, x.len() + p) == (match parse_and(a, p) {
            Some((v, q)) => Some((v, x.len() + q)),
            None => None,
        }),
    decreases a.len() - p, 2int,
{
    let (v, q1) = parse_term(a, p)->0;
    lemma_term_shift(x, a, y, p);
    lemma_and_rest_shift(x, a, y, q1, v);
}

proof fn lemma_or_rest_shift(x: Seq<char>, a: Seq<char>, y: Seq<char>, p: int, acc: bool)
    requires
        0 <= p <= a.len(),
        stopper(y),
        parse_or_rest(a, p, acc) matches Some((_, q)) && !followed_by(a, q, op_and())
            && !followed_by(a, q, op_or()),
    ensures
        parse_or_rest(x + a + y, x.len() + p, acc) == (match parse_or_rest(a, p, acc) {
            Some((v, q)) => Some((v, x.len() + q)),
            None => None,
        }),
    decreases a.len() - p, 3int,
{
    let r = skip_blank(a, p);
    lemma_skip_blank(a, p);
    lemma_skip_shift(x, a, y, p);
    lemma_connective_shift(x, a, y, r, op_or());
    if has_at(a, r, op_or()) {
        lemma_skip_blank(a, r + 2);
        let t = skip_blank(a, r + 2);
        lemma_skip_shift(x, a, y, r + 2);
        match parse_and(a, t) {
            Some((v, q1)) => {
                if p < q1 <= a.len() {
                    if followed_by(a, q1, op_and()) {
                        // the repetition stops right at q1, which is followed by `&&`
                        lemma_skip_blank(a, q1);
                        let r1 = skip_blank(a, q1);
                        assert(a.subrange(r1, r1 + 2)[0] == '&');
                        assert(!has_at(a, r1, op_or())) by {
                            if has_at(a, r1, op_or()) {
                                assert(a.subrange(r1, r1 + 2)[0] == '|');
                            }
                        }
                        assert(parse_or_rest(a, q1, acc || v) == Some((acc || v, q1)));
                        assert(parse_or_rest(a, p, acc) == parse_or_rest(a, q1, acc || v));
                        assert(false);
                    }
                    lemma_and_shift(x, a, y, t);
                    lemma_or_rest_shift(x, a, y, q1, acc || v);
                }
            },
            None => {},
        }
    }
}

proof fn lemma_or_shift(x: Seq<char>, a: Seq<char>, y: Seq<char>, p: int)
    requires
        0 <= p <= a.len(),
        stopper(y),
        parse_or(a, p) matches Some((_, q)) && !followed_by(a, q, op_and()) && !followed_by(
            a,
            q,
            op_or(),
        ),
    ensures
        parse_or(x + a + y, x.len() + p) == (match parse_or(a, p) {
            Some((v, q)) => Some((v, x.len() + q)),
            None => None,
        }),
    decreases a.len() - p, 4int,
{
    let (v, q1) = parse_and(a, p)->0;
    lemma_and_bounds(a, p);
    if followed_by(a, q1, op_and()) {
        lemma_skip_blank(a, q1);
        let r1 = skip_blank(a, q1);
        assert(a.subrange(r1, r1 + 2)[0] == '&');
        assert(!has_at(a, r1, op_or())) by {
            if has_at(a, r1, op_or()) {
                assert(a.subrange(r1, r1 + 2)[0] == '|');
            }
        }
        assert(false);
    }
    lemma_and_shift(x, a, y, p);
    lemma_or_rest_shift(x, a, y, q1, v);
}

proof fn lemma_and_bounds(a: Seq<char>, p: int)
    ensures
        parse_and(a, p) matches Some((_, q)) ==> p < q <= a.len(),
{
    if parse_and(a, p) is Some {
        let (v, q1) = parse_term(a, p)->0;
        lemma_and_rest_bounds(a, q1, v);
    }
}

proof fn lemma_and_rest_bounds(a: Seq<char>, p: int, acc: bool)
    ensures
        parse_and_rest(a, p, acc) matches Some((_, q)) ==> p <= q <= a.len(),
    decreases a.len() - p,
{
    if 0 <= p <= a.len() {
        lemma_skip_blank(a, p);
        let r = skip_blank(a, p);
        if has_at(a, r, op_and()) {
            lemma_skip_blank(a, r + 2);
            match parse_term(a, skip_blank(a, r + 2)) {
                Some((v, q1)) => {
                    if p < q1 <= a.len() {
                        lemma_and_rest_bounds(a, q1, acc && v);
                    }
                },
                None => {},
            }
        }
    }
}

proof fn lemma_or_bounds(a: Seq<char>, p: int)
    ensures
        parse_or(a, p) matches Some((_, q)) ==> p < q <= a.len(),
{
    if parse_or(a, p) is Some {
        let (v, q1) = parse_and(a, p)->0;
        lemma_or_rest_bounds(a, q1, v);
    }
}

proof fn lemma_or_rest_bounds(a: Seq<char>, p: int, acc: bool)
    ensures
        parse_or_rest(a, p, acc) matches Some((_, q)) ==> p <= q <= a.len(),
    decreases a.len() - p,
{
    if 0 <= p <= a.len() {
        lemma_skip_blank(a, p);
        let r = skip_blank(a, p);
        if has_at(a, r, op_or()) {
            lemma_skip_blank(a, r + 2);
            match parse_and(a, skip_blank(a, r + 2)) {
                Some((v, q1)) => {
                    if p < q1 <= a.len() {
                        lemma_or_rest_bounds(a, q1, acc || v);
                    }
                },
                None => {},
            }
        }
    }
}

/// A sentence parsed as the inside of a parenthesis, with anything before it
/// and a `)` after it, keeps its value and ends at the same place.
proof fn lemma_sentence_inside(x: Seq<char>, a: Seq<char>, y: Seq<char>)
    requires
        parse_input(a) is Some,
        stopper(y),
    ensures
        parse_or(x + a + y, x.len() + skip_blank(a, 0)) matches Some((v, q)) && v == parse_input(
            a,
        )->0 && skip_blank(x + a + y, q) == x.len() + a.len(),
{
    let p0 = skip_blank(a, 0);
    lemma_skip_blank(a, 0);
    let (v, q) = parse_or(a, p0)->0;
    lemma_or_bounds(a, p0);
    lemma_skip_blank(a, q);
    assert(!followed_by(a, q, op_and()));
    assert(!followed_by(a, q, op_or()));
    lemma_or_shift(x, a, y, p0);
    lemma_skip_shift(x, a, y, q);
}


proof fn lemma_end(s: Seq<char>, v: bool)
    ensures
        parse_and_rest(s, s.len() as int, v) == Some((v, s.len() as int)),
        parse_or_rest(s, s.len() as int, v) == Some((v, s.len() as int)),
        skip_blank(s, s.len() as int) == s.len(),
{
    lemma_skip_blank(s, s.len() as int);
}

/// The literals: `true` is true and `false` is false.
pub proof fn law_literals()
    ensures
        parse_input(word_true()) == Some(true),
        parse_input(word_false()) == Some(false),
{
    let t = word_true();
    let f = word_false();
    assert(skip_blank(t, 0) == 0);
    assert(t.subrange(0, 4) =~= t);
    assert(parse_term(t, 0) == Some((true, 4int)));
    lemma_end(t, true);
    assert(skip_blank(f, 0) == 0);
    assert(f.subrange(0, 5) =~= f);
    assert(!has_at(f, 0, word_true())) by {
        if has_at(f, 0, word_true()) {
            assert(f.subrange(0, 4)[0] == 'f');
        }
    }
    assert(parse_term(f, 0) == Some((false, 5int)));
    lemma_end(f, false);
}

/// Negation: when `a` is a sentence of value `v`, `!(a)` is a sentence of
/// value `!v`.
pub proof fn law_not(a: Seq<char>)
    requires
        parse_input(a) is Some,
    ensures
        parse_input(seq!['!', '('] + a + seq![')']) == Some(!parse_input(a)->0),
{
    let x = seq!['!', '('];
    let y = seq![')'];
    let s = x + a + y;
    let v = parse_input(a)->0;
    lemma_sentence_inside(x, a, y);
    lemma_skip_shift(x, a, y, 0);
    lemma_skip_blank(a, 0);
    let n = a.len() as int;
    assert(s[0] == '!');
    assert(s[1] == '(');
    assert(s[2 + n] == ')');
    assert(skip_blank(s, 1) == 1);
    assert(parse_term(s, 1) == Some((v, 3 + n)));
    assert(parse_term(s, 0) == Some((!v, 3 + n)));
    assert(s.len() == 3 + n);
    lemma_end(s, !v);
    assert(parse_and(s, 0) == Some((!v, s.len() as int)));
    assert(parse_or(s, 0) == Some((!v, s.len() as int)));
    assert(skip_blank(s, 0) == 0);
}

/// A sentence in parentheses, followed by anything, is a term of the same value.
proof fn lemma_paren_term(x: Seq<char>, a: Seq<char>, y: Seq<char>)
    requires
        parse_input(a) is Some,
        y.len() > 0,
        y[0] == ')',
    ensures
        parse_term(x + seq!['('] + a + y, x.len() as int) == Some(
            (parse_input(a)->0, x.len() + a.len() + 2int),
        ),
{
    let xp = x + seq!['('];
    let s = xp + a + y;
    assert(s =~= x + seq!['('] + a + y);
    lemma_sentence_inside(xp, a, y);
    lemma_skip_shift(xp, a, y, 0);
    assert(s[x.len() as int] == '(');
    assert(s[xp.len() + a.len() as int] == y[0]);
}

/// Conjunction: when `a` and `b` are sentences of values `v` and `w`,
/// `(a)&&(b)` is a sentence of value `v && w`.
#[verifier::spinoff_prover]
#[verifier::rlimit(50)]
pub proof fn law_and(a: Seq<char>, b: Seq<char>)
    requires
        parse_input(a) is Some,
        parse_input(b) is Some,
    ensures
        parse_input(seq!['('] + a + seq![')', '&', '&', '('] + b + seq![')']) == Some(
            parse_input(a)->0 && parse_input(b)->0,
        ),
{
    let s = seq!['('] + a + seq![')', '&', '&', '('] + b + seq![')'];
    let n = a.len() as int;
    let m = b.len() as int;
    let v = parse_input(a)->0;
    let w = parse_input(b)->0;
    assert(parse_term(s, 0) == Some((v, n + 2))) by {
        let y1 = seq![')', '&', '&', '('] + b + seq![')'];
        assert(s =~= Seq::<char>::empty() + seq!['('] + a + y1);
        lemma_paren_term(Seq::<char>::empty(), a, y1);
    }
    assert(parse_term(s, n + 4) == Some((w, n + m + 6))) by {
        let x2 = seq!['('] + a + seq![')', '&', '&'];
        assert(s =~= x2 + seq!['('] + b + seq![')']);
        lemma_paren_term(x2, b, seq![')']);
    }
    assert(s.len() == n + m + 6);
    assert(skip_blank(s, n + 2) == n + 2) by {
        assert(s[n + 2] == '&');
    }
    assert(skip_blank(s, n + 4) == n + 4) by {
        assert(s[n + 4] == '(');
    }
    assert(has_at(s, n + 2, op_and())) by {
        assert(s.subrange(n + 2, n + 4) =~= op_and());
    }
    lemma_end(s, v && w);
    assert(parse_and_rest(s, n + 2, v) == Some((v && w, s.len() as int)));
    assert(parse_and(s, 0) == Some((v && w, s.len() as int)));
    assert(parse_or(s, 0) == Some((v && w, s.len() as int)));
    assert(skip_blank(s, 0) == 0) by {
        assert(s[0] == '(');
    }
}

/// Disjunction: when `a` and `b` are sentences of values `v` and `w`,
/// `(a)||(b)` is a sentence of value `v || w`.
#[verifier::spinoff_prover]
#[verifier::rlimit(50)]
pub proof fn law_or(a: Seq<char>, b: Seq<char>)
    requires
        parse_input(a) is Some,
        parse_input(b) is Some,
    ensures
        parse_input(seq!['('] + a + seq![')', '|', '|', '('] + b + seq![')']) == Some(
            parse_input(a)->0 || parse_input(b)->0,
        ),
{
    let s = seq!['('] + a + seq![')', '|', '|', '('] + b + seq![')'];
    let n = a.len() as int;
    let m = b.len() as int;
    let v = parse_input(a)->0;
    let w = parse_input(b)->0;
    assert(parse_term(s, 0) == Some((v, n + 2))) by {
        let y1 = seq![')', '|', '|', '('] + b + seq![')'];
        assert(s =~= Seq::<char>::empty() + seq!['('] + a + y1);
        lemma_paren_term(Seq::<char>::empty(), a, y1);
    }
    assert(parse_term(s, n + 4) == Some((w, n + m + 6))) by {
        let x2 = seq!['('] + a + seq![')', '|', '|'];
        assert(s =~= x2 + seq!['('] + b + seq![')']);
        lemma_paren_term(x2, b, seq![')']);
    }
    assert(s.len() == n + m + 6);
    assert(skip_blank(s, n + 2) == n + 2) by {
        assert(s[n + 2] == '|');
    }
    assert(skip_blank(s, n + 4) == n + 4) by {
        assert(s[n + 4] == '(');
    }
    assert(!has_at(s, n + 2, op_and())) by {
        if has_at(s, n + 2, op_and()) {
            assert(s.subrange(n + 2, n + 4)[0] == s[n + 2]);
        }
    }
    assert(has_at(s, n + 2, op_or())) by {
        assert(s.subrange(n + 2, n + 4) =~= op_or());
    }
    lemma_end(s, w);
    lemma_end(s, v || w);
    assert(parse_and_rest(s, n + 2, v) == Some((v, n + 2)));
    assert(parse_and(s, 0) == Some((v, n + 2)));
    assert(parse_and(s, n + 4) == Some((w, s.len() as int)));
    assert(parse_or_rest(s, n + 2, v) == Some((v || w, s.len() as int)));
    assert(parse_or(s, 0) == Some((v || w, s.len() as int)));
    assert(skip_blank(s, 0) == 0) by {
        assert(s[0] == '(');
    }
}


/// `(a) && (b)`, with one space on each side of the connective.
pub open spec fn spaced_and(a: Seq<char>, b: Seq<char>) -> Seq<char> {
    seq!['('] + a + seq![')', ' ', '&', '&', ' ', '('] + b + seq![')']
}

/// `(a) || (b)`, with one space on each side of the connective.
pub open spec fn spaced_or(a: Seq<char>, b: Seq<char>) -> Seq<char> {
    seq!['('] + a + seq![')', ' ', '|', '|', ' ', '('] + b + seq![')']
}

/// Conjunction with blanks around `&&`: when `a` and `b` are sentences of
/// values `v` and `w`, `(a) && (b)` is a sentence of value `v && w`.
#[verifier::spinoff_prover]
#[verifier::rlimit(50)]
pub proof fn law_and_spaced(a: Seq<char>, b: Seq<char>)
    requires
        parse_input(a) is Some,
        parse_input(b) is Some,
    ensures
        parse_input(spaced_and(a, b)) == Some(parse_input(a)->0 && parse_input(b)->0),
{
    let s = spaced_and(a, b);
    let n = a.len() as int;
    let m = b.len() as int;
    let v = parse_input(a)->0;
    let w = parse_input(b)->0;
    assert(parse_term(s, 0) == Some((v, n + 2))) by {
        let y1 = seq![')', ' ', '&', '&', ' ', '('] + b + seq![')'];
        assert(s =~= Seq::<char>::empty() + seq!['('] + a + y1);
        lemma_paren_term(Seq::<char>::empty(), a, y1);
    }
    assert(parse_term(s, n + 6) == Some((w, n + m + 8))) by {
        let x2 = seq!['('] + a + seq![')', ' ', '&', '&', ' '];
        assert(s =~= x2 + seq!['('] + b + seq![')']);
        lemma_paren_term(x2, b, seq![')']);
    }
    assert(s.len() == n + m + 8);
    assert(skip_blank(s, n + 2) == n + 3) by {
        assert(s[n + 2] == ' ');
        assert(s[n + 3] == '&');
        assert(skip_blank(s, n + 3) == n + 3);
    }
    assert(skip_blank(s, n + 5) == n + 6) by {
        assert(s[n + 5] == ' ');
        assert(s[n + 6] == '(');
        assert(skip_blank(s, n + 6) == n + 6);
    }
    assert(has_at(s, n + 3, op_and())) by {
        assert(s.subrange(n + 3, n + 5) =~= op_and());
    }
    lemma_end(s, v && w);
    assert(parse_and_rest(s, n + 2, v) == Some((v && w, s.len() as int)));
    assert(parse_and(s, 0) == Some((v && w, s.len() as int)));
    assert(parse_or(s, 0) == Some((v && w, s.len() as int)));
    assert(skip_blank(s, 0) == 0) by {
        assert(s[0] == '(');
    }
}

/// Disjunction with blanks around `||`: when `a` and `b` are sentences of
/// values `v` and `w`, `(a) || (b)` is a sentence of value `v || w`.
#[verifier::spinoff_prover]
#[verifier::rlimit(50)]
pub proof fn law_or_spaced(a: Seq<char>, b: Seq<char>)
    requires
        parse_input(a) is Some,
        parse_input(b) is Some,
    ensures
        parse_input(spaced_or(a, b)) == Some(parse_input(a)->0 || parse_input(b)->0),
{
    let s = spaced_or(a, b);
    let n = a.len() as int;
    let m = b.len() as int;
    let v = parse_input(a)->0;
    let w = parse_input(b)->0;
    assert(parse_term(s, 0) == Some((v, n + 2))) by {
        let y1 = seq![')', ' ', '|', '|', ' ', '('] + b + seq![')'];
        assert(s =~= Seq::<char>::empty() + seq!['('] + a + y1);
        lemma_paren_term(Seq::<char>::empty(), a, y1);
    }
    assert(parse_term(s, n + 6) == Some((w, n + m + 8))) by {
        let x2 = seq!['('] + a + seq![')', ' ', '|', '|', ' '];
        assert(s =~= x2 + seq!['('] + b + seq![')']);
        lemma_paren_term(x2, b, seq![')']);
    }
    assert(s.len() == n + m + 8);
    assert(skip_blank(s, n + 2) == n + 3) by {
        assert(s[n + 2] == ' ');
        assert(s[n + 3] == '|');
        assert(skip_blank(s, n + 3) == n + 3);
    }
    assert(skip_blank(s, n + 5) == n + 6) by {
        assert(s[n + 5] == ' ');
        assert(s[n + 6] == '(');
        assert(skip_blank(s, n + 6) == n + 6);
    }
    assert(!has_at(s, n + 3, op_and())) by {
        if has_at(s, n + 3, op_and()) {
            assert(s.subrange(n + 3, n + 5)[0] == s[n + 3]);
        }
    }
    assert(has_at(s, n + 3, op_or())) by {
        assert(s.subrange(n + 3, n + 5) =~= op_or());
    }
    lemma_end(s, w);
    lemma_end(s, v || w);
    assert(parse_and_rest(s, n + 2, v) == Some((v, n + 2)));
    assert(parse_and(s, 0) == Some((v, n + 2)));
    assert(parse_and(s, n + 6) == Some((w, s.len() as int)));
    assert(parse_or_rest(s, n + 2, v) == Some((v || w, s.len() as int)));
    assert(parse_or(s, 0) == Some((v || w, s.len() as int)));
    assert(skip_blank(s, 0) == 0) by {
        assert(s[0] == '(');
    }
}

} // verus!
