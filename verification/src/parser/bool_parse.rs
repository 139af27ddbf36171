//! Boolean expressions over `true` / `false` with `!`, `&&`, `||` and
//! parentheses.
//!
//! Grammar (parsing expression grammar, blanks allowed between tokens):
//!
//! ```text
//! input        = SOI expression EOI
//! expression   = logical_or
//! logical_or   = logical_and ("||" logical_and)*
//! logical_and  = term ("&&" term)*
//! term         = "!" term | "true" | "false" | "(" expression ")"
//! blank        = " " | "\t" | "\r" | "\n"
//! ```
//!
//! `&&` binds tighter than `||`; both are evaluated left to right.
use vstd::prelude::*;

use crate::text::{from_chars, push_all, to_chars};

verus! {

/// Characters skipped between tokens.
pub open spec fn is_blank(c: char) -> bool {
    c == ' ' || c == '\t' || c == '\r' || c == '\n'
}

/// The first position at or after `p` that does not hold a blank.
pub open spec fn skip_blank(s: Seq<char>, p: int) -> int
    decreases s.len() - p,
{
    if 0 <= p < s.len() && is_blank(s[p]) {
        skip_blank(s, p + 1)
    } else {
        p
    }
}

pub proof fn lemma_skip_blank(s: Seq<char>, p: int)
    ensures
        p <= skip_blank(s, p),
        0 <= p <= s.len() ==> skip_blank(s, p) <= s.len(),
        0 <= p <= s.len() ==> forall|i: int| p <= i < skip_blank(s, p) ==> is_blank(#[trigger] s[i]),
        0 <= p <= s.len() ==> (skip_blank(s, p) == s.len() || !is_blank(s[skip_blank(s, p)])),
    decreases s.len() - p,
{
    if 0 <= p < s.len() && is_blank(s[p]) {
        lemma_skip_blank(s, p + 1);
    }
}

/// `t` occurs in `s` starting at position `p`.
pub open spec fn has_at(s: Seq<char>, p: int, t: Seq<char>) -> bool {
    0 <= p && p + t.len() <= s.len() && s.subrange(p, p + t.len()) == t
}

pub open spec fn word_true() -> Seq<char> {
    seq!['t', 'r', 'u', 'e']
}

pub open spec fn word_false() -> Seq<char> {
    seq!['f', 'a', 'l', 's', 'e']
}

pub open spec fn op_and() -> Seq<char> {
    seq!['&', '&']
}

pub open spec fn op_or() -> Seq<char> {
    seq!['|', '|']
}

/// `term` parsed at `p`: its value and the position just after it.
pub open spec fn parse_term(s: Seq<char>, p: int) -> Option<(bool, int)>
    decreases s.len() - p, 0int,
{
    if p < 0 || p >= s.len() {
        None
    } else if s[p] == '!' {
        proof {
            lemma_skip_blank(s, p + 1);
        }
        match parse_term(s, skip_blank(s, p + 1)) {
            Some((v, q)) => Some((!v, q)),
            None => None,
        }
    } else if s[p] == '(' {
        proof {
            lemma_skip_blank(s, p + 1);
        }
        match parse_or(s, skip_blank(s, p + 1)) {
            Some((v, q)) => {
                let e = skip_blank(s, q);
                if 0 <= e < s.len() && s[e] == ')' {
                    Some((v, e + 1))
                } else {
                    None
                }
            },
            None => None,
        }
    } else if has_at(s, p, word_true()) {
        Some((true, p + 4))
    } else if has_at(s, p, word_false()) {
        Some((false, p + 5))
    } else {
        None
    }
}

/// The repetition `("&&" term)*` of `logical_and` after a prefix of value `acc`
/// that ended at `p`.
pub open spec fn parse_and_rest(s: Seq<char>, p: int, acc: bool) -> Option<(bool, int)>
    decreases s.len() - p, 1int,
{
    if p < 0 || p > s.len() {
        None
    } else {
        let r = skip_blank(s, p);
        proof {
            lemma_skip_blank(s, p);
            lemma_skip_blank(s, r + 2);
        }
        if has_at(s, r, op_and()) {
            match parse_term(s, skip_blank(s, r + 2)) {
                Some((v, q)) => if p < q <= s.len() {
                    parse_and_rest(s, q, acc && v)
                } else {
                    Some((acc, p))
                },
                None => Some((acc, p)),
            }
        } else {
            Some((acc, p))
        }
    }
}

/// `logical_and` parsed at `p`.
pub open spec fn parse_and(s: Seq<char>, p: int) -> Option<(bool, int)>
    decreases s.len() - p, 2int,
{
    if p < 0 || p > s.len() {
        None
    } else {
        match parse_term(s, p) {
            Some((v, q)) => if p < q <= s.len() {
                parse_and_rest(s, q, v)
            } else {
                None
            },
            None => None,
        }
    }
}

/// The repetition `("||" logical_and)*` of `logical_or` after a prefix of
/// value `acc` that ended at `p`.
pub open spec fn parse_or_rest(s: Seq<char>, p: int, acc: bool) -> Option<(bool, int)>
    decreases s.len() - p, 3int,
{
    if p < 0 || p > s.len() {
        None
    } else {
        let r = skip_blank(s, p);
        proof {
            lemma_skip_blank(s, p);
            lemma_skip_blank(s, r + 2);
        }
        if has_at(s, r, op_or()) {
            match parse_and(s, skip_blank(s, r + 2)) {
                Some((v, q)) => if p < q <= s.len() {
                    parse_or_rest(s, q, acc || v)
                } else {
                    Some((acc, p))
                },
                None => Some((acc, p)),
            }
        } else {
            Some((acc, p))
        }
    }
}

/// `logical_or` (and so `expression`) parsed at `p`.
pub open spec fn parse_or(s: Seq<char>, p: int) -> Option<(bool, int)>
    decreases s.len() - p, 4int,
{
    if p < 0 || p > s.len() {
        None
    } else {
        match parse_and(s, p) {
            Some((v, q)) => if p < q <= s.len() {
                parse_or_rest(s, q, v)
            } else {
                None
            },
            None => None,
        }
    }
}

/// `input`: the whole of `s` is one expression, possibly surrounded by blanks.
/// `Some(v)` when `s` is in the language, with `v` its value.
pub open spec fn parse_input(s: Seq<char>) -> Option<bool> {
    match parse_or(s, skip_blank(s, 0)) {
        Some((v, q)) => if skip_blank(s, q) == s.len() {
            Some(v)
        } else {
            None
        },
        None => None,
    }
}

/// The parser of the grammar above.
pub struct BooleanParser;

/// Evaluates boolean expressions written in the grammar above.
pub struct BooleanEvaluator;

/// Relates an executable parse result to its specification.
pub open spec fn same_result(r: Option<(bool, usize)>, spec: Option<(bool, int)>) -> bool {
    match r {
        Some((v, q)) => spec == Some((v, q as int)),
        None => spec is None,
    }
}

impl BooleanParser {
    fn skip_blank(s: &Vec<char>, p: usize) -> (r: usize)
        requires
            p <= s.len(),
        ensures
            r as int == skip_blank(s@, p as int),
            p <= r <= s.len(),
    {
        proof {
            lemma_skip_blank(s@, p as int);
        }
        let mut i = p;
        while i < s.len() && (s[i] == ' ' || s[i] == '\t' || s[i] == '\r' || s[i] == '\n')
            invariant
                p <= i <= s.len(),
                skip_blank(s@, i as int) == skip_blank(s@, p as int),
            decreases s.len() - i,
        {
            i = i + 1;
        }
        i
    }

    fn has_at(s: &Vec<char>, p: usize, t: &[char]) -> (b: bool)
        requires
            p <= s.len(),
        ensures
            b == has_at(s@, p as int, t@),
    {
        if t.len() > s.len() - p {
            return false;
        }
        let mut k: usize = 0;
        while k < t.len()
            invariant
                k <= t.len(),
                p + t.len() <= s.len(),
                forall|j: int| 0 <= j < k ==> s@[p + j] == t@[j],
            decreases t.len() - k,
        {
            if s[p + k] != t[k] {
                assert(s@.subrange(p as int, p + t.len())[k as int] != t@[k as int]);
                return false;
            }
            k = k + 1;
        }
        assert(s@.subrange(p as int, p + t.len()) =~= t@);
        true
    }

    fn term(s: &Vec<char>, p: usize) -> (r: Option<(bool, usize)>)
        requires
            p <= s.len(),
        ensures
            same_result(r, parse_term(s@, p as int)),
            r matches Some((_, q)) ==> p < q <= s.len(),
        decreases s.len() - p, 0int,
    {
        if p >= s.len() {
            return None;
        }
        if s[p] == '!' {
            let r = Self::skip_blank(s, p + 1);
            match Self::term(s, r) {
                Some((v, q)) => Some((!v, q)),
                None => None,
            }
        } else if s[p] == '(' {
            let r = Self::skip_blank(s, p + 1);
            match Self::or(s, r) {
                Some((v, q)) => {
                    let e = Self::skip_blank(s, q);
                    if e < s.len() && s[e] == ')' {
                        Some((v, e + 1))
                    } else {
                        None
                    }
                },
                None => None,
            }
        } else if Self::has_at(s, p, &['t', 'r', 'u', 'e']) {
            assert(seq!['t', 'r', 'u', 'e'] == word_true());
            Some((true, p + 4))
        } else if Self::has_at(s, p, &['f', 'a', 'l', 's', 'e']) {
            assert(seq!['f', 'a', 'l', 's', 'e'] == word_false());
            Some((false, p + 5))
        } else {
            proof {
                assert(seq!['t', 'r', 'u', 'e'] == word_true());
                assert(seq!['f', 'a', 'l', 's', 'e'] == word_false());
            }
            None
        }
    }

    fn and(s: &Vec<char>, p: usize) -> (r: Option<(bool, usize)>)
        requires
            p <= s.len(),
        ensures
            same_result(r, parse_and(s@, p as int)),
            r matches Some((_, q)) ==> p < q <= s.len(),
        decreases s.len() - p, 2int,
    {
        let (mut acc, mut q) = match Self::term(s, p) {
            Some(x) => x,
            None => {
                return None;
            },
        };
        loop
            invariant
                p < q <= s.len(),
                parse_and(s@, p as int) == parse_and_rest(s@, q as int, acc),
            decreases s.len() - q,
        {
            let r = Self::skip_blank(s, q);
            assert(seq!['&', '&'] == op_and());
            if !Self::has_at(s, r, &['&', '&']) {
                return Some((acc, q));
            }
            let t = Self::skip_blank(s, r + 2);
            match Self::term(s, t) {
                Some((v, q2)) => {
                    acc = acc && v;
                    q = q2;
                },
                None => {
                    return Some((acc, q));
                },
            }
        }
    }

    fn or(s: &Vec<char>, p: usize) -> (r: Option<(bool, usize)>)
        requires
            p <= s.len(),
        ensures
            same_result(r, parse_or(s@, p as int)),
            r matches Some((_, q)) ==> p < q <= s.len(),
        decreases s.len() - p, 4int,
    {
        let (mut acc, mut q) = match Self::and(s, p) {
            Some(x) => x,
            None => {
                return None;
            },
        };
        loop
            invariant
                p < q <= s.len(),
                parse_or(s@, p as int) == parse_or_rest(s@, q as int, acc),
            decreases s.len() - q,
        {
            let r = Self::skip_blank(s, q);
            assert(seq!['|', '|'] == op_or());
            if !Self::has_at(s, r, &['|', '|']) {
                return Some((acc, q));
            }
            let t = Self::skip_blank(s, r + 2);
            match Self::and(s, t) {
                Some((v, q2)) => {
                    acc = acc || v;
                    q = q2;
                },
                None => {
                    return Some((acc, q));
                },
            }
        }
    }

    /// Parses the whole of `s` as `input`; `Some(v)` for a sentence of value `v`.
    pub fn parse(s: &Vec<char>) -> (r: Option<bool>)
        ensures
            r == parse_input(s@),
    {
        let p = Self::skip_blank(s, 0);
        match Self::or(s, p) {
            Some((v, q)) => {
                if Self::skip_blank(s, q) == s.len() {
                    Some(v)
                } else {
                    None
                }
            },
            None => None,
        }
    }
}

impl BooleanEvaluator {
    /// Parses and evaluates `expr`. `Ok(v)` exactly when `expr` is a sentence of
    /// the grammar, `v` being its value; otherwise a syntax error.
    pub fn eval(expr: &str) -> (res: Result<bool, String>)
        ensures
            res matches Ok(v) ==> parse_input(expr@) == Some(v),
            res is Err <==> parse_input(expr@) is None,
            res matches Err(m) ==> m@ == syntax_error_message(expr@),
    {
        let chars = to_chars(expr);
        match BooleanParser::parse(&chars) {
            Some(v) => Ok(v),
            None => {
                let mut m = to_chars("语法错误: ");
                push_all(&mut m, &chars);
                Err(from_chars(&m))
            },
        }
    }
}

/// The message of a syntax error for `expr`: the text that failed to parse.
pub open spec fn syntax_error_message(expr: Seq<char>) -> Seq<char> {
    "语法错误: "@ + expr
}

} // verus!
