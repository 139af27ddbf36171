//! Port scanning: the arguments and the port list syntax
//! (`80,443,8080`, `1-1000`, `80,443,1000-2000`).
use vstd::prelude::*;

use crate::text::{
    decimal, digit_of, find_char, index_of, is_decimal_digit, law_decimal_value, lemma_numeral_nonneg,
    numeral_value, pieces_view, split_acc, split_char, split_chars, to_chars,
};

verus! {

/// The arguments of the `port` command.
#[derive(Debug)]
pub struct PortArgs {
    /// Target host or network.
    pub target: String,
    /// Port list, `1-65535` by default.
    pub ports: String,
}

/// Why a port number does not parse (the kinds of `u16::from_str` errors).
#[derive(Debug, Clone, Copy, PartialEq, Eq)]
pub enum PortError {
    /// The text is empty.
    Empty,
    /// A character is not a decimal digit.
    InvalidDigit,
    /// The number exceeds 65535.
    PosOverflow,
}

impl PortError {
    /// The message that std gives for this kind of error.
    pub fn message(&self) -> (s: &'static str)
        ensures
            s@ == match *self {
                PortError::Empty => "cannot parse integer from empty string"@,
                PortError::InvalidDigit => "invalid digit found in string"@,
                PortError::PosOverflow => "number too large to fit in target type"@,
            },
    {
        match self {
            PortError::Empty => "cannot parse integer from empty string",
            PortError::InvalidDigit => "invalid digit found in string",
            PortError::PosOverflow => "number too large to fit in target type",
        }
    }
}

pub open spec fn is_digit(c: char) -> bool {
    '0' <= c && c <= '9'
}

pub open spec fn digit_value(c: char) -> int {
    c as int - '0' as int
}

/// The value of the first `n` characters of `d` as decimal digits, failing at
/// the first non-digit or as soon as the value exceeds 65535.
pub open spec fn digits_value(d: Seq<char>, n: nat) -> Result<int, PortError>
    decreases n,
{
    if n == 0 {
        Ok(0)
    } else {
        match digits_value(d, (n - 1) as nat) {
            Err(e) => Err(e),
            Ok(v) => if !is_digit(d[n - 1]) {
                Err(PortError::InvalidDigit)
            } else if v * 10 + digit_value(d[n - 1]) > 65535 {
                Err(PortError::PosOverflow)
            } else {
                Ok(v * 10 + digit_value(d[n - 1]))
            },
        }
    }
}

proof fn lemma_digits_value_range(d: Seq<char>, n: nat)
    ensures
        digits_value(d, n) matches Ok(v) ==> 0 <= v <= 65535,
    decreases n,
{
    if n > 0 {
        lemma_digits_value_range(d, (n - 1) as nat);
    }
}

/// `u16::from_str(s)`: an optional `+`, then decimal digits.
pub open spec fn parse_u16(s: Seq<char>) -> Result<int, PortError> {
    if s.len() == 0 {
        Err(PortError::Empty)
    } else if s.len() == 1 && (s[0] == '+' || s[0] == '-') {
        Err(PortError::InvalidDigit)
    } else {
        let d = if s[0] == '+' {
            s.drop_first()
        } else {
            s
        };
        digits_value(d, d.len())
    }
}

fn parse_u16_chars(s: &Vec<char>) -> (r: Result<u16, PortError>)
    ensures
        match r {
            Ok(v) => parse_u16(s@) == Ok::<int, PortError>(v as int),
            Err(e) => parse_u16(s@) == Err::<int, PortError>(e),
        },
{
    if s.len() == 0 {
        return Err(PortError::Empty);
    }
    if s.len() == 1 && (s[0] == '+' || s[0] == '-') {
        return Err(PortError::InvalidDigit);
    }
    let start: usize = if s[0] == '+' {
        1
    } else {
        0
    };
    let ghost d = if s@[0] == '+' {
        s@.drop_first()
    } else {
        s@
    };
    assert(d == s@.skip(start as int));
    assert(parse_u16(s@) == digits_value(d, d.len()));
    let mut v: u32 = 0;
    let mut i: usize = start;
    while i < s.len()
        invariant
            start <= i <= s.len(),
            d == s@.skip(start as int),
            parse_u16(s@) == digits_value(d, d.len()),
            digits_value(d, (i - start) as nat) == Ok::<int, PortError>(v as int),
            v <= 65535,
        decreases s.len() - i,
    {
        let c = s[i];
        assert(d[i - start] == c);
        if !('0' <= c && c <= '9') {
            proof {
                assert(digits_value(d, (i - start + 1) as nat) == Err::<int, PortError>(
                    PortError::InvalidDigit,
                ));
                lemma_digits_value_err(d, (i - start + 1) as nat, d.len());
            }
            return Err(PortError::InvalidDigit);
        }
        let dv = (c as u32) - ('0' as u32);
        assert(dv == digit_value(c));
        if v * 10 + dv > 65535 {
            proof {
                assert(digits_value(d, (i - start + 1) as nat) == Err::<int, PortError>(
                    PortError::PosOverflow,
                ));
                lemma_digits_value_err(d, (i - start + 1) as nat, d.len());
            }
            return Err(PortError::PosOverflow);
        }
        v = v * 10 + dv;
        i += 1;
    }
    Ok(v as u16)
}

proof fn lemma_digits_value_err(d: Seq<char>, k: nat, n: nat)
    requires
        k <= n,
        digits_value(d, k) is Err,
    ensures
        digits_value(d, n) == digits_value(d, k),
    decreases n,
{
    if k < n {
        lemma_digits_value_err(d, k, (n - 1) as nat);
    }
}

/// The ports that one comma-separated part of a port list denotes: a range
/// `a-b` (empty when `a > b`), nothing for a part with more than one `-`, or
/// a single port.
pub open spec fn part_ports(part: Seq<char>) -> Result<Set<int>, PortError> {
    if index_of(part, '-') is Some {
        let rp = split_char(part, '-');
        if rp.len() == 2 {
            match parse_u16(rp[0]) {
                Err(e) => Err(e),
                Ok(a) => match parse_u16(rp[1]) {
                    Err(e) => Err(e),
                    Ok(b) => Ok(Set::new(|x: int| a <= x <= b)),
                },
            }
        } else {
            Ok(Set::empty())
        }
    } else {
        match parse_u16(part) {
            Err(e) => Err(e),
            Ok(p) => Ok(Set::empty().insert(p)),
        }
    }
}

/// The ports of the first `n` parts, or the first error.
pub open spec fn parts_ports(parts: Seq<Seq<char>>, n: nat) -> Result<Set<int>, PortError>
    decreases n,
{
    if n == 0 {
        Ok(Set::empty())
    } else {
        match parts_ports(parts, (n - 1) as nat) {
            Err(e) => Err(e),
            Ok(s) => match part_ports(parts[n - 1]) {
                Err(e) => Err(e),
                Ok(t) => Ok(s.union(t)),
            },
        }
    }
}

/// The set of ports that the port list `s` denotes, or the first error.
pub open spec fn port_list(s: Seq<char>) -> Result<Set<int>, PortError> {
    let parts = split_char(s, ',');
    parts_ports(parts, parts.len())
}

proof fn lemma_parts_ports_err(parts: Seq<Seq<char>>, k: nat, n: nat)
    requires
        k <= n,
        parts_ports(parts, k) is Err,
    ensures
        parts_ports(parts, n) == parts_ports(parts, k),
    decreases n,
{
    if k < n {
        lemma_parts_ports_err(parts, k, (n - 1) as nat);
    }
}

proof fn lemma_split_acc_concat(a: Seq<char>, c: char, b: Seq<char>, cur: Seq<char>)
    ensures
        split_acc(a + seq![c] + b, c, cur) == split_acc(a, c, cur) + split_acc(b, c, seq![]),
    decreases a.len(),
{
    let s = a + seq![c] + b;
    if a.len() == 0 {
        assert(s =~= seq![c] + b);
        assert(s.drop_first() =~= b);
    } else {
        assert(s[0] == a[0]);
        assert(s.drop_first() =~= a.drop_first() + seq![c] + b);
        if a[0] == c {
            lemma_split_acc_concat(a.drop_first(), c, b, seq![]);
            assert(seq![cur] + (split_acc(a.drop_first(), c, seq![]) + split_acc(b, c, seq![]))
                =~= (seq![cur] + split_acc(a.drop_first(), c, seq![])) + split_acc(b, c, seq![]));
        } else {
            lemma_split_acc_concat(a.drop_first(), c, b, cur.push(a[0]));
        }
    }
}

/// The ports of `p` followed by the first `k` parts of `q`.
proof fn lemma_parts_ports_concat(p: Seq<Seq<char>>, q: Seq<Seq<char>>, k: nat)
    requires
        k <= q.len(),
    ensures
        parts_ports(p + q, p.len() + k) == (match parts_ports(p, p.len()) {
            Err(e) => Err(e),
            Ok(x) => match parts_ports(q, k) {
                Err(e) => Err(e),
                Ok(y) => Ok(x.union(y)),
            },
        }),
    decreases k,
{
    if k == 0 {
        assert forall|n: nat| n <= p.len() implies parts_ports(p + q, n) == parts_ports(p, n) by {
            lemma_parts_ports_prefix(p, q, n);
        }
        match parts_ports(p, p.len()) {
            Ok(x) => {
                assert(x.union(Set::empty()) =~= x);
            },
            Err(_) => {},
        }
    } else {
        lemma_parts_ports_concat(p, q, (k - 1) as nat);
        assert((p + q)[p.len() + k - 1] == q[k - 1]);
        match parts_ports(p, p.len()) {
            Ok(x) => match parts_ports(q, (k - 1) as nat) {
                Ok(y) => match part_ports(q[k - 1]) {
                    Ok(t) => {
                        assert(x.union(y).union(t) =~= x.union(y.union(t)));
                    },
                    Err(_) => {},
                },
                Err(_) => {},
            },
            Err(_) => {},
        }
    }
}

proof fn lemma_parts_ports_prefix(p: Seq<Seq<char>>, q: Seq<Seq<char>>, n: nat)
    requires
        n <= p.len(),
    ensures
        parts_ports(p + q, n) == parts_ports(p, n),
    decreases n,
{
    if n > 0 {
        lemma_parts_ports_prefix(p, q, (n - 1) as nat);
        assert((p + q)[n - 1] == p[n - 1]);
    }
}

/// Port lists compose: the list `a,b` denotes the ports of `a` together with
/// those of `b`; when either fails, the first failure (that of `a`) is the
/// result.
pub proof fn law_port_list_concat(a: Seq<char>, b: Seq<char>)
    ensures
        port_list(a + seq![','] + b) == (match port_list(a) {
            Err(e) => Err(e),
            Ok(x) => match port_list(b) {
                Err(e) => Err(e),
                Ok(y) => Ok(x.union(y)),
            },
        }),
{
    lemma_split_acc_concat(a, ',', b, seq![]);
    let p = split_char(a, ',');
    let q = split_char(b, ',');
    assert(split_char(a + seq![','] + b, ',') == p + q);
    lemma_parts_ports_concat(p, q, q.len());
}

proof fn lemma_digits_value_numeral(d: Seq<char>, k: nat)
    requires
        k <= d.len(),
        forall|i: int| 0 <= i < d.len() ==> is_decimal_digit(#[trigger] d[i]),
    ensures
        digits_value(d, k) == (if numeral_value(d.take(k as int)) <= 65535 {
            Ok::<int, PortError>(numeral_value(d.take(k as int)))
        } else {
            Err::<int, PortError>(PortError::PosOverflow)
        }),
    decreases k,
{
    if k == 0 {
        assert(d.take(0) =~= Seq::<char>::empty());
    } else {
        let t = d.take(k as int);
        let u = d.take(k - 1);
        assert(t.drop_last() =~= u);
        assert(t.last() == d[k - 1]);
        assert(forall|i: int| 0 <= i < u.len() ==> is_decimal_digit(#[trigger] u[i])) by {
            assert(forall|i: int| 0 <= i < u.len() ==> u[i] == d[i]);
        }
        lemma_numeral_nonneg(u);
        assert(is_decimal_digit(d[k - 1]));
        assert(numeral_value(t) == numeral_value(u) * 10 + digit_of(d[k - 1]));
        lemma_digits_value_numeral(d, (k - 1) as nat);
    }
}

/// A string of decimal digits, however many leading zeros it has, is the
/// port number it writes when that is at most 65535, and too large a number
/// otherwise; a `+` in front changes nothing.
pub proof fn law_parse_u16_numeral(d: Seq<char>)
    requires
        d.len() > 0,
        forall|i: int| 0 <= i < d.len() ==> is_decimal_digit(#[trigger] d[i]),
    ensures
        parse_u16(d) == (if numeral_value(d) <= 65535 {
            Ok::<int, PortError>(numeral_value(d))
        } else {
            Err::<int, PortError>(PortError::PosOverflow)
        }),
        parse_u16(seq!['+'] + d) == parse_u16(d),
{
    assert(is_decimal_digit(d[0]));
    assert(d.take(d.len() as int) =~= d);
    lemma_digits_value_numeral(d, d.len());
    let e = seq!['+'] + d;
    assert(e[0] == '+');
    assert(e.drop_first() =~= d);
}

proof fn lemma_split_acc_without(s: Seq<char>, c: char, cur: Seq<char>)
    requires
        forall|i: int| 0 <= i < s.len() ==> s[i] != c,
    ensures
        split_acc(s, c, cur) == seq![cur + s],
    decreases s.len(),
{
    if s.len() == 0 {
        assert(cur + s =~= cur);
    } else {
        assert(s[0] != c);
        let t = s.drop_first();
        assert(forall|i: int| 0 <= i < t.len() ==> t[i] == s[i + 1]);
        lemma_split_acc_without(t, c, cur.push(s[0]));
        assert(cur.push(s[0]) + t =~= cur + s);
    }
}

proof fn lemma_index_of_without(s: Seq<char>, c: char)
    requires
        forall|i: int| 0 <= i < s.len() ==> s[i] != c,
    ensures
        index_of(s, c) is None,
    decreases s.len(),
{
    if s.len() > 0 {
        assert(s[0] != c);
        let t = s.drop_first();
        assert(forall|i: int| 0 <= i < t.len() ==> t[i] == s[i + 1]);
        lemma_index_of_without(t, c);
    }
}

/// A single port: the port list written as the decimal form of `n` denotes
/// exactly the port `n` when `n` is at most 65535, and is too large a number
/// otherwise.
pub proof fn law_port_list_single(n: nat)
    ensures
        port_list(decimal(n)) == (if n <= 65535 {
            Ok::<Set<int>, PortError>(Set::empty().insert(n as int))
        } else {
            Err::<Set<int>, PortError>(PortError::PosOverflow)
        }),
{
    let s = decimal(n);
    law_decimal_value(n);
    assert(forall|i: int| 0 <= i < s.len() ==> s[i] != ',' && s[i] != '-') by {
        assert(forall|i: int| 0 <= i < s.len() ==> is_decimal_digit(#[trigger] s[i]));
    }
    lemma_split_acc_without(s, ',', seq![]);
    assert(seq![] + s =~= s);
    assert(split_char(s, ',') == seq![s]);
    lemma_index_of_without(s, '-');
    law_parse_u16_numeral(s);
    let parts = split_char(s, ',');
    assert(parts.len() == 1 && parts[0] == s);
    assert(parts_ports(parts, 0) == Ok::<Set<int>, PortError>(Set::empty()));
    if n <= 65535 {
        assert(parse_u16(s) == Ok::<int, PortError>(n as int));
        let one = Set::<int>::empty().insert(n as int);
        assert(part_ports(s) == Ok::<Set<int>, PortError>(one));
        assert(Set::<int>::empty().union(one) =~= one);
        assert(parts_ports(parts, 1) == Ok::<Set<int>, PortError>(Set::<int>::empty().union(one)));
    } else {
        assert(part_ports(s) == Err::<Set<int>, PortError>(PortError::PosOverflow));
    }
}

/// A range: for all `a` and `b` up to 65535, the port list `a-b` written in
/// decimal denotes the ports from `a` to `b` (none when `a > b`).
pub proof fn law_port_list_range(a: nat, b: nat)
    requires
        a <= 65535,
        b <= 65535,
    ensures
        port_list(decimal(a) + seq!['-'] + decimal(b)) == Ok::<Set<int>, PortError>(
            Set::new(|x: int| a <= x <= b),
        ),
{
    let da = decimal(a);
    let db = decimal(b);
    let s = da + seq!['-'] + db;
    law_decimal_value(a);
    law_decimal_value(b);
    assert(forall|i: int| 0 <= i < da.len() ==> da[i] != ',' && da[i] != '-') by {
        assert(forall|i: int| 0 <= i < da.len() ==> is_decimal_digit(#[trigger] da[i]));
    }
    assert(forall|i: int| 0 <= i < db.len() ==> db[i] != ',' && db[i] != '-') by {
        assert(forall|i: int| 0 <= i < db.len() ==> is_decimal_digit(#[trigger] db[i]));
    }
    assert(forall|i: int| 0 <= i < s.len() ==> s[i] != ',') by {
        assert forall|i: int| 0 <= i < s.len() implies s[i] != ',' by {
            if i < da.len() {
                assert(s[i] == da[i]);
            } else if i > da.len() {
                assert(s[i] == db[i - da.len() - 1]);
            }
        }
    }
    lemma_split_acc_without(s, ',', seq![]);
    assert(seq![] + s =~= s);
    let parts = split_char(s, ',');
    assert(parts.len() == 1 && parts[0] == s);
    // the part is cut at its one `-`
    assert(s[da.len() as int] == '-');
    assert(index_of(s, '-') is Some) by {
        lemma_index_of_witness(s, '-', da.len() as int);
    }
    lemma_split_acc_concat(da, '-', db, seq![]);
    lemma_split_acc_without(da, '-', seq![]);
    lemma_split_acc_without(db, '-', seq![]);
    assert(seq![] + da =~= da);
    assert(seq![] + db =~= db);
    let rp = split_char(s, '-');
    assert(rp =~= seq![da, db]);
    law_parse_u16_numeral(da);
    law_parse_u16_numeral(db);
    let r = Set::new(|x: int| a <= x <= b);
    assert(part_ports(s) == Ok::<Set<int>, PortError>(r));
    assert(parts_ports(parts, 0) == Ok::<Set<int>, PortError>(Set::empty()));
    assert(Set::<int>::empty().union(r) =~= r);
    assert(parts_ports(parts, 1) == Ok::<Set<int>, PortError>(Set::<int>::empty().union(r)));
}

proof fn lemma_index_of_witness(s: Seq<char>, c: char, i: int)
    requires
        0 <= i < s.len(),
        s[i] == c,
    ensures
        index_of(s, c) is Some,
    decreases s.len(),
{
    if s[0] != c {
        let t = s.drop_first();
        assert(t[i - 1] == c);
        lemma_index_of_witness(t, c, i - 1);
    }
}

/// `v` is strictly increasing.
pub open spec fn strictly_increasing(v: Seq<u16>) -> bool {
    forall|i: int, j: int| 0 <= i < j < v.len() ==> v[i] < v[j]
}

/// Marks the ports `a..=b` in `present`.
fn mark_range(present: &mut Vec<bool>, a: u16, b: u16)
    requires
        old(present).len() == 65536,
    ensures
        final(present).len() == 65536,
        forall|x: int|
            0 <= x < 65536 ==> #[trigger] final(present)@[x] == (old(present)@[x] || (a <= x
                <= b)),
{
    if a > b {
        assert(forall|x: int| 0 <= x < 65536 ==> #[trigger] present@[x] == (old(present)@[x] || (a
            <= x <= b)));
        return ;
    }
    let mut x: u32 = a as u32;
    while x <= b as u32
        invariant
            present.len() == 65536,
            a <= x <= b as u32 + 1,
            forall|y: int|
                0 <= y < 65536 ==> #[trigger] present@[y] == (old(present)@[y] || (a <= y < x)),
        decreases b as u32 + 1 - x,
    {
        present.set(x as usize, true);
        x += 1;
    }
}

/// Parses a port list such as `80,443,1000-1002`: the ports it denotes, in
/// increasing order and each once.
pub fn parse_ports(ports_str: &str) -> (r: Result<Vec<u16>, PortError>)
    ensures
        r is Ok <==> port_list(ports_str@) is Ok,
        r matches Err(e) ==> port_list(ports_str@) == Err::<Set<int>, PortError>(e),
        r matches Ok(v) ==> strictly_increasing(v@) && (forall|x: int|
            #[trigger] (port_list(ports_str@)->Ok_0).contains(x) ==> 0 <= x < 65536) && (forall|
            x: u16,
        |
            #[trigger] v@.contains(x) <==> (port_list(ports_str@)->Ok_0).contains(x as int)),
{
    let chars = to_chars(ports_str);
    let parts = split_chars(&chars, ',');
    let ghost pv = pieces_view(parts@);
    let mut present: Vec<bool> = Vec::new();
    while present.len() < 65536
        invariant
            present.len() <= 65536,
            forall|y: int| 0 <= y < present.len() ==> !#[trigger] present@[y],
        decreases 65536 - present.len(),
    {
        present.push(false);
    }
    let ghost mut cur: Set<int> = Set::empty();
    let mut i: usize = 0;
    while i < parts.len()
        invariant
            i <= parts.len(),
            pv == pieces_view(parts@),
            pv == split_char(chars@, ','),
            chars@ == ports_str@,
            present.len() == 65536,
            parts_ports(pv, i as nat) == Ok::<Set<int>, PortError>(cur),
            forall|y: int| cur.contains(y) ==> 0 <= y < 65536,
            forall|y: int| 0 <= y < 65536 ==> #[trigger] present@[y] == cur.contains(y),
        decreases parts.len() - i,
    {
        let part = &parts[i];
        assert(pv[i as int] == part@);
        let ghost old_cur = cur;
        match find_char(part, '-') {
            Some(_) => {
                let rp = split_chars(part, '-');
                if rp.len() == 2 {
                    assert(pieces_view(rp@)[0] == rp@[0]@);
                    assert(pieces_view(rp@)[1] == rp@[1]@);
                    let a = match parse_u16_chars(&rp[0]) {
                        Ok(a) => a,
                        Err(e) => {
                            proof {
                                lemma_parts_ports_err(pv, (i + 1) as nat, pv.len());
                            }
                            return Err(e);
                        },
                    };
                    let b = match parse_u16_chars(&rp[1]) {
                        Ok(b) => b,
                        Err(e) => {
                            proof {
                                lemma_parts_ports_err(pv, (i + 1) as nat, pv.len());
                            }
                            return Err(e);
                        },
                    };
                    mark_range(&mut present, a, b);
                    proof {
                        cur = old_cur.union(Set::new(|x: int| a <= x <= b));
                    }
                } else {
                    proof {
                        assert(old_cur.union(Set::empty()) =~= old_cur);
                    }
                }
            },
            None => {
                let p = match parse_u16_chars(part) {
                    Ok(p) => p,
                    Err(e) => {
                        proof {
                            lemma_parts_ports_err(pv, (i + 1) as nat, pv.len());
                        }
                        return Err(e);
                    },
                };
                present.set(p as usize, true);
                proof {
                    cur = old_cur.union(Set::empty().insert(p as int));
                }
            },
        }
        assert(parts_ports(pv, (i + 1) as nat) == Ok::<Set<int>, PortError>(cur));
        i += 1;
    }
    assert(pv.len() == parts.len());
    let mut out: Vec<u16> = Vec::new();
    let mut k: u32 = 0;
    while k < 65536
        invariant
            k <= 65536,
            present.len() == 65536,
            forall|y: int| 0 <= y < 65536 ==> #[trigger] present@[y] == cur.contains(y),
            strictly_increasing(out@),
            forall|j: int| 0 <= j < out.len() ==> out@[j] < k,
            forall|x: u16| #[trigger] out@.contains(x) <==> (x < k && cur.contains(x as int)),
        decreases 65536 - k,
    {
        let ghost old_out = out@;
        if present[k as usize] {
            let kk = k as u16;
            out.push(kk);
            assert forall|x: u16| #[trigger] out@.contains(x) <==> (x < k + 1 && cur.contains(
                x as int,
            )) by {
                if old_out.contains(x) {
                    let j = choose|j: int| 0 <= j < old_out.len() && old_out[j] == x;
                    assert(out@[j] == x);
                }
                if out@.contains(x) {
                    let j = choose|j: int| 0 <= j < out@.len() && out@[j] == x;
                    if j < old_out.len() {
                        assert(old_out[j] == x);
                    }
                }
                if x == kk {
                    assert(out@[old_out.len() as int] == x);
                }
            }
        } else {
            assert forall|x: u16| #[trigger] out@.contains(x) <==> (x < k + 1 && cur.contains(
                x as int,
            )) by {
                if x == k {
                    assert(!old_out.contains(x));
                }
            }
        }
        k += 1;
    }
    Ok(out)
}

} // verus!
