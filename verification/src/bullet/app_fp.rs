//! Application fingerprints: a product name with a rule over the fields of a
//! [`Banner`], such as `(Body="Swagger UI" || Header="x") && Title!="404"`.
//!
//! A rule is parsed into its parameters (`keyword operator "value"`) and a
//! logical skeleton in which the n-th parameter is written `${n}`; matching a
//! banner fills the skeleton with `true` / `false` and evaluates it.
use vstd::prelude::*;

use crate::models::{is_valid_keyword, valid_keywords, Banner};
use crate::parser::bool_laws::law_literals;
use crate::parser::bool_parse::{
    parse_input, syntax_error_message, word_false, word_true, BooleanEvaluator,
};
use crate::pattern::{
    regex_all_match_texts, regex_compiles, regex_first_captures, regex_first_groups,
    regex_found, regex_is_match, regex_is_valid, regex_match_texts, regex_replace_all,
    regex_replaced,
};
use crate::text::{
    chars_eq, contains, contains_exec, occurs_at, decimal, decimal_chars, from_chars,
    lowercase, push_all, replace_all, replace_all_chars, replace_first, replace_first_chars,
    to_chars, to_lowercase_string, trim, trim_chars,
};

verus! {

/// One parameter of a rule: `keyword`, an operator, and a quoted value.
pub const PARAM_PATTERN: &'static str = r#"(\w+)\s*([=!~]=?)\s*"([^"]*?)""#;

/// A placeholder `${n}` of the logical skeleton.
pub const SYNTAX_PATTERN: &'static str = r"\$\{\d+\}";

/// The tokens of a boolean skeleton once its placeholders are filled.
pub const BOOL_SYNTAX_PATTERN: &'static str = r"true|false|&|\||\(|\)";

/// Error of building or loading fingerprints.
#[derive(Debug, Clone)]
pub struct AppFingerError {
    message: String,
}

impl AppFingerError {
    pub closed spec fn msg(&self) -> Seq<char> {
        self.message@
    }

    pub fn new(msg: &str) -> (e: Self)
        ensures
            e.msg() == msg@,
    {
        Self { message: msg.to_owned() }
    }

    pub fn from_chars(msg: &Vec<char>) -> (e: Self)
        ensures
            e.msg() == msg@,
    {
        Self { message: from_chars(msg) }
    }

    /// The message given at construction.
    pub fn message(&self) -> (m: &String)
        ensures
            m@ == self.msg(),
    {
        &self.message
    }

    /// `AppFingerError = <message>`.
    pub fn to_string(&self) -> (s: String)
        ensures
            s@ == display_error(self.msg()),
    {
        let mut v = to_chars("AppFingerError = ");
        push_all(&mut v, &to_chars(self.message.as_str()));
        from_chars(&v)
    }
}

/// How an [`AppFingerError`] with message `m` is displayed.
pub open spec fn display_error(m: Seq<char>) -> Seq<char> {
    "AppFingerError = "@ + m
}

/// An error whose message is `prefix` followed by `tail`.
fn error_with(prefix: &str, tail: &Vec<char>) -> (e: AppFingerError)
    ensures
        e.msg() == prefix@ + tail@,
{
    let mut v = to_chars(prefix);
    push_all(&mut v, tail);
    AppFingerError::from_chars(&v)
}

/// The comparison that a parameter makes.
#[derive(Debug, Clone, Copy, PartialEq, Eq)]
pub enum Operator {
    /// `!=`: the field does not contain the value.
    NotEqual,
    /// `=`: the field contains the value.
    Equal,
    /// `~=`: the value, as a regular expression, matches the field.
    RegexEqual,
    /// `==`: the field is the value.
    SuperEqual,
}

/// The operator written `s`, if any.
pub open spec fn operator_of(s: Seq<char>) -> Option<Operator> {
    if s == seq!['!', '='] {
        Some(Operator::NotEqual)
    } else if s == seq!['='] {
        Some(Operator::Equal)
    } else if s == seq!['~', '='] {
        Some(Operator::RegexEqual)
    } else if s == seq!['=', '='] {
        Some(Operator::SuperEqual)
    } else {
        None
    }
}

/// How `op` is written.
pub open spec fn operator_text(op: Operator) -> Seq<char> {
    match op {
        Operator::NotEqual => seq!['!', '='],
        Operator::Equal => seq!['='],
        Operator::RegexEqual => seq!['~', '='],
        Operator::SuperEqual => seq!['=', '='],
    }
}

impl Operator {
    /// The operator written `s`; otherwise an error naming `s`.
    pub fn from_chars(s: &Vec<char>) -> (r: Result<Operator, AppFingerError>)
        ensures
            r matches Ok(op) ==> operator_of(s@) == Some(op),
            r matches Err(e) ==> operator_of(s@) is None && e.msg() == "未知的表达式类型: "@ + s@,
    {
        let ne = vec!['!', '='];
        let eq = vec!['='];
        let re = vec!['~', '='];
        let se = vec!['=', '='];
        assert(ne@ =~= seq!['!', '=']);
        assert(eq@ =~= seq!['=']);
        assert(re@ =~= seq!['~', '=']);
        assert(se@ =~= seq!['=', '=']);
        if chars_eq(s, &ne) {
            Ok(Operator::NotEqual)
        } else if chars_eq(s, &eq) {
            Ok(Operator::Equal)
        } else if chars_eq(s, &re) {
            Ok(Operator::RegexEqual)
        } else if chars_eq(s, &se) {
            Ok(Operator::SuperEqual)
        } else {
            Err(error_with("未知的表达式类型: ", s))
        }
    }

    /// How the operator is written.
    pub fn text(&self) -> (r: Vec<char>)
        ensures
            r@ == operator_text(*self),
    {
        match self {
            Operator::NotEqual => vec!['!', '='],
            Operator::Equal => vec!['='],
            Operator::RegexEqual => vec!['~', '='],
            Operator::SuperEqual => vec!['=', '='],
        }
    }
}

/// `\[quota\]`: stands for an escaped quote inside a rule while it is parsed.
pub open spec fn quota_token() -> Seq<char> {
    seq!['\\', '[', 'q', 'u', 'o', 't', 'a', '\\', ']']
}

/// `\"`: an escaped quote in a rule.
pub open spec fn escaped_quote() -> Seq<char> {
    seq!['\\', '"']
}

fn quota_token_exec() -> (r: Vec<char>)
    ensures
        r@ == quota_token(),
{
    vec!['\\', '[', 'q', 'u', 'o', 't', 'a', '\\', ']']
}

fn escaped_quote_exec() -> (r: Vec<char>)
    ensures
        r@ == escaped_quote(),
{
    vec!['\\', '"']
}

/// A parameter, as plain values.
pub struct ParamView {
    pub keyword: Seq<char>,
    pub value: Seq<char>,
    pub operator: Operator,
}

/// One comparison of a rule.
#[derive(Debug, Clone)]
pub struct Param {
    keyword: String,
    value: String,
    operator: Operator,
}

impl View for Param {
    type V = ParamView;

    closed spec fn view(&self) -> ParamView {
        ParamView { keyword: self.keyword@, value: self.value@, operator: self.operator }
    }
}

/// The message of a parameter text that the parameter pattern does not match.
pub open spec fn unknown_param_message(expr: Seq<char>) -> Seq<char> {
    "未知的参数表达式: "@ + expr
}

/// The message given when a fixed pattern of the rules does not compile.
pub open spec fn broken_pattern_message() -> Seq<char> {
    "指纹匹配表达式编译失败"@
}

/// `Param::new(expr)`: the parameter that the first match of the parameter
/// pattern in `expr` describes, or the message of the error.
pub open spec fn param_new(expr: Seq<char>) -> Result<ParamView, Seq<char>> {
    if !regex_compiles(PARAM_PATTERN@) {
        Err(broken_pattern_message())
    } else {
        match regex_first_groups(PARAM_PATTERN@, expr) {
            None => Err(unknown_param_message(expr)),
            Some(g) => {
                if g.len() < 4 || g[1] is None || g[2] is None || g[3] is None {
                    Err(unknown_param_message(expr))
                } else {
                    let keyword = g[1]->0;
                    let op = g[2]->0;
                    let raw = g[3]->0;
                    if !valid_keywords().contains(lowercase(keyword)) {
                        Err("未知的HTTP Banner关键字: "@ + keyword)
                    } else {
                        match operator_of(op) {
                            None => Err("未知的表达式类型: "@ + op),
                            Some(operator) => Ok(
                                ParamView {
                                    keyword,
                                    value: replace_all(raw, quota_token(), seq!['"']),
                                    operator,
                                },
                            ),
                        }
                    }
                }
            },
        }
    }
}

/// Whether the parameter `p` holds of `banner`.
pub open spec fn param_matches(p: ParamView, banner: Banner) -> bool {
    match banner.field(p.keyword) {
        None => false,
        Some(f) => match p.operator {
            Operator::NotEqual => !contains(f, p.value),
            Operator::Equal => contains(f, p.value),
            Operator::RegexEqual => regex_compiles(p.value) && regex_found(p.value, f),
            Operator::SuperEqual => f == p.value,
        },
    }
}

/// `Param(<keyword>,<value>,<operator>)`.
pub open spec fn display_param(p: ParamView) -> Seq<char> {
    "Param("@ + p.keyword + seq![','] + p.value + seq![','] + operator_text(p.operator) + seq![')']
}

impl Param {
    pub fn new(expr: &str) -> (r: Result<Self, AppFingerError>)
        ensures
            r matches Ok(p) ==> param_new(expr@) == Ok::<ParamView, Seq<char>>(p@),
            r matches Err(e) ==> param_new(expr@) == Err::<ParamView, Seq<char>>(e.msg()),
    {
        let expr_chars = to_chars(expr);
        if !regex_is_valid(PARAM_PATTERN) {
            return Err(AppFingerError::new("指纹匹配表达式编译失败"));
        }
        let caps = match regex_first_captures(PARAM_PATTERN, expr) {
            Some(c) => c,
            None => {
                return Err(error_with("未知的参数表达式: ", &expr_chars));
            },
        };
        if caps.len() < 4 {
            return Err(error_with("未知的参数表达式: ", &expr_chars));
        }
        assert(caps.deep_view()[1] == caps@[1].deep_view());
        assert(caps.deep_view()[2] == caps@[2].deep_view());
        assert(caps.deep_view()[3] == caps@[3].deep_view());
        let (keyword, operator_str, value_raw) = match (&caps[1], &caps[2], &caps[3]) {
            (Some(k), Some(o), Some(v)) => (k, o, v),
            _ => {
                return Err(error_with("未知的参数表达式: ", &expr_chars));
            },
        };
        let ghost g = regex_first_groups(PARAM_PATTERN@, expr@)->0;
        assert(g[1] == Some(keyword@));
        assert(g[2] == Some(operator_str@));
        assert(g[3] == Some(value_raw@));
        let lower = to_lowercase_string(keyword.as_str());
        if !is_valid_keyword(&lower) {
            return Err(error_with("未知的HTTP Banner关键字: ", &to_chars(keyword.as_str())));
        }
        let operator = match Operator::from_chars(&to_chars(operator_str.as_str())) {
            Ok(op) => op,
            Err(e) => {
                return Err(e);
            },
        };
        let dq = vec!['"'];
        assert(dq@ =~= seq!['"']);
        let value = replace_all_chars(&to_chars(value_raw.as_str()), &quota_token_exec(), &dq);
        Ok(Param { keyword: keyword.clone(), value: from_chars(&value), operator })
    }

    pub fn matches(&self, banner: &Banner) -> (b: bool)
        ensures
            b == param_matches(self@, *banner),
    {
        let field_value = match banner.get_field(self.keyword.as_str()) {
            Some(v) => v,
            None => {
                return false;
            },
        };
        match self.operator {
            Operator::NotEqual => !contains_exec(&to_chars(field_value), &to_chars(self.value.as_str())),
            Operator::Equal => contains_exec(&to_chars(field_value), &to_chars(self.value.as_str())),
            Operator::RegexEqual => {
                if regex_is_valid(self.value.as_str()) {
                    regex_is_match(self.value.as_str(), field_value)
                } else {
                    false
                }
            },
            Operator::SuperEqual => chars_eq(&to_chars(field_value), &to_chars(self.value.as_str())),
        }
    }

    /// `Param(<keyword>,<value>,<operator>)`.
    pub fn to_string(&self) -> (s: String)
        ensures
            s@ == display_param(self@),
    {
        let mut v = to_chars("Param(");
        push_all(&mut v, &to_chars(self.keyword.as_str()));
        v.push(',');
        push_all(&mut v, &to_chars(self.value.as_str()));
        v.push(',');
        push_all(&mut v, &self.operator.text());
        v.push(')');
        from_chars(&v)
    }
}


/// `${n}`: the placeholder of the n-th parameter in a logical skeleton.
pub open spec fn placeholder(n: nat) -> Seq<char> {
    seq!['$', '{'] + decimal(n) + seq!['}']
}

fn placeholder_exec(n: usize) -> (r: Vec<char>)
    ensures
        r@ == placeholder(n as nat),
{
    let mut v = vec!['$', '{'];
    push_all(&mut v, &decimal_chars(n));
    v.push('}');
    assert(v@ =~= placeholder(n as nat));
    v
}

/// How a boolean is written in a skeleton (`bool::to_string`).
pub open spec fn bool_word(b: bool) -> Seq<char> {
    if b {
        word_true()
    } else {
        word_false()
    }
}

fn bool_word_exec(b: bool) -> (r: Vec<char>)
    ensures
        r@ == bool_word(b),
{
    let v = if b {
        vec!['t', 'r', 'u', 'e']
    } else {
        vec!['f', 'a', 'l', 's', 'e']
    };
    assert(v@ =~= bool_word(b));
    v
}

/// Characters other than the connectives, parentheses and spaces.
pub open spec fn keeps(c: char) -> bool {
    !(c == '&' || c == '|' || c == '(' || c == ')' || c == ' ')
}

/// `s` without its connective, parenthesis and space characters.
pub open spec fn strip_logic(s: Seq<char>) -> Seq<char>
    decreases s.len(),
{
    if s.len() == 0 {
        s
    } else if keeps(s.last()) {
        strip_logic(s.drop_last()).push(s.last())
    } else {
        strip_logic(s.drop_last())
    }
}

fn strip_logic_exec(s: &Vec<char>) -> (r: Vec<char>)
    ensures
        r@ == strip_logic(s@),
{
    let mut r: Vec<char> = Vec::new();
    let mut i: usize = 0;
    assert(s@.take(0) =~= Seq::<char>::empty());
    while i < s.len()
        invariant
            i <= s.len(),
            r@ == strip_logic(s@.take(i as int)),
        decreases s.len() - i,
    {
        assert(s@.take(i + 1).drop_last() == s@.take(i as int));
        let c = s[i];
        if !(c == '&' || c == '|' || c == '(' || c == ')' || c == ' ') {
            r.push(c);
        }
        i += 1;
    }
    assert(s@.take(s.len() as int) == s@);
    r
}

/// `FingerPrint::validate_expr`: every character of the (escaped, trimmed)
/// rule `t` belongs to a parameter, a connective, a parenthesis or a space.
pub open spec fn validate_expr_result(t: Seq<char>) -> Result<bool, Seq<char>> {
    if !regex_compiles(PARAM_PATTERN@) {
        Err(broken_pattern_message())
    } else if trim(strip_logic(regex_replaced(PARAM_PATTERN@, t, ""@))).len() == 0 {
        Ok(true)
    } else {
        Err("未知表达式字符串: "@ + replace_all(t, quota_token(), escaped_quote()))
    }
}

/// `FingerPrint::validate_syntax`: once its placeholders are read as `true`,
/// the skeleton `expr` holds only boolean tokens and is a sentence of the
/// boolean grammar.
pub open spec fn validate_syntax_result(expr: Seq<char>) -> Result<bool, Seq<char>> {
    if !regex_compiles(SYNTAX_PATTERN@) {
        Err("指纹语法表达式编译失败"@)
    } else if !regex_compiles(BOOL_SYNTAX_PATTERN@) {
        Err("指纹布尔语法表达式编译失败"@)
    } else {
        let bool_expr = regex_replaced(SYNTAX_PATTERN@, expr, "true"@);
        let rest = regex_replaced(BOOL_SYNTAX_PATTERN@, bool_expr, ""@);
        if trim(rest).len() == 0 {
            match parse_input(bool_expr) {
                Some(_) => Ok(true),
                None => Err(syntax_error_message(bool_expr)),
            }
        } else {
            Err("未知布尔表达式字符串: "@ + rest)
        }
    }
}

/// The parameters of the first `n` parameter texts `ms` and the skeleton in
/// which the i-th of them (from 1) became `${i}`; the first error otherwise.
pub open spec fn build_params(ms: Seq<Seq<char>>, n: nat, skeleton: Seq<char>) -> Result<
    (Seq<ParamView>, Seq<char>),
    Seq<char>,
>
    decreases n,
{
    if n == 0 {
        Ok((seq![], skeleton))
    } else {
        match build_params(ms, (n - 1) as nat, skeleton) {
            Err(m) => Err(m),
            Ok((ps, lg)) => match param_new(ms[n - 1]) {
                Err(m) => Err(m),
                Ok(p) => Ok((ps.push(p), replace_first(lg, ms[n - 1], placeholder(n)))),
            },
        }
    }
}

proof fn lemma_build_params_err(ms: Seq<Seq<char>>, k: nat, n: nat, skeleton: Seq<char>)
    requires
        k <= n,
        build_params(ms, k, skeleton) is Err,
    ensures
        build_params(ms, n, skeleton) == build_params(ms, k, skeleton),
    decreases n,
{
    if k < n {
        lemma_build_params_err(ms, k, (n - 1) as nat, skeleton);
    }
}

/// A fingerprint, as plain values.
pub struct FingerPrintView {
    pub product_id: nat,
    pub product_name: Seq<char>,
    pub params: Seq<ParamView>,
    pub value: Seq<char>,
    pub expr: Seq<char>,
}

/// `FingerPrint::new(id, name, expression)`: the fingerprint, or the message of
/// the error.
pub open spec fn fingerprint_new(id: usize, name: Seq<char>, expression: Seq<char>) -> Result<
    FingerPrintView,
    Seq<char>,
> {
    let t = replace_all(trim(expression), escaped_quote(), quota_token());
    match validate_expr_result(t) {
        Err(m) => Err(m),
        Ok(_) => {
            let ms = regex_match_texts(PARAM_PATTERN@, t);
            match build_params(ms, ms.len(), t) {
                Err(m) => Err(m),
                Ok((ps, lg)) => Ok(
                    FingerPrintView {
                        product_id: id as nat,
                        product_name: name,
                        params: ps,
                        value: expression,
                        expr: lg,
                    },
                ),
            }
        },
    }
}

/// The skeleton `expr` with the placeholders of the first `n` parameters
/// replaced, in order, by whether each parameter holds of `banner`.
pub open spec fn fill_skeleton(expr: Seq<char>, params: Seq<ParamView>, banner: Banner, n: nat) -> Seq<
    char,
>
    decreases n,
{
    if n == 0 {
        expr
    } else {
        replace_all(
            fill_skeleton(expr, params, banner, (n - 1) as nat),
            placeholder(n),
            bool_word(param_matches(params[n - 1], banner)),
        )
    }
}

/// Whether the rule of `fp` holds of `banner`.
pub open spec fn rule_holds(fp: FingerPrintView, banner: Banner) -> bool {
    parse_input(fill_skeleton(fp.expr, fp.params, banner, fp.params.len())) == Some(true)
}

/// `<id>_<name>`: how a matched product is reported.
pub open spec fn product_label(fp: FingerPrintView) -> Seq<char> {
    decimal(fp.product_id) + seq!['_'] + fp.product_name
}

/// What `FingerPrint::matches` returns.
pub open spec fn fingerprint_match(fp: FingerPrintView, banner: Banner) -> Option<Seq<char>> {
    if rule_holds(fp, banner) {
        Some(product_label(fp))
    } else {
        None
    }
}

/// The displays of `ps`, one after the other.
pub open spec fn concat_params(ps: Seq<ParamView>) -> Seq<char>
    decreases ps.len(),
{
    if ps.len() == 0 {
        seq![]
    } else {
        concat_params(ps.drop_last()) + display_param(ps.last())
    }
}

/// `FingerPrint[<id>,<name>,<params>,<value>,<expr>]`.
pub open spec fn display_fingerprint(fp: FingerPrintView) -> Seq<char> {
    "FingerPrint["@ + decimal(fp.product_id) + seq![','] + fp.product_name + seq![',']
        + concat_params(fp.params) + seq![','] + fp.value + seq![','] + fp.expr + seq![']']
}

/// A product name with its rule.
#[derive(Debug, Clone)]
pub struct FingerPrint {
    product_id: usize,
    product_name: String,
    param_slice: Vec<Param>,
    value: String,
    expr: String,
}

impl View for FingerPrint {
    type V = FingerPrintView;

    closed spec fn view(&self) -> FingerPrintView {
        FingerPrintView {
            product_id: self.product_id as nat,
            product_name: self.product_name@,
            params: self.param_slice@.map_values(|p: Param| p@),
            value: self.value@,
            expr: self.expr@,
        }
    }
}

impl FingerPrint {
    /// Parses `expression` into the fingerprint of product `product_name`,
    /// numbered `product_id`.
    pub fn new(product_id: &usize, product_name: &str, expression: &str) -> (r: Result<
        Self,
        AppFingerError,
    >)
        ensures
            r matches Ok(fp) ==> fingerprint_new(*product_id, product_name@, expression@) == Ok::<
                FingerPrintView,
                Seq<char>,
            >(fp@),
            r matches Err(e) ==> fingerprint_new(*product_id, product_name@, expression@) == Err::<
                FingerPrintView,
                Seq<char>,
            >(e.msg()),
    {
        let value = expression.to_owned();
        let trimmed = trim_chars(&to_chars(expression));
        let t = replace_all_chars(&trimmed, &escaped_quote_exec(), &quota_token_exec());
        if let Err(e) = Self::validate_expr_chars(&t) {
            return Err(e);
        }
        let t_str = from_chars(&t);
        let ms = regex_all_match_texts(PARAM_PATTERN, t_str.as_str());
        let ghost msv = ms.deep_view();
        let mut params: Vec<Param> = Vec::new();
        let mut logical = t.clone();
        let mut i: usize = 0;
        assert(params@.map_values(|p: Param| p@) =~= Seq::<ParamView>::empty());
        while i < ms.len()
            invariant
                i <= ms.len(),
                msv == ms.deep_view(),
                msv == regex_match_texts(PARAM_PATTERN@, t@),
                t@ == replace_all(trim(expression@), escaped_quote(), quota_token()),
                validate_expr_result(t@) is Ok,
                build_params(msv, i as nat, t@) == Ok::<(Seq<ParamView>, Seq<char>), Seq<char>>(
                    (params@.map_values(|p: Param| p@), logical@),
                ),
            decreases ms.len() - i,
        {
            assert(msv[i as int] == ms@[i as int]@);
            let p = match Param::new(ms[i].as_str()) {
                Ok(p) => p,
                Err(e) => {
                    proof {
                        assert(build_params(msv, (i + 1) as nat, t@) == Err::<
                            (Seq<ParamView>, Seq<char>),
                            Seq<char>,
                        >(e.msg()));
                        lemma_build_params_err(msv, (i + 1) as nat, msv.len(), t@);
                    }
                    return Err(e);
                },
            };
            let ghost old_params = params@;
            params.push(p);
            assert(params@.map_values(|p: Param| p@) =~= old_params.map_values(|p: Param| p@).push(
                p@,
            ));
            let full = to_chars(ms[i].as_str());
            let ph = placeholder_exec(i + 1);
            logical = replace_first_chars(&logical, &full, &ph);
            i += 1;
        }
        Ok(
            FingerPrint {
                product_id: *product_id,
                product_name: product_name.to_owned(),
                param_slice: params,
                value,
                expr: from_chars(&logical),
            },
        )
    }

    fn validate_expr_chars(t: &Vec<char>) -> (r: Result<bool, AppFingerError>)
        ensures
            r matches Ok(b) ==> validate_expr_result(t@) == Ok::<bool, Seq<char>>(b),
            r matches Err(e) ==> validate_expr_result(t@) == Err::<bool, Seq<char>>(e.msg()),
    {
        if !regex_is_valid(PARAM_PATTERN) {
            return Err(AppFingerError::new("指纹匹配表达式编译失败"));
        }
        let t_str = from_chars(t);
        let pruned = regex_replace_all(PARAM_PATTERN, t_str.as_str(), "");
        let stripped = strip_logic_exec(&to_chars(pruned.as_str()));
        if trim_chars(&stripped).len() == 0 {
            Ok(true)
        } else {
            let unknown = replace_all_chars(t, &quota_token_exec(), &escaped_quote_exec());
            Err(error_with("未知表达式字符串: ", &unknown))
        }
    }

    /// Checks that every character of the rule `expr` belongs to a parameter,
    /// a connective (`&`, `|`), a parenthesis or a space.
    pub fn validate_expr(expr: &str) -> (r: Result<bool, AppFingerError>)
        ensures
            r matches Ok(b) ==> validate_expr_result(expr@) == Ok::<bool, Seq<char>>(b),
            r matches Err(e) ==> validate_expr_result(expr@) == Err::<bool, Seq<char>>(e.msg()),
    {
        Self::validate_expr_chars(&to_chars(expr))
    }

    /// Checks that the logical skeleton `expr` is a well-formed boolean
    /// expression once its placeholders are read as `true`.
    pub fn validate_syntax(expr: &str) -> (r: Result<bool, AppFingerError>)
        ensures
            r matches Ok(b) ==> validate_syntax_result(expr@) == Ok::<bool, Seq<char>>(b),
            r matches Err(e) ==> validate_syntax_result(expr@) == Err::<bool, Seq<char>>(e.msg()),
    {
        if !regex_is_valid(SYNTAX_PATTERN) {
            return Err(AppFingerError::new("指纹语法表达式编译失败"));
        }
        if !regex_is_valid(BOOL_SYNTAX_PATTERN) {
            return Err(AppFingerError::new("指纹布尔语法表达式编译失败"));
        }
        let bool_expr = regex_replace_all(SYNTAX_PATTERN, expr, "true");
        let rest = regex_replace_all(BOOL_SYNTAX_PATTERN, bool_expr.as_str(), "");
        if trim_chars(&to_chars(rest.as_str())).len() == 0 {
            match BooleanEvaluator::eval(bool_expr.as_str()) {
                Ok(_) => Ok(true),
                Err(msg) => Err(AppFingerError::new(msg.as_str())),
            }
        } else {
            Err(error_with("未知布尔表达式字符串: ", &to_chars(rest.as_str())))
        }
    }

    /// The text of the rule, as given.
    pub fn value(&self) -> (r: &String)
        ensures
            r@ == self@.value,
    {
        &self.value
    }

    /// The logical skeleton of the rule, in which parameter n is `${n}`.
    pub fn logical_expr(&self) -> (r: &String)
        ensures
            r@ == self@.expr,
    {
        &self.expr
    }

    /// `Some("<id>_<name>")` when the rule holds of `banner`.
    pub fn matches(&self, banner: &Banner) -> (r: Option<String>)
        ensures
            opt_seq(r) == fingerprint_match(self@, *banner),
    {
        if self.expr_matches(banner) {
            let mut v = decimal_chars(self.product_id);
            v.push('_');
            push_all(&mut v, &to_chars(self.product_name.as_str()));
            Some(from_chars(&v))
        } else {
            None
        }
    }

    fn expr_matches(&self, banner: &Banner) -> (b: bool)
        ensures
            b == rule_holds(self@, *banner),
    {
        let mut expr = to_chars(self.expr.as_str());
        let ghost params = self@.params;
        let mut i: usize = 0;
        while i < self.param_slice.len()
            invariant
                i <= self.param_slice.len(),
                params == self@.params,
                params.len() == self.param_slice.len(),
                expr@ == fill_skeleton(self@.expr, params, *banner, i as nat),
            decreases self.param_slice.len() - i,
        {
            let ph = placeholder_exec(i + 1);
            let result = self.param_slice[i].matches(banner);
            assert(params[i as int] == self.param_slice@[i as int]@);
            expr = replace_all_chars(&expr, &ph, &bool_word_exec(result));
            i += 1;
        }
        let text = from_chars(&expr);
        match BooleanEvaluator::eval(text.as_str()) {
            Ok(true) => true,
            Ok(false) => false,
            Err(_) => false,
        }
    }

    /// `FingerPrint[<id>,<name>,<params>,<value>,<expr>]`.
    pub fn to_string(&self) -> (s: String)
        ensures
            s@ == display_fingerprint(self@),
    {
        let mut v = to_chars("FingerPrint[");
        push_all(&mut v, &decimal_chars(self.product_id));
        v.push(',');
        push_all(&mut v, &to_chars(self.product_name.as_str()));
        v.push(',');
        let ghost ps = self@.params;
        let ghost before = v@;
        let mut i: usize = 0;
        assert(ps.take(0) =~= Seq::<ParamView>::empty());
        while i < self.param_slice.len()
            invariant
                i <= self.param_slice.len(),
                ps == self@.params,
                ps.len() == self.param_slice.len(),
                v@ == before + concat_params(ps.take(i as int)),
            decreases self.param_slice.len() - i,
        {
            assert(ps.take(i + 1).drop_last() == ps.take(i as int));
            assert(ps[i as int] == self.param_slice@[i as int]@);
            let d = self.param_slice[i].to_string();
            push_all(&mut v, &to_chars(d.as_str()));
            i += 1;
        }
        assert(ps.take(ps.len() as int) == ps);
        v.push(',');
        push_all(&mut v, &to_chars(self.value.as_str()));
        v.push(',');
        push_all(&mut v, &to_chars(self.expr.as_str()));
        v.push(']');
        from_chars(&v)
    }
}

/// The view of an optional `String`.
pub open spec fn opt_seq(o: Option<String>) -> Option<Seq<char>> {
    match o {
        Some(s) => Some(s@),
        None => None,
    }
}

/// A `~=` parameter holds of a banner exactly when the banner has the field
/// it names, its value compiles as a regular expression, and that expression
/// is found in the field's text: the text decides, not only the pattern.
pub proof fn law_param_regex(p: ParamView, b: Banner)
    requires
        p.operator == Operator::RegexEqual,
    ensures
        param_matches(p, b) <==> (b.field(p.keyword) matches Some(f) && regex_compiles(p.value)
            && regex_found(p.value, f)),
{
}

/// A parameter naming a field that the banner does not have never holds,
/// whatever its operator.
pub proof fn law_param_missing_field(p: ParamView, b: Banner)
    requires
        b.field(p.keyword) is None,
    ensures
        !param_matches(p, b),
{
}

/// `=` and `!=` are each other's negation on a field that the banner has:
/// with the same keyword and value, exactly one of them holds.
pub proof fn law_param_equal_not_equal(keyword: Seq<char>, value: Seq<char>, b: Banner)
    requires
        b.field(keyword) is Some,
    ensures
        param_matches(ParamView { keyword, value, operator: Operator::Equal }, b) != param_matches(
            ParamView { keyword, value, operator: Operator::NotEqual },
            b,
        ),
        param_matches(ParamView { keyword, value, operator: Operator::Equal }, b) == contains(
            b.field(keyword)->0,
            value,
        ),
{
}

/// `==` is stronger than `=`: a field that is the value contains it.
pub proof fn law_param_super_equal_implies_equal(keyword: Seq<char>, value: Seq<char>, b: Banner)
    requires
        param_matches(ParamView { keyword, value, operator: Operator::SuperEqual }, b),
    ensures
        b.field(keyword) == Some(value),
        param_matches(ParamView { keyword, value, operator: Operator::Equal }, b),
{
    assert(value.subrange(0, value.len() as int) =~= value);
    assert(occurs_at(value, 0, value));
}

/// A rule made of a single parameter holds of a banner exactly when that
/// parameter does.
pub proof fn law_single_param_rule(fp: FingerPrintView, b: Banner)
    requires
        fp.params.len() == 1,
        fp.expr == placeholder(1),
    ensures
        rule_holds(fp, b) == param_matches(fp.params[0], b),
{
    let ph = placeholder(1);
    let x = param_matches(fp.params[0], b);
    let w = bool_word(x);
    assert(fill_skeleton(fp.expr, fp.params, b, 0) == ph);
    assert(ph.take(ph.len() as int) =~= ph);
    assert(ph.skip(ph.len() as int) =~= Seq::<char>::empty());
    assert(replace_all(Seq::<char>::empty(), ph, w) == Seq::<char>::empty());
    assert(replace_all(ph, ph, w) == w + Seq::<char>::empty());
    assert(w + Seq::<char>::empty() =~= w);
    assert(fill_skeleton(fp.expr, fp.params, b, 1) == w);
    law_literals();
}

} // verus!
