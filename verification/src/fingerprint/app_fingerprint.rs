//! The error type and rule expression of the string-loaded fingerprint
//! database.
use vstd::prelude::*;

use crate::bullet::app_fp::Param;
use crate::text::{from_chars, push_all, to_chars};

verus! {

/// Error of converting or loading fingerprints.
#[derive(Debug)]
pub struct AppFingerError {
    message: String,
}

impl AppFingerError {
    pub closed spec fn msg(&self) -> Seq<char> {
        self.message@
    }

    pub fn new(msg: &str) -> (e: Self)
        ensures
            e.msg() == msg@,
    {
        Self { message: msg.to_owned() }
    }

    pub fn from_chars(msg: &Vec<char>) -> (e: Self)
        ensures
            e.msg() == msg@,
    {
        Self { message: from_chars(msg) }
    }

    /// The message given at construction.
    pub fn message(&self) -> (m: &String)
        ensures
            m@ == self.msg(),
    {
        &self.message
    }

    /// `应用指纹转换异常: <message>`.
    pub fn to_string(&self) -> (s: String)
        ensures
            s@ == "应用指纹转换异常: "@ + self.msg(),
    {
        let mut v = to_chars("应用指纹转换异常: ");
        push_all(&mut v, &to_chars(self.message.as_str()));
        from_chars(&v)
    }
}

/// A parsed rule: its parameters, its text, and its logical skeleton.
/// For `value = (body="test" || header="tt") && response="aaaa"` the
/// skeleton is `expr = (${1} || ${2}) && ${3}`.
#[derive(Debug, Clone)]
pub struct Expression {
    param_slice: Vec<Param>,
    value: String,
    expr: String,
}

} // verus!
