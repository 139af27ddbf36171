//! A fingerprint database loaded from the text of a fingerprint file, in which
//! the first line may be a header: errors on it are not reported.
//!
//! Lines are `product<TAB>rule`; blank lines and `#` comments are skipped. The
//! fingerprint of line n (from 1) is numbered n. Loading fails with the last
//! error found after the first line, or when no fingerprint was found.
use vstd::prelude::*;

use crate::bullet::app_fp::{fingerprint_new, FingerPrintView};
use crate::bullet::{db_view, search_result};
use crate::models::Banner;
use crate::text::{
    decimal, decimal_chars, from_chars, lines_of, pieces_view, push_all, split_once,
    split_once_chars, text_lines, to_chars, trim, trim_chars,
};

pub mod app_fingerprint;

pub use crate::bullet::app_fp::FingerPrint;
pub use crate::fingerprint::app_fingerprint::{AppFingerError, Expression};

verus! {

/// The message of a line `line` at line number `n` that has no tab.
pub open spec fn invalid_line_message(n: nat, line: Seq<char>) -> Seq<char> {
    "Invalid line format at line "@ + decimal(n) + ": "@ + line
}

/// The state of a load after some lines: the fingerprints found and the last
/// error to report.
pub open spec fn load_step(
    state: (Seq<FingerPrintView>, Option<Seq<char>>),
    index: nat,
    raw: Seq<char>,
) -> (Seq<FingerPrintView>, Option<Seq<char>>) {
    let line = trim(raw);
    if line.len() == 0 || line[0] == '#' {
        state
    } else {
        match split_once(line, '\t') {
            None => if index > 0 {
                (state.0, Some(invalid_line_message(index + 1, line)))
            } else {
                state
            },
            Some((name, rule)) => match fingerprint_new((index + 1) as usize, name, rule) {
                Ok(fp) => (state.0.push(fp), state.1),
                Err(m) => if index > 0 {
                    (state.0, Some(m))
                } else {
                    state
                },
            },
        }
    }
}

/// The state after the first `n` lines.
pub open spec fn load_state(lines: Seq<Seq<char>>, n: nat) -> (
    Seq<FingerPrintView>,
    Option<Seq<char>>,
)
    decreases n,
{
    if n == 0 {
        (seq![], None)
    } else {
        load_step(load_state(lines, (n - 1) as nat), (n - 1) as nat, lines[n - 1])
    }
}

/// The database that the text `content` holds, or the message of the error.
pub open spec fn load_text(content: Seq<char>) -> Result<Seq<FingerPrintView>, Seq<char>> {
    let lines = text_lines(content);
    let st = load_state(lines, lines.len());
    match st.1 {
        Some(e) => Err(e),
        None => if st.0.len() == 0 {
            Err("No valid fingerprints found in database"@)
        } else {
            Ok(st.0)
        },
    }
}

fn add_fingerprint(db: &mut Vec<FingerPrint>, line_num: usize, product_name: &str, expression: &str) -> (r: Result<(), AppFingerError>)
    ensures
        match fingerprint_new(line_num, product_name@, expression@) {
            Ok(fp) => r is Ok && db_view(final(db)@) == db_view(old(db)@).push(fp),
            Err(m) => r matches Err(e) && e.msg() == m && final(db)@ == old(db)@,
        },
{
    match FingerPrint::new(&line_num, product_name, expression) {
        Ok(fp) => {
            let ghost old_db = db@;
            db.push(fp);
            assert(db_view(db@) =~= db_view(old_db).push(fp@));
            Ok(())
        },
        Err(e) => Err(AppFingerError::new(e.message().as_str())),
    }
}

fn init_database_reader(content: &str) -> (r: Result<Vec<FingerPrint>, AppFingerError>)
    ensures
        match r {
            Ok(db) => load_text(content@) == Ok::<Seq<FingerPrintView>, Seq<char>>(db_view(db@)),
            Err(e) => load_text(content@) == Err::<Seq<FingerPrintView>, Seq<char>>(e.msg()),
        },
{
    let lines = lines_of(content);
    let ghost lv = pieces_view(lines@);
    let mut db: Vec<FingerPrint> = Vec::new();
    let mut last_error: Option<AppFingerError> = None;
    let mut i: usize = 0;
    assert(db_view(db@) =~= Seq::<FingerPrintView>::empty());
    while i < lines.len()
        invariant
            i <= lines.len(),
            lv == pieces_view(lines@),
            lv == text_lines(content@),
            load_state(lv, i as nat).0 == db_view(db@),
            match load_state(lv, i as nat).1 {
                Some(m) => last_error matches Some(e) && e.msg() == m,
                None => last_error is None,
            },
        decreases lines.len() - i,
    {
        assert(lv[i as int] == lines@[i as int]@);
        let line = trim_chars(&lines[i]);
        if line.len() == 0 || line[0] == '#' {
            i += 1;
            continue ;
        }
        match split_once_chars(&line, '\t') {
            None => {
                if i > 0 {
                    let mut v = to_chars("Invalid line format at line ");
                    push_all(&mut v, &decimal_chars(i + 1));
                    push_all(&mut v, &to_chars(": "));
                    push_all(&mut v, &line);
                    last_error = Some(AppFingerError::from_chars(&v));
                }
            },
            Some((name, rule)) => {
                let n = from_chars(&name);
                let e = from_chars(&rule);
                match add_fingerprint(&mut db, i + 1, n.as_str(), e.as_str()) {
                    Ok(()) => {},
                    Err(err) => {
                        if i > 0 {
                            last_error = Some(err);
                        }
                    },
                }
            },
        }
        i += 1;
    }
    match last_error {
        Some(e) => Err(e),
        None => {
            if db.len() == 0 {
                Err(AppFingerError::new("No valid fingerprints found in database"))
            } else {
                Ok(db)
            }
        },
    }
}

/// Loads the database held by the text `content` into `store`. Fails, leaving
/// `store` as it was, when the text does not load or when `store` already
/// holds a database.
pub fn init_database_from_str(store: &mut Option<Vec<FingerPrint>>, content: &str) -> (r: Result<
    (),
    AppFingerError,
>)
    ensures
        match load_text(content@) {
            Err(m) => r matches Err(e) && e.msg() == m && *final(store) == *old(store),
            Ok(db) => match *old(store) {
                Some(_) => r matches Err(e) && e.msg() == "Database already initialized"@
                    && *final(store) == *old(store),
                None => r is Ok && (*final(store) matches Some(d) && db_view(d@) == db),
            },
        },
{
    let db = match init_database_reader(content) {
        Ok(db) => db,
        Err(e) => {
            return Err(e);
        },
    };
    if store.is_some() {
        return Err(AppFingerError::new("Database already initialized"));
    }
    *store = Some(db);
    Ok(())
}

/// The products of the loaded database that match `banner`, each once, in the
/// order of the database; none when no database is loaded.
pub fn search(db: Option<&Vec<FingerPrint>>, banner: &Banner) -> (r: Vec<String>)
    ensures
        match db {
            Some(d) => r.deep_view() == search_result(db_view(d@), *banner),
            None => r@.len() == 0,
        },
{
    crate::bullet::search(db, banner)
}

} // verus!
