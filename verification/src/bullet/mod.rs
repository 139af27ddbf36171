//! The application fingerprint database: loading it from the lines of a
//! fingerprint file and searching it for the products that match a banner.
//!
//! A database line is `product<TAB>rule`; blank lines and lines starting with
//! `#` are skipped, as are lines without a tab. Line numbers start at 1 and
//! number the products.
use vstd::prelude::*;

use crate::models::Banner;
use crate::text::{
    decimal, decimal_chars, from_chars, push_all, split_once, split_once_chars,
    to_chars, trim, trim_chars,
};

pub mod app_fp;

pub use crate::bullet::app_fp::{AppFingerError, FingerPrint};

use crate::bullet::app_fp::{
    display_error, fingerprint_match, fingerprint_new, FingerPrintView,
};

verus! {

/// The view of a parse result.
pub open spec fn entry_view(r: Result<FingerPrint, AppFingerError>) -> Result<
    FingerPrintView,
    Seq<char>,
> {
    match r {
        Ok(fp) => Ok(fp@),
        Err(e) => Err(e.msg()),
    }
}

/// The views of parse results.
pub open spec fn entries_view(rs: Seq<Result<FingerPrint, AppFingerError>>) -> Seq<
    Result<FingerPrintView, Seq<char>>,
> {
    rs.map_values(|r: Result<FingerPrint, AppFingerError>| entry_view(r))
}

/// The views of fingerprints.
pub open spec fn db_view(db: Seq<FingerPrint>) -> Seq<FingerPrintView> {
    db.map_values(|f: FingerPrint| f@)
}

/// What line `line_num` of a fingerprint file, holding `content`, yields:
/// nothing for a blank, comment or tab-less line, else the parsed fingerprint.
pub open spec fn line_entry(line_num: usize, content: Seq<char>) -> Option<
    Result<FingerPrintView, Seq<char>>,
> {
    let line = trim(content);
    if line.len() == 0 || line[0] == '#' {
        None
    } else {
        match split_once(line, '\t') {
            None => None,
            Some((name, rule)) => Some(fingerprint_new(line_num, name, rule)),
        }
    }
}

/// What the lines of a fingerprint file yield, in order (line i+1 is `lines[i]`).
pub open spec fn line_entries(lines: Seq<Seq<char>>) -> Seq<Result<FingerPrintView, Seq<char>>>
    decreases lines.len(),
{
    if lines.len() == 0 {
        seq![]
    } else {
        let before = line_entries(lines.drop_last());
        match line_entry(lines.len() as usize, lines.last()) {
            Some(e) => before.push(e),
            None => before,
        }
    }
}

/// The fingerprints among `rs`, in order.
pub open spec fn ok_entries(rs: Seq<Result<FingerPrintView, Seq<char>>>) -> Seq<FingerPrintView>
    decreases rs.len(),
{
    if rs.len() == 0 {
        seq![]
    } else {
        match rs.last() {
            Ok(f) => ok_entries(rs.drop_last()).push(f),
            Err(_) => ok_entries(rs.drop_last()),
        }
    }
}

/// The error messages among `rs`, in order.
pub open spec fn err_entries(rs: Seq<Result<FingerPrintView, Seq<char>>>) -> Seq<Seq<char>>
    decreases rs.len(),
{
    if rs.len() == 0 {
        seq![]
    } else {
        match rs.last() {
            Ok(_) => err_entries(rs.drop_last()),
            Err(m) => err_entries(rs.drop_last()).push(m),
        }
    }
}

/// The message of a load in which `errs` are the errors.
pub open spec fn load_errors_message(errs: Seq<Seq<char>>) -> Seq<char> {
    "加载过程中错误的指纹个数["@ + decimal(errs.len()) + "],最后的错误信息: "@ + display_error(
        errs.last(),
    )
}

/// The database that the parse results `rs` make: an error when any line
/// failed (naming how many and the last), or when no fingerprint was found.
pub open spec fn assemble(rs: Seq<Result<FingerPrintView, Seq<char>>>) -> Result<
    Seq<FingerPrintView>,
    Seq<char>,
> {
    let errs = err_entries(rs);
    let db = ok_entries(rs);
    if errs.len() > 0 {
        Err(load_errors_message(errs))
    } else if db.len() == 0 {
        Err("未成功识别加载任何应用指纹"@)
    } else {
        Ok(db)
    }
}

/// The database that the lines of a fingerprint file make.
pub open spec fn load_database(lines: Seq<Seq<char>>) -> Result<Seq<FingerPrintView>, Seq<char>> {
    assemble(line_entries(lines))
}

/// The products that match `banner`, in the order of the fingerprints, each
/// reported once (at its first match).
pub open spec fn search_result(fps: Seq<FingerPrintView>, banner: Banner) -> Seq<Seq<char>>
    decreases fps.len(),
{
    if fps.len() == 0 {
        seq![]
    } else {
        let before = search_result(fps.drop_last(), banner);
        match fingerprint_match(fps.last(), banner) {
            Some(p) => if before.contains(p) {
                before
            } else {
                before.push(p)
            },
            None => before,
        }
    }
}

/// Searching reports each product once, and reports a product exactly when
/// some fingerprint of the database matches the banner with it.
pub proof fn law_search_distinct_complete(fps: Seq<FingerPrintView>, banner: Banner)
    ensures
        search_result(fps, banner).no_duplicates(),
        forall|p: Seq<char>|
            search_result(fps, banner).contains(p) <==> exists|i: int|
                0 <= i < fps.len() && #[trigger] fingerprint_match(fps[i], banner) == Some(p),
    decreases fps.len(),
{
    if fps.len() > 0 {
        let init = fps.drop_last();
        law_search_distinct_complete(init, banner);
        let before = search_result(init, banner);
        assert forall|p: Seq<char>|
            search_result(fps, banner).contains(p) <==> exists|i: int|
                0 <= i < fps.len() && #[trigger] fingerprint_match(fps[i], banner) == Some(p) by {
            if search_result(fps, banner).contains(p) {
                if before.contains(p) {
                    let i = choose|i: int|
                        0 <= i < init.len() && #[trigger] fingerprint_match(init[i], banner) == Some(
                            p,
                        );
                    assert(fps[i] == init[i]);
                } else {
                    let j = choose|j: int|
                        0 <= j < search_result(fps, banner).len() && search_result(fps, banner)[j]
                            == p;
                    if j < before.len() {
                        assert(before[j] == p);
                    }
                    assert(fingerprint_match(fps[fps.len() - 1], banner) == Some(p));
                }
            }
            if exists|i: int| 0 <= i < fps.len() && #[trigger] fingerprint_match(fps[i], banner)
                == Some(p) {
                let i = choose|i: int|
                    0 <= i < fps.len() && #[trigger] fingerprint_match(fps[i], banner) == Some(p);
                if i < fps.len() - 1 {
                    assert(init[i] == fps[i]);
                    assert(before.contains(p));
                    let j = choose|j: int| 0 <= j < before.len() && before[j] == p;
                    match fingerprint_match(fps.last(), banner) {
                        Some(q) => {
                            if !before.contains(q) {
                                assert(search_result(fps, banner)[j] == p);
                            }
                        },
                        None => {},
                    }
                } else {
                    if !before.contains(p) {
                        assert(search_result(fps, banner)[before.len() as int] == p);
                    }
                }
            }
        }
    }
}

/// The fingerprint of line `line_num`, named `product_name`, with rule `expression`.
pub fn parse_fingerprint_line(line_num: usize, product_name: &str, expression: &str) -> (r: Result<
    FingerPrint,
    AppFingerError,
>)
    ensures
        entry_view(r) == fingerprint_new(line_num, product_name@, expression@),
{
    FingerPrint::new(&line_num, product_name, expression)
}

/// What line `line_num` of a fingerprint file, holding `content`, yields.
pub fn parse_database_line(line_num: usize, content: &str) -> (r: Option<
    Result<FingerPrint, AppFingerError>,
>)
    ensures
        match r {
            Some(e) => line_entry(line_num, content@) == Some(entry_view(e)),
            None => line_entry(line_num, content@) is None,
        },
{
    let line = trim_chars(&to_chars(content));
    if line.len() == 0 || line[0] == '#' {
        return None;
    }
    match split_once_chars(&line, '\t') {
        None => None,
        Some((name, rule)) => {
            let n = from_chars(&name);
            let e = from_chars(&rule);
            Some(parse_fingerprint_line(line_num, n.as_str(), e.as_str()))
        },
    }
}

/// The database that the parse results make (see `assemble`).
pub fn assemble_database(results: Vec<Result<FingerPrint, AppFingerError>>) -> (r: Result<
    Vec<FingerPrint>,
    AppFingerError,
>)
    ensures
        match r {
            Ok(db) => assemble(entries_view(results@)) == Ok::<Seq<FingerPrintView>, Seq<char>>(
                db_view(db@),
            ),
            Err(e) => assemble(entries_view(results@)) == Err::<Seq<FingerPrintView>, Seq<char>>(
                e.msg(),
            ),
        },
{
    let ghost orig = results@;
    let ghost rv = entries_view(orig);
    let mut db: Vec<FingerPrint> = Vec::new();
    let mut error_count: usize = 0;
    let mut last_error: Option<AppFingerError> = None;
    assert(rv.take(0) =~= Seq::<Result<FingerPrintView, Seq<char>>>::empty());
    assert(db_view(db@) =~= Seq::<FingerPrintView>::empty());
    let n = results.len();
    for x in it: results
        invariant
            it.seq() == orig,
            orig.len() == n,
            rv == entries_view(orig),
            db_view(db@) == ok_entries(rv.take(it.index())),
            error_count == err_entries(rv.take(it.index())).len(),
            error_count <= it.index(),
            error_count > 0 <==> last_error is Some,
            last_error matches Some(e) ==> e.msg() == err_entries(rv.take(it.index())).last(),
    {
        let ghost k = it.index();
        assert(k < n);
        proof {
            assert(rv.take(k + 1).drop_last() == rv.take(k));
            assert(rv.take(k + 1).last() == entry_view(x));
        }
        match x {
            Ok(fp) => {
                let ghost old_db = db@;
                db.push(fp);
                assert(db_view(db@) =~= db_view(old_db).push(fp@));
            },
            Err(e) => {
                error_count = error_count + 1;
                last_error = Some(e);
            },
        }
    }
    assert(rv.take(orig.len() as int) == rv);
    if let Some(e) = last_error {
        let mut v = to_chars("加载过程中错误的指纹个数[");
        push_all(&mut v, &decimal_chars(error_count));
        push_all(&mut v, &to_chars("],最后的错误信息: "));
        push_all(&mut v, &to_chars(e.to_string().as_str()));
        Err(AppFingerError::from_chars(&v))
    } else if db.len() == 0 {
        Err(AppFingerError::new("未成功识别加载任何应用指纹"))
    } else {
        Ok(db)
    }
}

/// Loads the database from the lines of a fingerprint file (line i+1 is
/// `lines[i]`).
pub fn init_database_reader(lines: &Vec<String>) -> (r: Result<Vec<FingerPrint>, AppFingerError>)
    requires
        lines.len() < usize::MAX,
    ensures
        match r {
            Ok(db) => load_database(lines.deep_view()) == Ok::<
                Seq<FingerPrintView>,
                Seq<char>,
            >(db_view(db@)),
            Err(e) => load_database(lines.deep_view()) == Err::<Seq<FingerPrintView>, Seq<char>>(
                e.msg(),
            ),
        },
{
    let ghost lv = lines.deep_view();
    let mut results: Vec<Result<FingerPrint, AppFingerError>> = Vec::new();
    let mut i: usize = 0;
    assert(lv.take(0) =~= Seq::<Seq<char>>::empty());
    assert(entries_view(results@) =~= Seq::<Result<FingerPrintView, Seq<char>>>::empty());
    while i < lines.len()
        invariant
            i <= lines.len(),
            lines.len() < usize::MAX,
            lv == lines.deep_view(),
            entries_view(results@) == line_entries(lv.take(i as int)),
        decreases lines.len() - i,
    {
        assert(lv.take(i + 1).drop_last() == lv.take(i as int));
        assert(lv.take(i + 1).last() == lines@[i as int]@);
        assert(lv.take(i + 1).len() == i + 1);
        let ghost old_results = results@;
        match parse_database_line(i + 1, lines[i].as_str()) {
            Some(e) => {
                results.push(e);
                assert(entries_view(results@) =~= entries_view(old_results).push(
                    entry_view(results@.last()),
                ));
            },
            None => {},
        }
        i += 1;
    }
    assert(lv.take(lines.len() as int) == lv);
    assemble_database(results)
}

/// Whether a database has been loaded.
pub fn is_initialized(db: Option<&Vec<FingerPrint>>) -> (b: bool)
    ensures
        b == db is Some,
{
    db.is_some()
}

/// The number of fingerprints loaded; 0 when none is.
pub fn get_fingerprint_count(db: Option<&Vec<FingerPrint>>) -> (n: usize)
    ensures
        n == match db {
            Some(d) => d.len(),
            None => 0,
        },
{
    match db {
        Some(d) => d.len(),
        None => 0,
    }
}

/// Whether `s` is among `v`.
fn contains_string(v: &Vec<String>, s: &String) -> (b: bool)
    ensures
        b == v.deep_view().contains(s@),
{
    let mut i: usize = 0;
    while i < v.len()
        invariant
            i <= v.len(),
            forall|j: int| 0 <= j < i ==> v.deep_view()[j] != s@,
        decreases v.len() - i,
    {
        assert(v.deep_view()[i as int] == v@[i as int]@);
        if v[i] == *s {
            return true;
        }
        i += 1;
    }
    false
}

/// The products of the loaded database that match `banner`, each once, in the
/// order of the database; none when no database is loaded.
pub fn search(db: Option<&Vec<FingerPrint>>, banner: &Banner) -> (r: Vec<String>)
    ensures
        match db {
            Some(d) => r.deep_view() == search_result(db_view(d@), *banner),
            None => r@.len() == 0,
        },
{
    let mut products: Vec<String> = Vec::new();
    let d = match db {
        Some(d) => d,
        None => {
            return products;
        },
    };
    let ghost fps = db_view(d@);
    let mut i: usize = 0;
    assert(fps.take(0) =~= Seq::<FingerPrintView>::empty());
    assert(products.deep_view() =~= Seq::<Seq<char>>::empty());
    while i < d.len()
        invariant
            i <= d.len(),
            fps == db_view(d@),
            products.deep_view() == search_result(fps.take(i as int), *banner),
        decreases d.len() - i,
    {
        assert(fps.take(i + 1).drop_last() == fps.take(i as int));
        assert(fps.take(i + 1).last() == d@[i as int]@);
        match d[i].matches(banner) {
            Some(product) => {
                if !contains_string(&products, &product) {
                    let ghost old = products.deep_view();
                    products.push(product);
                    assert(products.deep_view() =~= old.push(product@));
                }
            },
            None => {},
        }
        i += 1;
    }
    assert(fps.take(d.len() as int) == fps);
    products
}

} // verus!
