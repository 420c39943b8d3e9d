//! Where the library and the stored texts live, below a configuration root.
use vstd::prelude::*;

verus! {

/// Directory of this reader below the user's configuration root.
pub const APP_DIR: &'static str = "rsvp-reader";

/// Root used when the user's configuration root is unknown.
pub const FALLBACK_ROOT: &'static str = ".";

/// File name of the stored library.
pub const LIBRARY_FILE: &'static str = "library.json";

/// Directory, below the reader's own, of the stored texts.
pub const BOOKS_DIR: &'static str = "books";

/// Extension of a stored text.
pub const BOOK_EXT: &'static str = ".txt";

/// `name` below the directory `base`, with one `/` between them.
pub open spec fn join_spec(base: Seq<char>, name: Seq<char>) -> Seq<char> {
    if base.len() == 0 || base.last() == '/' {
        base + name
    } else {
        base + seq!['/'] + name
    }
}

/// The path of `name` below the directory `base`.
pub fn join_path(base: &str, name: &str) -> (r: String)
    ensures
        r@ == join_spec(base@, name@),
{
    let mut r = base.to_owned();
    let n = base.unicode_len();
    if n == 0 || base.get_char(n - 1) == '/' {
        r.append(name);
    } else {
        r.append("/");
        r.append(name);
    }
    proof {
        reveal_strlit("/");
        assert(r@ =~= join_spec(base@, name@));
    }
    r
}

/// The reader's directory below the configuration root `root`, or below the
/// working directory when the root is unknown.
pub fn config_dir(root: Option<&str>) -> (r: String)
    ensures
        r@ == join_spec(
            match root {
                Some(b) => b@,
                None => FALLBACK_ROOT@,
            },
            APP_DIR@,
        ),
{
    match root {
        Some(b) => join_path(b, APP_DIR),
        None => join_path(FALLBACK_ROOT, APP_DIR),
    }
}

/// The stored library in the reader's directory `config_dir`.
pub fn library_file(config_dir: &str) -> (r: String)
    ensures
        r@ == join_spec(config_dir@, LIBRARY_FILE@),
{
    join_path(config_dir, LIBRARY_FILE)
}

/// The directory of stored texts in the reader's directory `config_dir`.
pub fn books_dir(config_dir: &str) -> (r: String)
    ensures
        r@ == join_spec(config_dir@, BOOKS_DIR@),
{
    join_path(config_dir, BOOKS_DIR)
}

/// The stored text of the book `id` in the directory `books_dir`.
pub fn book_file(books_dir: &str, id: &str) -> (r: String)
    ensures
        r@ == join_spec(books_dir@, id@ + BOOK_EXT@),
{
    let mut name = id.to_owned();
    name.append(BOOK_EXT);
    join_path(books_dir, name.as_str())
}

} // verus!
