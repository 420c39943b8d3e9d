//! Turning a text into a stored book, and removing books.
use vstd::prelude::*;
use crate::library::{Book, Library, has_book, books_without, lemma_set_progress_keeps_ids};
use crate::session::{ReaderError, Session};
use crate::text::{words, string_views, tokenize_text, push_char};

verus! {

/// Title of a book whose file name cannot be determined.
pub const UNKNOWN_TITLE: &'static str = "Unknown";

/// What `Path::file_stem` gives for the path `path`, as text.
pub uninterp spec fn file_stem_of(path: Seq<char>) -> Option<Seq<char>>;

/// Relies on `std::path::Path::file_stem`: the file name of `path` without
/// its directory and extension, when there is a file name.
#[verifier::external_body]
fn file_stem(path: &str) -> (r: Option<String>)
    ensures
        match r {
            Some(s) => file_stem_of(path@) == Some(s@),
            None => file_stem_of(path@) is None,
        },
{
    std::path::Path::new(path).file_stem().and_then(|s| s.to_str()).map(|s| s.to_string())
}

/// The display title of a book imported from `path`.
pub open spec fn title_for(path: Seq<char>) -> Seq<char> {
    match file_stem_of(path) {
        Some(s) => s,
        None => UNKNOWN_TITLE@,
    }
}

/// The title of a book imported from `path`: its file name without
/// directory or extension, or a placeholder when there is none.
pub fn book_title(path: &str) -> (r: String)
    ensures
        r@ == title_for(path@),
{
    match file_stem(path) {
        Some(s) => s,
        None => UNKNOWN_TITLE.to_owned(),
    }
}

/// Relies on `std::time::SystemTime::now`: the current time in nanoseconds
/// since the Unix epoch, 0 for a clock set before it.
#[verifier::external_body]
fn clock_nanos() -> u64 {
    match std::time::SystemTime::now().duration_since(std::time::UNIX_EPOCH) {
        Ok(d) => d.as_nanos() as u64,
        Err(_) => 0,
    }
}

/// Relies on `std::collections::hash_map::DefaultHasher`: a hash of the
/// path and the time.
#[verifier::external_body]
fn hash_path_time(path: &str, nanos: u64) -> u64 {
    let mut h = std::collections::hash_map::DefaultHasher::new();
    std::hash::Hash::hash(path, &mut h);
    std::hash::Hash::hash(&nanos, &mut h);
    std::hash::Hasher::finish(&h)
}

/// The lower-case hexadecimal digit for `d < 16`.
pub open spec fn hex_digit(d: nat) -> char {
    if d < 10 {
        (d + 48) as char
    } else {
        (d + 87) as char
    }
}

/// The last `n` hexadecimal digits of `v`, most significant first.
pub open spec fn hex_spec(v: nat, n: nat) -> Seq<char>
    decreases n,
{
    if n == 0 {
        seq![]
    } else {
        hex_spec(v / 16, (n - 1) as nat).push(hex_digit(v % 16))
    }
}

/// Digits in the base of a book identifier.
pub const ID_DIGITS: usize = 12;

/// Length of the longest identifier in `books`.
pub open spec fn longest_id(books: Seq<Book>) -> nat
    decreases books.len(),
{
    if books.len() == 0 {
        0
    } else {
        let m = longest_id(books.drop_last());
        if books.last().id@.len() > m {
            books.last().id@.len()
        } else {
            m
        }
    }
}

/// The identifier chosen from `seed` for a new book of `books`: the top
/// twelve hexadecimal digits of `seed`, padded with `0` to one character
/// more than the longest identifier when a book already has them.
pub open spec fn fresh_id_for(books: Seq<Book>, seed: u64) -> Seq<char> {
    let base = hex_spec(seed as nat / 65536, ID_DIGITS as nat);
    if has_book(books, base) {
        base + Seq::new((longest_id(books) + 1 - ID_DIGITS) as nat, |_i: int| '0')
    } else {
        base
    }
}

/// No identifier is longer than the longest.
proof fn lemma_longest_id(books: Seq<Book>)
    ensures
        forall|i: int| 0 <= i < books.len() ==> (#[trigger] books[i]).id@.len() <= longest_id(
            books,
        ),
    decreases books.len(),
{
    if books.len() > 0 {
        lemma_longest_id(books.drop_last());
        assert forall|i: int| 0 <= i < books.len() implies (#[trigger] books[i]).id@.len()
            <= longest_id(books) by {
            if i < books.len() - 1 {
                assert(books[i] == books.drop_last()[i]);
            }
        }
    }
}

/// `n` digits are `n` characters.
proof fn lemma_hex_len(v: nat, n: nat)
    ensures
        hex_spec(v, n).len() == n,
    decreases n,
{
    if n > 0 {
        lemma_hex_len(v / 16, (n - 1) as nat);
    }
}

/// Appends the last `n` hexadecimal digits of `v`.
fn push_hex(s: &mut String, v: u64, n: usize)
    ensures
        final(s)@ == old(s)@ + hex_spec(v as nat, n as nat),
    decreases n,
{
    if n > 0 {
        push_hex(s, v / 16, n - 1);
        let d = (v % 16) as u8;
        let c = if d < 10 {
            (d + 48) as char
        } else {
            (d + 87) as char
        };
        push_char(s, c);
        assert(final(s)@ =~= old(s)@ + hex_spec(v as nat, n as nat));
    }
}

/// The identifier for a new book of `lib` chosen from `seed`; no book of
/// `lib` has it.
pub fn fresh_book_id(lib: &Library, seed: u64) -> (r: String)
    requires
        longest_id(lib.books@) < usize::MAX,
    ensures
        r@ == fresh_id_for(lib.books@, seed),
        !has_book(lib.books@, r@),
{
    let mut r = String::new();
    push_hex(&mut r, seed / 65536, ID_DIGITS);
    proof {
        lemma_hex_len(seed as nat / 65536, ID_DIGITS as nat);
        lemma_longest_id(lib.books@);
    }
    let ghost base = r@;
    assert(base =~= hex_spec(seed as nat / 65536, ID_DIGITS as nat));
    if !lib.contains_book(r.as_str()) {
        return r;
    }
    let books = &lib.books;
    let mut longest: usize = 0;
    let mut i: usize = 0;
    while i < books.len()
        invariant
            i <= books@.len(),
            longest == longest_id(books@.take(i as int)),
        decreases books@.len() - i,
    {
        assert(books@.take(i + 1).drop_last() =~= books@.take(i as int));
        let n = books[i].id.as_str().unicode_len();
        if n > longest {
            longest = n;
        }
        i = i + 1;
    }
    assert(books@.take(books@.len() as int) =~= books@);
    proof {
        let k = choose|k: int| 0 <= k < books@.len() && #[trigger] books@[k].id@ == base;
        assert(books@[k].id@.len() == ID_DIGITS);
    }
    let mut len: usize = ID_DIGITS;
    while len <= longest
        invariant
            ID_DIGITS <= len <= longest + 1,
            longest < usize::MAX,
            longest == longest_id(lib.books@),
            r@ == base + Seq::new((len - ID_DIGITS) as nat, |_i: int| '0'),
        decreases longest + 1 - len,
    {
        push_char(&mut r, '0');
        len = len + 1;
        assert(r@ =~= base + Seq::new((len - ID_DIGITS) as nat, |_i: int| '0'));
    }
    r
}

/// A new identifier for a book of `lib` imported from `path`, from the path
/// and the current time; no book of `lib` has it.
pub fn new_book_id(lib: &Library, path: &str) -> (r: String)
    requires
        longest_id(lib.books@) < usize::MAX,
    ensures
        !has_book(lib.books@, r@),
{
    let seed = hash_path_time(path, clock_nanos());
    fresh_book_id(lib, seed)
}

impl Session {
    /// Adds the text `text`, read from `path`, to the library as a new book
    /// with identifier `id`, which no book has, at progress 0, and opens it, after writing back
    /// the progress of the book open so far. A text without words is refused
    /// and nothing changes.
    pub fn import_book(&mut self, lib: &mut Library, id: String, path: &str, text: &str) -> (r:
        Result<(), ReaderError>)
        requires
            old(self).wf(),
            old(lib).wf(),
            !has_book(old(lib).books@, id@),
        ensures
            final(self).wf(),
            final(lib).wf(),
            words(text@).len() == 0 ==> r == Err::<(), ReaderError>(ReaderError::EmptyBook)
                && *final(self) == *old(self) && *final(lib) == *old(lib),
            words(text@).len() > 0 ==> {
                let book = final(lib).books@.last();
                &&& r is Ok
                &&& final(lib).books@ == old(self).flushed(old(lib).books@).push(book)
                &&& book.id == id
                &&& book.title@ == title_for(path@)
                &&& book.original_path@ == path@
                &&& book.total_words == words(text@).len()
                &&& book.progress == 0
                &&& final(lib).last_book == Some(id)
                &&& final(lib).settings == old(lib).settings
                &&& string_views(final(self).words@) == words(text@)
                &&& final(self).word_index == 0
                &&& !final(self).is_playing
                &&& final(self).wpm == old(self).wpm
                &&& final(self).last_advance == old(self).last_advance
                &&& final(self).current_book_id == Some(id)
                &&& final(self).current_book_title == book.title
            },
    {
        let tokens = tokenize_text(text);
        if tokens.len() == 0 {
            return Err(ReaderError::EmptyBook);
        }
        let ghost before = lib.books@;
        self.save_progress(lib);
        proof {
            if old(self).current_book_id is Some {
                lemma_set_progress_keeps_ids(
                    before,
                    old(self).current_book_id->0@,
                    old(self).word_index,
                );
            }
        }
        let title = book_title(path);
        let book = Book {
            id: id.clone(),
            title: title.clone(),
            original_path: path.to_owned(),
            total_words: tokens.len(),
            progress: 0,
        };
        lib.add_book(book);
        assert(lib.books@[lib.books@.len() - 1].id@ == id@);
        self.install(lib, id.as_str(), title, tokens, 0);
        self.current_book_id = Some(id.clone());
        lib.last_book = Some(id);
        Ok(())
    }

    /// Removes the book `id` from the library. When it is the open book the
    /// session becomes empty. Removing an identifier that no book has changes
    /// nothing; either way the call succeeds.
    pub fn delete_book(&mut self, lib: &mut Library, id: &str) -> (r: Result<(), ReaderError>)
        requires
            old(self).wf(),
            old(lib).wf(),
        ensures
            final(self).wf(),
            final(lib).wf(),
            r is Ok,
            final(lib).books@ == books_without(old(lib).books@, id@),
            !has_book(final(lib).books@, id@),
            final(lib).settings == old(lib).settings,
            match old(lib).last_book {
                Some(l) => if l@ == id@ {
                    final(lib).last_book is None
                } else {
                    final(lib).last_book == old(lib).last_book
                },
                None => final(lib).last_book is None,
            },
            !has_book(old(lib).books@, id@) ==> final(lib).books@ == old(lib).books@
                && final(lib).last_book == old(lib).last_book,
            (old(self).current_book_id matches Some(c) && c@ == id@) ==> {
                &&& final(self).words@.len() == 0
                &&& final(self).word_index == 0
                &&& !final(self).is_playing
                &&& final(self).current_book_id is None
                &&& final(self).current_book_title@.len() == 0
                &&& final(self).wpm == old(self).wpm
                &&& final(self).last_advance == old(self).last_advance
            },
            !(old(self).current_book_id matches Some(c) && c@ == id@) ==> *final(self)
                == *old(self),
    {
        lib.remove_book(id);
        let key = id.to_owned();
        let is_current = match &self.current_book_id {
            Some(c) => *c == key,
            None => false,
        };
        if is_current {
            self.words = Vec::new();
            self.word_index = 0;
            self.is_playing = false;
            self.current_book_id = None;
            self.current_book_title = String::new();
        }
        Ok(())
    }
}

} // verus!
