//! The persistent library: books with their reading progress, the book
//! opened last, and the global reading rate.
use vstd::prelude::*;

verus! {

/// Reading rate of a library that has none stored.
pub const DEFAULT_WPM: u32 = 300;

/// Slowest supported reading rate, in words per minute.
pub const MIN_WPM: u32 = 50;

/// Fastest supported reading rate, in words per minute.
pub const MAX_WPM: u32 = 2000;

/// An imported text with its reading progress.
#[derive(Debug, Clone)]
pub struct Book {
    /// Identifier, fixed at import.
    pub id: String,
    /// Display title.
    pub title: String,
    /// Path the text was imported from; informational only.
    pub original_path: String,
    /// Number of words in the text when it was imported.
    pub total_words: usize,
    /// Index of the last word read.
    pub progress: usize,
}

/// Settings shared by every book.
pub struct Settings {
    /// Reading rate in words per minute.
    pub wpm: u32,
}

impl Default for Settings {
    fn default() -> (r: Settings)
        ensures
            r.wpm == DEFAULT_WPM,
    {
        Settings { wpm: DEFAULT_WPM }
    }
}

/// The books in display order, the book opened last, and the settings.
pub struct Library {
    pub books: Vec<Book>,
    pub last_book: Option<String>,
    pub settings: Settings,
}

/// Some book of `books` has the identifier `id`.
pub open spec fn has_book(books: Seq<Book>, id: Seq<char>) -> bool {
    exists|i: int| 0 <= i < books.len() && #[trigger] books[i].id@ == id
}

/// `i` is the position of the first book of `books` with identifier `id`.
pub open spec fn is_first_match(books: Seq<Book>, id: Seq<char>, i: int) -> bool {
    &&& 0 <= i < books.len()
    &&& books[i].id@ == id
    &&& forall|j: int| 0 <= j < i ==> #[trigger] books[j].id@ != id
}

/// `books` without those whose identifier is `id`, in their order.
pub open spec fn books_without(books: Seq<Book>, id: Seq<char>) -> Seq<Book>
    decreases books.len(),
{
    if books.len() == 0 {
        books
    } else {
        let rest = books_without(books.drop_last(), id);
        if books.last().id@ == id {
            rest
        } else {
            rest.push(books.last())
        }
    }
}

/// `p` moved onto one of the `total` words of a book: the last one when
/// `p` lies past it.
pub open spec fn clamp_progress(p: usize, total: usize) -> usize {
    if p < total {
        p
    } else if total > 0 {
        (total - 1) as usize
    } else {
        0
    }
}

/// A book as the library keeps it: it holds words and its progress is on
/// one of them.
pub open spec fn book_ok(b: Book) -> bool {
    0 < b.total_words && b.progress < b.total_words
}

/// Every book is kept as [`book_ok`] says and no two books share an
/// identifier.
pub open spec fn valid_books(books: Seq<Book>) -> bool {
    &&& forall|i: int| 0 <= i < books.len() ==> book_ok(#[trigger] books[i])
    &&& forall|i: int, j: int|
        0 <= i < books.len() && 0 <= j < books.len() && i != j ==> (#[trigger] books[i]).id@
            != (#[trigger] books[j]).id@
}

/// The stored `books` as the library keeps them: books without words and
/// repeated identifiers after their first book are dropped, and a progress
/// past the last word is moved onto it.
pub open spec fn sanitized_books(books: Seq<Book>) -> Seq<Book>
    decreases books.len(),
{
    if books.len() == 0 {
        books
    } else {
        let rest = sanitized_books(books.drop_last());
        let b = books.last();
        if b.total_words > 0 && !has_book(rest, b.id@) {
            rest.push(with_progress(b, clamp_progress(b.progress, b.total_words)))
        } else {
            rest
        }
    }
}

/// `r` clamped into the supported range of rates.
pub open spec fn clamp_rate(r: int) -> int {
    if r < MIN_WPM {
        MIN_WPM as int
    } else if r > MAX_WPM {
        MAX_WPM as int
    } else {
        r
    }
}

/// `b` with its progress set to `p`.
pub open spec fn with_progress(b: Book, p: usize) -> Book {
    Book { progress: p, ..b }
}

/// `books` with the progress of the first book with identifier `id` set
/// to `p`, or to its last word when `p` lies past it; unchanged when no
/// book has it.
pub open spec fn set_progress(books: Seq<Book>, id: Seq<char>, p: usize) -> Seq<Book> {
    if has_book(books, id) {
        let i = choose|i: int| is_first_match(books, id, i);
        books.update(i, with_progress(books[i], clamp_progress(p, books[i].total_words)))
    } else {
        books
    }
}

/// There is one first match at most.
proof fn lemma_first_match_unique(books: Seq<Book>, id: Seq<char>, i: int, j: int)
    requires
        is_first_match(books, id, i),
        is_first_match(books, id, j),
    ensures
        i == j,
{
    if i < j {
        assert(books[i].id@ != id);
    } else if j < i {
        assert(books[j].id@ != id);
    }
}

/// The position of a book that is present.
pub proof fn lemma_first_match_exists(books: Seq<Book>, id: Seq<char>) -> (i: int)
    requires
        has_book(books, id),
    ensures
        is_first_match(books, id, i),
    decreases books.len(),
{
    let k = choose|k: int| 0 <= k < books.len() && #[trigger] books[k].id@ == id;
    if has_book(books.drop_last(), id) {
        let i = lemma_first_match_exists(books.drop_last(), id);
        assert(forall|j: int| 0 <= j < i ==> books[j] == books.drop_last()[j]);
        i
    } else {
        assert forall|j: int| 0 <= j < books.len() - 1 implies #[trigger] books[j].id@ != id by {
            assert(books[j] == books.drop_last()[j]);
        }
        (books.len() - 1) as int
    }
}

/// Setting a progress keeps the identifiers and everything but that progress.
pub proof fn lemma_set_progress_keeps_ids(books: Seq<Book>, id: Seq<char>, p: usize)
    ensures
        set_progress(books, id, p).len() == books.len(),
        forall|k: int| 0 <= k < books.len() ==> (#[trigger] set_progress(books, id, p)[k]).id
            == books[k].id && set_progress(books, id, p)[k].title == books[k].title
            && set_progress(books, id, p)[k].original_path == books[k].original_path
            && set_progress(books, id, p)[k].total_words == books[k].total_words,
        forall|other: Seq<char>| has_book(books, other) <==> #[trigger] has_book(
            set_progress(books, id, p),
            other,
        ),
{
    if has_book(books, id) {
        let i = lemma_first_match_exists(books, id);
    }
    assert forall|other: Seq<char>| has_book(books, other) <==> #[trigger] has_book(
        set_progress(books, id, p),
        other,
    ) by {
        if has_book(books, other) {
            let k = choose|k: int| 0 <= k < books.len() && #[trigger] books[k].id@ == other;
            assert(set_progress(books, id, p)[k].id@ == other);
        }
        if has_book(set_progress(books, id, p), other) {
            let k = choose|k: int|
                0 <= k < books.len() && #[trigger] set_progress(books, id, p)[k].id@ == other;
            assert(books[k].id@ == other);
        }
    }
}

/// A book that survives the removal of `id` is still there afterwards.
proof fn lemma_without_keeps(books: Seq<Book>, id: Seq<char>, other: Seq<char>)
    requires
        has_book(books, other),
        other != id,
    ensures
        has_book(books_without(books, id), other),
    decreases books.len(),
{
    let i = choose|i: int| 0 <= i < books.len() && #[trigger] books[i].id@ == other;
    let rest = books_without(books.drop_last(), id);
    if i < books.len() - 1 {
        assert(books.drop_last()[i].id@ == other);
        lemma_without_keeps(books.drop_last(), id, other);
        let k = choose|k: int| 0 <= k < rest.len() && #[trigger] rest[k].id@ == other;
        if books.last().id@ != id {
            assert(rest.push(books.last())[k].id@ == other);
        }
    } else {
        assert(rest.push(books.last())[rest.len() as int].id@ == other);
    }
}

/// Removing an identifier that no book has keeps every book.
proof fn lemma_without_absent(books: Seq<Book>, id: Seq<char>)
    ensures
        !has_book(books, id) ==> books_without(books, id) == books,
    decreases books.len(),
{
    if books.len() > 0 && !has_book(books, id) {
        assert forall|k: int| 0 <= k < books.len() - 1 implies #[trigger] books.drop_last()[k].id@
            != id by {
            assert(books.drop_last()[k] == books[k]);
        }
        lemma_without_absent(books.drop_last(), id);
        assert(books[books.len() - 1].id@ != id);
        assert(books.drop_last().push(books.last()) =~= books);
    }
}

/// Appending a valid book with a new identifier keeps the books valid.
proof fn lemma_valid_push(rest: Seq<Book>, b: Book)
    requires
        valid_books(rest),
        book_ok(b),
        !has_book(rest, b.id@),
    ensures
        valid_books(rest.push(b)),
{
    let s = rest.push(b);
    assert forall|i: int| 0 <= i < s.len() implies book_ok(#[trigger] s[i]) by {
        if i < rest.len() {
            assert(s[i] == rest[i]);
        }
    }
    assert forall|i: int, j: int|
        0 <= i < s.len() && 0 <= j < s.len() && i != j implies (#[trigger] s[i]).id@
            != (#[trigger] s[j]).id@ by {
        if i < rest.len() && j < rest.len() {
            assert(s[i] == rest[i] && s[j] == rest[j]);
        } else if i < rest.len() {
            assert(s[i] == rest[i]);
            assert(rest[i].id@ != b.id@);
        } else {
            assert(s[j] == rest[j]);
            assert(rest[j].id@ != b.id@);
        }
    }
}

/// Dropping the last book keeps the books valid.
proof fn lemma_valid_drop_last(books: Seq<Book>)
    requires
        valid_books(books),
        books.len() > 0,
    ensures
        valid_books(books.drop_last()),
        book_ok(books.last()),
        !has_book(books.drop_last(), books.last().id@),
{
    let d = books.drop_last();
    assert forall|i: int| 0 <= i < d.len() implies book_ok(#[trigger] d[i]) by {
        assert(d[i] == books[i]);
    }
    assert forall|i: int, j: int|
        0 <= i < d.len() && 0 <= j < d.len() && i != j implies (#[trigger] d[i]).id@
            != (#[trigger] d[j]).id@ by {
        assert(d[i] == books[i] && d[j] == books[j]);
    }
    assert(book_ok(books[books.len() - 1]));
    if has_book(d, books.last().id@) {
        let k = choose|k: int| 0 <= k < d.len() && #[trigger] d[k].id@ == books.last().id@;
        assert(d[k] == books[k]);
        assert(books[k].id@ != books[books.len() - 1].id@);
    }
}

/// The stored books, repaired, are valid.
proof fn lemma_sanitized_valid(books: Seq<Book>)
    ensures
        valid_books(sanitized_books(books)),
    decreases books.len(),
{
    if books.len() > 0 {
        lemma_sanitized_valid(books.drop_last());
        let rest = sanitized_books(books.drop_last());
        let b = books.last();
        if b.total_words > 0 && !has_book(rest, b.id@) {
            lemma_valid_push(rest, with_progress(b, clamp_progress(b.progress, b.total_words)));
        }
    }
}

/// Every book left after a removal was there before.
proof fn lemma_without_sub(books: Seq<Book>, id: Seq<char>, x: Seq<char>)
    requires
        has_book(books_without(books, id), x),
    ensures
        has_book(books, x),
    decreases books.len(),
{
    let rest = books_without(books.drop_last(), id);
    let w = books_without(books, id);
    let k = choose|k: int| 0 <= k < w.len() && #[trigger] w[k].id@ == x;
    if books.last().id@ != id && k == rest.len() {
        assert(books[books.len() - 1].id@ == x);
    } else {
        if books.last().id@ != id {
            assert(w[k] == rest[k]);
        }
        assert(rest[k].id@ == x);
        lemma_without_sub(books.drop_last(), id, x);
        let j = choose|j: int| 0 <= j < books.len() - 1 && #[trigger] books.drop_last()[j].id@
            == x;
        assert(books[j].id@ == x);
    }
}

/// Removing books keeps the remaining ones valid.
proof fn lemma_without_valid(books: Seq<Book>, id: Seq<char>)
    requires
        valid_books(books),
    ensures
        valid_books(books_without(books, id)),
    decreases books.len(),
{
    if books.len() > 0 {
        lemma_valid_drop_last(books);
        lemma_without_valid(books.drop_last(), id);
        let rest = books_without(books.drop_last(), id);
        if books.last().id@ != id {
            if has_book(rest, books.last().id@) {
                lemma_without_sub(books.drop_last(), id, books.last().id@);
            }
            lemma_valid_push(rest, books.last());
        }
    }
}

/// No book with identifier `id` is left after its removal.
proof fn lemma_without_removes(books: Seq<Book>, id: Seq<char>)
    ensures
        !has_book(books_without(books, id), id),
    decreases books.len(),
{
    if books.len() > 0 {
        lemma_without_removes(books.drop_last(), id);
        let rest = books_without(books.drop_last(), id);
        if books.last().id@ != id {
            assert forall|k: int| 0 <= k < rest.len() + 1 implies #[trigger] rest.push(
                books.last(),
            )[k].id@ != id by {
                if k < rest.len() {
                    assert(rest.push(books.last())[k] == rest[k]);
                }
            }
        }
    }
}

impl Library {
    /// The library is consistent: its rate is supported, every book holds
    /// words with its progress on one of them, no two books share an
    /// identifier, and the book opened last, if any, is one of its books.
    pub open spec fn wf(&self) -> bool {
        &&& MIN_WPM <= self.settings.wpm <= MAX_WPM
        &&& valid_books(self.books@)
        &&& self.last_book is Some ==> has_book(self.books@, self.last_book->0@)
    }

    /// An empty library at the default rate.
    pub fn new() -> (r: Library)
        ensures
            r.wf(),
            r.books@.len() == 0,
            r.last_book is None,
            r.settings.wpm == DEFAULT_WPM,
    {
        Library { books: Vec::new(), last_book: None, settings: Settings::default() }
    }

    /// A consistent library from stored parts: the books are repaired as
    /// [`sanitized_books`] says, the rate is clamped into the supported
    /// range, and a last-opened identifier naming no remaining book is
    /// dropped.
    pub fn from_parts(books: Vec<Book>, last_book: Option<String>, wpm: u32) -> (r: Library)
        ensures
            r.wf(),
            r.books@ == sanitized_books(books@),
            r.settings.wpm == clamp_rate(wpm as int),
            r.last_book == (match last_book {
                Some(id) => if has_book(sanitized_books(books@), id@) {
                    Some(id)
                } else {
                    None
                },
                None => None,
            }),
    {
        let ghost given = books@;
        let mut kept: Vec<Book> = Vec::new();
        for b in it: books.into_iter()
            invariant
                it.seq() == given,
                kept@ == sanitized_books(given.take(it.index() as int)),
        {
            assert(given.take(it.index() + 1).drop_last() =~= given.take(it.index() as int));
            assert(given.take(it.index() + 1).last() == b);
            if b.total_words > 0 && position_in(&kept, b.id.as_str()).is_none() {
                let mut b = b;
                let ghost orig = b;
                if b.progress >= b.total_words {
                    b.progress = b.total_words - 1;
                }
                assert(b == with_progress(orig, clamp_progress(orig.progress, orig.total_words)));
                kept.push(b);
            }
        }
        assert(given.take(given.len() as int) =~= given);
        proof {
            lemma_sanitized_valid(given);
        }
        let mut lib = Library {
            books: kept,
            last_book: None,
            settings: Settings { wpm: clamp_wpm(wpm) },
        };
        match last_book {
            Some(id) => {
                match lib.find_book(id.as_str()) {
                    Some(_) => {
                        lib.last_book = Some(id);
                    },
                    None => {},
                }
            },
            None => {},
        }
        lib
    }

    /// Position of the first book with identifier `id`.
    pub fn find_book(&self, id: &str) -> (r: Option<usize>)
        ensures
            match r {
                Some(i) => is_first_match(self.books@, id@, i as int),
                None => !has_book(self.books@, id@),
            },
    {
        position_in(&self.books, id)
    }

    /// Whether a book has identifier `id`.
    pub fn contains_book(&self, id: &str) -> (r: bool)
        ensures
            r == has_book(self.books@, id@),
    {
        self.find_book(id).is_some()
    }

    /// Sets the progress of the first book with identifier `id` to `index`,
    /// or to its last word when `index` lies past it; does nothing when no
    /// book has it.
    pub fn upsert_progress(&mut self, id: &str, index: usize)
        requires
            old(self).wf(),
        ensures
            final(self).wf(),
            final(self).last_book == old(self).last_book,
            final(self).settings == old(self).settings,
            final(self).books@ == set_progress(old(self).books@, id@, index),
    {
        match self.find_book(id) {
            Some(i) => {
                let ghost before = self.books@;
                assert(book_ok(before[i as int]));
                let total = self.books[i].total_words;
                let p = if index < total {
                    index
                } else {
                    total - 1
                };
                self.books[i].progress = p;
                assert(self.books@ =~= before.update(
                    i as int,
                    with_progress(before[i as int], clamp_progress(index, total)),
                ));
                proof {
                    assert forall|a: int| 0 <= a < before.len() implies (#[trigger] self.books@[a]).id
                        == before[a].id && book_ok(self.books@[a]) by {
                        assert(book_ok(before[a]));
                    }
                    let j = choose|j: int| is_first_match(before, id@, j);
                    lemma_first_match_unique(before, id@, i as int, j);
                    if self.last_book is Some {
                        let l = self.last_book->0@;
                        let k = choose|k: int| 0 <= k < before.len() && #[trigger] before[k].id@ == l;
                        assert(self.books@[k].id@ == l);
                    }
                }
            },
            None => {},
        }
    }

    /// Appends `book`, which holds words, has its progress on one of them
    /// and an identifier no book has, at the end of the library.
    pub fn add_book(&mut self, book: Book)
        requires
            old(self).wf(),
            book_ok(book),
            !has_book(old(self).books@, book.id@),
        ensures
            final(self).wf(),
            final(self).books@ == old(self).books@.push(book),
            final(self).last_book == old(self).last_book,
            final(self).settings == old(self).settings,
    {
        let ghost before = self.books@;
        self.books.push(book);
        proof {
            lemma_valid_push(before, book);
            if self.last_book is Some {
                let l = self.last_book->0@;
                let k = choose|k: int| 0 <= k < before.len() && #[trigger] before[k].id@ == l;
                assert(self.books@[k] == before[k]);
            }
        }
    }

    /// Removes every book with identifier `id`, and forgets it as the book
    /// opened last.
    pub fn remove_book(&mut self, id: &str)
        requires
            old(self).wf(),
        ensures
            final(self).wf(),
            final(self).books@ == books_without(old(self).books@, id@),
            !has_book(final(self).books@, id@),
            !has_book(old(self).books@, id@) ==> final(self).books@ == old(self).books@,
            match old(self).last_book {
                Some(l) => if l@ == id@ {
                    final(self).last_book is None
                } else {
                    final(self).last_book == old(self).last_book
                },
                None => final(self).last_book is None,
            },
            final(self).settings == old(self).settings,
    {
        let key = id.to_owned();
        let ghost orig = self.books@;
        let ghost mut k: int = 0;
        let mut i: usize = 0;
        while i < self.books.len()
            invariant
                key@ == id@,
                self.last_book == old(self).last_book,
                self.settings == old(self).settings,
                0 <= k <= orig.len(),
                i == books_without(orig.take(k), id@).len(),
                self.books@ == books_without(orig.take(k), id@) + orig.skip(k),
            decreases orig.len() - k,
        {
            assert(orig.take(k + 1).drop_last() =~= orig.take(k));
            assert(self.books@[i as int] == orig[k]);
            if self.books[i].id == key {
                self.books.remove(i);
                proof { k = k + 1; }
                assert(self.books@ =~= books_without(orig.take(k), id@) + orig.skip(k));
            } else {
                i = i + 1;
                proof { k = k + 1; }
                assert(self.books@ =~= books_without(orig.take(k), id@) + orig.skip(k));
            }
        }
        assert(orig.take(k) =~= orig);
        assert(self.books@ =~= books_without(orig, id@));
        proof {
            lemma_without_valid(orig, id@);
            lemma_without_removes(orig, id@);
            lemma_without_absent(orig, id@);
        }
        let clear = match &self.last_book {
            Some(l) => *l == key,
            None => false,
        };
        if clear {
            self.last_book = None;
        }
        proof {
            if self.last_book is Some {
                lemma_without_keeps(orig, id@, self.last_book->0@);
            }
        }
    }
}

/// Position of the first book of `books` with identifier `id`.
fn position_in(books: &Vec<Book>, id: &str) -> (r: Option<usize>)
    ensures
        match r {
            Some(i) => is_first_match(books@, id@, i as int),
            None => !has_book(books@, id@),
        },
{
    let key = id.to_owned();
    let mut i: usize = 0;
    while i < books.len()
        invariant
            key@ == id@,
            i <= books@.len(),
            forall|j: int| 0 <= j < i ==> #[trigger] books@[j].id@ != id@,
        decreases books@.len() - i,
    {
        if books[i].id == key {
            return Some(i);
        }
        i = i + 1;
    }
    None
}

/// `wpm` clamped into the supported range of rates.
pub fn clamp_wpm(wpm: u32) -> (r: u32)
    ensures
        r as int == clamp_rate(wpm as int),
{
    if wpm < MIN_WPM {
        MIN_WPM
    } else if wpm > MAX_WPM {
        MAX_WPM
    } else {
        wpm
    }
}

} // verus!
