//! The reading session: the words of the open book, the cursor, playback
//! and its timing, and the points at which progress goes back to the library.
use vstd::prelude::*;
use crate::library::{
    Book, Library, MIN_WPM, MAX_WPM, has_book, is_first_match, set_progress, clamp_rate,
    clamp_wpm, lemma_first_match_exists, lemma_set_progress_keeps_ids,
};
use crate::text::{words, string_views, tokenize_text};

verus! {

/// Microseconds in a minute: a word lasts this divided by the rate.
pub const MICROS_PER_MINUTE: u64 = 60_000_000;

/// Progress is written back to the library each time the cursor reaches a
/// multiple of this.
pub const CHECKPOINT_EVERY: usize = 10;

/// Why an operation was refused.
#[derive(Debug, PartialEq, Eq)]
pub enum ReaderError {
    /// A file could not be read or written; the text says why.
    IoError(String),
    /// The text holds no words.
    EmptyBook,
    /// No stored text or no library entry for the book.
    NotFound,
    /// The stored library could not be parsed.
    MalformedLibrary,
}

/// What a call of [`Session::tick`] did.
#[derive(Debug, Clone, Copy, PartialEq, Eq, Structural)]
pub enum Tick {
    /// Nothing: paused, or the current word is still due its time.
    Idle,
    /// Moved to the next word.
    Advanced,
    /// Moved to the next word and wrote progress to the library.
    Checkpoint,
    /// Was on the last word: stopped and wrote progress to the library.
    Finished,
}

/// The open book's words and the reading cursor.
pub struct Session {
    pub words: Vec<String>,
    pub word_index: usize,
    pub is_playing: bool,
    /// Reading rate in words per minute.
    pub wpm: u32,
    /// Time of the last advance (or start of playback), in microseconds.
    pub last_advance: u64,
    pub current_book_id: Option<String>,
    pub current_book_title: String,
}

/// Time from `last` to `now`, none when the clock went back.
pub open spec fn elapsed(last: u64, now: u64) -> int {
    if now >= last {
        now - last
    } else {
        0
    }
}

/// The next word is due: at least `60 / wpm` seconds have passed.
pub open spec fn is_due(last: u64, now: u64, wpm: u32) -> bool {
    elapsed(last, now) * wpm >= MICROS_PER_MINUTE
}

/// The cursor `index + delta` clamped into `0..len`.
pub open spec fn seek_target(index: int, delta: int, len: int) -> int {
    if len == 0 {
        0
    } else if index + delta < 0 {
        0
    } else if index + delta > len - 1 {
        len - 1
    } else {
        index + delta
    }
}

/// The cursor at which a book with stored progress `p` and `len` words opens.
pub open spec fn resume_index(p: int, len: int) -> int {
    if p < len - 1 {
        p
    } else {
        len - 1
    }
}

/// The first book of `books` with identifier `id`.
pub open spec fn book_with_id(books: Seq<Book>, id: Seq<char>) -> Book {
    books[choose|i: int| is_first_match(books, id, i)]
}

/// Whatever sequence of operations led to a consistent session, its cursor
/// is on one of the book's words whenever a book with words is open.
pub proof fn lemma_cursor_in_range(s: &Session)
    requires
        s.wf(),
    ensures
        s.words@.len() > 0 ==> 0 <= s.word_index <= s.words@.len() - 1,
        s.words@.len() == 0 ==> s.word_index == 0,
{
}

impl Session {
    /// The cursor is on a word whenever a book is open; with none open the
    /// session is empty and paused.
    pub open spec fn wf(&self) -> bool {
        &&& MIN_WPM <= self.wpm <= MAX_WPM
        &&& self.words.len() > 0 ==> self.word_index < self.words.len()
        &&& self.words.len() == 0 ==> self.word_index == 0 && !self.is_playing
        &&& self.current_book_id is Some <==> self.words.len() > 0
    }

    /// `books` after this session's cursor is written back as its book's
    /// progress.
    pub open spec fn flushed(&self, books: Seq<Book>) -> Seq<Book> {
        match self.current_book_id {
            Some(id) => set_progress(books, id@, self.word_index),
            None => books,
        }
    }

    /// On the last word and paused.
    pub open spec fn finished(&self) -> bool {
        self.words.len() > 0 && self.word_index == self.words.len() - 1 && !self.is_playing
    }

    /// An empty session at the library's rate.
    pub fn new(lib: &Library) -> (r: Session)
        requires
            lib.wf(),
        ensures
            r.wf(),
            r.words@.len() == 0,
            r.word_index == 0,
            !r.is_playing,
            r.wpm == lib.settings.wpm,
            r.current_book_id is None,
            r.current_book_title@.len() == 0,
            r.last_advance == 0,
    {
        Session {
            words: Vec::new(),
            word_index: 0,
            is_playing: false,
            wpm: lib.settings.wpm,
            last_advance: 0,
            current_book_id: None,
            current_book_title: String::new(),
        }
    }

    /// Writes the cursor back as the open book's progress. Returns whether a
    /// book is open, that is whether the library changed and is to be saved.
    pub fn save_progress(&self, lib: &mut Library) -> (saved: bool)
        requires
            old(lib).wf(),
        ensures
            final(lib).wf(),
            saved == self.current_book_id is Some,
            final(lib).books@ == self.flushed(old(lib).books@),
            final(lib).last_book == old(lib).last_book,
            final(lib).settings == old(lib).settings,
    {
        match &self.current_book_id {
            Some(id) => {
                lib.upsert_progress(id.as_str(), self.word_index);
                true
            },
            None => false,
        }
    }

    /// Replaces the open book by `tokens`, the words of the book `id`,
    /// opened at `resume_index(progress, ..)` and paused.
    pub(crate) fn install(
        &mut self,
        lib: &mut Library,
        id: &str,
        title: String,
        tokens: Vec<String>,
        progress: usize,
    )
        requires
            old(self).wf(),
            old(lib).wf(),
            tokens@.len() > 0,
            has_book(old(lib).books@, id@),
        ensures
            final(self).wf(),
            final(lib).wf(),
            final(self).words == tokens,
            final(self).word_index == resume_index(progress as int, tokens@.len() as int),
            !final(self).is_playing,
            final(self).wpm == old(self).wpm,
            final(self).last_advance == old(self).last_advance,
            final(self).current_book_id is Some,
            final(self).current_book_id->0@ == id@,
            final(self).current_book_title == title,
            final(lib).books == old(lib).books,
            final(lib).last_book is Some,
            final(lib).last_book->0@ == id@,
            final(lib).settings == old(lib).settings,
    {
        let last = tokens.len() - 1;
        self.word_index = if progress < last {
            progress
        } else {
            last
        };
        self.words = tokens;
        self.is_playing = false;
        self.current_book_id = Some(id.to_owned());
        self.current_book_title = title;
        lib.last_book = Some(id.to_owned());
    }

    /// Opens the book `book_id`, whose stored text is `stored` (`None` when
    /// there is none): writes back the progress of the book open so far, then
    /// resumes the new one at its stored progress, paused, and records it as
    /// the book opened last. On failure nothing changes.
    pub fn load_book(&mut self, lib: &mut Library, book_id: &str, stored: Option<&str>) -> (r:
        Result<(), ReaderError>)
        requires
            old(self).wf(),
            old(lib).wf(),
        ensures
            final(self).wf(),
            final(lib).wf(),
            (stored is None || !has_book(old(lib).books@, book_id@)) ==> r == Err::<
                (),
                ReaderError,
            >(ReaderError::NotFound) && *final(self) == *old(self) && *final(lib) == *old(lib),
            (stored is Some && has_book(old(lib).books@, book_id@) && words(stored->0@).len()
                == 0) ==> r == Err::<(), ReaderError>(ReaderError::EmptyBook) && *final(self)
                == *old(self) && *final(lib) == *old(lib),
            (stored is Some && has_book(old(lib).books@, book_id@) && words(stored->0@).len()
                > 0) ==> {
                let books = old(self).flushed(old(lib).books@);
                let book = book_with_id(books, book_id@);
                &&& r is Ok
                &&& string_views(final(self).words@) == words(stored->0@)
                &&& final(self).word_index == resume_index(
                    book.progress as int,
                    final(self).words@.len() as int,
                )
                &&& !final(self).is_playing
                &&& final(self).wpm == old(self).wpm
                &&& final(self).last_advance == old(self).last_advance
                &&& final(self).current_book_id is Some
                &&& final(self).current_book_id->0@ == book_id@
                &&& final(self).current_book_title == book.title
                &&& final(lib).books@ == books
                &&& final(lib).last_book is Some
                &&& final(lib).last_book->0@ == book_id@
                &&& final(lib).settings == old(lib).settings
            },
    {
        let text = match stored {
            Some(t) => t,
            None => {
                return Err(ReaderError::NotFound);
            },
        };
        let i = match lib.find_book(book_id) {
            Some(i) => i,
            None => {
                return Err(ReaderError::NotFound);
            },
        };
        let tokens = tokenize_text(text);
        if tokens.len() == 0 {
            return Err(ReaderError::EmptyBook);
        }
        let ghost before = lib.books@;
        self.save_progress(lib);
        proof {
            lemma_set_progress_keeps_ids(before, old(self).current_book_id->0@, self.word_index);
            assert(is_first_match(lib.books@, book_id@, i as int));
            let j = choose|j: int| is_first_match(lib.books@, book_id@, j);
            if i < j {
                assert(lib.books@[i as int].id@ != book_id@);
            } else if j < i {
                assert(lib.books@[j].id@ != book_id@);
            }
        }
        let progress = lib.books[i].progress;
        let title = lib.books[i].title.clone();
        self.install(lib, book_id, title, tokens, progress);
        Ok(())
    }

    /// Starts or pauses playback; from the last word, playback starts over
    /// at the first and plays. The advance timer restarts at `now`. Returns
    /// `false`, changing nothing, when no book is open.
    pub fn toggle_play(&mut self, now: u64) -> (r: bool)
        requires
            old(self).wf(),
        ensures
            final(self).wf(),
            r == (old(self).words@.len() > 0),
            !r ==> *final(self) == *old(self),
            r ==> *final(self) == (Session {
                word_index: if old(self).word_index + 1 >= old(self).words@.len() {
                    0
                } else {
                    old(self).word_index
                },
                is_playing: if old(self).word_index + 1 >= old(self).words@.len() {
                    true
                } else {
                    !old(self).is_playing
                },
                last_advance: now,
                ..*old(self)
            }),
    {
        if self.words.len() == 0 {
            return false;
        }
        if self.word_index + 1 >= self.words.len() {
            self.word_index = 0;
            self.is_playing = true;
        } else {
            self.is_playing = !self.is_playing;
        }
        self.last_advance = now;
        true
    }

    /// Advances playback at time `now` (microseconds): while playing, once
    /// `60 / wpm` seconds have passed since the last advance, moves to the
    /// next word, writing progress back at every tenth word; on the last
    /// word it stops instead and writes progress back.
    pub fn tick(&mut self, lib: &mut Library, now: u64) -> (r: Tick)
        requires
            old(self).wf(),
            old(lib).wf(),
        ensures
            final(self).wf(),
            final(lib).wf(),
            final(lib).last_book == old(lib).last_book,
            final(lib).settings == old(lib).settings,
            !(old(self).is_playing && is_due(old(self).last_advance, now, old(self).wpm)) ==> r
                == Tick::Idle && *final(self) == *old(self) && *final(lib) == *old(lib),
            old(self).is_playing && is_due(old(self).last_advance, now, old(self).wpm)
                && old(self).word_index + 1 < old(self).words@.len() ==> {
                &&& *final(self) == (Session {
                    word_index: (old(self).word_index + 1) as usize,
                    last_advance: now,
                    ..*old(self)
                })
                &&& r == if final(self).word_index % CHECKPOINT_EVERY == 0 {
                    Tick::Checkpoint
                } else {
                    Tick::Advanced
                }
                &&& final(lib).books@ == if r == Tick::Checkpoint {
                    final(self).flushed(old(lib).books@)
                } else {
                    old(lib).books@
                }
            },
            old(self).is_playing && is_due(old(self).last_advance, now, old(self).wpm)
                && old(self).word_index + 1 >= old(self).words@.len() ==> {
                &&& *final(self) == (Session {
                    is_playing: false,
                    last_advance: now,
                    ..*old(self)
                })
                &&& r == Tick::Finished
                &&& final(lib).books@ == old(self).flushed(old(lib).books@)
            },
    {
        if !self.is_playing {
            return Tick::Idle;
        }
        let gap: u64 = if now >= self.last_advance {
            now - self.last_advance
        } else {
            0
        };
        assert((gap as int) * (self.wpm as int) <= (u64::MAX as int) * 2000) by (nonlinear_arith)
            requires
                gap <= u64::MAX,
                self.wpm <= 2000,
        ;
        let span: u128 = (gap as u128) * (self.wpm as u128);
        if span < MICROS_PER_MINUTE as u128 {
            return Tick::Idle;
        }
        self.last_advance = now;
        if self.word_index + 1 < self.words.len() {
            self.word_index = self.word_index + 1;
            if self.word_index % CHECKPOINT_EVERY == 0 {
                self.save_progress(lib);
                Tick::Checkpoint
            } else {
                Tick::Advanced
            }
        } else {
            self.is_playing = false;
            self.save_progress(lib);
            Tick::Finished
        }
    }

    /// Pauses and moves the cursor by `delta` words, clamped to the words of
    /// the book. Progress is not written back.
    pub fn seek(&mut self, delta: i64)
        requires
            old(self).wf(),
        ensures
            final(self).wf(),
            *final(self) == (Session {
                word_index: seek_target(
                    old(self).word_index as int,
                    delta as int,
                    old(self).words@.len() as int,
                ) as usize,
                is_playing: false,
                ..*old(self)
            }),
    {
        self.is_playing = false;
        let len = self.words.len();
        if len == 0 {
            return;
        }
        let target: i128 = self.word_index as i128 + delta as i128;
        self.word_index = if target < 0 {
            0
        } else if target > (len - 1) as i128 {
            len - 1
        } else {
            target as usize
        };
    }

    /// Stops playback where it is.
    pub fn pause(&mut self)
        requires
            old(self).wf(),
        ensures
            final(self).wf(),
            *final(self) == (Session { is_playing: false, ..*old(self) }),
    {
        self.is_playing = false;
    }

    /// Pauses, moves to the first word and writes progress back at once.
    /// Returns whether a book is open, that is whether the library changed.
    pub fn reset(&mut self, lib: &mut Library) -> (saved: bool)
        requires
            old(self).wf(),
            old(lib).wf(),
        ensures
            final(self).wf(),
            final(lib).wf(),
            *final(self) == (Session { word_index: 0, is_playing: false, ..*old(self) }),
            saved == old(self).current_book_id is Some,
            final(lib).books@ == final(self).flushed(old(lib).books@),
            final(lib).last_book == old(lib).last_book,
            final(lib).settings == old(lib).settings,
    {
        self.is_playing = false;
        self.word_index = 0;
        self.save_progress(lib)
    }

    /// Sets the rate, clamped into the supported range, in the session and
    /// in the library's settings.
    pub fn set_rate(&mut self, lib: &mut Library, wpm: u32)
        requires
            old(self).wf(),
            old(lib).wf(),
        ensures
            final(self).wf(),
            final(lib).wf(),
            *final(self) == (Session { wpm: clamp_rate(wpm as int) as u32, ..*old(self) }),
            final(lib).settings.wpm == clamp_rate(wpm as int),
            final(lib).books == old(lib).books,
            final(lib).last_book == old(lib).last_book,
    {
        let r = clamp_wpm(wpm);
        self.wpm = r;
        lib.settings.wpm = r;
    }

    /// Changes the rate by `delta` words per minute, clamped as by
    /// [`Session::set_rate`].
    pub fn adjust_rate(&mut self, lib: &mut Library, delta: i64)
        requires
            old(self).wf(),
            old(lib).wf(),
        ensures
            final(self).wf(),
            final(lib).wf(),
            *final(self) == (Session {
                wpm: clamp_rate(old(self).wpm + delta) as u32,
                ..*old(self)
            }),
            final(lib).settings.wpm == clamp_rate(old(self).wpm + delta),
            final(lib).books == old(lib).books,
            final(lib).last_book == old(lib).last_book,
    {
        let target: i128 = self.wpm as i128 + delta as i128;
        let r: u32 = if target < MIN_WPM as i128 {
            MIN_WPM
        } else if target > MAX_WPM as i128 {
            MAX_WPM
        } else {
            target as u32
        };
        self.set_rate(lib, r);
    }

    /// The word under the cursor, if a book is open.
    pub fn current_word(&self) -> (r: Option<&str>)
        requires
            self.wf(),
        ensures
            r is None <==> self.words@.len() == 0,
            r matches Some(w) ==> w@ == self.words@[self.word_index as int]@,
    {
        if self.words.len() == 0 {
            None
        } else {
            Some(self.words[self.word_index].as_str())
        }
    }

    /// Share of the book before the cursor, in whole percent; 0 with no book.
    pub fn progress_percent(&self) -> (r: u64)
        requires
            self.wf(),
        ensures
            self.words@.len() == 0 ==> r == 0,
            self.words@.len() > 0 ==> r == (self.word_index as int) * 100 / (self.words@.len() as int),
    {
        let len = self.words.len();
        if len == 0 {
            return 0;
        }
        let i = self.word_index;
        assert((i as int) * 100 / (len as int) < 100) by (nonlinear_arith)
            requires
                i < len,
        ;
        assert((i as int) * 100 <= (usize::MAX as int) * 100) by (nonlinear_arith)
            requires
                i <= usize::MAX,
        ;
        ((i as u128 * 100) / (len as u128)) as u64
    }

    /// On the last word and paused: the book has been read to its end.
    pub fn is_finished(&self) -> (r: bool)
        ensures
            r == self.finished(),
    {
        self.words.len() > 0 && self.word_index == self.words.len() - 1 && !self.is_playing
    }
}

} // verus!
