use rsvp_reader::import::{book_title, fresh_book_id, new_book_id};
use rsvp_reader::library::{Book, Library};
use rsvp_reader::session::{ReaderError, Session, Tick};

fn numbered_text(n: usize) -> String {
    (0..n).map(|i| format!("w{}", i)).collect::<Vec<_>>().join(" ")
}

fn library_with(id: &str, total: usize, progress: usize) -> Library {
    let mut lib = Library::new();
    lib.add_book(Book {
        id: id.to_string(),
        title: "Title".to_string(),
        original_path: "/x/Title.txt".to_string(),
        total_words: total,
        progress,
    });
    lib
}

#[test]
fn load_seek_play_tick_scenario() {
    let mut lib = library_with("b", 100, 42);
    let mut s = Session::new(&lib);
    let text = numbered_text(100);
    assert_eq!(s.load_book(&mut lib, "b", Some(&text)), Ok(()));
    assert_eq!(s.word_index, 42);
    assert_eq!(s.current_word(), Some("w42"));
    assert_eq!(lib.last_book.as_deref(), Some("b"));
    s.seek(-50);
    assert_eq!(s.word_index, 0);
    assert!(!s.is_playing);
    assert_eq!(s.wpm, 300);
    assert!(s.toggle_play(1_000_000));
    assert!(s.is_playing);
    assert_eq!(s.tick(&mut lib, 1_199_999), Tick::Idle);
    assert_eq!(s.word_index, 0);
    assert_eq!(s.tick(&mut lib, 1_200_000), Tick::Advanced);
    assert_eq!(s.word_index, 1);
    assert!(s.is_playing);
}

#[test]
fn single_word_book_finishes_on_first_tick() {
    let mut lib = library_with("one", 1, 0);
    let mut s = Session::new(&lib);
    assert_eq!(s.load_book(&mut lib, "one", Some("hello")), Ok(()));
    assert!(s.toggle_play(0));
    assert!(s.is_playing);
    assert_eq!(s.tick(&mut lib, 100_000), Tick::Idle);
    assert_eq!(s.tick(&mut lib, 200_000), Tick::Finished);
    assert!(!s.is_playing);
    assert!(s.is_finished());
    assert_eq!(s.word_index, 0);
    assert_eq!(lib.books[0].progress, 0);
}

#[test]
fn set_rate_clamps() {
    let mut lib = Library::new();
    let mut s = Session::new(&lib);
    s.set_rate(&mut lib, 50000);
    assert_eq!(s.wpm, 2000);
    assert_eq!(lib.settings.wpm, 2000);
    s.set_rate(&mut lib, 0);
    assert_eq!(s.wpm, 50);
    assert_eq!(lib.settings.wpm, 50);
}

#[test]
fn adjust_rate_steps_and_clamps() {
    let mut lib = Library::new();
    let mut s = Session::new(&lib);
    s.adjust_rate(&mut lib, 50);
    assert_eq!(s.wpm, 350);
    s.adjust_rate(&mut lib, -1000);
    assert_eq!(s.wpm, 50);
    s.adjust_rate(&mut lib, i64::MAX);
    assert_eq!(s.wpm, 2000);
    assert_eq!(lib.settings.wpm, 2000);
}

#[test]
fn checkpoint_every_tenth_word() {
    let mut lib = library_with("b", 30, 0);
    let mut s = Session::new(&lib);
    s.load_book(&mut lib, "b", Some(&numbered_text(30))).unwrap();
    s.toggle_play(0);
    let mut now = 0u64;
    let mut outcomes = Vec::new();
    for _ in 0..10 {
        now += 200_000;
        outcomes.push(s.tick(&mut lib, now));
    }
    assert_eq!(outcomes[8], Tick::Advanced);
    assert_eq!(outcomes[9], Tick::Checkpoint);
    assert_eq!(s.word_index, 10);
    assert_eq!(lib.books[0].progress, 10);
}

#[test]
fn playing_to_the_end_saves_last_index() {
    let mut lib = library_with("b", 3, 0);
    let mut s = Session::new(&lib);
    s.load_book(&mut lib, "b", Some("a b c")).unwrap();
    s.toggle_play(0);
    assert_eq!(s.tick(&mut lib, 200_000), Tick::Advanced);
    assert_eq!(s.tick(&mut lib, 400_000), Tick::Advanced);
    assert_eq!(s.tick(&mut lib, 600_000), Tick::Finished);
    assert_eq!(lib.books[0].progress, 2);
    // replay from a finished book starts over
    assert!(s.toggle_play(700_000));
    assert_eq!(s.word_index, 0);
    assert!(s.is_playing);
}

#[test]
fn toggle_without_book_is_refused() {
    let lib = Library::new();
    let mut s = Session::new(&lib);
    assert!(!s.toggle_play(5));
    assert!(!s.is_playing);
    assert_eq!(s.current_word(), None);
    assert_eq!(s.progress_percent(), 0);
}

#[test]
fn seek_clamps_both_ways() {
    let mut lib = library_with("b", 20, 5);
    let mut s = Session::new(&lib);
    s.load_book(&mut lib, "b", Some(&numbered_text(20))).unwrap();
    s.toggle_play(0);
    s.seek(10);
    assert_eq!(s.word_index, 15);
    assert!(!s.is_playing);
    s.seek(100);
    assert_eq!(s.word_index, 19);
    s.seek(i64::MIN);
    assert_eq!(s.word_index, 0);
    s.seek(-1);
    assert_eq!(s.word_index, 0);
}

#[test]
fn cursor_stays_in_range_over_mixed_calls() {
    let mut lib = library_with("b", 7, 3);
    let mut s = Session::new(&lib);
    s.load_book(&mut lib, "b", Some(&numbered_text(7))).unwrap();
    let mut now = 0u64;
    for step in 0..200i64 {
        match step % 5 {
            0 => {
                s.toggle_play(now);
            }
            1 => s.seek(step - 100),
            _ => {
                now += 150_000;
                s.tick(&mut lib, now);
            }
        }
        assert!(s.word_index < 7);
    }
}

#[test]
fn load_clamps_stored_progress() {
    let mut lib = library_with("b", 100, 99);
    let mut s = Session::new(&lib);
    s.load_book(&mut lib, "b", Some("only four words here")).unwrap();
    assert_eq!(s.word_index, 3);
}

#[test]
fn load_failures_leave_session_alone() {
    let mut lib = library_with("b", 3, 1);
    let mut s = Session::new(&lib);
    s.load_book(&mut lib, "b", Some("a b c")).unwrap();
    assert_eq!(s.load_book(&mut lib, "b", None), Err(ReaderError::NotFound));
    assert_eq!(s.load_book(&mut lib, "nope", Some("x y")), Err(ReaderError::NotFound));
    assert_eq!(s.load_book(&mut lib, "b", Some("  \n ")), Err(ReaderError::EmptyBook));
    assert_eq!(s.word_index, 1);
    assert_eq!(s.words.len(), 3);
    assert_eq!(s.current_book_id.as_deref(), Some("b"));
}

#[test]
fn reset_rewinds_and_saves() {
    let mut lib = library_with("b", 10, 6);
    let mut s = Session::new(&lib);
    s.load_book(&mut lib, "b", Some(&numbered_text(10))).unwrap();
    assert!(s.reset(&mut lib));
    assert_eq!(s.word_index, 0);
    assert_eq!(lib.books[0].progress, 0);
    let empty = Session::new(&lib);
    assert!(!empty.save_progress(&mut lib));
}

#[test]
fn switching_books_saves_progress_of_the_old_one() {
    let mut lib = library_with("a", 10, 0);
    lib.add_book(Book {
        id: "b".to_string(),
        title: "B".to_string(),
        original_path: String::new(),
        total_words: 2,
        progress: 1,
    });
    let mut s = Session::new(&lib);
    s.load_book(&mut lib, "a", Some(&numbered_text(10))).unwrap();
    s.seek(4);
    s.load_book(&mut lib, "b", Some("x y")).unwrap();
    assert_eq!(lib.books[0].progress, 4);
    assert_eq!(s.word_index, 1);
    assert_eq!(s.current_book_title, "B");
}

#[test]
fn progress_percent_is_share_before_cursor() {
    let mut lib = library_with("b", 8, 2);
    let mut s = Session::new(&lib);
    s.load_book(&mut lib, "b", Some(&numbered_text(8))).unwrap();
    assert_eq!(s.progress_percent(), 25);
    s.seek(5);
    assert_eq!(s.progress_percent(), 87);
}

#[test]
fn import_empty_text_is_refused() {
    let mut lib = Library::new();
    let mut s = Session::new(&lib);
    for text in ["", "   \n\t  "] {
        let r = s.import_book(&mut lib, "id1".to_string(), "/tmp/empty.txt", text);
        assert_eq!(r, Err(ReaderError::EmptyBook));
        assert!(lib.books.is_empty());
        assert!(lib.last_book.is_none());
        assert!(s.words.is_empty());
    }
}

#[test]
fn import_adds_and_opens_book() {
    let mut lib = Library::new();
    let mut s = Session::new(&lib);
    let r = s.import_book(&mut lib, "abc".to_string(), "/home/u/docs/Moby Dick.txt", "Call me Ishmael.");
    assert_eq!(r, Ok(()));
    assert_eq!(lib.books.len(), 1);
    let b = &lib.books[0];
    assert_eq!(b.id, "abc");
    assert_eq!(b.title, "Moby Dick");
    assert_eq!(b.original_path, "/home/u/docs/Moby Dick.txt");
    assert_eq!(b.total_words, 3);
    assert_eq!(b.progress, 0);
    assert_eq!(lib.last_book.as_deref(), Some("abc"));
    assert_eq!(s.current_word(), Some("Call"));
    assert_eq!(s.current_book_title, "Moby Dick");
}

#[test]
fn delete_active_book_empties_session() {
    let mut lib = Library::new();
    let mut s = Session::new(&lib);
    s.import_book(&mut lib, "abc".to_string(), "a.txt", "one two").unwrap();
    s.toggle_play(0);
    assert_eq!(s.delete_book(&mut lib, "abc"), Ok(()));
    assert!(s.words.is_empty());
    assert_eq!(s.word_index, 0);
    assert!(!s.is_playing);
    assert!(s.current_book_id.is_none());
    assert!(lib.books.is_empty());
    assert!(lib.last_book.is_none());
}

#[test]
fn delete_unknown_book_is_noop() {
    let mut lib = Library::new();
    let mut s = Session::new(&lib);
    s.import_book(&mut lib, "abc".to_string(), "a.txt", "one two").unwrap();
    s.seek(1);
    assert_eq!(s.delete_book(&mut lib, "missing"), Ok(()));
    assert_eq!(lib.books.len(), 1);
    assert_eq!(lib.last_book.as_deref(), Some("abc"));
    assert_eq!(s.word_index, 1);
    assert_eq!(s.current_book_id.as_deref(), Some("abc"));
}

#[test]
fn titles_from_paths() {
    assert_eq!(book_title("/home/u/notes.md"), "notes");
    assert_eq!(book_title("archive.tar.gz"), "archive.tar");
    assert_eq!(book_title(".hidden"), ".hidden");
    assert_eq!(book_title("plain"), "plain");
    assert_eq!(book_title(""), "Unknown");
    assert_eq!(book_title("/"), "Unknown");
}

#[test]
fn toggle_on_last_word_while_playing_restarts_and_plays() {
    let mut lib = library_with("b", 3, 0);
    let mut s = Session::new(&lib);
    s.load_book(&mut lib, "b", Some("a b c")).unwrap();
    s.seek(2);
    s.is_playing = true;
    assert!(s.toggle_play(10));
    assert_eq!(s.word_index, 0);
    assert!(s.is_playing);
    assert_eq!(s.last_advance, 10);
    // away from the last word the toggle just flips
    assert!(s.toggle_play(20));
    assert!(!s.is_playing);
    assert_eq!(s.word_index, 0);
}

#[test]
fn fresh_ids_are_hex_and_unused() {
    let mut lib = Library::new();
    let id = fresh_book_id(&lib, 0x1234_5678_9abc_def0);
    assert_eq!(id, "123456789abc");
    lib.add_book(Book {
        id: id.clone(),
        title: "t".to_string(),
        original_path: String::new(),
        total_words: 1,
        progress: 0,
    });
    assert_eq!(fresh_book_id(&lib, 0x1234_5678_9abc_def0), "123456789abc0");
    assert_eq!(fresh_book_id(&lib, 0xffff), "000000000000");
    let other = new_book_id(&lib, "/tmp/a.txt");
    assert!(!lib.contains_book(&other));
    assert!(other.len() >= 12);
}
