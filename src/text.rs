//! Splitting text into words and locating the focal character of a word.
use vstd::prelude::*;

verus! {

/// Characters with the Unicode `White_Space` property.
pub open spec fn is_ws(c: char) -> bool {
    let u = c as u32;
    (0x9 <= u && u <= 0xd) || u == 0x20 || u == 0x85 || u == 0xa0 || u == 0x1680 || (0x2000 <= u
        && u <= 0x200a) || u == 0x2028 || u == 0x2029 || u == 0x202f || u == 0x205f || u == 0x3000
}

/// Whether `c` separates words.
pub fn is_whitespace(c: char) -> (r: bool)
    ensures
        r == is_ws(c),
{
    let u = c as u32;
    (0x9 <= u && u <= 0xd) || u == 0x20 || u == 0x85 || u == 0xa0 || u == 0x1680 || (0x2000 <= u
        && u <= 0x200a) || u == 0x2028 || u == 0x2029 || u == 0x202f || u == 0x205f || u == 0x3000
}

/// Left-to-right scan of `s`: the words completed so far, and the word
/// being read when the text ends.
pub open spec fn scan(s: Seq<char>) -> (Seq<Seq<char>>, Seq<char>)
    decreases s.len(),
{
    if s.len() == 0 {
        (seq![], seq![])
    } else {
        let (done, cur) = scan(s.drop_last());
        let c = s.last();
        if is_ws(c) {
            if cur.len() > 0 {
                (done.push(cur), seq![])
            } else {
                (done, cur)
            }
        } else {
            (done, cur.push(c))
        }
    }
}

/// The words of `s`: its maximal runs of non-whitespace characters, in order.
pub open spec fn words(s: Seq<char>) -> Seq<Seq<char>> {
    let (done, cur) = scan(s);
    if cur.len() > 0 {
        done.push(cur)
    } else {
        done
    }
}

/// A word as the tokenizer produces it: not empty, without whitespace.
pub open spec fn is_word(w: Seq<char>) -> bool {
    w.len() > 0 && forall|i: int| 0 <= i < w.len() ==> !is_ws(#[trigger] w[i])
}

/// The words of `ws` separated by single spaces.
pub open spec fn join_words(ws: Seq<Seq<char>>) -> Seq<char>
    decreases ws.len(),
{
    if ws.len() == 0 {
        seq![]
    } else if ws.len() == 1 {
        ws[0]
    } else {
        join_words(ws.drop_last()) + seq![' '] + ws.last()
    }
}

/// The character sequences held by a list of strings.
pub open spec fn string_views(v: Seq<String>) -> Seq<Seq<char>> {
    v.map_values(|w: String| w@)
}

/// Relies on `String::push`: appends one character.
#[verifier::external_body]
pub(crate) fn push_char(s: &mut String, c: char)
    ensures
        final(s)@ == old(s)@.push(c),
{
    s.push(c);
}

/// Splits `text` on runs of whitespace, dropping leading and trailing
/// whitespace and keeping every word verbatim.
pub fn tokenize_text(text: &str) -> (r: Vec<String>)
    ensures
        string_views(r@) == words(text@),
{
    let mut out: Vec<String> = Vec::new();
    let mut cur = String::new();
    for c in it: text.chars()
        invariant
            it.seq() == text@,
            scan(text@.take(it.index() as int)) == (string_views(out@), cur@),
    {
        let ghost pre = text@.take(it.index() as int);
        assert(text@.take(it.index() + 1).drop_last() =~= pre);
        assert(text@.take(it.index() + 1).last() == c);
        if is_whitespace(c) {
            if !cur.as_str().is_empty() {
                out.push(cur);
                cur = String::new();
                assert(string_views(out@) =~= scan(pre).0.push(scan(pre).1));
            }
        } else {
            push_char(&mut cur, c);
        }
    }
    assert(text@.take(text@.len() as int) =~= text@);
    if !cur.as_str().is_empty() {
        out.push(cur);
        assert(string_views(out@) =~= words(text@));
    }
    out
}

/// Scanning a word that follows a word boundary leaves it as the word in
/// progress, with the completed words unchanged.
proof fn lemma_scan_append_word(x: Seq<char>, w: Seq<char>)
    requires
        scan(x).1.len() == 0,
        forall|i: int| 0 <= i < w.len() ==> !is_ws(#[trigger] w[i]),
    ensures
        scan(x + w) == (scan(x).0, w),
    decreases w.len(),
{
    if w.len() == 0 {
        assert(x + w =~= x);
        assert(scan(x).1 =~= w);
    } else {
        assert((x + w).drop_last() =~= x + w.drop_last());
        assert((x + w).last() == w[w.len() - 1]);
        lemma_scan_append_word(x, w.drop_last());
        assert(w.drop_last().push(w.last()) =~= w);
    }
}

/// Scanning the space-joined text of non-empty words ends inside the last
/// word, with all the others completed.
proof fn lemma_scan_join(ws: Seq<Seq<char>>)
    requires
        ws.len() > 0,
        forall|i: int| 0 <= i < ws.len() ==> is_word(#[trigger] ws[i]),
    ensures
        scan(join_words(ws)) == (ws.drop_last(), ws.last()),
    decreases ws.len(),
{
    if ws.len() == 1 {
        assert(is_word(ws[0]));
        assert(scan(seq![]) == (Seq::<Seq<char>>::empty(), Seq::<char>::empty()));
        lemma_scan_append_word(seq![], ws[0]);
        assert(Seq::<char>::empty() + ws[0] =~= ws[0]);
        assert(ws.drop_last() =~= seq![]);
    } else {
        let init = ws.drop_last();
        assert forall|i: int| 0 <= i < init.len() implies is_word(#[trigger] init[i]) by {
            assert(is_word(ws[i]));
        }
        lemma_scan_join(init);
        let j = join_words(init);
        let js = j + seq![' '];
        assert(js.drop_last() =~= j);
        assert(js.last() == ' ');
        assert(is_word(init.last()));
        assert(scan(js) == (init.drop_last().push(init.last()), Seq::<char>::empty()));
        assert(init.drop_last().push(init.last()) =~= init);
        assert(is_word(ws.last()));
        lemma_scan_append_word(js, ws.last());
    }
}

/// Every word of a text is non-empty and free of whitespace.
pub proof fn lemma_words_are_words(s: Seq<char>)
    ensures
        forall|i: int| 0 <= i < words(s).len() ==> is_word(#[trigger] words(s)[i]),
        forall|i: int| 0 <= i < scan(s).1.len() ==> !is_ws(#[trigger] scan(s).1[i]),
        forall|i: int| 0 <= i < scan(s).0.len() ==> is_word(#[trigger] scan(s).0[i]),
    decreases s.len(),
{
    if s.len() > 0 {
        lemma_words_are_words(s.drop_last());
        let (done, cur) = scan(s.drop_last());
        let c = s.last();
        if !is_ws(c) {
            assert forall|i: int| 0 <= i < cur.push(c).len() implies !is_ws(
                #[trigger] cur.push(c)[i],
            ) by {
                if i < cur.len() {
                    assert(cur.push(c)[i] == cur[i]);
                }
            }
        }
    }
    let (done, cur) = scan(s);
    if cur.len() > 0 {
        assert(is_word(cur));
        assert forall|i: int| 0 <= i < words(s).len() implies is_word(#[trigger] words(s)[i]) by {
            if i < done.len() {
                assert(words(s)[i] == done[i]);
            }
        }
    }
}

/// Joining the words of a text with single spaces and splitting the result
/// again gives back the same words.
pub proof fn lemma_tokenize_round_trip(s: Seq<char>)
    ensures
        words(join_words(words(s))) == words(s),
{
    let ws = words(s);
    lemma_words_are_words(s);
    if ws.len() == 0 {
        assert(join_words(ws) =~= seq![]);
    } else {
        lemma_scan_join(ws);
        assert(ws.drop_last().push(ws.last()) =~= ws);
    }
}

/// Focal offset for a word of `len` characters.
pub open spec fn orp_for_len(len: nat) -> nat {
    if len <= 1 {
        0
    } else if len <= 5 {
        1
    } else if len <= 9 {
        2
    } else if len <= 13 {
        3
    } else {
        4
    }
}

/// The zero-based index of the character of `word` that is shown at the
/// fixed focal column, from the word's length in characters.
pub fn calculate_orp(word: &str) -> (r: usize)
    ensures
        r as nat == orp_for_len(word@.len()),
{
    let len = word.unicode_len();
    if len <= 1 {
        0
    } else if len <= 5 {
        1
    } else if len <= 9 {
        2
    } else if len <= 13 {
        3
    } else {
        4
    }
}

/// The focal offset never decreases as words get longer and stays within
/// `0..=4`; it reaches past the last character only for the empty word.
pub proof fn lemma_orp_monotonic_bounded(a: nat, b: nat)
    requires
        a <= b,
    ensures
        orp_for_len(a) <= orp_for_len(b),
        orp_for_len(b) <= 4,
        orp_for_len(a) <= a,
        a > 0 ==> orp_for_len(a) < a,
{
}

} // verus!
