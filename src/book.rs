use vstd::prelude::*;
use vstd::string::{StrSliceExecFns, StringExecFns};

verus! {

/// ASCII whitespace other than the line feed.
pub open spec fn is_blank(c: char) -> bool {
    c == ' ' || c == '\t' || c == '\r' || c == '\u{0B}' || c == '\u{0C}'
}

/// `words` with `w` added where `w` is not empty.
pub open spec fn close_word(words: Seq<Seq<char>>, w: Seq<char>) -> Seq<Seq<char>> {
    if w.len() > 0 {
        words.push(w)
    } else {
        words
    }
}

/// `lines` with `line` added where it holds at least one move.
pub open spec fn close_line(lines: Seq<Seq<Seq<char>>>, line: Seq<Seq<char>>) -> Seq<
    Seq<Seq<char>>,
> {
    if line.len() > 0 {
        lines.push(line)
    } else {
        lines
    }
}

/// What a reader of `s` holds after its last character: the openings of the
/// finished lines, the moves of the current line, and the current move.
pub open spec fn book_state(s: Seq<char>) -> (Seq<Seq<Seq<char>>>, Seq<Seq<char>>, Seq<char>)
    decreases s.len(),
{
    if s.len() == 0 {
        (Seq::empty(), Seq::empty(), Seq::empty())
    } else {
        let (done, line, word) = book_state(s.drop_last());
        let c = s.last();
        if c == '\n' {
            (close_line(done, close_word(line, word)), Seq::empty(), Seq::empty())
        } else if is_blank(c) {
            (done, close_word(line, word), Seq::empty())
        } else {
            (done, line, word.push(c))
        }
    }
}

/// The openings of a book: one per line that holds a move, each the moves of
/// its line as separated by whitespace.
pub open spec fn book_openings(s: Seq<char>) -> Seq<Seq<Seq<char>>> {
    let (done, line, word) = book_state(s);
    close_line(done, close_word(line, word))
}

pub open spec fn words_view(v: Seq<String>) -> Seq<Seq<char>> {
    v.map_values(|x: String| x@)
}

pub open spec fn lines_view(v: Seq<Vec<String>>) -> Seq<Seq<Seq<char>>> {
    v.map_values(|l: Vec<String>| words_view(l@))
}

fn push_word(line: &mut Vec<String>, s: &str, start: usize, end: usize)
    requires
        start <= end <= s@.len(),
    ensures
        words_view(final(line)@) == close_word(
            words_view(old(line)@),
            s@.subrange(start as int, end as int),
        ),
{
    if start < end {
        let w = String::from_str(s.substring_char(start, end));
        let ghost before = line@;
        line.push(w);
        assert(words_view(line@) =~= words_view(before).push(w@));
    }
}

fn push_line(done: &mut Vec<Vec<String>>, line: Vec<String>)
    ensures
        lines_view(final(done)@) == close_line(lines_view(old(done)@), words_view(line@)),
{
    if line.len() > 0 {
        let ghost before = done@;
        let ghost l = line@;
        done.push(line);
        assert(lines_view(done@) =~= lines_view(before).push(words_view(l)));
    }
}

/// Reads the openings of a book held in `text`.
pub fn openings_from_text(text: &str) -> (r: Vec<Vec<String>>)
    ensures
        lines_view(r@) == book_openings(text@),
{
    let n = text.unicode_len();
    let mut done: Vec<Vec<String>> = Vec::new();
    let mut line: Vec<String> = Vec::new();
    let mut start: usize = 0;
    let mut i: usize = 0;
    assert(lines_view(done@) =~= Seq::empty());
    assert(words_view(line@) =~= Seq::empty());
    while i < n
        invariant
            n == text@.len(),
            start <= i <= n,
            book_state(text@.subrange(0, i as int)) == (
                lines_view(done@),
                words_view(line@),
                text@.subrange(start as int, i as int),
            ),
        decreases n - i,
    {
        let c = text.get_char(i);
        proof {
            let p = text@.subrange(0, i + 1);
            assert(p.drop_last() =~= text@.subrange(0, i as int));
            assert(p.last() == c);
        }
        if c == '\n' {
            push_word(&mut line, text, start, i);
            let finished = line;
            line = Vec::new();
            push_line(&mut done, finished);
            start = i + 1;
            assert(words_view(line@) =~= Seq::empty());
        } else if c == ' ' || c == '\t' || c == '\r' || c == '\u{0B}' || c == '\u{0C}' {
            push_word(&mut line, text, start, i);
            start = i + 1;
        } else {
            assert(text@.subrange(start as int, i + 1) =~= text@.subrange(start as int, i as int).push(c));
        }
        i = i + 1;
    }
    push_word(&mut line, text, start, n);
    push_line(&mut done, line);
    assert(text@.subrange(0, n as int) =~= text@);
    done
}

} // verus!
