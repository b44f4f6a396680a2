//! Pure roll-up window: completed lines freeze; only the bottom line grows.

use std::collections::VecDeque;

use vstd::prelude::*;

use super::window_laws::{law_freezing_shows_nothing_new, law_no_blank_state};
use crate::text::{
    blank, chars_of, is_white_space, join, joined, strip_end, trim, trimmed, views, white_space,
};
use crate::text::{lemma_joined_nonempty, lemma_strip_end_at, lemma_trimmed_empty};

verus! {

/// Display width of `text` in columns, as the `unicode-width` crate measures
/// it outside an East Asian context.
pub uninterp spec fn display_columns(text: Seq<char>) -> usize;

/// Whether `text` is made of printable ASCII characters only.
pub open spec fn plain(text: Seq<char>) -> bool {
    forall|i: int| 0 <= i < text.len() ==> 0x20 <= (#[trigger] text[i]) as u32 <= 0x7e
}

/// Calls `unicode_width::UnicodeWidthStr::width` on a `str`. The width is a
/// function of the characters alone: the crate folds its fixed Unicode tables
/// over them, so the result is named by [`display_columns`]. Of text in
/// general nothing more is claimed; in printable ASCII text every character
/// takes one column, whatever stands next to it.
#[verifier::external_body]
fn display_width(s: &str) -> (width: usize)
    ensures
        width == display_columns(s@),
        plain(s@) ==> width == s@.len(),
{
    unicode_width::UnicodeWidthStr::width(s)
}

/// Quotes and brackets that may follow the end of a sentence.
pub open spec fn closes(c: char) -> bool {
    ||| c == '"'
    ||| c == '\''
    ||| c == ')'
    ||| c == ']'
    ||| c == '}'
    ||| c == '\u{201d}'
    ||| c == '\u{2019}'
    ||| c == '\u{00bb}'
}

/// Punctuation that ends a sentence.
pub open spec fn stops(c: char) -> bool {
    ||| c == '.'
    ||| c == '!'
    ||| c == '?'
    ||| c == '\u{2026}'
}

/// Whether the last character of `text` is sentence-final punctuation once
/// trailing white space, and then trailing quotes and brackets, are ignored.
pub open spec fn sentence_end(text: Seq<char>) -> bool {
    let bare = strip_end(strip_end(text, |c: char| white_space(c)), |c: char| closes(c));
    bare.len() > 0 && stops(bare.last())
}

/// The last `n` entries of `s`, or all of them when there are fewer.
pub open spec fn last_n<A>(s: Seq<A>, n: nat) -> Seq<A> {
    if s.len() <= n {
        s
    } else {
        s.skip(s.len() - n)
    }
}

/// What a [`Window`] holds: its geometry, the frozen lines from top to
/// bottom, and the words of the line that still grows.
pub ghost struct Screen {
    pub columns: nat,
    pub lines: nat,
    pub break_on_sentence: bool,
    pub done: Seq<Seq<char>>,
    pub current: Seq<Seq<char>>,
}

impl Screen {
    /// A window without any text.
    pub open spec fn empty(columns: nat, lines: nat, break_on_sentence: bool) -> Screen {
        Screen { columns, lines, break_on_sentence, done: Seq::empty(), current: Seq::empty() }
    }

    /// There is room for a line, and no line or word is empty.
    pub open spec fn wf(self) -> bool {
        &&& self.lines >= 1
        &&& forall|i: int| 0 <= i < self.done.len() ==> (#[trigger] self.done[i]).len() > 0
        &&& forall|i: int| 0 <= i < self.current.len() ==> (#[trigger] self.current[i]).len() > 0
    }

    /// The line that still grows.
    pub open spec fn line(self) -> Seq<char> {
        joined(self.current, ' ')
    }

    /// The frozen lines, and the growing one below them if it has begun.
    pub open spec fn entries(self) -> Seq<Seq<char>> {
        if self.current.len() == 0 {
            self.done
        } else {
            self.done.push(self.line())
        }
    }

    /// The lines on display.
    pub open spec fn visible(self) -> Seq<Seq<char>> {
        last_n(self.entries(), self.lines)
    }

    /// The rendered window.
    pub open spec fn rendered(self) -> Seq<char> {
        joined(self.visible(), '\n')
    }

    /// The same geometry without any text.
    pub open spec fn cleared(self) -> Screen {
        Screen { done: Seq::empty(), current: Seq::empty(), ..self }
    }

    /// The growing line completed, and lines beyond the height scrolled off.
    pub open spec fn frozen(self) -> Screen {
        if self.current.len() == 0 {
            self
        } else {
            Screen {
                done: last_n(self.done.push(self.line()), self.lines),
                current: Seq::empty(),
                ..self
            }
        }
    }

    /// The growing line with `word` appended to it.
    pub open spec fn candidate(self, word: Seq<char>) -> Seq<char> {
        self.line().push(' ') + word
    }

    /// Whether a growing line would be too wide if it came to `width` columns.
    pub open spec fn overflows(self, width: nat) -> bool {
        self.current.len() > 0 && width > self.columns
    }

    /// Whether the line with `word` at its end is complete at once.
    pub open spec fn completes(self, word: Seq<char>) -> bool {
        self.break_on_sentence && sentence_end(word)
    }

    /// `word` placed in the window, where the growing line would come to
    /// `width` columns with it.
    pub open spec fn placed(self, word: Seq<char>, width: nat) -> Screen {
        let base = if self.overflows(width) {
            self.frozen()
        } else {
            self
        };
        let grown = Screen { current: base.current.push(word), ..base };
        if self.completes(word) {
            grown.frozen()
        } else {
            grown
        }
    }

    /// The window after `word` was pushed, if every character took one column.
    pub open spec fn pushed_plainly(self, word: Seq<char>) -> Screen {
        let bare = trimmed(word);
        if bare.len() == 0 {
            self
        } else {
            self.placed(bare, self.candidate(bare).len())
        }
    }

    /// The window after `word` was pushed.
    pub open spec fn pushed(self, word: Seq<char>) -> Screen {
        let bare = trimmed(word);
        if bare.len() == 0 {
            self
        } else {
            self.placed(bare, display_columns(self.candidate(bare)) as nat)
        }
    }
}

/// The window after the words were pushed one by one.
pub open spec fn run(s: Screen, words: Seq<Seq<char>>) -> Screen
    decreases words.len(),
{
    if words.len() == 0 {
        s
    } else {
        run(s, words.drop_last()).pushed(words.last())
    }
}

/// A window of lines. Completed lines are immutable; only the bottom one
/// grows.
#[derive(Debug)]
pub struct Window {
    pub columns: usize,
    lines: usize,
    break_on_sentence: bool,
    done: VecDeque<String>,
    current: Vec<String>,
}

/// Result of pushing a word into the window.
#[derive(Debug, Clone, PartialEq, Eq)]
pub enum Push {
    /// A word was added; redraw. Once lines scroll off, the text may read the
    /// same as before.
    Redraw(String),
    /// Nothing was added, so nothing visible changed.
    Unchanged,
}

impl View for Window {
    type V = Screen;

    closed spec fn view(&self) -> Screen {
        Screen {
            columns: self.columns as nat,
            lines: self.lines as nat,
            break_on_sentence: self.break_on_sentence,
            done: views(self.done@),
            current: views(self.current@),
        }
    }
}

impl Clone for Window {
    fn clone(&self) -> (r: Self)
        ensures
            r@ == self@,
    {
        let r = Window {
            columns: self.columns,
            lines: self.lines,
            break_on_sentence: self.break_on_sentence,
            done: self.done.clone(),
            current: self.current.clone(),
        };
        assert(views(r.done@) =~= views(self.done@));
        assert(views(r.current@) =~= views(self.current@));
        r
    }
}

/// What a push answers when it leaves the window at `after`.
pub open spec fn answers(r: Push, word: Seq<char>, after: Screen) -> bool {
    match r {
        Push::Redraw(rendered) => {
            &&& !blank(word)
            &&& rendered@ == after.rendered()
            &&& rendered@.len() > 0
        },
        Push::Unchanged => blank(word) || after.rendered().len() == 0,
    }
}

/// `n`, or one in place of zero.
pub open spec fn at_least_one(n: nat) -> nat {
    if n == 0 {
        1
    } else {
        n
    }
}

impl Window {
    /// A window without any text. Neither measure is ever less than one.
    pub fn new(columns: usize, lines: usize, break_on_sentence: bool) -> (r: Self)
        ensures
            r@ == Screen::empty(
                at_least_one(columns as nat),
                at_least_one(lines as nat),
                break_on_sentence,
            ),
            r@.wf(),
    {
        let r = Window {
            columns: if columns == 0 { 1 } else { columns },
            lines: if lines == 0 { 1 } else { lines },
            break_on_sentence,
            done: VecDeque::new(),
            current: Vec::new(),
        };
        assert(views(r.done@) =~= Seq::empty());
        assert(views(r.current@) =~= Seq::empty());
        r
    }

    /// Sets the width that future words wrap at.
    pub fn set_columns(&mut self, columns: usize)
        ensures
            final(self)@ == (Screen { columns: at_least_one(columns as nat), ..old(self)@ }),
            old(self)@.wf() ==> final(self)@.wf(),
    {
        self.columns = if columns == 0 { 1 } else { columns };
    }

    /// Sets the number of lines that are shown.
    pub fn set_lines(&mut self, lines: usize)
        ensures
            final(self)@ == (Screen { lines: at_least_one(lines as nat), ..old(self)@ }),
            old(self)@.wf() ==> final(self)@.wf(),
    {
        self.lines = if lines == 0 { 1 } else { lines };
        assert(self@.done == old(self)@.done);
        assert(self@.current == old(self)@.current);
    }

    /// Sets whether the end of a sentence completes a line.
    pub fn set_break_on_sentence(&mut self, break_on_sentence: bool)
        ensures
            final(self)@ == (Screen { break_on_sentence, ..old(self)@ }),
            old(self)@.wf() ==> final(self)@.wf(),
    {
        self.break_on_sentence = break_on_sentence;
    }

    /// Whether there is no text in the window.
    pub fn is_empty(&self) -> (r: bool)
        ensures
            r == (self@.entries().len() == 0),
            r <==> self@.done.len() == 0 && self@.current.len() == 0,
    {
        self.done.len() == 0 && self.current.len() == 0
    }

    /// Forgets all text; the geometry stays.
    pub fn clear(&mut self)
        ensures
            final(self)@ == old(self)@.cleared(),
            old(self)@.wf() ==> final(self)@.wf(),
    {
        self.done.clear();
        self.current.clear();
        assert(views(self.done@) =~= Seq::empty());
        assert(views(self.current@) =~= Seq::empty());
    }

    /// Last `lines` entries of the frozen lines and the growing one, joined
    /// by `\n`.
    pub fn render(&self) -> (r: String)
        ensures
            r@ == self@.rendered(),
    {
        let mut entries: Vec<String> = Vec::new();
        let mut i: usize = 0;
        while i < self.done.len()
            invariant
                i <= self.done@.len(),
                views(entries@) == views(self.done@).take(i as int),
            decreases self.done@.len() - i,
        {
            let ghost before = entries@;
            let line: &String = &self.done[i];
            entries.push(line.clone());
            assert(views(entries@) =~= views(before).push(self.done@[i as int]@));
            assert(views(entries@) =~= views(self.done@).take(i + 1));
            i = i + 1;
        }
        assert(views(entries@) =~= views(self.done@));
        if self.current.len() > 0 {
            let ghost before = entries@;
            entries.push(self.line());
            assert(views(entries@) =~= views(before).push(self@.line()));
        }
        let start = if entries.len() > self.lines {
            entries.len() - self.lines
        } else {
            0
        };
        let shown = entries.split_off(start);
        assert(views(shown@) =~= self@.visible());
        proof {
            reveal_strlit("\n");
        }
        join(&shown, "\n")
    }

    /// The words of the growing line, separated by spaces.
    fn line(&self) -> (r: String)
        ensures
            r@ == self@.line(),
    {
        proof {
            reveal_strlit(" ");
        }
        join(&self.current, " ")
    }

    /// The growing line as it would read with `word` at its end.
    pub fn candidate(&self, word: &str) -> (r: String)
        ensures
            r@ == self@.candidate(word@),
    {
        proof {
            reveal_strlit(" ");
        }
        let mut r = self.line();
        r.append(" ");
        r.append(word);
        assert(r@ =~= self@.candidate(word@));
        r
    }

    /// Pushes a word, wrapping by the display width of the line that it would
    /// make. A line of plain text wraps by its number of characters.
    pub fn push_word(&mut self, word: &str) -> (r: Push)
        ensures
            final(self)@ == old(self)@.pushed(word@),
            plain(old(self)@.candidate(trimmed(word@))) ==> final(self)@
                == old(self)@.pushed_plainly(word@),
            answers(r, word@, final(self)@),
            blank(word@) ==> r is Unchanged,
            old(self)@.wf() && !blank(word@) ==> r is Redraw && r->Redraw_0@
                == final(self)@.rendered(),
            old(self)@.wf() ==> final(self)@.wf(),
    {
        let bare = trim(word);
        proof {
            lemma_trimmed_empty(word@);
            if old(self)@.wf() && !blank(word@) {
                law_no_blank_state(old(self)@, word@);
            }
        }
        let width = if self.current.len() > 0 {
            display_width(self.candidate(bare).as_str())
        } else {
            0
        };
        self.push_measured(word, width)
    }

    /// Pushes a word, where the growing line would come to `width` columns
    /// with the trimmed word at its end. The width does not matter while no
    /// line grows.
    pub fn push_measured(&mut self, word: &str, width: usize) -> (r: Push)
        ensures
            blank(word@) ==> final(self)@ == old(self)@,
            !blank(word@) ==> final(self)@ == old(self)@.placed(trimmed(word@), width as nat),
            answers(r, word@, final(self)@),
            old(self)@.wf() ==> final(self)@.wf(),
    {
        let bare = trim(word);
        proof {
            lemma_trimmed_empty(word@);
        }
        if bare.is_empty() {
            return Push::Unchanged;
        }
        if self.current.len() > 0 && width > self.columns {
            self.freeze_current();
        }
        let ghost base = self@;
        self.current.push(bare.to_owned());
        assert(self@.current =~= base.current.push(bare@));
        if self.break_on_sentence && ends_sentence(bare) {
            self.freeze_current();
        }
        let rendered = self.render();
        if rendered.as_str().is_empty() {
            Push::Unchanged
        } else {
            Push::Redraw(rendered)
        }
    }

    /// Completes the growing line, and scrolls lines beyond the height off.
    /// That shows nothing new, and doing it twice is doing it once.
    pub fn freeze_current(&mut self)
        ensures
            final(self)@ == old(self)@.frozen(),
            old(self)@.lines >= 1 ==> final(self)@.rendered() == old(self)@.rendered(),
            old(self)@.lines >= 1 ==> (final(self)@.entries().len() == 0 <==> old(
                self,
            )@.entries().len() == 0),
            final(self)@.frozen() == final(self)@,
            old(self)@.wf() ==> final(self)@.wf(),
    {
        proof {
            if old(self)@.lines >= 1 {
                law_freezing_shows_nothing_new(old(self)@);
            }
        }
        if self.current.len() == 0 {
            return;
        }
        let line = self.line();
        self.done.push_back(line);
        let ghost full = self.done@;
        assert(views(full) =~= old(self)@.done.push(old(self)@.line()));
        self.current.clear();
        assert(views(self.current@) =~= Seq::empty());
        while self.done.len() > self.lines
            invariant
                self.done@.len() <= full.len(),
                full.len() > self.lines ==> self.done@.len() >= self.lines,
                full.len() <= self.lines ==> self.done@.len() == full.len(),
                self.done@ == full.skip(full.len() - self.done@.len()),
                self.lines == old(self).lines,
                self.columns == old(self).columns,
                self.break_on_sentence == old(self).break_on_sentence,
                self.current@.len() == 0,
            decreases self.done@.len(),
        {
            self.done.pop_front();
            assert(self.done@ =~= full.skip(full.len() - self.done@.len()));
        }
        assert(self.done@ =~= last_n(full, self.lines as nat));
        assert(self@.done =~= last_n(views(full), self.lines as nat));
        assert(self@.current =~= Seq::empty());
        proof {
            if old(self)@.wf() {
                lemma_joined_nonempty(old(self)@.current, ' ');
            }
        }
    }
}

/// Whether `text` ends a sentence. Trailing quotes and brackets are skipped so
/// `he said "no."` still counts.
pub fn ends_sentence(text: &str) -> (r: bool)
    ensures
        r == sentence_end(text@),
{
    let chars = chars_of(text);
    let mut end: usize = chars.len();
    while end > 0 && is_white_space(chars[end - 1])
        invariant
            end <= chars.len(),
            forall|i: int| end <= i < chars.len() ==> white_space(#[trigger] chars[i]),
        decreases end,
    {
        end = end - 1;
    }
    let ghost solid = end;
    while end > 0 && is_closing(chars[end - 1])
        invariant
            end <= solid <= chars.len(),
            forall|i: int| end <= i < solid ==> closes(#[trigger] chars[i]),
        decreases end,
    {
        end = end - 1;
    }
    proof {
        lemma_strip_end_at(text@, |c: char| white_space(c), solid as int);
        let t = text@.take(solid as int);
        let q = |c: char| closes(c);
        assert forall|i: int| end <= i < t.len() implies q(#[trigger] t[i]) by {
            assert(t[i] == chars[i]);
        }
        lemma_strip_end_at(t, q, end as int);
    }
    end > 0 && is_stop(chars[end - 1])
}

fn is_closing(c: char) -> (r: bool)
    ensures
        r == closes(c),
{
    c == '"' || c == '\'' || c == ')' || c == ']' || c == '}' || c == '\u{201d}' || c == '\u{2019}'
        || c == '\u{00bb}'
}

fn is_stop(c: char) -> (r: bool)
    ensures
        r == stops(c),
{
    c == '.' || c == '!' || c == '?' || c == '\u{2026}'
}

} // verus!
