//! What one push, freeze or clear makes of each part of a roll-up window, and
//! what is shown of it.

use vstd::prelude::*;

use super::window::{
    answers, at_least_one, closes, display_columns, last_n, run, sentence_end, stops, Push,
    Screen,
};
use super::window_laws::law_no_blank_state;
use crate::text::{joined, trimmed, white_space};
use crate::text::{lemma_strip_end_at, lemma_trimmed_empty};
use crate::text_laws::law_joining;

verus! {

/// The marks that may follow the end of a sentence are the straight quotes, the
/// closing brackets and the closing typographic quotes.
pub proof fn law_closing_marks(c: char)
    ensures
        closes(c) <==> {
            let n = c as u32;
            ||| n == 0x22
            ||| n == 0x27
            ||| n == 0x29
            ||| n == 0x5d
            ||| n == 0x7d
            ||| n == 0x201d
            ||| n == 0x2019
            ||| n == 0xbb
        },
{
}

/// A sentence ends with a full stop, an exclamation mark, a question mark or an
/// ellipsis.
pub proof fn law_sentence_stops(c: char)
    ensures
        stops(c) <==> {
            let n = c as u32;
            ||| n == 0x2e
            ||| n == 0x21
            ||| n == 0x3f
            ||| n == 0x2026
        },
{
}

/// Closing marks, and white space behind them, make no difference to whether a
/// text ends a sentence: what counts is the character before them.
pub proof fn law_sentence_ends_before_closing_marks(
    head: Seq<char>,
    marks: Seq<char>,
    tail: Seq<char>,
)
    requires
        forall|i: int| 0 <= i < marks.len() ==> closes(#[trigger] marks[i]),
        forall|i: int| 0 <= i < tail.len() ==> white_space(#[trigger] tail[i]),
        head.len() > 0 ==> !closes(head.last()),
        head.len() > 0 && marks.len() == 0 ==> !white_space(head.last()),
    ensures
        sentence_end(head + marks + tail) <==> head.len() > 0 && stops(head.last()),
{
    let text = head + marks + tail;
    let p = |c: char| white_space(c);
    let q = |c: char| closes(c);
    let n = (head + marks).len() as int;
    if marks.len() > 0 {
        assert(closes(marks[marks.len() - 1]));
        assert(text[n - 1] == marks[marks.len() - 1]);
    }
    lemma_strip_end_at(text, p, n);
    assert(text.take(n) =~= head + marks);
    lemma_strip_end_at(head + marks, q, head.len() as int);
    assert((head + marks).take(head.len() as int) =~= head);
}

/// The last `n` entries are the end of a sequence, as long as it goes.
pub proof fn law_last_entries<A>(s: Seq<A>, n: nat)
    ensures
        last_n(s, n).len() == if s.len() < n {
            s.len()
        } else {
            n
        },
        forall|i: int|
            0 <= i < last_n(s, n).len() ==> #[trigger] last_n(s, n)[i] == s[s.len() - last_n(
                s,
                n,
            ).len() + i],
{
}

/// A measure of a window is taken as it is, except that it is never less than
/// one.
pub proof fn law_measures_are_positive(n: nat)
    ensures
        n >= 1 ==> at_least_one(n) == n,
        n == 0 ==> at_least_one(n) == 1,
{
}

/// What is shown are the newest of the frozen lines and the growing one, one to
/// a line, as many as there is room for.
pub proof fn law_display_shows_the_newest_lines(s: Screen)
    ensures
        ({
            let total = s.done.len() + if s.current.len() == 0 {
                0nat
            } else {
                1nat
            };
            let shown = s.visible();
            &&& shown.len() == if total < s.lines {
                total
            } else {
                s.lines
            }
            &&& forall|i: int|
                0 <= i < shown.len() ==> {
                    let at = total - shown.len() + i;
                    #[trigger] shown[i] == if at < s.done.len() {
                        s.done[at]
                    } else {
                        joined(s.current, ' ')
                    }
                }
            &&& s.rendered() == joined(shown, '\n')
            &&& s.entries().len() == total
        }),
{
}

/// A window of no text has neither frozen lines nor a growing one, and shows
/// nothing; clearing keeps the geometry.
pub proof fn law_clearing_leaves_no_text(
    s: Screen,
    columns: nat,
    lines: nat,
    break_on_sentence: bool,
)
    ensures
        ({
            let clear = s.cleared();
            &&& clear.done.len() == 0
            &&& clear.current.len() == 0
            &&& clear.columns == s.columns
            &&& clear.lines == s.lines
            &&& clear.break_on_sentence == s.break_on_sentence
            &&& clear.rendered().len() == 0
        }),
        ({
            let new = Screen::empty(columns, lines, break_on_sentence);
            &&& new.done.len() == 0
            &&& new.current.len() == 0
            &&& new.columns == columns
            &&& new.lines == lines
            &&& new.break_on_sentence == break_on_sentence
            &&& new.rendered().len() == 0
        }),
{
}

/// Whether `after` holds the lines of `before` and those of `more` below them,
/// without the oldest if there are more than `lines`.
pub open spec fn scrolled(
    before: Seq<Seq<char>>,
    more: Seq<Seq<char>>,
    lines: nat,
    after: Seq<Seq<char>>,
) -> bool {
    let total = before.len() + more.len();
    &&& after.len() == if total < lines {
        total
    } else {
        lines
    }
    &&& forall|i: int|
        0 <= i < after.len() ==> {
            let at = total - after.len() + i;
            #[trigger] after[i] == if at < before.len() {
                before[at]
            } else {
                more[at - before.len()]
            }
        }
}

/// Freezing turns the growing line into the newest frozen one; where no line
/// grows it does nothing.
pub proof fn law_freezing_completes_the_line(s: Screen)
    ensures
        s.current.len() == 0 ==> s.frozen() == s,
        s.current.len() > 0 ==> {
            let after = s.frozen();
            &&& after.current.len() == 0
            &&& scrolled(s.done, seq![joined(s.current, ' ')], s.lines, after.done)
            &&& after.columns == s.columns
            &&& after.lines == s.lines
            &&& after.break_on_sentence == s.break_on_sentence
        },
{
}

/// A word joins the growing line if that stays within the columns, and
/// otherwise completes it and starts the next; the end of a sentence completes
/// the line that the word came to stand in. Nothing but completed lines is
/// added to the frozen ones, and the geometry stays.
pub proof fn law_placing_a_word(s: Screen, word: Seq<char>, width: nat)
    ensures
        ({
            let after = s.placed(word, width);
            let joins = s.current.len() == 0 || width <= s.columns;
            let ends = s.break_on_sentence && sentence_end(word);
            let row = if joins {
                s.current.push(word)
            } else {
                seq![word]
            };
            let full = joined(s.current, ' ');
            &&& !ends ==> after.current == row
            &&& ends ==> after.current.len() == 0
            &&& joins && !ends ==> after.done == s.done
            &&& joins && ends ==> scrolled(s.done, seq![joined(row, ' ')], s.lines, after.done)
            &&& !joins && !ends ==> scrolled(s.done, seq![full], s.lines, after.done)
            &&& !joins && ends ==> scrolled(s.done, seq![full, word], s.lines, after.done)
            &&& after.columns == s.columns
            &&& after.lines == s.lines
            &&& after.break_on_sentence == s.break_on_sentence
        }),
{
    let after = s.placed(word, width);
    let joins = s.current.len() == 0 || width <= s.columns;
    let base = if joins {
        s
    } else {
        s.frozen()
    };
    let grown = Screen { current: base.current.push(word), ..base };
    law_freezing_completes_the_line(s);
    law_freezing_completes_the_line(grown);
    law_joining(Seq::empty(), Seq::empty(), word, ' ');
    if !joins {
        assert(base.current.push(word) =~= seq![word]);
    }
}

/// The width of a line is that of its words with one space between each two.
/// A word is placed without the white space around it, and a blank one changes
/// nothing.
pub proof fn law_pushing_a_word(s: Screen, word: Seq<char>)
    ensures
        (forall|i: int| 0 <= i < word.len() ==> white_space(#[trigger] word[i])) ==> s.pushed(word)
            == s && s.pushed_plainly(word) == s,
        !(forall|i: int| 0 <= i < word.len() ==> white_space(#[trigger] word[i])) ==> {
            let bare = trimmed(word);
            let line = joined(s.current.push(bare), ' ');
            &&& s.current.len() > 0 ==> s.candidate(bare) == line
            &&& s.current.len() > 0 ==> s.pushed(word) == s.placed(
                bare,
                display_columns(line) as nat,
            )
            &&& s.current.len() > 0 ==> s.pushed_plainly(word) == s.placed(bare, line.len())
            &&& s.current.len() == 0 ==> s.pushed(word) == s.placed(bare, 0)
            &&& s.current.len() == 0 ==> s.pushed_plainly(word) == s.placed(bare, 0)
        },
{
    lemma_trimmed_empty(word);
    let bare = trimmed(word);
    if s.current.len() > 0 {
        law_joining(s.current, seq![bare], bare, ' ');
        assert(s.current + seq![bare] =~= s.current.push(bare));
        assert(s.candidate(bare) =~= joined(s.current.push(bare), ' '));
    }
}

/// A line with a word at its end reads as its words do, then one space, then
/// the word.
pub proof fn law_line_with_a_word(s: Screen, word: Seq<char>)
    ensures
        s.line() == joined(s.current, ' '),
        s.candidate(word) == joined(s.current, ' ') + seq![' '] + word,
{
    assert(s.candidate(word) =~= joined(s.current, ' ') + seq![' '] + word);
}

/// Where sentences do not break lines, no punctuation completes a line: the
/// line that a word came to stand in still grows.
pub proof fn law_without_sentence_breaks_the_line_grows(s: Screen, word: Seq<char>)
    requires
        !s.break_on_sentence,
        exists|i: int| 0 <= i < word.len() && !white_space(#[trigger] word[i]),
    ensures
        s.pushed(word).current.len() > 0,
        s.pushed(word).current.last() == trimmed(word),
{
    law_pushing_a_word(s, word);
    law_placing_a_word(s, trimmed(word), 0);
    if s.current.len() > 0 {
        law_placing_a_word(
            s,
            trimmed(word),
            display_columns(joined(s.current.push(trimmed(word)), ' ')) as nat,
        );
    }
}

/// A push that adds a word to a window with room for a line answers with all
/// that is shown from then on; a blank word is answered with no redraw.
pub proof fn law_push_answers(r: Push, s: Screen, word: Seq<char>)
    requires
        s.wf(),
        answers(r, word, s.pushed(word)),
    ensures
        (forall|i: int| 0 <= i < word.len() ==> white_space(#[trigger] word[i])) ==> r is Unchanged,
        !(forall|i: int| 0 <= i < word.len() ==> white_space(#[trigger] word[i])) ==> (r matches
            Push::Redraw(text) && text@ == s.pushed(word).rendered() && text@.len() > 0),
{
    if !(forall|i: int| 0 <= i < word.len() ==> white_space(#[trigger] word[i])) {
        law_no_blank_state(s, word);
    }
}

/// A run of words is pushed word by word, each of them once.
pub proof fn law_run_pushes_every_word(s: Screen, words: Seq<Seq<char>>, word: Seq<char>)
    ensures
        run(s, Seq::empty()) == s,
        run(s, words.push(word)) == run(s, words).pushed(word),
{
    assert(words.push(word).drop_last() =~= words);
}

/// A well-formed window has room for a line, and holds no empty line or word.
pub proof fn law_well_formed_window(s: Screen)
    ensures
        s.wf() <==> {
            &&& s.lines >= 1
            &&& forall|i: int| 0 <= i < s.done.len() ==> (#[trigger] s.done[i]).len() >= 1
            &&& forall|i: int| 0 <= i < s.current.len() ==> (#[trigger] s.current[i]).len() >= 1
        },
{
}

} // verus!
