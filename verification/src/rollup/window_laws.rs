//! What holds of a roll-up window over any run of pushed words.

use vstd::prelude::*;

use super::window::{display_columns, last_n, plain, run, Screen};
use crate::text::{blank, joined, trimmed};
use crate::text::{lemma_joined_nonempty, lemma_trimmed_empty};

verus! {

/// The lines that pushing `word` completes, each as its words.
pub open spec fn completed(s: Screen, word: Seq<char>) -> Seq<Seq<Seq<char>>> {
    let bare = trimmed(word);
    if bare.len() == 0 {
        Seq::empty()
    } else {
        let over = s.overflows(display_columns(s.candidate(bare)) as nat);
        let filled = if over {
            seq![s.current]
        } else {
            Seq::empty()
        };
        let rest = if over {
            Seq::empty()
        } else {
            s.current
        };
        if s.completes(bare) {
            filled.push(rest.push(bare))
        } else {
            filled
        }
    }
}

/// All lines completed while the words were pushed, each as its words.
pub open spec fn groups(s: Screen, words: Seq<Seq<char>>) -> Seq<Seq<Seq<char>>>
    decreases words.len(),
{
    if words.len() == 0 {
        Seq::empty()
    } else {
        groups(s, words.drop_last()) + completed(run(s, words.drop_last()), words.last())
    }
}

/// The lines that groups of words make.
pub open spec fn lines_of(groups: Seq<Seq<Seq<char>>>) -> Seq<Seq<char>> {
    groups.map_values(|g: Seq<Seq<char>>| joined(g, ' '))
}

/// Every line that was ever frozen, whether it is still shown or not.
pub open spec fn history(s: Screen, words: Seq<Seq<char>>) -> Seq<Seq<char>> {
    s.done + lines_of(groups(s, words))
}

/// The trimmed words, without the blank ones.
pub open spec fn kept(words: Seq<Seq<char>>) -> Seq<Seq<char>>
    decreases words.len(),
{
    if words.len() == 0 {
        Seq::empty()
    } else if blank(words.last()) {
        kept(words.drop_last())
    } else {
        kept(words.drop_last()).push(trimmed(words.last()))
    }
}

/// The completed lines and the one that still grows, each as its words.
pub open spec fn rows(s: Screen, words: Seq<Seq<char>>) -> Seq<Seq<Seq<char>>> {
    let current = run(s, words).current;
    if current.len() == 0 {
        groups(s, words)
    } else {
        groups(s, words).push(current)
    }
}

proof fn lemma_last_n_push<A>(s: Seq<A>, n: nat, a: A)
    requires
        n >= 1,
    ensures
        last_n(last_n(s, n).push(a), n) == last_n(s.push(a), n),
{
    assert(last_n(last_n(s, n).push(a), n) =~= last_n(s.push(a), n));
}

/// Joining with one more part.
proof fn lemma_joined_push(parts: Seq<Seq<char>>, part: Seq<char>, sep: char)
    ensures
        parts.len() == 0 ==> joined(parts.push(part), sep) == part,
        parts.len() > 0 ==> joined(parts.push(part), sep) == joined(parts, sep).push(sep) + part,
{
    assert(parts.push(part).drop_last() =~= parts);
}

/// Pushing a word only adds the completed lines below the frozen ones; the
/// geometry does not change.
pub proof fn law_push_only_appends(s: Screen, word: Seq<char>)
    requires
        s.lines >= 1,
    ensures
        last_n(s.pushed(word).done, s.lines) == last_n(
            s.done + lines_of(completed(s, word)),
            s.lines,
        ),
        s.done.len() <= s.lines ==> s.pushed(word).done.len() <= s.lines,
        s.pushed(word).columns == s.columns,
        s.pushed(word).lines == s.lines,
        s.pushed(word).break_on_sentence == s.break_on_sentence,
{
    let bare = trimmed(word);
    if bare.len() == 0 {
        assert(s.done + lines_of(completed(s, word)) =~= s.done);
    } else {
        let width = display_columns(s.candidate(bare)) as nat;
        let over = s.overflows(width);
        let base = if over {
            s.frozen()
        } else {
            s
        };
        let grown = Screen { current: base.current.push(bare), ..base };
        let new = completed(s, word);
        let filled = if over {
            s.done.push(s.line())
        } else {
            s.done
        };
        assert(last_n(base.done, s.lines) =~= last_n(filled, s.lines));
        if s.completes(bare) {
            let line = grown.line();
            assert(s.done + lines_of(new) =~= filled.push(line));
            lemma_last_n_push(base.done, s.lines, line);
            lemma_last_n_push(filled, s.lines, line);
            assert(s.pushed(word).done == last_n(base.done.push(line), s.lines));
            assert(last_n(s.pushed(word).done, s.lines) =~= s.pushed(word).done);
        } else {
            assert(s.done + lines_of(new) =~= filled);
        }
    }
}

/// No run of words changes the geometry of the window.
pub proof fn law_geometry_is_kept(s: Screen, words: Seq<Seq<char>>)
    requires
        s.lines >= 1,
    ensures
        run(s, words).columns == s.columns,
        run(s, words).lines == s.lines,
        run(s, words).break_on_sentence == s.break_on_sentence,
    decreases words.len(),
{
    if words.len() > 0 {
        law_geometry_is_kept(s, words.drop_last());
        law_push_only_appends(run(s, words.drop_last()), words.last());
    }
}

/// The frozen lines in the window are always the newest of all lines ever
/// frozen, in order and unaltered.
pub proof fn law_window_is_end_of_history(s: Screen, words: Seq<Seq<char>>)
    requires
        s.lines >= 1,
    ensures
        last_n(run(s, words).done, s.lines) == last_n(history(s, words), s.lines),
        s.done.len() <= s.lines ==> run(s, words).done == last_n(history(s, words), s.lines),
    decreases words.len(),
{
    if words.len() == 0 {
        assert(history(s, words) =~= s.done);
    } else {
        let front = words.drop_last();
        let before = run(s, front);
        let new = lines_of(completed(before, words.last()));
        law_window_is_end_of_history(s, front);
        law_geometry_is_kept(s, front);
        law_push_only_appends(before, words.last());
        assert(history(s, words) =~= history(s, front) + new);
        assert(last_n(before.done + new, s.lines) =~= last_n(history(s, front) + new, s.lines)) by {
            lemma_last_n_append(before.done, new, s.lines);
            lemma_last_n_append(history(s, front), new, s.lines);
        }
        if s.done.len() <= s.lines {
            assert(before.done.len() <= s.lines);
            assert(last_n(run(s, words).done, s.lines) =~= run(s, words).done);
        }
    }
}

proof fn lemma_last_n_append<A>(a: Seq<A>, b: Seq<A>, n: nat)
    ensures
        last_n(last_n(a, n) + b, n) == last_n(a + b, n),
{
    assert(last_n(last_n(a, n) + b, n) =~= last_n(a + b, n));
}

/// The lines frozen so far are never rewritten: whatever is pushed later only
/// adds lines behind them.
pub proof fn law_history_only_grows(s: Screen, words: Seq<Seq<char>>, i: int)
    requires
        0 <= i <= words.len(),
    ensures
        history(s, words.take(i)).is_prefix_of(history(s, words)),
    decreases words.len(),
{
    if i == words.len() {
        assert(words.take(i) =~= words);
    } else {
        let front = words.drop_last();
        law_history_only_grows(s, front, i);
        assert(front.take(i) =~= words.take(i));
        assert(history(s, words) =~= history(s, front) + lines_of(
            completed(run(s, front), words.last()),
        ));
    }
}

/// Every line that was ever frozen, followed by the one that still grows.
pub open spec fn all_lines(s: Screen, words: Seq<Seq<char>>) -> Seq<Seq<char>> {
    let after = run(s, words);
    if after.current.len() == 0 {
        history(s, words)
    } else {
        history(s, words).push(after.line())
    }
}

/// The lines on display are always the newest of all lines, in order and
/// unaltered.
pub proof fn law_display_is_end_of_all_lines(s: Screen, words: Seq<Seq<char>>)
    requires
        s.lines >= 1,
    ensures
        run(s, words).visible() == last_n(all_lines(s, words), s.lines),
{
    law_window_is_end_of_history(s, words);
    law_geometry_is_kept(s, words);
    let after = run(s, words);
    if after.current.len() > 0 {
        lemma_last_n_push(after.done, s.lines, after.line());
        lemma_last_n_push(history(s, words), s.lines, after.line());
    }
}

/// Nothing on display moves when a word comes in. Either the word is appended
/// to the bottom line and every line above it stays, or the word starts a line
/// of its own below all lines on display, and they scroll up to make room.
pub proof fn law_displayed_lines_never_move(s: Screen, word: Seq<char>)
    requires
        s.lines >= 1,
        !blank(word),
    ensures
        ({
            let bare = trimmed(word);
            let grows = s.current.len() > 0 && display_columns(s.candidate(bare)) <= s.columns;
            s.pushed(word).visible() == if grows {
                s.visible().drop_last().push(s.candidate(bare))
            } else {
                last_n(s.visible().push(bare), s.lines)
            }
        }),
{
    let bare = trimmed(word);
    let grows = s.current.len() > 0 && display_columns(s.candidate(bare)) <= s.columns;
    lemma_trimmed_empty(word);
    lemma_joined_push(s.current, bare, ' ');
    lemma_joined_push(Seq::empty(), bare, ' ');
    let base = if grows {
        s
    } else {
        s.frozen()
    };
    let grown = Screen { current: base.current.push(bare), ..base };
    assert(s.pushed(word).visible() =~= grown.visible()) by {
        law_freezing_shows_nothing_new(grown);
    }
    if grows {
        assert(grown.visible() =~= s.visible().drop_last().push(s.candidate(bare)));
    } else {
        law_freezing_shows_nothing_new(s);
        assert(s.frozen().visible() == last_n(base.done, s.lines));
        lemma_last_n_push(base.done, s.lines, bare);
        assert(grown.entries() == base.done.push(bare));
    }
}

/// There are never fewer lines than before.
proof fn lemma_all_lines_grow(s: Screen, words: Seq<Seq<char>>, i: int)
    requires
        0 <= i <= words.len(),
    ensures
        all_lines(s, words.take(i)).len() <= all_lines(s, words).len(),
    decreases words.len(),
{
    if i == words.len() {
        assert(words.take(i) =~= words);
    } else {
        let front = words.drop_last();
        lemma_all_lines_grow(s, front, i);
        assert(front.take(i) =~= words.take(i));
    }
}

/// A frozen line is byte-identical on display until it scrolls off, and once
/// it has scrolled off it never comes back.
pub proof fn law_frozen_line_stays_until_scrolled_off(
    s: Screen,
    words: Seq<Seq<char>>,
    i: int,
    k: int,
)
    requires
        s.lines >= 1,
        0 <= i <= words.len(),
        0 <= k < history(s, words.take(i)).len(),
    ensures
        ({
            let frozen = history(s, words.take(i));
            let early = all_lines(s, words.take(i));
            let late = all_lines(s, words);
            let shown = run(s, words).visible();
            &&& late.len() - k <= s.lines ==> shown[k - (late.len() - shown.len())] == frozen[k]
            &&& early.len() - k > s.lines ==> late.len() - k > s.lines
        }),
{
    law_history_only_grows(s, words, i);
    law_display_is_end_of_all_lines(s, words);
    lemma_all_lines_grow(s, words, i);
}

/// Every pushed word that is not blank stands in exactly one line, in the
/// order in which the words came.
pub proof fn law_lines_hold_the_words_in_order(s: Screen, words: Seq<Seq<char>>)
    ensures
        groups(s, words).flatten() + run(s, words).current == s.current + kept(words),
    decreases words.len(),
{
    broadcast use Seq::lemma_flatten_push;

    if words.len() == 0 {
        assert(groups(s, words).flatten() + run(s, words).current =~= s.current + kept(words));
    } else {
        let front = words.drop_last();
        let before = run(s, front);
        let old_groups = groups(s, front);
        let new = completed(before, words.last());
        let bare = trimmed(words.last());
        law_lines_hold_the_words_in_order(s, front);
        lemma_trimmed_empty(words.last());
        if bare.len() == 0 {
            assert(old_groups + new =~= old_groups);
        } else {
            let over = before.overflows(display_columns(before.candidate(bare)) as nat);
            let all = old_groups.flatten() + before.current.push(bare);
            assert(all =~= (old_groups.flatten() + before.current).push(bare));
            assert(all =~= s.current + kept(words));
            let rest = if over {
                Seq::empty()
            } else {
                before.current
            };
            let filled = if over {
                old_groups.push(before.current)
            } else {
                old_groups
            };
            assert(filled.flatten() + rest =~= old_groups.flatten() + before.current);
            if before.completes(bare) {
                assert(old_groups + new =~= filled.push(rest.push(bare)));
                assert(filled.push(rest.push(bare)).flatten() =~= all);
                assert(run(s, words).current =~= Seq::empty());
            } else {
                assert(old_groups + new =~= filled);
                assert(run(s, words).current =~= rest.push(bare));
            }
            assert(groups(s, words).flatten() + run(s, words).current =~= all);
        }
    }
}

/// Joining two runs of parts.
proof fn lemma_joined_append(a: Seq<Seq<char>>, b: Seq<Seq<char>>, sep: char)
    requires
        a.len() > 0,
        b.len() > 0,
    ensures
        joined(a + b, sep) == joined(a, sep).push(sep) + joined(b, sep),
    decreases b.len(),
{
    let front = b.drop_last();
    assert((a + b).drop_last() =~= a + front);
    if front.len() == 0 {
        assert(a + front =~= a);
    } else {
        lemma_joined_append(a, front, sep);
        assert(joined(a + b, sep) =~= joined(a, sep).push(sep) + joined(b, sep));
    }
}

/// Joining lines reads the same as joining all their words.
proof fn lemma_joined_lines(groups: Seq<Seq<Seq<char>>>)
    requires
        forall|k: int| 0 <= k < groups.len() ==> (#[trigger] groups[k]).len() > 0,
    ensures
        joined(lines_of(groups), ' ') == joined(groups.flatten(), ' '),
        groups.len() > 0 ==> groups.flatten().len() > 0,
    decreases groups.len(),
{
    if groups.len() > 0 {
        let front = groups.drop_last();
        assert forall|k: int| 0 <= k < front.len() implies (#[trigger] front[k]).len() > 0 by {
            assert(front[k] == groups[k]);
        }
        lemma_joined_lines(front);
        front.lemma_flatten_push(groups.last());
        assert(front.push(groups.last()) =~= groups);
        assert(lines_of(front).push(joined(groups.last(), ' ')) =~= lines_of(groups));
        lemma_joined_push(lines_of(front), joined(groups.last(), ' '), ' ');
        if front.len() == 0 {
            assert(front.flatten() + groups.last() =~= groups.last());
        } else {
            lemma_joined_append(front.flatten(), groups.last(), ' ');
        }
    }
}

proof fn lemma_groups_nonempty(s: Screen, words: Seq<Seq<char>>)
    ensures
        forall|k: int| 0 <= k < rows(s, words).len() ==> (#[trigger] rows(s, words)[k]).len() > 0,
    decreases words.len(),
{
    if words.len() > 0 {
        let front = words.drop_last();
        lemma_groups_nonempty(s, front);
        let old_groups = groups(s, front);
        assert forall|k: int| 0 <= k < old_groups.len() implies old_groups[k].len() > 0 by {
            assert(rows(s, front)[k] == old_groups[k]);
        }
        let new = completed(run(s, front), words.last());
        assert forall|k: int| 0 <= k < rows(s, words).len() implies (#[trigger] rows(
            s,
            words,
        )[k]).len() > 0 by {
            if k < old_groups.len() {
                assert(rows(s, words)[k] == old_groups[k]);
            } else if k < old_groups.len() + new.len() {
                assert(rows(s, words)[k] == new[k - old_groups.len()]);
            }
        }
    }
}

/// Where no line was growing before, the lines completed since, followed by
/// the growing one, reproduce the pushed words.
pub proof fn law_lines_reproduce_the_input(s: Screen, words: Seq<Seq<char>>)
    requires
        s.current.len() == 0,
    ensures
        joined(lines_of(rows(s, words)), ' ') == joined(kept(words), ' '),
{
    lemma_groups_nonempty(s, words);
    lemma_joined_lines(rows(s, words));
    law_lines_hold_the_words_in_order(s, words);
    assert(s.current + kept(words) =~= kept(words));
    let current = run(s, words).current;
    if current.len() == 0 {
        assert(groups(s, words).flatten() + current =~= groups(s, words).flatten());
    } else {
        groups(s, words).lemma_flatten_push(current);
    }
}

/// A line of more than one word is no wider than the window; only a word that
/// is alone on its line may be.
pub proof fn law_only_a_lone_word_is_too_wide(s: Screen, words: Seq<Seq<char>>)
    requires
        s.lines >= 1,
        s.current.len() > 1 ==> display_columns(s.line()) <= s.columns,
    ensures
        forall|k: int|
            0 <= k < rows(s, words).len() && (#[trigger] rows(s, words)[k]).len() > 1
                ==> display_columns(joined(rows(s, words)[k], ' ')) <= s.columns,
    decreases words.len(),
{
    if words.len() > 0 {
        let front = words.drop_last();
        let before = run(s, front);
        let old_groups = groups(s, front);
        let new = completed(before, words.last());
        let bare = trimmed(words.last());
        law_only_a_lone_word_is_too_wide(s, front);
        law_geometry_is_kept(s, front);
        lemma_joined_push(before.current, bare, ' ');
        assert forall|k: int| 0 <= k < old_groups.len() && old_groups[k].len() > 1 implies
            display_columns(joined(old_groups[k], ' ')) <= s.columns by {
            assert(rows(s, front)[k] == old_groups[k]);
        }
        if before.current.len() > 0 {
            assert(rows(s, front)[old_groups.len() as int] == before.current);
        }
        assert forall|k: int|
            0 <= k < rows(s, words).len() && (#[trigger] rows(s, words)[k]).len() > 1 implies
            display_columns(joined(rows(s, words)[k], ' ')) <= s.columns by {
            if k < old_groups.len() {
                assert(rows(s, words)[k] == old_groups[k]);
            } else if k < old_groups.len() + new.len() {
                assert(rows(s, words)[k] == new[k - old_groups.len()]);
            } else {
                assert(rows(s, words)[k] == run(s, words).current);
            }
        }
    }
}

/// Whether a line wraps at each of the words as it would if `measure` gave its
/// width.
pub open spec fn wraps_by(
    s: Screen,
    words: Seq<Seq<char>>,
    measure: spec_fn(Seq<char>) -> nat,
) -> bool {
    forall|i: int|
        0 <= i < words.len() ==> {
            let at = run(s, #[trigger] words.take(i));
            let line = at.candidate(trimmed(words[i]));
            !blank(words[i]) ==> (at.overflows(display_columns(line) as nat) <==> at.overflows(
                measure(line),
            ))
        }
}

/// What holds of all words for [`wraps_by`] holds of all but the last.
proof fn lemma_wraps_by_front(
    s: Screen,
    words: Seq<Seq<char>>,
    measure: spec_fn(Seq<char>) -> nat,
)
    requires
        words.len() > 0,
        wraps_by(s, words, measure),
    ensures
        wraps_by(s, words.drop_last(), measure),
{
    let front = words.drop_last();
    assert forall|i: int| 0 <= i < front.len() implies {
        let at = run(s, #[trigger] front.take(i));
        let line = at.candidate(trimmed(front[i]));
        !blank(front[i]) ==> (at.overflows(display_columns(line) as nat) <==> at.overflows(
            measure(line),
        ))
    } by {
        assert(front.take(i) =~= words.take(i));
        assert(front[i] == words[i]);
    }
}

/// A line is completed only by the end of a sentence or because the next word
/// would have made it too wide, by any measure that tells where lines wrap.
proof fn lemma_a_completed_line_is_full(
    s: Screen,
    words: Seq<Seq<char>>,
    measure: spec_fn(Seq<char>) -> nat,
)
    requires
        s.lines >= 1,
        wraps_by(s, words, measure),
    ensures
        forall|k: int|
            0 <= k < groups(s, words).len() ==> {
                let row = #[trigger] groups(s, words)[k];
                ||| s.completes(row.last())
                ||| k + 1 < rows(s, words).len() && measure(
                    joined(row, ' ').push(' ') + rows(s, words)[k + 1][0],
                ) > s.columns
            },
    decreases words.len(),
{
    if words.len() > 0 {
        let front = words.drop_last();
        let before = run(s, front);
        let old_groups = groups(s, front);
        let old_rows = rows(s, front);
        let new_rows = rows(s, words);
        let new = completed(before, words.last());
        let bare = trimmed(words.last());
        lemma_wraps_by_front(s, words, measure);
        lemma_a_completed_line_is_full(s, front, measure);
        lemma_trimmed_empty(words.last());
        assert(words.take(words.len() - 1) =~= front);
        law_geometry_is_kept(s, front);
        let over = before.overflows(display_columns(before.candidate(bare)) as nat);
        assert forall|k: int| 0 <= k < old_rows.len() implies k < new_rows.len() && new_rows[k][0]
            == old_rows[k][0] by {
            if k < old_groups.len() {
                assert(new_rows[k] == old_groups[k]);
            } else if bare.len() > 0 {
                assert(old_rows[k] == before.current);
                if over {
                    assert(new[0] == before.current);
                    assert(groups(s, words)[k] == new[0]);
                } else if before.completes(bare) {
                    assert(new[0] == before.current.push(bare));
                    assert(groups(s, words)[k] == new[0]);
                } else {
                    assert(run(s, words).current == before.current.push(bare));
                }
            }
        }
        assert forall|k: int| 0 <= k < groups(s, words).len() implies ({
            let row = #[trigger] groups(s, words)[k];
            ||| s.completes(row.last())
            ||| k + 1 < new_rows.len() && measure(
                joined(row, ' ').push(' ') + new_rows[k + 1][0],
            ) > s.columns
        }) by {
            let row = groups(s, words)[k];
            if k < old_groups.len() {
                assert(row == old_groups[k]);
                if !s.completes(row.last()) {
                    assert(new_rows[k + 1][0] == old_rows[k + 1][0]);
                }
            } else {
                assert(row == new[k - old_groups.len()]);
                if over && k == old_groups.len() {
                    assert(row == before.current);
                    if before.completes(bare) {
                        assert(new[1] == Seq::<Seq<char>>::empty().push(bare));
                        assert(new_rows[k + 1] == new[1]);
                    } else {
                        assert(run(s, words).current == Seq::<Seq<char>>::empty().push(bare));
                    }
                    assert(new_rows[k + 1][0] == bare);
                }
            }
        }
    }
}

/// A line is completed only by the end of a sentence or because the next word
/// would have made it too wide.
pub proof fn law_a_completed_line_is_full(s: Screen, words: Seq<Seq<char>>)
    requires
        s.lines >= 1,
    ensures
        forall|k: int|
            0 <= k < groups(s, words).len() ==> {
                let row = #[trigger] groups(s, words)[k];
                ||| s.completes(row.last())
                ||| k + 1 < rows(s, words).len() && display_columns(
                    joined(row, ' ').push(' ') + rows(s, words)[k + 1][0],
                ) > s.columns
            },
{
    lemma_a_completed_line_is_full(s, words, |line: Seq<char>| display_columns(line) as nat);
}

/// What a window that starts without text shows are the newest rows.
pub proof fn law_visible_lines_are_the_newest_rows(s: Screen, words: Seq<Seq<char>>)
    requires
        s.lines >= 1,
        s.done.len() == 0,
        s.current.len() == 0,
    ensures
        run(s, words).visible() == last_n(lines_of(rows(s, words)), s.lines),
{
    law_window_is_end_of_history(s, words);
    law_geometry_is_kept(s, words);
    let after = run(s, words);
    let frozen = lines_of(groups(s, words));
    assert(history(s, words) =~= frozen);
    if after.current.len() > 0 {
        assert(lines_of(rows(s, words)) =~= frozen.push(after.line()));
        lemma_last_n_push(frozen, s.lines, after.line());
    } else {
        assert(last_n(last_n(frozen, s.lines), s.lines) =~= last_n(frozen, s.lines));
    }
}

/// Freezing the growing line shows nothing new, and freezing twice is freezing
/// once.
pub proof fn law_freezing_shows_nothing_new(s: Screen)
    requires
        s.lines >= 1,
    ensures
        s.frozen().visible() == s.visible(),
        s.frozen().rendered() == s.rendered(),
        s.frozen().entries().len() == 0 <==> s.entries().len() == 0,
        s.frozen().frozen() == s.frozen(),
{
    if s.current.len() > 0 {
        assert(s.frozen().visible() =~= s.visible());
    }
}

/// The number of words in the first `k` rows.
pub open spec fn words_before(rows: Seq<Seq<Seq<char>>>, k: int) -> nat {
    rows.take(k).flatten().len()
}

/// Whether a longer run of these words is never narrower.
pub open spec fn widths_grow(
    words: Seq<Seq<char>>,
    measure: spec_fn(Seq<char>) -> nat,
) -> bool {
    forall|a: int, b: int, c: int, d: int|
        #![trigger words.subrange(a, d), words.subrange(b, c)]
        0 <= a <= b <= c <= d <= words.len() ==> measure(joined(words.subrange(b, c), ' '))
            <= measure(joined(words.subrange(a, d), ' '))
}

/// A way to cut `words` into rows of which none is empty or too wide.
pub open spec fn is_cut(
    cut: Seq<Seq<Seq<char>>>,
    words: Seq<Seq<char>>,
    columns: nat,
    measure: spec_fn(Seq<char>) -> nat,
) -> bool {
    &&& cut.flatten() == words
    &&& forall|k: int|
        0 <= k < cut.len() ==> (#[trigger] cut[k]).len() > 0 && measure(joined(cut[k], ' '))
            <= columns
}

/// A row is the stretch of all words that starts behind the rows before it.
proof fn lemma_row_in_words(rows: Seq<Seq<Seq<char>>>, k: int)
    requires
        0 <= k < rows.len(),
    ensures
        words_before(rows, k + 1) == words_before(rows, k) + rows[k].len(),
        words_before(rows, k + 1) <= rows.flatten().len(),
        rows.flatten().subrange(
            words_before(rows, k) as int,
            words_before(rows, k + 1) as int,
        ) == rows[k],
{
    rows.take(k).lemma_flatten_push(rows[k]);
    assert(rows.take(k).push(rows[k]) =~= rows.take(k + 1));
    vstd::seq_lib::lemma_flatten_concat(rows.take(k + 1), rows.skip(k + 1));
    assert(rows.take(k + 1) + rows.skip(k + 1) =~= rows);
    assert(rows.flatten().subrange(
        words_before(rows, k) as int,
        words_before(rows, k + 1) as int,
    ) =~= rows[k]);
}

/// In no cut do the first `k` rows hold more words than in the window.
proof fn lemma_rows_are_ahead(
    s: Screen,
    words: Seq<Seq<char>>,
    cut: Seq<Seq<Seq<char>>>,
    measure: spec_fn(Seq<char>) -> nat,
    k: int,
)
    requires
        s.lines >= 1,
        !s.break_on_sentence,
        s.current.len() == 0,
        wraps_by(s, words, measure),
        widths_grow(kept(words), measure),
        is_cut(cut, kept(words), s.columns, measure),
        rows(s, words).flatten() == kept(words),
        0 <= k <= cut.len(),
        k < rows(s, words).len(),
    ensures
        words_before(cut, k) <= words_before(rows(s, words), k),
    decreases k,
{
    let all = kept(words);
    let ours = rows(s, words);
    if k == 0 {
        assert(cut.take(0) =~= Seq::empty());
    } else {
        let j = k - 1;
        lemma_rows_are_ahead(s, words, cut, measure, j);
        lemma_row_in_words(cut, j);
        lemma_row_in_words(ours, j);
        lemma_row_in_words(ours, k);
        lemma_groups_nonempty(s, words);
        lemma_a_completed_line_is_full(s, words, measure);
        assert(groups(s, words)[j] == ours[j]);
        assert(ours[k].len() > 0);
        let a = words_before(cut, j) as int;
        let b = words_before(ours, j) as int;
        let c = words_before(ours, k) as int;
        let d = words_before(cut, k) as int;
        if d > c {
            let wide = all.subrange(b, c + 1);
            assert(wide =~= ours[j].push(ours[k][0])) by {
                assert(all[c] == ours[k][0]) by {
                    assert(all.subrange(c, words_before(ours, k + 1) as int)[0] == all[c]);
                }
                assert forall|i: int| 0 <= i < ours[j].len() implies all[b + i] == ours[j][i] by {
                    assert(all.subrange(b, c)[i] == all[b + i]);
                }
            }
            lemma_joined_push(ours[j], ours[k][0], ' ');
            assert(measure(joined(wide, ' ')) > s.columns);
            assert(all.subrange(a, d) == cut[j]);
            assert(measure(joined(wide, ' ')) <= measure(joined(all.subrange(a, d), ' ')));
        }
    }
}

/// Without breaks at sentences the words take as few lines as they can, by any
/// measure that tells where lines wrap and by which a longer run of the words
/// is never narrower.
proof fn lemma_fewest_lines(
    s: Screen,
    words: Seq<Seq<char>>,
    cut: Seq<Seq<Seq<char>>>,
    measure: spec_fn(Seq<char>) -> nat,
)
    requires
        s.lines >= 1,
        !s.break_on_sentence,
        s.done.len() == 0,
        s.current.len() == 0,
        wraps_by(s, words, measure),
        widths_grow(kept(words), measure),
        is_cut(cut, kept(words), s.columns, measure),
    ensures
        rows(s, words).len() <= cut.len(),
        run(s, words).visible().len() <= cut.len(),
{
    let ours = rows(s, words);
    let current = run(s, words).current;
    law_lines_hold_the_words_in_order(s, words);
    assert(s.current + kept(words) =~= kept(words));
    if current.len() == 0 {
        assert(groups(s, words).flatten() + current =~= groups(s, words).flatten());
    } else {
        groups(s, words).lemma_flatten_push(current);
    }
    if cut.len() < ours.len() {
        let n = cut.len() as int;
        lemma_rows_are_ahead(s, words, cut, measure, n);
        assert(cut.take(n) =~= cut);
        lemma_row_in_words(ours, n);
        lemma_groups_nonempty(s, words);
        assert(ours[n].len() > 0);
    }
    law_visible_lines_are_the_newest_rows(s, words);
}

/// Without breaks at sentences, and where a longer run of the words is never
/// narrower, the words take as few lines as they can: no other way to cut them
/// into lines that fit has fewer.
pub proof fn law_fewest_lines(s: Screen, words: Seq<Seq<char>>, cut: Seq<Seq<Seq<char>>>)
    requires
        s.lines >= 1,
        !s.break_on_sentence,
        s.done.len() == 0,
        s.current.len() == 0,
        widths_grow(kept(words), |line: Seq<char>| display_columns(line) as nat),
        is_cut(cut, kept(words), s.columns, |line: Seq<char>| display_columns(line) as nat),
    ensures
        rows(s, words).len() <= cut.len(),
        run(s, words).visible().len() <= cut.len(),
{
    lemma_fewest_lines(s, words, cut, |line: Seq<char>| display_columns(line) as nat);
}

/// Joining a longer run never gives fewer characters.
proof fn lemma_joined_grows(words: Seq<Seq<char>>, a: int, b: int, c: int, d: int)
    requires
        0 <= a <= b <= c <= d <= words.len(),
    ensures
        joined(words.subrange(b, c), ' ').len() <= joined(words.subrange(a, d), ' ').len(),
{
    let inner = words.subrange(b, c);
    let right = words.subrange(c, d);
    let wider = words.subrange(b, d);
    let left = words.subrange(a, b);
    assert(inner + right =~= wider);
    assert(left + wider =~= words.subrange(a, d));
    if inner.len() > 0 && right.len() > 0 {
        lemma_joined_append(inner, right, ' ');
    } else if inner.len() > 0 {
        assert(wider =~= inner);
    }
    if left.len() > 0 && wider.len() > 0 {
        lemma_joined_append(left, wider, ' ');
    } else if wider.len() > 0 {
        assert(words.subrange(a, d) =~= wider);
    }
}

/// Whether each of the words, pushed in turn, was placed as if every character
/// took one column. Pushing makes it so of every word that leaves the growing
/// line plain.
pub open spec fn wraps_plainly(s: Screen, words: Seq<Seq<char>>) -> bool {
    forall|i: int|
        0 <= i < words.len() ==> run(s, #[trigger] words.take(i)).pushed(words[i]) == run(
            s,
            words.take(i),
        ).pushed_plainly(words[i])
}

proof fn lemma_plain_joined(parts: Seq<Seq<char>>)
    requires
        forall|i: int| 0 <= i < parts.len() ==> plain(#[trigger] parts[i]),
    ensures
        plain(joined(parts, ' ')),
    decreases parts.len(),
{
    if parts.len() > 1 {
        let front = parts.drop_last();
        assert forall|i: int| 0 <= i < front.len() implies plain(#[trigger] front[i]) by {
            assert(front[i] == parts[i]);
        }
        lemma_plain_joined(front);
        assert(plain(parts[parts.len() - 1]));
    } else if parts.len() == 1 {
        assert(plain(parts[0]));
    }
}

/// Plain words only ever make plain lines: the growing line is plain with any
/// of the words at its end.
pub proof fn law_plain_words_make_plain_lines(s: Screen, words: Seq<Seq<char>>)
    requires
        forall|i: int| 0 <= i < s.current.len() ==> plain(#[trigger] s.current[i]),
        forall|i: int| 0 <= i < words.len() ==> plain(trimmed(#[trigger] words[i])),
    ensures
        forall|i: int|
            0 <= i < run(s, words).current.len() ==> plain(#[trigger] run(s, words).current[i]),
        forall|i: int|
            0 <= i < words.len() ==> plain(
                run(s, #[trigger] words.take(i)).candidate(trimmed(words[i])),
            ),
    decreases words.len(),
{
    if words.len() > 0 {
        let front = words.drop_last();
        let last = words.len() - 1;
        assert forall|i: int| 0 <= i < front.len() implies plain(trimmed(#[trigger] front[i])) by {
            assert(front[i] == words[i]);
        }
        law_plain_words_make_plain_lines(s, front);
        lemma_plain_joined(run(s, front).current);
        assert(plain(trimmed(words[last])));
        assert forall|i: int| 0 <= i < words.len() implies plain(
            run(s, #[trigger] words.take(i)).candidate(trimmed(words[i])),
        ) by {
            if i < last {
                assert(words.take(i) =~= front.take(i));
                assert(front[i] == words[i]);
            } else {
                assert(words.take(i) =~= front);
            }
        }
    }
}

/// Plain text that was placed as such takes as few lines as it can: no other
/// way to cut its words into lines of at most as many characters as the window
/// has columns has fewer.
pub proof fn law_plain_text_takes_fewest_lines(
    s: Screen,
    words: Seq<Seq<char>>,
    cut: Seq<Seq<Seq<char>>>,
)
    requires
        s.lines >= 1,
        !s.break_on_sentence,
        s.done.len() == 0,
        s.current.len() == 0,
        wraps_plainly(s, words),
        is_cut(cut, kept(words), s.columns, |line: Seq<char>| line.len()),
    ensures
        rows(s, words).len() <= cut.len(),
        run(s, words).visible().len() <= cut.len(),
{
    let all = kept(words);
    let measure = |line: Seq<char>| line.len();
    assert forall|a: int, b: int, c: int, d: int|
        #![trigger all.subrange(a, d), all.subrange(b, c)]
        0 <= a <= b <= c <= d <= all.len() implies measure(joined(all.subrange(b, c), ' '))
        <= measure(joined(all.subrange(a, d), ' ')) by {
        lemma_joined_grows(all, a, b, c, d);
    }
    assert forall|i: int| 0 <= i < words.len() implies {
        let at = run(s, #[trigger] words.take(i));
        let line = at.candidate(trimmed(words[i]));
        !blank(words[i]) ==> (at.overflows(display_columns(line) as nat) <==> at.overflows(
            measure(line),
        ))
    } by {
        let at = run(s, words.take(i));
        law_geometry_is_kept(s, words.take(i));
        lemma_trimmed_empty(words[i]);
        assert(at.pushed(words[i]) == at.pushed_plainly(words[i]));
        assert(at.pushed(words[i]).current.len() == at.pushed_plainly(words[i]).current.len());
    }
    lemma_fewest_lines(s, words, cut, measure);
}

/// Pushing keeps a window well formed.
pub proof fn law_push_keeps_wf(s: Screen, word: Seq<char>)
    requires
        s.wf(),
    ensures
        s.pushed(word).wf(),
{
    let bare = trimmed(word);
    if bare.len() > 0 {
        lemma_joined_nonempty(s.current, ' ');
        lemma_joined_nonempty(s.current.push(bare), ' ');
        let one = Seq::<Seq<char>>::empty().push(bare);
        lemma_joined_nonempty(one, ' ');
    }
}

/// Runs of words keep a window well formed.
pub proof fn law_run_keeps_wf(s: Screen, words: Seq<Seq<char>>)
    requires
        s.wf(),
    ensures
        run(s, words).wf(),
    decreases words.len(),
{
    if words.len() > 0 {
        law_run_keeps_wf(s, words.drop_last());
        law_push_keeps_wf(run(s, words.drop_last()), words.last());
    }
}

/// A blank word changes nothing. Any other word is on display at the bottom
/// of the window: the bottom line is the one from before with the word
/// appended, or it restarts as the word alone.
pub proof fn law_bottom_line_grows_by_the_word(s: Screen, word: Seq<char>)
    requires
        s.wf(),
    ensures
        blank(word) ==> s.pushed(word) == s,
        !blank(word) ==> {
            let after = s.pushed(word);
            &&& after.visible().len() > 0
            &&& {
                ||| after.visible().last() == trimmed(word)
                ||| s.current.len() > 0 && after.visible().last() == s.candidate(trimmed(word))
            }
        },
{
    let bare = trimmed(word);
    lemma_trimmed_empty(word);
    if bare.len() > 0 {
        lemma_joined_push(s.current, bare, ' ');
        lemma_joined_push(Seq::empty(), bare, ' ');
        let after = s.pushed(word);
        assert(after.entries().len() > 0);
        assert(after.visible().last() == after.entries().last());
    }
}

/// What is on display after a word that is not blank is never empty.
pub proof fn law_no_blank_state(s: Screen, word: Seq<char>)
    requires
        s.wf(),
        !blank(word),
    ensures
        s.pushed(word).rendered().len() > 0,
{
    law_push_keeps_wf(s, word);
    law_bottom_line_grows_by_the_word(s, word);
    let after = s.pushed(word);
    lemma_joined_nonempty(after.current, ' ');
    assert forall|i: int| 0 <= i < after.visible().len() implies (
    #[trigger] after.visible()[i]).len() > 0 by {
        let j = i + after.entries().len() - after.visible().len();
        assert(after.visible()[i] == after.entries()[j]);
        if j < after.done.len() {
            assert(after.entries()[j] == after.done[j]);
        }
    }
    lemma_joined_nonempty(after.visible(), '\n');
}

/// Pushing words in batches makes the same window as pushing them all.
pub proof fn law_batches_compose(s: Screen, first: Seq<Seq<char>>, second: Seq<Seq<char>>)
    ensures
        run(s, first + second) == run(run(s, first), second),
    decreases second.len(),
{
    if second.len() == 0 {
        assert(first + second =~= first);
    } else {
        law_batches_compose(s, first, second.drop_last());
        assert((first + second).drop_last() =~= first + second.drop_last());
    }
}

/// A cleared window takes words as a new one of the same geometry does.
pub proof fn law_cleared_is_new(s: Screen, words: Seq<Seq<char>>)
    ensures
        run(s.cleared(), words) == run(
            Screen::empty(s.columns, s.lines, s.break_on_sentence),
            words,
        ),
        s.cleared().rendered().len() == 0,
{
}

/// The number of line breaks in `s`.
pub open spec fn breaks(s: Seq<char>) -> nat
    decreases s.len(),
{
    if s.len() == 0 {
        0
    } else if s.last() == '\n' {
        breaks(s.drop_last()) + 1
    } else {
        breaks(s.drop_last())
    }
}

/// No line or word holds a line break.
pub open spec fn unbroken(s: Screen) -> bool {
    &&& forall|i: int| 0 <= i < s.done.len() ==> breaks(#[trigger] s.done[i]) == 0
    &&& forall|i: int| 0 <= i < s.current.len() ==> breaks(#[trigger] s.current[i]) == 0
}

proof fn lemma_breaks_append(a: Seq<char>, b: Seq<char>)
    ensures
        breaks(a + b) == breaks(a) + breaks(b),
    decreases b.len(),
{
    if b.len() == 0 {
        assert(a + b =~= a);
    } else {
        lemma_breaks_append(a, b.drop_last());
        assert((a + b).drop_last() =~= a + b.drop_last());
    }
}

proof fn lemma_breaks_joined(parts: Seq<Seq<char>>, sep: char)
    requires
        forall|i: int| 0 <= i < parts.len() ==> breaks(#[trigger] parts[i]) == 0,
    ensures
        parts.len() == 0 || sep != '\n' ==> breaks(joined(parts, sep)) == 0,
        parts.len() > 0 && sep == '\n' ==> breaks(joined(parts, sep)) == parts.len() - 1,
    decreases parts.len(),
{
    if parts.len() > 1 {
        let front = parts.drop_last();
        assert forall|i: int| 0 <= i < front.len() implies breaks(#[trigger] front[i]) == 0 by {
            assert(front[i] == parts[i]);
        }
        lemma_breaks_joined(front, sep);
        let head = joined(front, sep);
        assert(head.push(sep).drop_last() =~= head);
        lemma_breaks_append(head.push(sep), parts.last());
    }
}

/// The window is never higher than its number of lines.
pub proof fn law_height_never_exceeds_lines(s: Screen)
    requires
        s.lines >= 1,
    ensures
        s.visible().len() <= s.lines,
        unbroken(s) ==> breaks(s.rendered()) < s.lines,
{
    if unbroken(s) {
        lemma_breaks_joined(s.current, ' ');
        assert forall|i: int| 0 <= i < s.visible().len() implies breaks(#[trigger] s.visible()[i])
            == 0 by {
            let j = i + s.entries().len() - s.visible().len();
            assert(s.visible()[i] == s.entries()[j]);
            if j < s.done.len() {
                assert(s.entries()[j] == s.done[j]);
            }
        }
        lemma_breaks_joined(s.visible(), '\n');
    }
}

/// Words without line breaks never put one inside a line.
pub proof fn law_push_keeps_lines_unbroken(s: Screen, word: Seq<char>)
    requires
        unbroken(s),
        breaks(trimmed(word)) == 0,
    ensures
        unbroken(s.pushed(word)),
{
    let bare = trimmed(word);
    if bare.len() > 0 {
        lemma_breaks_joined(s.current, ' ');
        lemma_breaks_joined(s.current.push(bare), ' ');
        lemma_breaks_joined(Seq::<Seq<char>>::empty().push(bare), ' ');
    }
}

/// What may be done to a window.
pub ghost enum Edit {
    Word(Seq<char>),
    Clear,
    Columns(nat),
    Lines(nat),
    BreakOnSentence(bool),
}

/// The window after one edit.
pub open spec fn edited(s: Screen, edit: Edit) -> Screen {
    match edit {
        Edit::Word(word) => s.pushed(word),
        Edit::Clear => s.cleared(),
        Edit::Columns(columns) => Screen { columns, ..s },
        Edit::Lines(lines) => Screen { lines, ..s },
        Edit::BreakOnSentence(break_on_sentence) => Screen { break_on_sentence, ..s },
    }
}

/// The window after the edits were made one by one.
pub open spec fn edit_run(s: Screen, edits: Seq<Edit>) -> Screen
    decreases edits.len(),
{
    if edits.len() == 0 {
        s
    } else {
        edited(edit_run(s, edits.drop_last()), edits.last())
    }
}

/// All lines completed during the edits, each as its words.
pub open spec fn edit_groups(s: Screen, edits: Seq<Edit>) -> Seq<Seq<Seq<char>>>
    decreases edits.len(),
{
    if edits.len() == 0 {
        Seq::empty()
    } else {
        let before = edit_groups(s, edits.drop_last());
        match edits.last() {
            Edit::Word(word) => before + completed(edit_run(s, edits.drop_last()), word),
            _ => before,
        }
    }
}

/// The lines completed during the edits and the one that still grows, each as
/// its words.
pub open spec fn edit_rows(s: Screen, edits: Seq<Edit>) -> Seq<Seq<Seq<char>>> {
    let current = edit_run(s, edits).current;
    if current.len() == 0 {
        edit_groups(s, edits)
    } else {
        edit_groups(s, edits).push(current)
    }
}

/// Every line that was ever frozen during the edits.
pub open spec fn edit_history(s: Screen, edits: Seq<Edit>) -> Seq<Seq<char>> {
    s.done + lines_of(edit_groups(s, edits))
}

proof fn lemma_pushed_suffix(s: Screen, word: Seq<char>)
    ensures
        s.pushed(word).done.is_suffix_of(s.done + lines_of(completed(s, word))),
{
    let bare = trimmed(word);
    let all = s.done + lines_of(completed(s, word));
    if bare.len() == 0 {
        assert(all =~= s.done);
    } else {
        let over = s.overflows(display_columns(s.candidate(bare)) as nat);
        let base = if over {
            s.frozen()
        } else {
            s
        };
        let line = joined(base.current.push(bare), ' ');
        let filled = if over {
            s.done.push(s.line())
        } else {
            s.done
        };
        assert(base.done.is_suffix_of(filled));
        if s.completes(bare) {
            assert(all =~= filled.push(line));
            assert(s.pushed(word).done == last_n(base.done.push(line), s.lines));
        } else {
            assert(all =~= filled);
        }
    }
}

proof fn lemma_suffix_append<A>(a: Seq<A>, b: Seq<A>, c: Seq<A>)
    requires
        a.is_suffix_of(b),
    ensures
        (a + c).is_suffix_of(b + c),
{
    let off = b.len() - a.len();
    assert(a + c =~= (b + c).subrange(off, (b + c).len() as int)) by {
        assert forall|i: int| 0 <= i < a.len() implies a[i] == b[off + i] by {
            assert(a[i] == b.subrange(off, b.len() as int)[i]);
        }
    }
}

proof fn lemma_suffix_of_suffix<A>(a: Seq<A>, b: Seq<A>, c: Seq<A>)
    requires
        a.is_suffix_of(b),
        b.is_suffix_of(c),
    ensures
        a.is_suffix_of(c),
{
    let off = c.len() - a.len();
    assert forall|i: int| 0 <= i < a.len() implies a[i] == c[off + i] by {
        assert(a[i] == b.subrange(b.len() - a.len(), b.len() as int)[i]);
        let j = i + b.len() - a.len();
        assert(b[j] == c.subrange(c.len() - b.len(), c.len() as int)[j]);
    }
    assert(a =~= c.subrange(off, c.len() as int));
}

/// Changing the geometry and clearing while words come in never rewrites a
/// line: the frozen lines in the window are always an unaltered end of all
/// lines ever frozen, and those on display of these and the growing line.
pub proof fn law_edits_rewrite_nothing(s: Screen, edits: Seq<Edit>)
    ensures
        edit_run(s, edits).done.is_suffix_of(edit_history(s, edits)),
        edit_run(s, edits).visible().is_suffix_of(s.done + lines_of(edit_rows(s, edits))),
    decreases edits.len(),
{
    let after = edit_run(s, edits);
    if edits.len() == 0 {
        assert(edit_history(s, edits) =~= s.done);
    } else {
        let front = edits.drop_last();
        let before = edit_run(s, front);
        law_edits_rewrite_nothing(s, front);
        if let Edit::Word(word) = edits.last() {
            let new = lines_of(completed(before, word));
            assert(edit_history(s, edits) =~= edit_history(s, front) + new);
            lemma_pushed_suffix(before, word);
            lemma_suffix_append(before.done, edit_history(s, front), new);
            lemma_suffix_of_suffix(after.done, before.done + new, edit_history(s, edits));
        }
    }
    let all = s.done + lines_of(edit_rows(s, edits));
    if after.current.len() == 0 {
        assert(all == edit_history(s, edits));
    } else {
        let last = seq![after.line()];
        lemma_suffix_append(after.done, edit_history(s, edits), last);
        assert(after.entries() =~= after.done + last);
        assert(all =~= edit_history(s, edits) + last);
    }
    assert(after.visible().is_suffix_of(after.entries()));
    lemma_suffix_of_suffix(after.visible(), after.entries(), all);
}

/// Lines frozen during some edits stay as they are through all later ones.
pub proof fn law_edit_history_only_grows(s: Screen, edits: Seq<Edit>, i: int)
    requires
        0 <= i <= edits.len(),
    ensures
        edit_history(s, edits.take(i)).is_prefix_of(edit_history(s, edits)),
    decreases edits.len(),
{
    if i == edits.len() {
        assert(edits.take(i) =~= edits);
    } else {
        let front = edits.drop_last();
        law_edit_history_only_grows(s, front, i);
        assert(front.take(i) =~= edits.take(i));
        if let Edit::Word(word) = edits.last() {
            assert(edit_history(s, edits) =~= edit_history(s, front) + lines_of(
                completed(edit_run(s, front), word),
            ));
        }
    }
}

/// Whether no edit sets the width.
pub open spec fn width_stays(edits: Seq<Edit>) -> bool {
    forall|i: int| 0 <= i < edits.len() ==> !((#[trigger] edits[i]) is Columns)
}

/// As long as the width is not set anew, a line of more than one word is no
/// wider than the window, through clears and all other edits; only a word that
/// is alone on its line may be.
pub proof fn law_only_a_lone_word_is_too_wide_through_edits(s: Screen, edits: Seq<Edit>)
    requires
        width_stays(edits),
        s.current.len() > 1 ==> display_columns(s.line()) <= s.columns,
    ensures
        edit_run(s, edits).columns == s.columns,
        forall|k: int|
            0 <= k < edit_rows(s, edits).len() && (#[trigger] edit_rows(s, edits)[k]).len() > 1
                ==> display_columns(joined(edit_rows(s, edits)[k], ' ')) <= s.columns,
    decreases edits.len(),
{
    if edits.len() > 0 {
        let front = edits.drop_last();
        let before = edit_run(s, front);
        let old_groups = edit_groups(s, front);
        assert forall|i: int| 0 <= i < front.len() implies !((#[trigger] front[i]) is Columns) by {
            assert(front[i] == edits[i]);
        }
        law_only_a_lone_word_is_too_wide_through_edits(s, front);
        assert(!(edits[edits.len() - 1] is Columns));
        assert forall|k: int| 0 <= k < old_groups.len() && old_groups[k].len() > 1 implies
            display_columns(joined(old_groups[k], ' ')) <= s.columns by {
            assert(edit_rows(s, front)[k] == old_groups[k]);
        }
        if before.current.len() > 0 {
            assert(edit_rows(s, front)[old_groups.len() as int] == before.current);
        }
        if let Edit::Word(word) = edits.last() {
            lemma_joined_push(before.current, trimmed(word), ' ');
        }
        assert forall|k: int|
            0 <= k < edit_rows(s, edits).len() && (#[trigger] edit_rows(s, edits)[k]).len()
                > 1 implies display_columns(joined(edit_rows(s, edits)[k], ' ')) <= s.columns by {
            if k < old_groups.len() {
                assert(edit_rows(s, edits)[k] == old_groups[k]);
            } else if k < edit_groups(s, edits).len() {
                if let Edit::Word(word) = edits.last() {
                    assert(edit_rows(s, edits)[k] == completed(before, word)[k
                        - old_groups.len()]);
                }
            } else {
                assert(edit_rows(s, edits)[k] == edit_run(s, edits).current);
            }
        }
    }
}

/// Of a window that starts without frozen lines, every line on display is made
/// of the words of one row, and is too wide only if that is a single word.
pub proof fn law_displayed_lines_fit_through_edits(s: Screen, edits: Seq<Edit>)
    requires
        width_stays(edits),
        s.done.len() == 0,
        s.current.len() > 1 ==> display_columns(s.line()) <= s.columns,
    ensures
        ({
            let shown = edit_run(s, edits).visible();
            let all = edit_rows(s, edits);
            &&& shown.len() <= all.len()
            &&& forall|k: int|
                0 <= k < shown.len() ==> {
                    let row = all[all.len() - shown.len() + k];
                    &&& #[trigger] shown[k] == joined(row, ' ')
                    &&& row.len() > 1 ==> display_columns(shown[k]) <= s.columns
                }
        }),
{
    law_edits_rewrite_nothing(s, edits);
    law_only_a_lone_word_is_too_wide_through_edits(s, edits);
    assert(s.done + lines_of(edit_rows(s, edits)) =~= lines_of(edit_rows(s, edits)));
}

} // verus!
