//! What holds of white space, trimming, splitting and joining.

use vstd::prelude::*;

use crate::text::{blank, joined, strip_end, trimmed, views, white_space, words};
use crate::text::{
    lemma_last_word, lemma_strip_end_at, lemma_strip_end_shape, lemma_strip_start_at,
};

verus! {

/// White space is the tab, the line breaks of text, the space, and the spaces
/// and separators beyond ASCII; nothing else is.
pub proof fn law_white_space_characters(c: char)
    ensures
        white_space(c) <==> {
            ||| c == '\t'
            ||| c == '\n'
            ||| c == '\u{b}'
            ||| c == '\u{c}'
            ||| c == '\r'
            ||| c == ' '
            ||| c == '\u{85}'
            ||| c == '\u{a0}'
            ||| c == '\u{1680}'
            ||| c == '\u{2000}'
            ||| c == '\u{2001}'
            ||| c == '\u{2002}'
            ||| c == '\u{2003}'
            ||| c == '\u{2004}'
            ||| c == '\u{2005}'
            ||| c == '\u{2006}'
            ||| c == '\u{2007}'
            ||| c == '\u{2008}'
            ||| c == '\u{2009}'
            ||| c == '\u{200a}'
            ||| c == '\u{2028}'
            ||| c == '\u{2029}'
            ||| c == '\u{202f}'
            ||| c == '\u{205f}'
            ||| c == '\u{3000}'
        },
{
}

/// Text is blank exactly when no character is left once all white space is
/// taken out.
pub proof fn law_blank_text_has_only_white_space(s: Seq<char>)
    ensures
        blank(s) <==> s.filter(|c: char| !white_space(c)).len() == 0,
    decreases s.len(),
{
    reveal(Seq::filter);
    if s.len() > 0 {
        let t = s.drop_last();
        law_blank_text_has_only_white_space(t);
        if blank(s) {
            assert(white_space(s[s.len() - 1]));
            assert forall|i: int| 0 <= i < t.len() implies white_space(#[trigger] t[i]) by {
                assert(t[i] == s[i]);
            }
        }
        if blank(t) && white_space(s.last()) {
            assert forall|i: int| 0 <= i < s.len() implies white_space(#[trigger] s[i]) by {
                if i < t.len() {
                    assert(s[i] == t[i]);
                }
            }
        }
    }
}

/// Trimming takes away all white space around a text, and nothing of a text
/// that neither starts nor ends with white space.
pub proof fn law_trimming_takes_outer_white_space(
    left: Seq<char>,
    core: Seq<char>,
    right: Seq<char>,
)
    requires
        forall|i: int| 0 <= i < left.len() ==> white_space(#[trigger] left[i]),
        forall|i: int| 0 <= i < right.len() ==> white_space(#[trigger] right[i]),
        core.len() > 0 ==> !white_space(core.first()) && !white_space(core.last()),
    ensures
        trimmed(left + core + right) == core,
{
    let p = |c: char| white_space(c);
    let s = left + core + right;
    if core.len() > 0 {
        lemma_strip_start_at(s, p, left.len() as int);
        let t = s.skip(left.len() as int);
        assert(t =~= core + right);
        lemma_strip_end_at(t, p, core.len() as int);
        assert(t.take(core.len() as int) =~= core);
    } else {
        lemma_strip_start_at(s, p, s.len() as int);
        assert(s.skip(s.len() as int) =~= core);
    }
}

/// White space parts a text into words: those before it, and those behind it.
pub proof fn law_white_space_parts_words(a: Seq<char>, c: char, b: Seq<char>)
    requires
        white_space(c),
    ensures
        words(a.push(c) + b) == words(a) + words(b),
    decreases b.len(),
{
    let s = a.push(c) + b;
    let q = |c: char| !white_space(c);
    if b.len() == 0 {
        assert(s.drop_last() =~= a);
        assert(words(a) + words(b) =~= words(a));
    } else if white_space(b.last()) {
        law_white_space_parts_words(a, c, b.drop_last());
        assert(s.drop_last() =~= a.push(c) + b.drop_last());
    } else {
        let head = strip_end(b, q);
        let n = head.len() as int;
        lemma_strip_end_shape(b, q);
        assert(q(b[b.len() - 1]));
        assert(n < b.len()) by {
            if n == b.len() {
                assert(head =~= b);
                assert(!q(head.last()));
            }
        }
        law_white_space_parts_words(a, c, head);
        let start = a.len() + 1 + n;
        assert forall|i: int| start <= i < s.len() implies !white_space(#[trigger] s[i]) by {
            assert(q(b[i - a.len() - 1]));
        }
        assert(white_space(s[start - 1])) by {
            if n > 0 {
                assert(!q(head.last()));
                assert(s[start - 1] == b[n - 1]);
            }
        }
        lemma_last_word(s, start);
        assert(s.take(start) =~= a.push(c) + head);
        assert(s.skip(start) =~= b.skip(n));
        lemma_last_word(b, n);
        assert(words(s) =~= words(a) + words(b));
    }
}

/// White space before or behind a text makes no difference to its words.
pub proof fn law_outer_white_space_makes_no_words(s: Seq<char>, c: char)
    requires
        white_space(c),
    ensures
        words(s.push(c)) == words(s),
        words(seq![c] + s) == words(s),
{
    law_white_space_parts_words(s, c, Seq::empty());
    assert(s.push(c) + Seq::<char>::empty() =~= s.push(c));
    law_white_space_parts_words(Seq::empty(), c, s);
    assert(Seq::<char>::empty().push(c) + s =~= seq![c] + s);
    assert(words(Seq::empty()) + words(s) =~= words(s));
    assert(words(s) + words(Seq::empty()) =~= words(s));
}

/// A text without white space is a single word, and no text has no word.
pub proof fn law_solid_text_is_one_word(s: Seq<char>)
    requires
        forall|i: int| 0 <= i < s.len() ==> !white_space(#[trigger] s[i]),
    ensures
        s.len() > 0 ==> words(s) == seq![s],
        s.len() == 0 ==> words(s).len() == 0,
{
    if s.len() > 0 {
        lemma_last_word(s, 0);
        assert(s.take(0) =~= Seq::empty());
        assert(s.skip(0) =~= s);
        assert(words(s) =~= seq![s]);
    }
}

/// No character but white space is lost, doubled or moved: the words one after
/// the other are the text without its white space.
pub proof fn law_words_keep_every_character(s: Seq<char>)
    ensures
        words(s).flatten() == s.filter(|c: char| !white_space(c)),
    decreases s.len(),
{
    let q = |c: char| !white_space(c);
    reveal(Seq::filter);
    if s.len() == 0 {
        assert(words(s).flatten() =~= s.filter(q));
    } else if white_space(s.last()) {
        law_words_keep_every_character(s.drop_last());
    } else {
        let head = strip_end(s, q);
        let n = head.len() as int;
        lemma_strip_end_shape(s.drop_last(), q);
        lemma_strip_end_shape(s, q);
        law_words_keep_every_character(head);
        let tail = s.skip(n);
        words(head).lemma_flatten_push(tail);
        assert(s =~= head + tail);
        Seq::filter_distributes_over_add(head, tail, q);
        assert forall|i: int| 0 <= i < tail.len() implies q(#[trigger] tail[i]) by {
            assert(q(s[i + n]));
        }
        lemma_filter_keeps_all(tail, q);
    }
}

proof fn lemma_filter_keeps_all(s: Seq<char>, q: spec_fn(char) -> bool)
    requires
        forall|i: int| 0 <= i < s.len() ==> q(#[trigger] s[i]),
    ensures
        s.filter(q) == s,
    decreases s.len(),
{
    reveal(Seq::filter);
    if s.len() > 0 {
        let t = s.drop_last();
        assert forall|i: int| 0 <= i < t.len() implies q(#[trigger] t[i]) by {
            assert(t[i] == s[i]);
        }
        lemma_filter_keeps_all(t, q);
        assert(q(s[s.len() - 1]));
        assert(t.push(s.last()) =~= s);
    }
}

/// Whether each of `parts` stands in `s` at the place that `at` gives, free of
/// white space, from one piece of white space or end of the text to the next.
pub open spec fn stand_apart(s: Seq<char>, parts: Seq<Seq<char>>, at: Seq<int>) -> bool {
    &&& at.len() == parts.len()
    &&& forall|k: int|
        0 <= k < parts.len() ==> {
            let from = #[trigger] at[k];
            let to = from + parts[k].len();
            &&& 0 <= from < to <= s.len()
            &&& parts[k] == s.subrange(from, to)
            &&& forall|i: int| from <= i < to ==> !white_space(#[trigger] s[i])
            &&& from > 0 ==> white_space(s[from - 1])
            &&& to < s.len() ==> white_space(s[to])
        }
    &&& forall|k: int, m: int| 0 <= k < m < at.len() ==> #[trigger] at[k] < #[trigger] at[m]
}

/// Every word stands in the text as it is, between white space or the ends of
/// the text, and the words come in the order in which they stand.
pub proof fn law_words_stand_apart(s: Seq<char>) -> (at: Seq<int>)
    ensures
        stand_apart(s, words(s), at),
    decreases s.len(),
{
    let q = |c: char| !white_space(c);
    if s.len() == 0 {
        Seq::empty()
    } else if white_space(s.last()) {
        let t = s.drop_last();
        let at = law_words_stand_apart(t);
        assert forall|k: int| 0 <= k < words(s).len() implies {
            let from = #[trigger] at[k];
            let to = from + words(s)[k].len();
            &&& 0 <= from < to <= s.len()
            &&& words(s)[k] == s.subrange(from, to)
            &&& forall|i: int| from <= i < to ==> !white_space(#[trigger] s[i])
            &&& from > 0 ==> white_space(s[from - 1])
            &&& to < s.len() ==> white_space(s[to])
        } by {
            let from = at[k];
            let to = from + words(s)[k].len();
            assert(t.subrange(from, to) =~= s.subrange(from, to));
            assert forall|i: int| from <= i < to implies !white_space(#[trigger] s[i]) by {
                assert(t[i] == s[i]);
            }
        }
        at
    } else {
        let head = strip_end(s, q);
        let n = head.len() as int;
        lemma_strip_end_shape(s.drop_last(), q);
        lemma_strip_end_shape(s, q);
        let before = law_words_stand_apart(head);
        let at = before.push(n);
        assert(words(s) == words(head).push(s.skip(n)));
        assert forall|k: int| 0 <= k < words(s).len() implies {
            let from = #[trigger] at[k];
            let to = from + words(s)[k].len();
            &&& 0 <= from < to <= s.len()
            &&& words(s)[k] == s.subrange(from, to)
            &&& forall|i: int| from <= i < to ==> !white_space(#[trigger] s[i])
            &&& from > 0 ==> white_space(s[from - 1])
            &&& to < s.len() ==> white_space(s[to])
        } by {
            let from = at[k];
            let to = from + words(s)[k].len();
            if k < before.len() {
                assert(from == before[k]);
                assert(words(s)[k] == words(head)[k]);
                assert(head.subrange(from, to) =~= s.subrange(from, to));
                assert forall|i: int| from <= i < to implies !white_space(#[trigger] s[i]) by {
                    assert(head[i] == s[i]);
                }
                if to == n {
                    assert(!q(head.last()));
                    assert(white_space(head[n - 1]));
                    assert(!white_space(head[to - 1]));
                }
            } else {
                assert(s.skip(n) =~= s.subrange(n, s.len() as int));
                assert forall|i: int| from <= i < to implies !white_space(#[trigger] s[i]) by {
                    assert(q(s[i]));
                }
                if n > 0 {
                    assert(!q(head.last()));
                }
            }
        }
        assert forall|k: int, m: int| 0 <= k < m < at.len() implies #[trigger] at[k]
            < #[trigger] at[m] by {
            assert(before[k] == at[k]);
            if m < before.len() {
                assert(before[m] == at[m]);
            }
        }
        at
    }
}

/// Joining no parts gives nothing, joining one gives it back, and joining two
/// runs of parts puts one separator between what each of them gives.
pub proof fn law_joining(a: Seq<Seq<char>>, b: Seq<Seq<char>>, part: Seq<char>, sep: char)
    ensures
        joined(Seq::empty(), sep).len() == 0,
        joined(seq![part], sep) == part,
        a.len() > 0 && b.len() > 0 ==> joined(a + b, sep) == joined(a, sep) + seq![sep] + joined(
            b,
            sep,
        ),
    decreases b.len(),
{
    if a.len() > 0 && b.len() > 0 {
        let front = b.drop_last();
        assert((a + b).drop_last() =~= a + front);
        law_joining(a, front, part, sep);
        if front.len() == 0 {
            assert(a + front =~= a);
        }
        assert(joined(a + b, sep) =~= joined(a, sep) + seq![sep] + joined(b, sep));
    }
}

/// Splitting undoes joining: words that are joined by spaces are read back one
/// by one.
pub proof fn law_joined_words_split_again(parts: Seq<Seq<char>>)
    requires
        forall|k: int| 0 <= k < parts.len() ==> (#[trigger] parts[k]).len() > 0,
        forall|k: int, i: int|
            0 <= k < parts.len() && 0 <= i < parts[k].len() ==> !white_space(
                #[trigger] parts[k][i],
            ),
    ensures
        words(joined(parts, ' ')) == parts,
    decreases parts.len(),
{
    if parts.len() == 0 {
        assert(words(joined(parts, ' ')) =~= parts);
    } else {
        let front = parts.drop_last();
        let last = parts.last();
        assert forall|i: int| 0 <= i < last.len() implies !white_space(#[trigger] last[i]) by {
            assert(!white_space(parts[parts.len() - 1][i]));
        }
        assert(parts[parts.len() - 1].len() > 0);
        law_solid_text_is_one_word(last);
        assert forall|k: int| 0 <= k < front.len() implies (#[trigger] front[k]).len() > 0 by {
            assert(front[k] == parts[k]);
        }
        assert forall|k: int, i: int| 0 <= k < front.len() && 0 <= i < front[k].len() implies
            !white_space(#[trigger] front[k][i]) by {
            assert(!white_space(parts[k][i]));
        }
        law_joined_words_split_again(front);
        if front.len() > 0 {
            law_white_space_parts_words(joined(front, ' '), ' ', last);
        }
        assert(words(joined(parts, ' ')) =~= parts);
    }
}

/// The views of strings are those of each of them, in order.
pub proof fn law_views_are_one_for_one(parts: Seq<String>)
    ensures
        views(parts).len() == parts.len(),
        forall|i: int| 0 <= i < parts.len() ==> #[trigger] views(parts)[i] == parts[i]@,
{
}

} // verus!
