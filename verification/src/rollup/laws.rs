//! What holds of the element over buffers, gaps and events.

use vstd::prelude::*;

use super::element::{
    chained, clear_cue, fed, fresh, fresh_screen, gap_fits, gapped, handled, missed_clear,
    property_of, regresses, sent, shaped, split_gap, with_property, Action, Caption, Fault, Out,
    Property, Sent, Settings, TextRollup, Value,
};
use super::window::{run, Screen};
use super::window_laws::{
    all_lines, breaks, history, law_batches_compose, law_frozen_line_stays_until_scrolled_off,
    law_geometry_is_kept, law_height_never_exceeds_lines, law_no_blank_state,
    law_push_keeps_lines_unbroken, law_run_keeps_wf, unbroken,
};
use crate::clock::{or_zero, span, sum, ClockTime};
use crate::event::Event;
use crate::text::{blank, trimmed, white_space, words};
use crate::text::{lemma_trimmed_fixed, lemma_words_are_solid, lemma_words_of_blank};

verus! {

/// The cues among what is sent, in order.
pub open spec fn cues(outs: Seq<Sent>) -> Seq<Sent> {
    outs.filter(|o: Sent| o is Cue)
}

/// A window that words are pushed to, one of them not blank, shows text.
proof fn lemma_fed_screen_shows_text(s: Screen, text: Seq<char>)
    requires
        s.wf(),
        !blank(text),
    ensures
        run(s, words(text)).rendered().len() > 0,
{
    let all = words(text);
    lemma_words_are_solid(text);
    lemma_words_of_blank(text);
    let last = all.last();
    assert(last == all[all.len() - 1]);
    assert(!white_space(all[all.len() - 1][0]));
    law_run_keeps_wf(s, all.drop_last());
    law_no_blank_state(run(s, all.drop_last()), last);
}

/// Every accepted buffer with text makes exactly one state: the complete
/// window, never blank, at the timing of the input. All that may precede it is
/// the clear that was due.
pub proof fn law_one_complete_state_per_buffer(
    c: Caption,
    settings: Settings,
    pts: ClockTime,
    duration: ClockTime,
    text: Seq<char>,
)
    requires
        c.screen.wf(),
        !blank(text),
    ensures
        ({
            let (after, outs) = fed(c, settings, pts, Some(duration), text);
            &&& after.screen.rendered().len() > 0
            &&& outs.last() == Sent::Cue(pts, duration, after.screen.rendered())
            &&& outs.len() == 1 || {
                &&& outs.len() == 2
                &&& c.deadline(settings) matches Some(deadline)
                &&& deadline.0 <= pts.0
                &&& outs[0] == clear_cue(deadline)
            }
        }),
{
    let base = missed_clear(c, settings, pts).0;
    lemma_fed_screen_shows_text(base.screen, text);
}

/// With a clear delay of zero the element never clears by itself: neither a
/// gap nor a late word makes a clear, and every gap goes through unchanged.
pub proof fn law_zero_delay_never_clears(
    c: Caption,
    settings: Settings,
    start: ClockTime,
    duration: Option<ClockTime>,
    pts: ClockTime,
)
    requires
        settings.clear_after_ms == 0,
    ensures
        missed_clear(c, settings, pts) == (c, Seq::<Sent>::empty()),
        gapped(c, settings, start, duration).0.screen == c.screen,
        (c.frontier matches Some(f) ==> f.0 <= sum(start, or_zero(duration)).0) ==> gapped(
            c,
            settings,
            start,
            duration,
        ).1 == seq![Sent::Gap(start, duration)],
{
}

/// Silence that ends before the deadline keeps the window and goes through
/// unchanged.
pub proof fn law_short_silence_preserves_the_window(
    c: Caption,
    settings: Settings,
    start: ClockTime,
    duration: Option<ClockTime>,
)
    requires
        c.deadline(settings) matches Some(deadline) ==> sum(start, or_zero(duration)).0
            < deadline.0,
        c.frontier matches Some(f) ==> f.0 <= sum(start, or_zero(duration)).0,
    ensures
        gapped(c, settings, start, duration).0.screen == c.screen,
        gapped(c, settings, start, duration).0.last_input_end == c.last_input_end,
        gapped(c, settings, start, duration).1 == seq![Sent::Gap(start, duration)],
{
}

/// A gap that reaches the deadline makes exactly one clear, at the deadline,
/// and from then on the display is blank.
pub proof fn law_gap_past_deadline_clears_once(
    c: Caption,
    settings: Settings,
    start: ClockTime,
    duration: Option<ClockTime>,
    deadline: ClockTime,
)
    requires
        c.deadline(settings) == Some(deadline),
        sum(start, or_zero(duration)).0 >= deadline.0,
        c.frontier matches Some(f) ==> f.0 <= sum(start, or_zero(duration)).0,
    ensures
        cues(gapped(c, settings, start, duration).1) == seq![clear_cue(deadline)],
        gapped(c, settings, start, duration).0.screen == c.screen.cleared(),
        gapped(c, settings, start, duration).0.last_input_end is None,
{
    let outs = split_gap(start, duration, deadline);
    reveal_with_fuel(Seq::<_>::filter, 4);
    let p = |o: Sent| o is Cue;
    assert(outs.filter(p) =~= seq![clear_cue(deadline)]);
}

/// Once cleared, the display is not cleared again before there is new text:
/// no gap makes another cue.
pub proof fn law_no_second_clear(
    c: Caption,
    settings: Settings,
    start: ClockTime,
    duration: Option<ClockTime>,
    pts: ClockTime,
)
    requires
        c.last_input_end is None,
    ensures
        cues(gapped(c, settings, start, duration).1).len() == 0,
        gapped(c, settings, start, duration).0.last_input_end is None,
        gapped(c, settings, start, duration).0.screen == c.screen,
        missed_clear(c, settings, pts) == (c, Seq::<Sent>::empty()),
{
    reveal_with_fuel(Seq::<_>::filter, 2);
}

/// Whether the gaps in `outs` follow one another without a hole from `from` to
/// `to`, and no cue stands after the point that the gaps before it reach.
pub open spec fn contiguous(outs: Seq<Sent>, from: int, to: int) -> bool
    decreases outs.len(),
{
    if outs.len() == 0 {
        from == to
    } else {
        match outs[0] {
            Sent::Gap(start, duration) => start.0 == from && contiguous(
                outs.drop_first(),
                from + or_zero(duration).0,
                to,
            ),
            Sent::Cue(at, _, _) => at.0 <= from && contiguous(outs.drop_first(), from, to),
        }
    }
}

/// Splitting preserves the full coverage of a gap: what is sent covers the
/// same stretch of the timeline, without hole or overlap.
pub proof fn law_gap_coverage_is_preserved(
    c: Caption,
    settings: Settings,
    start: ClockTime,
    duration: Option<ClockTime>,
)
    requires
        gap_fits(c, settings, start, duration),
        c.frontier matches Some(f) ==> f.0 <= sum(start, or_zero(duration)).0,
    ensures
        contiguous(
            gapped(c, settings, start, duration).1,
            start.0 as int,
            start.0 + or_zero(duration).0,
        ),
{
    reveal_with_fuel(contiguous, 4);
}

/// A gap that crosses the deadline is split around the clear: the part before
/// ends at the deadline, and the part behind, if any is left, starts there.
pub proof fn law_crossing_gap_is_split_at_the_deadline(
    c: Caption,
    settings: Settings,
    start: ClockTime,
    duration: Option<ClockTime>,
    deadline: ClockTime,
)
    requires
        gap_fits(c, settings, start, duration),
        c.deadline(settings) == Some(deadline),
        start.0 < deadline.0 <= start.0 + or_zero(duration).0,
        c.frontier matches Some(f) ==> f.0 <= sum(start, or_zero(duration)).0,
    ensures
        ({
            let end = sum(start, or_zero(duration));
            let before = Sent::Gap(start, Some(span(start, deadline)));
            let behind = Sent::Gap(deadline, Some(span(deadline, end)));
            gapped(c, settings, start, duration).1 == if end == deadline {
                seq![before, clear_cue(deadline)]
            } else {
                seq![before, clear_cue(deadline), behind]
            }
        }),
{
    let end = sum(start, or_zero(duration));
    let before = Sent::Gap(start, Some(span(start, deadline)));
    let behind = Sent::Gap(deadline, Some(span(deadline, end)));
    if end == deadline {
        assert(gapped(c, settings, start, duration).1 =~= seq![before, clear_cue(deadline)]);
    } else {
        assert(gapped(c, settings, start, duration).1 =~= seq![
            before,
            clear_cue(deadline),
            behind,
        ]);
    }
}

/// A gap that starts after the deadline is sent unchanged behind the clear.
pub proof fn law_late_gap_is_unchanged(
    c: Caption,
    settings: Settings,
    start: ClockTime,
    duration: Option<ClockTime>,
    deadline: ClockTime,
)
    requires
        gap_fits(c, settings, start, duration),
        c.deadline(settings) == Some(deadline),
        deadline.0 < start.0,
        c.frontier matches Some(f) ==> f.0 <= sum(start, or_zero(duration)).0,
    ensures
        gapped(c, settings, start, duration).1 == seq![
            clear_cue(deadline),
            Sent::Gap(start, duration),
        ],
{
    assert(gapped(c, settings, start, duration).1 =~= seq![
        clear_cue(deadline),
        Sent::Gap(start, duration),
    ]);
}

/// A gap that ends before the frontier changes nothing and is not sent; any
/// other moves the frontier to its end. So the frontier never moves back.
pub proof fn law_frontier_never_regresses(
    c: Caption,
    settings: Settings,
    start: ClockTime,
    duration: Option<ClockTime>,
)
    ensures
        c.frontier matches Some(before) ==> {
            &&& gapped(c, settings, start, duration).0.frontier matches Some(after)
            &&& before.0 <= after.0
        },
        (c.frontier matches Some(f) && sum(start, or_zero(duration)).0 < f.0) ==> gapped(
            c,
            settings,
            start,
            duration,
        ) == (c, Seq::<Sent>::empty()),
        (c.frontier matches Some(f) ==> f.0 <= sum(start, or_zero(duration)).0) ==> gapped(
            c,
            settings,
            start,
            duration,
        ).0.frontier == Some(sum(start, or_zero(duration))),
{
}

/// Whether upstream announces a silence or omits the gap makes no difference
/// to the captions: the clears and states that come out, the window, and the
/// next deadline are the same.
pub proof fn law_omitted_gaps_do_not_change_the_captions(
    c: Caption,
    settings: Settings,
    start: ClockTime,
    gap: Option<ClockTime>,
    pts: ClockTime,
    duration: ClockTime,
    text: Seq<char>,
)
    requires
        !blank(text),
        c.deadline(settings) matches Some(deadline) ==> sum(start, or_zero(gap)).0 >= deadline.0
            ==> pts.0 >= deadline.0,
    ensures
        ({
            let (quiet, gaps) = gapped(c, settings, start, gap);
            let (announced, late) = fed(quiet, settings, pts, Some(duration), text);
            let (omitted, early) = fed(c, settings, pts, Some(duration), text);
            &&& cues(gaps) + late == early
            &&& announced.screen == omitted.screen
            &&& announced.last_input_end == omitted.last_input_end
        }),
{
    let (quiet, gaps) = gapped(c, settings, start, gap);
    let end = sum(start, or_zero(gap));
    let (announced, late) = fed(quiet, settings, pts, Some(duration), text);
    let (omitted, early) = fed(c, settings, pts, Some(duration), text);
    if regresses(c, end) {
        assert(cues(gaps) + late =~= early) by {
            reveal_with_fuel(Seq::<_>::filter, 1);
        }
    } else {
        match c.deadline(settings) {
            Some(deadline) if end.0 >= deadline.0 => {
                law_gap_past_deadline_clears_once(c, settings, start, gap, deadline);
                assert(cues(gaps) + late =~= early);
            },
            _ => {
                reveal_with_fuel(Seq::<_>::filter, 2);
                assert(cues(gaps) + late =~= early);
            },
        }
    }
}

/// After a clear, explicit or due, a state holds only words that came after
/// it: it reads as in a new window of the same geometry.
pub proof fn law_no_stale_text_after_a_clear(
    c: Caption,
    settings: Settings,
    pts: ClockTime,
    duration: ClockTime,
    text: Seq<char>,
)
    requires
        c.screen == shaped(c.screen, settings),
        !blank(text),
    ensures
        fed(c.display_reset(), settings, pts, Some(duration), text).1 == seq![
            Sent::Cue(pts, duration, run(fresh_screen(settings), words(text)).rendered()),
        ],
        c.deadline(settings) matches Some(deadline) ==> deadline.0 <= pts.0 ==> fed(
            c,
            settings,
            pts,
            Some(duration),
            text,
        ).1 == seq![
            clear_cue(deadline),
            Sent::Cue(pts, duration, run(fresh_screen(settings), words(text)).rendered()),
        ],
{
    assert(c.screen.cleared() == fresh_screen(settings));
    assert(fed(c.display_reset(), settings, pts, Some(duration), text).1 =~= seq![
        Sent::Cue(pts, duration, run(fresh_screen(settings), words(text)).rendered()),
    ]);
    if let Some(deadline) = c.deadline(settings) {
        if deadline.0 <= pts.0 {
            assert(fed(c, settings, pts, Some(duration), text).1 =~= seq![
                clear_cue(deadline),
                Sent::Cue(pts, duration, run(fresh_screen(settings), words(text)).rendered()),
            ]);
        }
    }
}

/// A new segment leaves nothing behind: the element is as new, with the
/// properties that it has.
pub proof fn law_new_segment_starts_afresh(c: Caption, settings: Settings)
    requires
        c.screen == shaped(c.screen, settings),
    ensures
        c.timeline_reset() == fresh(settings),
{
}

/// A buffer of text, as it is accepted.
pub ghost struct Buffer {
    pub pts: ClockTime,
    pub duration: ClockTime,
    pub text: Seq<char>,
}

/// The state after the buffers were taken one by one.
pub open spec fn feed_all(c: Caption, settings: Settings, buffers: Seq<Buffer>) -> Caption
    decreases buffers.len(),
{
    if buffers.len() == 0 {
        c
    } else {
        let b = buffers.last();
        fed(
            feed_all(c, settings, buffers.drop_last()),
            settings,
            b.pts,
            Some(b.duration),
            b.text,
        ).0
    }
}

/// All words of the buffers, in order.
pub open spec fn words_in(buffers: Seq<Buffer>) -> Seq<Seq<char>>
    decreases buffers.len(),
{
    if buffers.len() == 0 {
        Seq::empty()
    } else {
        words_in(buffers.drop_last()) + words(buffers.last().text)
    }
}

/// Whether no clear falls among the buffers: none of them is blank, and each
/// comes before the deadline that the ones before it set.
pub open spec fn uncleared(c: Caption, settings: Settings, buffers: Seq<Buffer>) -> bool {
    forall|i: int|
        0 <= i < buffers.len() ==> {
            &&& !blank((#[trigger] buffers[i]).text)
            &&& missed_clear(
                feed_all(c, settings, buffers.take(i)),
                settings,
                buffers[i].pts,
            ).1.len() == 0
        }
}

/// As long as nothing is cleared, the window is that of all words so far, no
/// matter how they were spread over buffers.
pub proof fn law_window_depends_on_the_words_alone(
    c: Caption,
    settings: Settings,
    buffers: Seq<Buffer>,
)
    requires
        uncleared(c, settings, buffers),
    ensures
        feed_all(c, settings, buffers).screen == run(c.screen, words_in(buffers)),
    decreases buffers.len(),
{
    if buffers.len() > 0 {
        let front = buffers.drop_last();
        let last = buffers.len() - 1;
        assert(buffers.take(last) =~= front);
        assert(!blank(buffers[last].text));
        assert forall|i: int| 0 <= i < front.len() implies {
            &&& !blank((#[trigger] front[i]).text)
            &&& missed_clear(
                feed_all(c, settings, front.take(i)),
                settings,
                front[i].pts,
            ).1.len() == 0
        } by {
            assert(front[i] == buffers[i]);
            assert(front.take(i) =~= buffers.take(i));
        }
        law_window_depends_on_the_words_alone(c, settings, front);
        law_batches_compose(c.screen, words_in(front), words(buffers.last().text));
    }
}

/// Nothing already on screen moves: a line that was frozen by some buffer is
/// on display after any later one, byte for byte, unless it has scrolled off,
/// and then it never comes back.
pub proof fn law_nothing_on_screen_moves(
    c: Caption,
    settings: Settings,
    buffers: Seq<Buffer>,
    i: int,
    k: int,
)
    requires
        c.screen.wf(),
        uncleared(c, settings, buffers),
        0 <= i <= buffers.len(),
        0 <= k < history(c.screen, words_in(buffers.take(i))).len(),
    ensures
        ({
            let frozen = history(c.screen, words_in(buffers.take(i)));
            let early = all_lines(c.screen, words_in(buffers.take(i)));
            let late = all_lines(c.screen, words_in(buffers));
            let shown = feed_all(c, settings, buffers).screen.visible();
            &&& late.len() - k <= c.screen.lines ==> shown[k - (late.len() - shown.len())]
                == frozen[k]
            &&& early.len() - k > c.screen.lines ==> late.len() - k > c.screen.lines
        }),
{
    law_window_depends_on_the_words_alone(c, settings, buffers);
    lemma_words_in_prefix(buffers, i);
    let all = words_in(buffers);
    let n = words_in(buffers.take(i)).len() as int;
    law_frozen_line_stays_until_scrolled_off(c.screen, all, n, k);
}

proof fn lemma_words_in_prefix(buffers: Seq<Buffer>, i: int)
    requires
        0 <= i <= buffers.len(),
    ensures
        words_in(buffers.take(i)).len() <= words_in(buffers).len(),
        words_in(buffers.take(i)) == words_in(buffers).take(
            words_in(buffers.take(i)).len() as int,
        ),
    decreases buffers.len(),
{
    if i == buffers.len() {
        assert(buffers.take(i) =~= buffers);
        assert(words_in(buffers).take(words_in(buffers).len() as int) =~= words_in(buffers));
    } else {
        let front = buffers.drop_last();
        lemma_words_in_prefix(front, i);
        assert(front.take(i) =~= buffers.take(i));
        let n = words_in(buffers.take(i)).len() as int;
        assert(words_in(front).take(n) =~= words_in(buffers).take(n));
    }
}

/// Every state that the element sends has at most as many lines as the window.
pub proof fn law_states_fit_the_window(
    c: Caption,
    settings: Settings,
    pts: ClockTime,
    duration: Option<ClockTime>,
    text: Seq<char>,
)
    requires
        c.screen.wf(),
        unbroken(c.screen),
    ensures
        unbroken(fed(c, settings, pts, duration, text).0.screen),
        breaks(fed(c, settings, pts, duration, text).0.screen.rendered()) < c.screen.lines,
{
    let base = if blank(text) {
        c.display_reset()
    } else {
        missed_clear(c, settings, pts).0
    };
    let after = fed(c, settings, pts, duration, text).0;
    if !blank(text) {
        lemma_words_are_solid(text);
        assert forall|k: int| 0 <= k < words(text).len() implies breaks(
            trimmed(#[trigger] words(text)[k]),
        ) == 0 by {
            let word = words(text)[k];
            assert(!white_space(words(text)[k][0]));
            assert(!white_space(words(text)[k][word.len() - 1]));
            lemma_trimmed_fixed(word);
            assert forall|i: int| 0 <= i < word.len() implies !white_space(#[trigger] word[i]) by {
                assert(!white_space(words(text)[k][i]));
            }
            lemma_solid_has_no_breaks(word);
        }
        lemma_run_unbroken(base.screen, words(text));
        law_geometry_is_kept(base.screen, words(text));
    }
    law_height_never_exceeds_lines(after.screen);
}

proof fn lemma_solid_has_no_breaks(word: Seq<char>)
    requires
        forall|i: int| 0 <= i < word.len() ==> !white_space(#[trigger] word[i]),
    ensures
        breaks(word) == 0,
    decreases word.len(),
{
    if word.len() > 0 {
        assert(!white_space(word[word.len() - 1]));
        lemma_solid_has_no_breaks(word.drop_last());
    }
}

proof fn lemma_run_unbroken(s: Screen, all: Seq<Seq<char>>)
    requires
        unbroken(s),
        forall|k: int| 0 <= k < all.len() ==> breaks(trimmed(#[trigger] all[k])) == 0,
    ensures
        unbroken(run(s, all)),
    decreases all.len(),
{
    if all.len() > 0 {
        let front = all.drop_last();
        assert forall|k: int| 0 <= k < front.len() implies breaks(trimmed(#[trigger] front[k]))
            == 0 by {
            assert(front[k] == all[k]);
        }
        lemma_run_unbroken(s, front);
        assert(breaks(trimmed(all[all.len() - 1])) == 0);
        law_push_keeps_lines_unbroken(run(s, front), all.last());
    }
}

/// What an element is given.
pub ghost enum Input {
    Buffer(Option<ClockTime>, Option<ClockTime>, Seq<u8>),
    Event(Event),
}

/// What an element answers.
pub ghost enum Reply {
    Buffer(Result<Vec<Out>, Fault>),
    Event(Action),
}

/// What a reply comes to downstream and upstream.
pub ghost enum Outcome {
    Refused(Fault),
    Sent(Seq<Sent>),
    Default,
    Forward,
}

/// What `reply` comes to.
pub open spec fn outcome(reply: Reply) -> Outcome {
    match reply {
        Reply::Buffer(Err(fault)) => Outcome::Refused(fault),
        Reply::Buffer(Ok(out)) => Outcome::Sent(sent(out@)),
        Reply::Event(Action::Flush(out)) => Outcome::Sent(sent(out@)),
        Reply::Event(Action::Default) => Outcome::Default,
        Reply::Event(Action::Forward) => Outcome::Forward,
    }
}

/// Whether an element takes `input` from `before` to `after` with `reply`.
pub open spec fn stepped(
    before: TextRollup,
    input: Input,
    after: TextRollup,
    reply: Reply,
) -> bool {
    match (input, reply) {
        (Input::Buffer(pts, duration, data), Reply::Buffer(r)) => chained(
            before,
            pts,
            duration,
            data,
            after,
            r,
        ),
        (Input::Event(event), Reply::Event(r)) => handled(before, event, after, r),
        _ => false,
    }
}

/// Whether an element passes through `states` on `inputs` with `replies`.
pub open spec fn is_run(
    inputs: Seq<Input>,
    states: Seq<TextRollup>,
    replies: Seq<Reply>,
) -> bool {
    &&& states.len() == inputs.len() + 1
    &&& replies.len() == inputs.len()
    &&& forall|i: int|
        0 <= i < inputs.len() ==> stepped(
            states[i],
            #[trigger] inputs[i],
            states[i + 1],
            replies[i],
        )
}

/// Two elements with equal properties and equal states that are given the same
/// buffers and events send the same and end in equal states.
pub proof fn law_equal_runs_give_equal_outputs(
    inputs: Seq<Input>,
    states1: Seq<TextRollup>,
    replies1: Seq<Reply>,
    states2: Seq<TextRollup>,
    replies2: Seq<Reply>,
)
    requires
        is_run(inputs, states1, replies1),
        is_run(inputs, states2, replies2),
        states1[0].settings == states2[0].settings,
        states1[0].state@ == states2[0].state@,
    ensures
        forall|i: int|
            0 <= i < inputs.len() ==> outcome(#[trigger] replies1[i]) == outcome(replies2[i]),
        states1.last().settings == states2.last().settings,
        states1.last().state@ == states2.last().state@,
    decreases inputs.len(),
{
    if inputs.len() > 0 {
        let n = inputs.len() - 1;
        let front = inputs.drop_last();
        assert forall|i: int| 0 <= i < front.len() implies stepped(
            states1.drop_last()[i],
            #[trigger] front[i],
            states1.drop_last()[i + 1],
            replies1.drop_last()[i],
        ) && stepped(
            states2.drop_last()[i],
            front[i],
            states2.drop_last()[i + 1],
            replies2.drop_last()[i],
        ) by {
            assert(front[i] == inputs[i]);
        }
        law_equal_runs_give_equal_outputs(
            front,
            states1.drop_last(),
            replies1.drop_last(),
            states2.drop_last(),
            replies2.drop_last(),
        );
        assert(stepped(states1[n], inputs[n], states1[n + 1], replies1[n]));
        assert(stepped(states2[n], inputs[n], states2[n + 1], replies2[n]));
        assert forall|i: int| 0 <= i < inputs.len() implies outcome(#[trigger] replies1[i])
            == outcome(replies2[i]) by {
            if i < n {
                assert(outcome(replies1.drop_last()[i]) == outcome(replies2.drop_last()[i]));
            }
        }
    }
}

/// A property reads back as it was set, and setting it leaves all others as
/// they were.
pub proof fn law_properties_are_independent(
    settings: Settings,
    property: Property,
    value: Value,
    other: Property,
)
    requires
        property.takes(value),
    ensures
        property_of(with_property(settings, property, value), property) == value,
        other != property ==> property_of(with_property(settings, property, value), other)
            == property_of(settings, other),
{
}

} // verus!
