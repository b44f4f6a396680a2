use textrollup::rollup::window::{ends_sentence, Push, Window};

#[test]
fn wraps_and_freezes_completed_lines() {
    let mut w = Window::new(10, 2, true);
    assert_eq!(w.push_word("hello"), Push::Redraw("hello".into()));
    assert_eq!(w.push_word("world"), Push::Redraw("hello\nworld".into()));
    assert_eq!(w.push_word("again"), Push::Redraw("world\nagain".into()));
}

/// The property that distinguishes this from a re-wrap: a line, once
/// completed, is never rewritten.
///
/// Checked two ways, because a reflow shows up as both. Rewriting a line
/// makes its words appear in two different frozen lines, so the frozen lines
/// stop reproducing the input; and it makes a line vanish and come back, so
/// its run of cues stops being contiguous. A global re-wrap fails on both
/// counts.
#[test]
fn fixation_completed_lines_are_never_rewritten() {
    let words: Vec<&str> = "one of the things that is great about filming this \
                            here is that we get to see the work happening"
        .split_whitespace()
        .collect();

    let mut w = Window::new(20, 3, false);
    let mut cues = Vec::new();
    for word in &words {
        if let Push::Redraw(text) = w.push_word(word) {
            cues.push(text);
        }
    }
    assert!(cues.iter().any(|c| c.lines().count() == 3), "never filled");

    // Distinct frozen lines, in order of first appearance.
    let mut history: Vec<String> = Vec::new();
    for cue in &cues {
        for line in cue.lines().rev().skip(1) {
            if !history.iter().any(|seen| seen == line) {
                history.push(line.to_string());
            }
        }
    }

    let bottom = cues.last().unwrap().lines().last().unwrap();
    let rebuilt: Vec<&str> = history
        .iter()
        .flat_map(|line| line.split_whitespace())
        .chain(bottom.split_whitespace())
        .collect();
    assert_eq!(rebuilt, words, "frozen lines do not reproduce the input");

    for line in &history {
        let hits: Vec<usize> = cues
            .iter()
            .enumerate()
            .filter(|(_, cue)| cue.lines().rev().skip(1).any(|l| l == line))
            .map(|(index, _)| index)
            .collect();
        assert_eq!(
            hits.last().unwrap() - hits.first().unwrap() + 1,
            hits.len(),
            "line {line:?} was displaced and came back: {hits:?}"
        );
    }
}

#[test]
fn sentence_end_finishes_the_line() {
    let mut w = Window::new(40, 2, true);
    assert_eq!(w.push_word("Hello"), Push::Redraw("Hello".into()));
    assert_eq!(w.push_word("world."), Push::Redraw("Hello world.".into()));
    assert_eq!(
        w.push_word("Next"),
        Push::Redraw("Hello world.\nNext".into())
    );
}

#[test]
fn overlong_word_keeps_its_own_line() {
    let mut w = Window::new(5, 2, false);
    assert_eq!(w.push_word("toolong"), Push::Redraw("toolong".into()));
    assert_eq!(w.push_word("ok"), Push::Redraw("toolong\nok".into()));
}

#[test]
fn cjk_uses_display_width() {
    let mut w = Window::new(4, 2, false);
    // Each CJK glyph is two columns.
    assert_eq!(w.push_word("你好"), Push::Redraw("你好".into()));
    assert_eq!(w.push_word("啊"), Push::Redraw("你好\n啊".into()));
}

/// The bottom line only ever grows by exactly the word just pushed, or
/// restarts as that word alone. Nothing else may change it.
#[test]
fn bottom_line_only_grows_by_the_pushed_word() {
    let words = ["alpha", "beta", "gamma", "delta", "epsilon"];
    let mut w = Window::new(10, 2, false);
    let mut previous = String::new();

    for word in words {
        let Push::Redraw(text) = w.push_word(word) else {
            panic!("{word} produced no redraw");
        };
        let bottom = text.lines().last().unwrap().to_string();
        let grew = !previous.is_empty() && bottom == format!("{previous} {word}");
        let restarted = bottom == word;
        assert!(
            grew || restarted,
            "bottom went from {previous:?} to {bottom:?} on {word:?}"
        );
        previous = bottom;
    }
}

#[test]
fn height_never_exceeds_lines() {
    let mut w = Window::new(8, 2, false);
    for word in ["a", "bbbbbbb", "c", "ddddddd", "e", "fffffff"] {
        if let Push::Redraw(text) = w.push_word(word) {
            assert!(text.lines().count() <= 2, "{text}");
        }
    }
}

#[test]
fn ends_sentence_skips_trailing_quotes() {
    assert!(ends_sentence("done."));
    assert!(ends_sentence("really?"));
    assert!(ends_sentence("wow!"));
    assert!(ends_sentence("\"no.\""));
    assert!(ends_sentence("trailing. "));
    assert!(!ends_sentence("poets,"));
    assert!(!ends_sentence("mid"));
}

#[test]
fn ends_sentence_edges() {
    assert!(!ends_sentence(""));
    assert!(!ends_sentence("\"')]}"));
    assert!(!ends_sentence("   "));
    assert!(ends_sentence("well\u{2026}"));
    assert!(ends_sentence("(so.)]}'\u{201d}\u{2019}\u{00bb}"));
    // White space between the stop and the closing quote is not skipped twice.
    assert!(!ends_sentence("no. \""));
}

#[test]
fn every_documented_cue_of_the_walkthrough() {
    let mut w = Window::new(42, 2, true);
    let words = "one of the things that's great about filming this here is that we get to see \
                 the work happening";
    let cues: Vec<String> = words
        .split_whitespace()
        .map(|word| match w.push_word(word) {
            Push::Redraw(text) => text,
            Push::Unchanged => panic!("{word} was not shown"),
        })
        .collect();
    assert_eq!(cues[0], "one");
    assert_eq!(cues[6], "one of the things that's great about");
    assert_eq!(cues[7], "one of the things that's great about\nfilming");
    assert_eq!(
        cues[15],
        "one of the things that's great about\nfilming this here is that we get to see"
    );
    assert_eq!(cues[16], "filming this here is that we get to see\nthe");
    assert_eq!(
        cues[18],
        "filming this here is that we get to see\nthe work happening"
    );
}

#[test]
fn blank_words_change_nothing() {
    let mut w = Window::new(10, 2, true);
    assert!(w.is_empty());
    assert_eq!(w.push_word(""), Push::Unchanged);
    assert_eq!(w.push_word(" \t\n\u{3000}"), Push::Unchanged);
    assert!(w.is_empty());
    assert_eq!(w.push_word("  hi "), Push::Redraw("hi".into()));
    assert_eq!(w.push_word("\u{00a0}"), Push::Unchanged);
    assert_eq!(w.render(), "hi");
}

#[test]
fn clear_makes_a_new_window_of_the_same_geometry() {
    let mut w = Window::new(5, 2, true);
    w.push_word("one");
    w.push_word("two");
    assert!(!w.is_empty());
    w.clear();
    assert!(w.is_empty());
    assert_eq!(w.render(), "");
    assert_eq!(w.push_word("three"), Push::Redraw("three".into()));
    assert_eq!(w.push_word("x"), Push::Redraw("three\nx".into()));
    assert_eq!(w.columns, 5);
}

#[test]
fn geometry_is_at_least_one() {
    let mut w = Window::new(0, 0, false);
    assert_eq!(w.columns, 1);
    assert_eq!(w.push_word("a"), Push::Redraw("a".into()));
    assert_eq!(w.push_word("b"), Push::Redraw("b".into()));
    w.set_columns(0);
    assert_eq!(w.columns, 1);
    w.set_lines(0);
    assert_eq!(w.push_word("c"), Push::Redraw("c".into()));
}

#[test]
fn new_geometry_affects_future_wrapping_only() {
    let mut w = Window::new(5, 3, false);
    w.push_word("alpha");
    w.push_word("beta");
    w.push_word("gamma");
    assert_eq!(w.render(), "alpha\nbeta\ngamma");
    w.set_columns(40);
    assert_eq!(w.render(), "alpha\nbeta\ngamma");
    assert_eq!(
        w.push_word("delta"),
        Push::Redraw("alpha\nbeta\ngamma delta".into())
    );
    w.set_lines(2);
    assert_eq!(w.render(), "beta\ngamma delta");
    w.set_lines(3);
    assert_eq!(w.render(), "alpha\nbeta\ngamma delta");
    w.set_break_on_sentence(true);
    w.set_lines(1);
    assert_eq!(
        w.push_word("end."),
        Push::Redraw("gamma delta end.".into())
    );
    w.set_lines(3);
    assert_eq!(w.render(), "gamma delta end.");
}

#[test]
fn measured_width_decides_the_wrapping() {
    let mut w = Window::new(10, 2, false);
    assert_eq!(w.push_measured("ab", 99), Push::Redraw("ab".into()));
    assert_eq!(w.candidate("cd"), "ab cd");
    assert_eq!(w.push_measured("cd", 10), Push::Redraw("ab cd".into()));
    assert_eq!(w.push_measured(" ef ", 11), Push::Redraw("ab cd\nef".into()));
}

#[test]
fn a_line_may_be_exactly_as_wide_as_the_window() {
    let mut w = Window::new(11, 2, false);
    w.push_word("hello");
    assert_eq!(w.push_word("world"), Push::Redraw("hello world".into()));
    let mut w = Window::new(5, 2, false);
    w.push_word("你好");
    assert_eq!(w.push_word("a"), Push::Redraw("你好\na".into()));
}

#[test]
fn a_clone_goes_its_own_way() {
    let mut w = Window::new(20, 2, false);
    w.push_word("one");
    let mut copy = w.clone();
    copy.push_word("two");
    assert_eq!(w.render(), "one");
    assert_eq!(copy.render(), "one two");
}

#[test]
fn no_other_cut_of_the_words_has_fewer_lines() {
    let words = ["a", "bbb", "cc", "dddd", "e", "ff", "ggg", "h", "iiiii"];
    for columns in 5..12usize {
        let mut w = Window::new(columns, words.len(), false);
        for word in words {
            w.push_word(word);
        }
        let mut fewest = words.len();
        for cut in 0..1u32 << (words.len() - 1) {
            let mut lines = vec![words[0].to_string()];
            for (i, word) in words.iter().enumerate().skip(1) {
                if cut & (1 << (i - 1)) != 0 {
                    lines.push(word.to_string());
                } else {
                    let line = lines.pop().unwrap();
                    lines.push(format!("{line} {word}"));
                }
            }
            if lines.iter().all(|line| line.len() <= columns) {
                fewest = fewest.min(lines.len());
            }
        }
        assert_eq!(w.render().lines().count(), fewest, "{columns} columns");
    }
}

#[test]
fn a_completed_sentence_reads_as_a_growing_line_does() {
    for lines in 1..4 {
        let mut frozen = Window::new(20, lines, true);
        let mut growing = Window::new(20, lines, false);
        for word in ["one", "two", "end."] {
            frozen.push_word(word);
            growing.push_word(word);
        }
        assert_eq!(frozen.render(), growing.render());
        assert_eq!(frozen.is_empty(), growing.is_empty());
    }
}

#[test]
fn a_repeated_line_is_redrawn_though_it_reads_the_same() {
    let mut w = Window::new(4, 1, false);
    assert_eq!(w.push_word("aaaa"), Push::Redraw("aaaa".into()));
    assert_eq!(w.push_word("aaaa"), Push::Redraw("aaaa".into()));
}

#[test]
fn displayed_lines_never_move() {
    let words = ["one", "two", "three.", "four", "extraordinary", "five", "six", "seven!", "x"];
    for columns in [1usize, 7, 9, 14] {
        for lines in 1..4usize {
            for sentences in [false, true] {
                let mut w = Window::new(columns, lines, sentences);
                let mut shown: Vec<String> = Vec::new();
                for word in words {
                    w.push_word(word);
                    let now: Vec<String> = w.render().lines().map(str::to_string).collect();
                    let mut grown = shown.clone();
                    if let Some(bottom) = grown.pop() {
                        grown.push(format!("{bottom} {word}"));
                    }
                    let mut scrolled = shown.clone();
                    scrolled.push(word.to_string());
                    if scrolled.len() > lines {
                        scrolled.remove(0);
                    }
                    assert!(now == scrolled || (now == grown && !shown.is_empty()), "{now:?}");
                    shown = now;
                }
            }
        }
    }
}

#[test]
fn a_scrolled_window_shows_the_newest_of_all_lines() {
    let mut w = Window::new(3, 2, false);
    for word in ["aaa", "bbb", "ccc"] {
        w.push_word(word);
    }
    assert_eq!(w.render(), "bbb\nccc");
    w.set_lines(1);
    assert_eq!(w.render(), "ccc");
    assert_eq!(w.push_word("ddd"), Push::Redraw("ddd".into()));
}

#[test]
fn only_a_lone_word_is_too_wide_through_edits() {
    let mut w = Window::new(6, 3, false);
    for word in ["ab", "cd", "efghijkl", "m"] {
        w.push_word(word);
    }
    assert_eq!(w.render(), "ab cd\nefghijkl\nm");
    w.set_lines(2);
    w.set_break_on_sentence(true);
    assert_eq!(w.push_word("no."), Push::Redraw("efghijkl\nm no.".into()));
    w.clear();
    w.push_word("abc");
    assert_eq!(w.push_word("def"), Push::Redraw("abc\ndef".into()));
    w.set_lines(4);
    assert_eq!(w.push_word("gh"), Push::Redraw("abc\ndef gh".into()));
}

#[test]
fn every_printable_ascii_character_takes_one_column() {
    for code in 0x21..=0x7eu8 {
        let word = (code as char).to_string().repeat(3);
        let mut w = Window::new(7, 2, false);
        w.push_word(&word);
        assert_eq!(w.push_word(&word), Push::Redraw(format!("{word} {word}")));
        let mut w = Window::new(6, 2, false);
        w.push_word(&word);
        assert_eq!(w.push_word(&word), Push::Redraw(format!("{word}\n{word}")));
    }
}

#[test]
fn freezing_shows_nothing_new() {
    let mut w = Window::new(20, 2, false);
    w.freeze_current();
    assert!(w.is_empty());
    w.push_word("one");
    w.push_word("two");
    w.freeze_current();
    assert_eq!(w.render(), "one two");
    w.freeze_current();
    assert_eq!(w.render(), "one two");
    assert!(!w.is_empty());
    assert_eq!(w.push_word("three"), Push::Redraw("one two\nthree".into()));
    w.freeze_current();
    assert_eq!(w.push_word("four"), Push::Redraw("three\nfour".into()));
}
