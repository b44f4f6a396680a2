//! Characters and strings: white space, trimming, splitting, joining.

use vstd::prelude::*;
use vstd::utf8::{decode_utf8, valid_utf8};

verus! {

/// The characters with the Unicode `White_Space` property.
pub open spec fn white_space(c: char) -> bool {
    let n = c as u32;
    ||| 0x09 <= n <= 0x0d
    ||| n == 0x20
    ||| n == 0x85
    ||| n == 0xa0
    ||| n == 0x1680
    ||| 0x2000 <= n <= 0x200a
    ||| n == 0x2028
    ||| n == 0x2029
    ||| n == 0x202f
    ||| n == 0x205f
    ||| n == 0x3000
}

/// `s` without the longest suffix of characters that satisfy `p`.
pub open spec fn strip_end(s: Seq<char>, p: spec_fn(char) -> bool) -> Seq<char>
    decreases s.len(),
{
    if s.len() > 0 && p(s.last()) {
        strip_end(s.drop_last(), p)
    } else {
        s
    }
}

/// `s` without the longest prefix of characters that satisfy `p`.
pub open spec fn strip_start(s: Seq<char>, p: spec_fn(char) -> bool) -> Seq<char>
    decreases s.len(),
{
    if s.len() > 0 && p(s.first()) {
        strip_start(s.drop_first(), p)
    } else {
        s
    }
}

/// `s` without leading and trailing white space.
pub open spec fn trimmed(s: Seq<char>) -> Seq<char> {
    strip_end(strip_start(s, |c: char| white_space(c)), |c: char| white_space(c))
}

/// Whether `s` holds nothing but white space.
pub open spec fn blank(s: Seq<char>) -> bool {
    forall|i: int| 0 <= i < s.len() ==> white_space(#[trigger] s[i])
}

/// The maximal runs of `s` without white space, in order.
pub open spec fn words(s: Seq<char>) -> Seq<Seq<char>>
    decreases s.len(),
{
    if s.len() == 0 {
        Seq::empty()
    } else if white_space(s.last()) {
        words(s.drop_last())
    } else {
        let head = strip_end(s, |c: char| !white_space(c));
        proof {
            lemma_strip_end_shape(s.drop_last(), |c: char| !white_space(c));
        }
        words(head).push(s.skip(head.len() as int))
    }
}

/// The parts in order, with `sep` between each two neighbours.
pub open spec fn joined(parts: Seq<Seq<char>>, sep: char) -> Seq<char>
    decreases parts.len(),
{
    if parts.len() == 0 {
        Seq::empty()
    } else if parts.len() == 1 {
        parts[0]
    } else {
        joined(parts.drop_last(), sep).push(sep) + parts.last()
    }
}

/// The error of `core::str::from_utf8`; nothing is known of its contents.
#[verifier::external_type_specification]
#[verifier::external_body]
pub struct ExUtf8Error(core::str::Utf8Error);

/// `core::str::from_utf8` accepts exactly the byte strings that are valid
/// UTF-8, and gives the characters that they encode.
pub assume_specification[ core::str::from_utf8 ](v: &[u8]) -> (r: Result<
    &str,
    core::str::Utf8Error,
>)
    ensures
        r is Ok <==> valid_utf8(v@),
        r matches Ok(s) ==> s@ == decode_utf8(v@),
;

/// The views of the strings in `parts`.
pub open spec fn views(parts: Seq<String>) -> Seq<Seq<char>> {
    parts.map_values(|s: String| s@)
}

pub proof fn lemma_strip_end_shape(s: Seq<char>, p: spec_fn(char) -> bool)
    ensures
        strip_end(s, p).len() <= s.len(),
        strip_end(s, p) == s.take(strip_end(s, p).len() as int),
        forall|i: int| strip_end(s, p).len() <= i < s.len() ==> p(#[trigger] s[i]),
        strip_end(s, p).len() > 0 ==> !p(strip_end(s, p).last()),
    decreases s.len(),
{
    if s.len() > 0 && p(s.last()) {
        let t = s.drop_last();
        lemma_strip_end_shape(t, p);
        assert forall|i: int| strip_end(s, p).len() <= i < s.len() implies p(#[trigger] s[i]) by {
            if i < t.len() {
                assert(t[i] == s[i]);
            }
        }
        assert(t.take(strip_end(s, p).len() as int) =~= s.take(strip_end(s, p).len() as int));
    } else {
        assert(s.take(s.len() as int) =~= s);
    }
}

/// A cut that leaves only `p` behind it and none of `p` before it is the
/// cut that stripping makes.
pub proof fn lemma_strip_end_at(s: Seq<char>, p: spec_fn(char) -> bool, n: int)
    requires
        0 <= n <= s.len(),
        forall|i: int| n <= i < s.len() ==> p(#[trigger] s[i]),
        n > 0 ==> !p(s[n - 1]),
    ensures
        strip_end(s, p) == s.take(n),
{
    lemma_strip_end_shape(s, p);
    let m = strip_end(s, p).len() as int;
    if n < m {
        assert(p(s[m - 1]));
    }
    if m < n {
        assert(p(s[n - 1]));
    }
}

pub proof fn lemma_strip_start_at(s: Seq<char>, p: spec_fn(char) -> bool, n: int)
    requires
        0 <= n <= s.len(),
        forall|i: int| 0 <= i < n ==> p(#[trigger] s[i]),
        n < s.len() ==> !p(s[n]),
    ensures
        strip_start(s, p) == s.skip(n),
    decreases s.len(),
{
    if s.len() > 0 && p(s.first()) {
        let t = s.drop_first();
        assert(n > 0);
        assert forall|i: int| 0 <= i < n - 1 implies p(#[trigger] t[i]) by {
            assert(t[i] == s[i + 1]);
        }
        lemma_strip_start_at(t, p, n - 1);
        assert(t.skip(n - 1) =~= s.skip(n));
    } else {
        assert(n == 0) by {
            if n > 0 {
                assert(p(s[0]));
            }
        }
        assert(s.skip(0) =~= s);
    }
}

/// Trimming leaves nothing exactly when there is nothing but white space.
pub proof fn lemma_trimmed_empty(s: Seq<char>)
    ensures
        trimmed(s).len() == 0 <==> blank(s),
    decreases s.len(),
{
    let p = |c: char| white_space(c);
    if s.len() > 0 && p(s.first()) {
        let t = s.drop_first();
        lemma_trimmed_empty(t);
        assert(blank(s) ==> blank(t)) by {
            assert forall|i: int| blank(s) && 0 <= i < t.len() implies white_space(
                #[trigger] t[i],
            ) by {
                assert(t[i] == s[i + 1]);
            }
        }
        assert(blank(t) ==> blank(s)) by {
            assert forall|i: int| blank(t) && 0 <= i < s.len() implies white_space(
                #[trigger] s[i],
            ) by {
                if i > 0 {
                    assert(s[i] == t[i - 1]);
                }
            }
        }
    } else if s.len() > 0 {
        lemma_strip_end_shape(s, p);
        assert(!white_space(s[0]));
        if strip_end(s, p).len() == 0 {
            assert(p(s[0]));
        }
    }
}

/// A run without white space at the end of `s` is the last word of `s`.
pub proof fn lemma_last_word(s: Seq<char>, start: int)
    requires
        0 <= start < s.len(),
        forall|i: int| start <= i < s.len() ==> !white_space(#[trigger] s[i]),
        start > 0 ==> white_space(s[start - 1]),
    ensures
        words(s) == words(s.take(start)).push(s.skip(start)),
{
    lemma_strip_end_at(s, |c: char| !white_space(c), start);
}

/// Every word is non-empty and free of white space.
pub proof fn lemma_words_are_solid(s: Seq<char>)
    ensures
        forall|k: int| 0 <= k < words(s).len() ==> (#[trigger] words(s)[k]).len() > 0,
        forall|k: int, i: int|
            0 <= k < words(s).len() && 0 <= i < words(s)[k].len() ==> !white_space(
                #[trigger] words(s)[k][i],
            ),
    decreases s.len(),
{
    if s.len() == 0 {
        assert(words(s).len() == 0);
    } else if white_space(s.last()) {
        lemma_words_are_solid(s.drop_last());
        assert(words(s) == words(s.drop_last()));
    } else {
        let q = |c: char| !white_space(c);
        let head = strip_end(s, q);
        lemma_strip_end_shape(s.drop_last(), q);
        lemma_strip_end_shape(s, q);
        lemma_words_are_solid(head);
        let tail = s.skip(head.len() as int);
        assert(words(s) == words(head).push(tail));
        assert(tail.len() > 0);
        assert forall|i: int| 0 <= i < tail.len() implies !white_space(#[trigger] tail[i]) by {
            assert(q(s[i + head.len()]));
        }
        assert forall|k: int| 0 <= k < words(s).len() implies (#[trigger] words(s)[k]).len() > 0 by {
            if k < words(head).len() {
                assert(words(s)[k] == words(head)[k]);
            }
        }
        assert forall|k: int, i: int|
            0 <= k < words(s).len() && 0 <= i < words(s)[k].len() implies !white_space(
            #[trigger] words(s)[k][i],
        ) by {
            if k < words(head).len() {
                assert(words(s)[k] == words(head)[k]);
                assert(!white_space(words(head)[k][i]));
            } else {
                assert(words(s)[k] == tail);
            }
        }
    }
}

/// There are words exactly when there is something beside white space.
pub proof fn lemma_words_of_blank(s: Seq<char>)
    ensures
        words(s).len() == 0 <==> blank(s),
    decreases s.len(),
{
    if s.len() == 0 {
    } else if white_space(s.last()) {
        let t = s.drop_last();
        lemma_words_of_blank(t);
        assert(blank(s) ==> blank(t)) by {
            assert forall|i: int| blank(s) && 0 <= i < t.len() implies white_space(
                #[trigger] t[i],
            ) by {
                assert(t[i] == s[i]);
            }
        }
        assert(blank(t) ==> blank(s)) by {
            assert forall|i: int| blank(t) && 0 <= i < s.len() implies white_space(
                #[trigger] s[i],
            ) by {
                if i < t.len() {
                    assert(s[i] == t[i]);
                }
            }
        }
    } else {
        assert(!white_space(s[s.len() - 1]));
    }
}

/// A string that neither starts nor ends with white space is left alone by
/// trimming.
pub proof fn lemma_trimmed_fixed(s: Seq<char>)
    requires
        s.len() > 0,
        !white_space(s.first()),
        !white_space(s.last()),
    ensures
        trimmed(s) == s,
{
}

/// Joining parts of which none is empty leaves nothing only when there are no
/// parts.
pub proof fn lemma_joined_nonempty(parts: Seq<Seq<char>>, sep: char)
    requires
        forall|i: int| 0 <= i < parts.len() ==> (#[trigger] parts[i]).len() > 0,
    ensures
        parts.len() > 0 <==> joined(parts, sep).len() > 0,
{
}

/// Whether `c` has the Unicode `White_Space` property.
pub fn is_white_space(c: char) -> (r: bool)
    ensures
        r == white_space(c),
{
    let n = c as u32;
    (0x09 <= n && n <= 0x0d) || n == 0x20 || n == 0x85 || n == 0xa0 || n == 0x1680 || (0x2000 <= n
        && n <= 0x200a) || n == 0x2028 || n == 0x2029 || n == 0x202f || n == 0x205f || n == 0x3000
}

/// The characters of `s`.
pub fn chars_of(s: &str) -> (chars: Vec<char>)
    ensures
        chars@ == s@,
{
    let mut chars: Vec<char> = Vec::new();
    for c in it: s.chars()
        invariant
            it.seq() == s@,
            chars@ == s@.take(it.index() as int),
    {
        chars.push(c);
    }
    chars
}

/// `s` without leading and trailing white space.
pub fn trim(s: &str) -> (r: &str)
    ensures
        r@ == trimmed(s@),
{
    let chars = chars_of(s);
    let mut start: usize = 0;
    while start < chars.len() && is_white_space(chars[start])
        invariant
            start <= chars.len(),
            forall|i: int| 0 <= i < start ==> white_space(#[trigger] chars[i]),
        decreases chars.len() - start,
    {
        start = start + 1;
    }
    let mut end: usize = chars.len();
    while end > start && is_white_space(chars[end - 1])
        invariant
            start <= end <= chars.len(),
            forall|i: int| end <= i < chars.len() ==> white_space(#[trigger] chars[i]),
        decreases end,
    {
        end = end - 1;
    }
    proof {
        let p = |c: char| white_space(c);
        lemma_strip_start_at(s@, p, start as int);
        let t = s@.skip(start as int);
        assert forall|i: int| end - start <= i < t.len() implies p(#[trigger] t[i]) by {
            assert(t[i] == chars[i + start]);
        }
        lemma_strip_end_at(t, p, end - start);
        assert(t.take(end - start) =~= s@.subrange(start as int, end as int));
    }
    s.substring_char(start, end)
}

/// The maximal runs of `s` without white space, in order.
pub fn split_words(s: &str) -> (r: Vec<String>)
    ensures
        views(r@) == words(s@),
{
    let chars = chars_of(s);
    let mut r: Vec<String> = Vec::new();
    let mut start: usize = 0;
    let mut i: usize = 0;
    assert(views(r@) =~= words(s@.take(0)));
    while i < chars.len()
        invariant
            chars@ == s@,
            start <= i <= chars.len(),
            views(r@) == words(s@.take(start as int)),
            forall|k: int| start <= k < i ==> !white_space(#[trigger] chars[k]),
            start > 0 ==> white_space(chars[start - 1]),
        decreases chars.len() - i,
    {
        if is_white_space(chars[i]) {
            if start < i {
                proof {
                    let t = s@.take(i as int);
                    lemma_last_word(t, start as int);
                    assert(t.take(start as int) =~= s@.take(start as int));
                    assert(t.skip(start as int) =~= s@.subrange(start as int, i as int));
                }
                let ghost before = r@;
                r.push(s.substring_char(start, i).to_owned());
                assert(views(r@) =~= views(before).push(s@.subrange(start as int, i as int)));
            }
            assert(s@.take(i + 1).drop_last() =~= s@.take(i as int));
            start = i + 1;
        }
        i = i + 1;
    }
    assert(s@.take(i as int) =~= s@);
    if start < i {
        proof {
            lemma_last_word(s@, start as int);
            assert(s@.skip(start as int) =~= s@.subrange(start as int, i as int));
        }
        let ghost before = r@;
        r.push(s.substring_char(start, i).to_owned());
        assert(views(r@) =~= views(before).push(s@.subrange(start as int, i as int)));
    }
    r
}

/// The parts in order, with `sep` between each two neighbours; `sep` is a
/// string of one character.
pub fn join(parts: &Vec<String>, sep: &str) -> (r: String)
    requires
        sep@.len() == 1,
    ensures
        r@ == joined(views(parts@), sep@[0]),
{
    let mut r = String::new();
    let mut i: usize = 0;
    while i < parts.len()
        invariant
            i <= parts.len(),
            sep@.len() == 1,
            r@ == joined(views(parts@).take(i as int), sep@[0]),
        decreases parts.len() - i,
    {
        let ghost before = views(parts@).take(i as int);
        let ghost after = views(parts@).take(i + 1);
        assert(after.drop_last() =~= before);
        if i > 0 {
            r.append(sep);
        }
        r.append(parts[i].as_str());
        assert(r@ =~= joined(after, sep@[0]));
        i = i + 1;
    }
    assert(views(parts@).take(i as int) =~= views(parts@));
    r
}

} // verus!
