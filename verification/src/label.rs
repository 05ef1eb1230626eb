//! Tile labels: the title's text, how it wraps, and where its lines go.
use vstd::prelude::*;
use vstd::string::*;
use vstd::utf8::*;

use crate::config;
use crate::config::Config;
use crate::layout;
use crate::layout::{LABEL_H, TileGeom};
use crate::luminance;
use crate::text;
use crate::wire;

verus! {

/// Longer titles are cut, so that absurdly long ones do not burst the layout.
pub const TITLE_MAX_CHARS: usize = 100;

/// The title trimmed and cut to `max_chars` characters, the last three of a cut title being dots.
pub open spec fn short_title(s: Seq<char>, max_chars: int) -> Seq<char> {
    let t = text::trimmed(s);
    if t.len() > max_chars {
        t.take(
            if max_chars < 3 {
                0
            } else {
                max_chars - 3
            },
        ) + seq!['.', '.', '.']
    } else {
        t
    }
}

/// Truncates a window title to at most `max_chars` characters, appending "..." if needed.
pub fn truncate_title(s: &str, max_chars: usize) -> (r: String)
    ensures
        r@ == short_title(s@, max_chars as int),
{
    let t: &str = text::trim(s);
    let n: usize = t.unicode_len();
    if n > max_chars {
        let keep: usize = if max_chars < 3 { 0 } else { max_chars - 3 };
        proof {
            reveal_strlit("...");
            assert("..."@ =~= seq!['.', '.', '.']);
            assert(t@.subrange(0, keep as int) =~= t@.take(keep as int));
        }
        text::concat(t.substring_char(0, keep), "...")
    } else {
        t.to_owned()
    }
}

/// A title is never longer than allowed, when there is room for the dots at all.
pub proof fn law_title_is_short(s: Seq<char>, max_chars: int)
    requires
        max_chars >= 3,
    ensures
        short_title(s, max_chars).len() <= max_chars,
{
}

/// The measure gives each text one width, whatever string holds it.
pub open spec fn is_measure<F: Fn(&str) -> u32>(measure: F) -> bool {
    &&& forall|t: &str| #[trigger] call_requires(measure, (t,))
    &&& forall|t: &str, u: &str, v: u32, w: u32|
        t@ == u@ && #[trigger] call_ensures(measure, (t,), v) && #[trigger] call_ensures(
            measure,
            (u,),
            w,
        ) ==> v == w
}

/// The measure gives the width `w` to a text.
pub open spec fn gives<F: Fn(&str) -> u32>(measure: F, s: Seq<char>, w: u32) -> bool {
    exists|t: &str| t@ == s && #[trigger] call_ensures(measure, (t,), w)
}

/// The width that the measure gives to a text.
pub open spec fn width_by<F: Fn(&str) -> u32>(measure: F, s: Seq<char>) -> u32 {
    choose|w: u32| gives(measure, s, w)
}

/// The measure as a function on texts.
pub open spec fn widths<F: Fn(&str) -> u32>(measure: F) -> spec_fn(Seq<char>) -> u32 {
    |s: Seq<char>| width_by(measure, s)
}

/// Measures a text.
fn measured<F: Fn(&str) -> u32>(measure: &F, t: &str) -> (w: u32)
    requires
        is_measure(*measure),
    ensures
        w == width_by(*measure, t@),
        w == widths(*measure)(t@),
{
    let w: u32 = measure(t);
    assert(gives(*measure, t@, w));
    w
}

/// Lines that are complete, and the line that still grows.
pub struct Wrapping {
    pub lines: Seq<Seq<char>>,
    pub current: Seq<char>,
}

/// Adds one character of a word that is too wide for a line of its own.
pub open spec fn add_char(
    w: Wrapping,
    c: char,
    max_px: u32,
    width: spec_fn(Seq<char>) -> u32,
) -> Wrapping {
    let trial = w.current.push(c);
    if width(trial) <= max_px || w.current.len() == 0 {
        Wrapping { lines: w.lines, current: trial }
    } else {
        Wrapping { lines: w.lines.push(w.current), current: seq![c] }
    }
}

/// Adds the characters of a word that is too wide for a line of its own.
pub open spec fn add_chars(
    w: Wrapping,
    word: Seq<char>,
    max_px: u32,
    width: spec_fn(Seq<char>) -> u32,
) -> Wrapping
    decreases word.len(),
{
    if word.len() == 0 {
        w
    } else {
        add_char(add_chars(w, word.drop_last(), max_px, width), word.last(), max_px, width)
    }
}

/// The growing line with a word added behind a space.
pub open spec fn with_word(current: Seq<char>, word: Seq<char>) -> Seq<char> {
    if current.len() == 0 {
        word
    } else {
        current.push(' ') + word
    }
}

/// The lines, with the growing line completed unless it is empty.
pub open spec fn flushed(w: Wrapping) -> Seq<Seq<char>> {
    if w.current.len() == 0 {
        w.lines
    } else {
        w.lines.push(w.current)
    }
}

/// Adds a word: to the growing line if it fits there, else to a new line, else broken between
/// characters.
pub open spec fn add_word(
    w: Wrapping,
    word: Seq<char>,
    max_px: u32,
    width: spec_fn(Seq<char>) -> u32,
) -> Wrapping {
    if width(with_word(w.current, word)) <= max_px {
        Wrapping { lines: w.lines, current: with_word(w.current, word) }
    } else if width(word) <= max_px {
        Wrapping { lines: flushed(w), current: word }
    } else {
        add_chars(Wrapping { lines: flushed(w), current: seq![] }, word, max_px, width)
    }
}

/// Adds words one after the other.
pub open spec fn add_words(
    ws: Seq<Seq<char>>,
    max_px: u32,
    width: spec_fn(Seq<char>) -> u32,
) -> Wrapping
    decreases ws.len(),
{
    if ws.len() == 0 {
        Wrapping { lines: seq![], current: seq![] }
    } else {
        add_word(add_words(ws.drop_last(), max_px, width), ws.last(), max_px, width)
    }
}

/// The lines of a word-wrapped text.
pub open spec fn wrapped(
    s: Seq<char>,
    max_px: u32,
    width: spec_fn(Seq<char>) -> u32,
) -> Seq<Seq<char>> {
    flushed(add_words(text::words(s), max_px, width))
}

/// Breaks a word between characters: adds the full lines, and returns the line that still grows.
fn break_word<F: Fn(&str) -> u32>(
    measure: &F,
    lines: &mut Vec<String>,
    word: &str,
    max_px: u32,
) -> (r: String)
    requires
        is_measure(*measure),
    ensures
        ({
            let start = Wrapping { lines: text::texts(old(lines)@), current: seq![] };
            let end = add_chars(start, word@, max_px, widths(*measure));
            text::texts(final(lines)@) == end.lines && r@ == end.current
        }),
{
    let n: usize = word.unicode_len();
    let mut a: usize = 0;
    let mut b: usize = 0;
    let ghost start = Wrapping { lines: text::texts(lines@), current: seq![] };
    let ghost width = widths(*measure);
    assert(word@.take(0) =~= seq![]);
    assert(word@.subrange(0, 0) =~= seq![]);
    while b < n
        invariant
            is_measure(*measure),
            n == word@.len(),
            a <= b <= n,
            width == widths(*measure),
            add_chars(start, word@.take(b as int), max_px, width) == (Wrapping {
                lines: text::texts(lines@),
                current: word@.subrange(a as int, b as int),
            }),
        decreases n - b,
    {
        let trial: &str = word.substring_char(a, b + 1);
        let w: u32 = measured(measure, trial);
        proof {
            let t = word@.take(b + 1);
            assert(t.drop_last() =~= word@.take(b as int));
            assert(t.last() == word@[b as int]);
            assert(trial@ =~= word@.subrange(a as int, b as int).push(word@[b as int]));
        }
        if w <= max_px || a == b {
            b = b + 1;
        } else {
            let ghost before = lines@;
            lines.push(word.substring_char(a, b).to_owned());
            assert(text::texts(lines@) =~= text::texts(before).push(
                word@.subrange(a as int, b as int),
            ));
            assert(word@.subrange(b as int, b + 1) =~= seq![word@[b as int]]);
            a = b;
            b = b + 1;
        }
    }
    assert(word@.take(n as int) =~= word@);
    word.substring_char(a, b).to_owned()
}

/// The growing line with a word added behind a space.
fn joined_word(current: &String, word: &str) -> (r: String)
    ensures
        r@ == with_word(current@, word@),
{
    if current.as_str().is_empty() {
        return word.to_owned();
    }
    let mut r: String = current.as_str().to_owned();
    proof {
        reveal_strlit(" ");
        assert(" "@ =~= seq![' ']);
        assert(current@ + " "@ =~= current@.push(' '));
    }
    r.append(" ");
    r.append(word);
    r
}

/// Word-wraps `title` so that each line is at most `max_px` wide by `measure`. A word that is
/// wider than that on its own is broken between characters.
pub fn wrap_text<F: Fn(&str) -> u32>(measure: &F, title: &str, max_px: u32) -> (r: Vec<String>)
    requires
        is_measure(*measure),
    ensures
        text::texts(r@) == wrapped(title@, max_px, widths(*measure)),
{
    let ws: Vec<&str> = text::split_words(title);
    let n: usize = ws.len();
    let mut lines: Vec<String> = Vec::new();
    let mut current: String = String::new();
    let mut i: usize = 0;
    let ghost all = text::words(title@);
    let ghost width = widths(*measure);
    assert(all.take(0) =~= seq![]);
    assert(text::texts(lines@) =~= seq![]);
    assert(current@ =~= seq![]);
    while i < n
        invariant
            is_measure(*measure),
            n == ws.len(),
            i <= n,
            all == text::slices(ws@),
            width == widths(*measure),
            add_words(all.take(i as int), max_px, width) == (Wrapping {
                lines: text::texts(lines@),
                current: current@,
            }),
        decreases n - i,
    {
        let word: &str = ws[i];
        proof {
            let t = all.take(i + 1);
            assert(t.drop_last() =~= all.take(i as int));
            assert(t.last() == word@);
        }
        let candidate: String = joined_word(&current, word);
        if measured(measure, candidate.as_str()) <= max_px {
            current = candidate;
        } else {
            let ghost before = lines@;
            let ghost w = Wrapping { lines: text::texts(lines@), current: current@ };
            if !current.as_str().is_empty() {
                lines.push(current);
                assert(text::texts(lines@) =~= text::texts(before).push(w.current));
            }
            assert(text::texts(lines@) == flushed(w));
            if measured(measure, word) <= max_px {
                current = word.to_owned();
            } else {
                current = break_word(measure, &mut lines, word, max_px);
            }
        }
        i = i + 1;
    }
    assert(all.take(n as int) =~= all);
    if !current.as_str().is_empty() {
        let ghost before = lines@;
        let ghost last = current@;
        lines.push(current);
        assert(text::texts(lines@) =~= text::texts(before).push(last));
    }
    lines
}

/// A text without its white space.
pub open spec fn letters(s: Seq<char>) -> Seq<char>
    decreases s.len(),
{
    if s.len() == 0 {
        seq![]
    } else if text::is_white(s.last()) {
        letters(s.drop_last())
    } else {
        letters(s.drop_last()).push(s.last())
    }
}

/// Several texts in a row, without their white space.
pub open spec fn all_letters(ss: Seq<Seq<char>>) -> Seq<char>
    decreases ss.len(),
{
    if ss.len() == 0 {
        seq![]
    } else {
        all_letters(ss.drop_last()) + letters(ss.last())
    }
}

proof fn lemma_letters_add(a: Seq<char>, b: Seq<char>)
    ensures
        letters(a + b) == letters(a) + letters(b),
    decreases b.len(),
{
    if b.len() == 0 {
        assert(a + b =~= a);
        assert(letters(a) + letters(b) =~= letters(a));
    } else {
        lemma_letters_add(a, b.drop_last());
        assert((a + b).drop_last() =~= a + b.drop_last());
        assert((a + b).last() == b.last());
        assert(letters(a) + letters(b.drop_last()).push(b.last()) =~= (letters(a) + letters(
            b.drop_last(),
        )).push(b.last()));
    }
}

proof fn lemma_all_letters_prepend(x: Seq<char>, ss: Seq<Seq<char>>)
    ensures
        all_letters(seq![x] + ss) == letters(x) + all_letters(ss),
    decreases ss.len(),
{
    let t = seq![x] + ss;
    if ss.len() == 0 {
        reveal_with_fuel(all_letters, 2);
        assert(t.drop_last() =~= seq![]);
        assert(all_letters(t) =~= letters(x) + all_letters(ss));
    } else {
        lemma_all_letters_prepend(x, ss.drop_last());
        assert(t.drop_last() =~= seq![x] + ss.drop_last());
        assert(t.last() == ss.last());
        assert(all_letters(t) =~= letters(x) + all_letters(ss));
    }
}

proof fn lemma_words(s: Seq<char>)
    ensures
        all_letters(text::words(s)) == letters(s),
        forall|i: int| 0 <= i < text::words(s).len() ==> (#[trigger] text::words(s)[i]).len() > 0,
    decreases s.len(),
{
    if s.len() == 0 {
    } else if text::is_white(s[0]) {
        lemma_words(s.drop_first());
        assert(s =~= seq![s[0]] + s.drop_first());
        lemma_letters_add(seq![s[0]], s.drop_first());
        reveal_with_fuel(letters, 2);
        assert(letters(seq![s[0]]) =~= seq![]);
        assert(letters(s) =~= letters(s.drop_first()));
    } else {
        let k = 1 + text::first_white(s.drop_first()) as int;
        text::lemma_first_white_bound(s.drop_first());
        lemma_words(s.skip(k));
        lemma_all_letters_prepend(s.take(k), text::words(s.skip(k)));
        assert(s =~= s.take(k) + s.skip(k));
        lemma_letters_add(s.take(k), s.skip(k));
        let ws = text::words(s);
        assert forall|i: int| 0 <= i < ws.len() implies (#[trigger] ws[i]).len() > 0 by {
            if i > 0 {
                assert(ws[i] == text::words(s.skip(k))[i - 1]);
            }
        }
    }
}

/// The line fits, or is a single character, which cannot be broken.
pub open spec fn fits(line: Seq<char>, max_px: u32, width: spec_fn(Seq<char>) -> u32) -> bool {
    line.len() > 0 && (width(line) <= max_px || line.len() == 1)
}

spec fn lines_fit(w: Wrapping, max_px: u32, width: spec_fn(Seq<char>) -> u32) -> bool {
    &&& forall|i: int| 0 <= i < w.lines.len() ==> fits(#[trigger] w.lines[i], max_px, width)
    &&& w.current.len() == 0 || fits(w.current, max_px, width)
}

spec fn so_far(w: Wrapping) -> Seq<char> {
    all_letters(w.lines) + letters(w.current)
}

proof fn lemma_flushed(w: Wrapping, max_px: u32, width: spec_fn(Seq<char>) -> u32)
    requires
        lines_fit(w, max_px, width),
    ensures
        forall|i: int| 0 <= i < flushed(w).len() ==> fits(#[trigger] flushed(w)[i], max_px, width),
        all_letters(flushed(w)) == so_far(w),
{
    if w.current.len() > 0 {
        assert(w.lines.push(w.current).drop_last() =~= w.lines);
    } else {
        assert(so_far(w) =~= all_letters(w.lines));
    }
}

proof fn lemma_add_chars(
    w: Wrapping,
    word: Seq<char>,
    max_px: u32,
    width: spec_fn(Seq<char>) -> u32,
)
    requires
        lines_fit(w, max_px, width),
    ensures
        lines_fit(add_chars(w, word, max_px, width), max_px, width),
        so_far(add_chars(w, word, max_px, width)) == so_far(w) + letters(word),
    decreases word.len(),
{
    if word.len() == 0 {
        assert(so_far(w) + letters(word) =~= so_far(w));
    } else {
        let v = add_chars(w, word.drop_last(), max_px, width);
        let c = word.last();
        lemma_add_chars(w, word.drop_last(), max_px, width);
        let u = add_char(v, c, max_px, width);
        let one = seq![c];
        assert(one.drop_last() =~= seq![]);
        assert(v.current + one =~= v.current.push(c));
        lemma_letters_add(v.current, one);
        assert(word =~= word.drop_last() + one);
        lemma_letters_add(word.drop_last(), one);
        if width(v.current.push(c)) <= max_px || v.current.len() == 0 {
            assert(so_far(u) =~= so_far(v) + letters(one));
        } else {
            assert(v.lines.push(v.current).drop_last() =~= v.lines);
            assert(so_far(u) =~= so_far(v) + letters(one));
        }
        assert(so_far(w) + letters(word.drop_last()) + letters(one) =~= so_far(w) + letters(word));
    }
}

proof fn lemma_add_words(ws: Seq<Seq<char>>, max_px: u32, width: spec_fn(Seq<char>) -> u32)
    requires
        forall|i: int| 0 <= i < ws.len() ==> (#[trigger] ws[i]).len() > 0,
    ensures
        lines_fit(add_words(ws, max_px, width), max_px, width),
        so_far(add_words(ws, max_px, width)) == all_letters(ws),
    decreases ws.len(),
{
    if ws.len() == 0 {
        assert(so_far(add_words(ws, max_px, width)) =~= all_letters(ws));
    } else {
        let prev = ws.drop_last();
        let word = ws.last();
        assert(word.len() > 0);
        lemma_add_words(prev, max_px, width);
        let w = add_words(prev, max_px, width);
        let u = add_word(w, word, max_px, width);
        lemma_flushed(w, max_px, width);
        if width(with_word(w.current, word)) <= max_px {
            let gap = seq![' '];
            reveal_with_fuel(letters, 2);
            assert(letters(gap) =~= seq![]);
            if w.current.len() > 0 {
                assert(with_word(w.current, word) =~= w.current + gap + word);
                lemma_letters_add(w.current + gap, word);
                lemma_letters_add(w.current, gap);
            }
            assert(so_far(u) =~= so_far(w) + letters(word));
        } else if width(word) <= max_px {
            assert(so_far(u) =~= so_far(w) + letters(word));
        } else {
            let start = Wrapping { lines: flushed(w), current: seq![] };
            assert(so_far(start) =~= so_far(w));
            lemma_add_chars(start, word, max_px, width);
        }
    }
}

/// Every wrapped line fits the width, or is a single character; none is empty.
pub proof fn law_wrapped_lines_fit(s: Seq<char>, max_px: u32, width: spec_fn(Seq<char>) -> u32)
    ensures
        forall|i: int|
            0 <= i < wrapped(s, max_px, width).len() ==> fits(
                #[trigger] wrapped(s, max_px, width)[i],
                max_px,
                width,
            ),
{
    lemma_words(s);
    lemma_add_words(text::words(s), max_px, width);
    lemma_flushed(add_words(text::words(s), max_px, width), max_px, width);
}

/// Wrapping loses, adds and reorders nothing but white space.
pub proof fn law_wrapping_keeps_the_text(
    s: Seq<char>,
    max_px: u32,
    width: spec_fn(Seq<char>) -> u32,
)
    ensures
        all_letters(wrapped(s, max_px, width)) == letters(s),
{
    lemma_words(s);
    lemma_add_words(text::words(s), max_px, width);
    lemma_flushed(add_words(text::words(s), max_px, width), max_px, width);
}

/// Words in a row, with one space between neighbours.
pub open spec fn spaced(ws: Seq<Seq<char>>) -> Seq<char>
    decreases ws.len(),
{
    if ws.len() == 0 {
        seq![]
    } else if ws.len() == 1 {
        ws[0]
    } else {
        spaced(ws.drop_last()).push(' ') + ws.last()
    }
}

/// The line holds the text between two places; a place is a word and a position in it. A line that
/// ends inside a word holds a part of that word and nothing else. Any other line holds whole words,
/// the first perhaps without its beginning.
pub open spec fn is_line_of(
    ws: Seq<Seq<char>>,
    from: (int, int),
    to: (int, int),
    line: Seq<char>,
) -> bool {
    &&& 0 <= from.0 < ws.len()
    &&& 0 <= from.1 < ws[from.0].len()
    &&& if to.1 > 0 {
        &&& from.0 == to.0
        &&& from.1 < to.1 < ws[to.0].len()
        &&& line == ws[to.0].subrange(from.1, to.1)
    } else {
        &&& to.1 == 0
        &&& from.0 < to.0 <= ws.len()
        &&& line == spaced(seq![ws[from.0].skip(from.1)] + ws.subrange(from.0 + 1, to.0))
    }
}

/// A line that ends at a place could not have gone on: the next word is too wide to follow it. It
/// ends inside a word only if that is too wide for a line of its own, and before the first character
/// that does not fit.
pub open spec fn is_full(
    ws: Seq<Seq<char>>,
    to: (int, int),
    line: Seq<char>,
    max_px: u32,
    width: spec_fn(Seq<char>) -> u32,
) -> bool {
    if to.1 > 0 {
        width(ws[to.0]) > max_px && width(line.push(ws[to.0][to.1])) > max_px
    } else {
        width(line.push(' ') + ws[to.0]) > max_px
    }
}

/// The lines hold the words from the first to the last, each line from one of the places to the
/// next, and every line but the last is full.
pub open spec fn is_wrapping(
    ws: Seq<Seq<char>>,
    lines: Seq<Seq<char>>,
    places: Seq<(int, int)>,
    max_px: u32,
    width: spec_fn(Seq<char>) -> u32,
) -> bool {
    &&& places.len() == lines.len() + 1
    &&& places[0] == (0int, 0int)
    &&& places.last() == (ws.len() as int, 0int)
    &&& forall|i: int|
        0 <= i < lines.len() ==> is_line_of(ws, places[i], places[i + 1], #[trigger] lines[i])
    &&& forall|i: int|
        0 <= i < lines.len() - 1 ==> is_full(ws, places[i + 1], #[trigger] lines[i], max_px, width)
}

/// The complete lines reach up to the last of the places, and all of them are full.
spec fn reaches(
    ws: Seq<Seq<char>>,
    lines: Seq<Seq<char>>,
    places: Seq<(int, int)>,
    max_px: u32,
    width: spec_fn(Seq<char>) -> u32,
) -> bool {
    &&& places.len() == lines.len() + 1
    &&& places[0] == (0int, 0int)
    &&& forall|i: int|
        0 <= i < lines.len() ==> is_line_of(ws, places[i], places[i + 1], #[trigger] lines[i])
    &&& forall|i: int|
        0 <= i < lines.len() ==> is_full(ws, places[i + 1], #[trigger] lines[i], max_px, width)
}

proof fn lemma_reaches_further(
    ws: Seq<Seq<char>>,
    lines: Seq<Seq<char>>,
    places: Seq<(int, int)>,
    line: Seq<char>,
    to: (int, int),
    max_px: u32,
    width: spec_fn(Seq<char>) -> u32,
)
    requires
        reaches(ws, lines, places, max_px, width),
        is_line_of(ws, places.last(), to, line),
        is_full(ws, to, line, max_px, width),
    ensures
        reaches(ws, lines.push(line), places.push(to), max_px, width),
{
    let (ls, ps) = (lines.push(line), places.push(to));
    assert forall|i: int| 0 <= i < ls.len() implies is_line_of(ws, ps[i], ps[i + 1], #[trigger] ls[i])
        && is_full(ws, ps[i + 1], ls[i], max_px, width) by {
        if i < lines.len() {
            assert(ls[i] == lines[i]);
            assert(ps[i] == places[i] && ps[i + 1] == places[i + 1]);
        } else {
            assert(ps[i] == places.last() && ps[i + 1] == to);
        }
    }
}

/// Breaking word `m`: after `c` of its characters, the growing line is a part of the word.
proof fn lemma_places_in_word(
    ws: Seq<Seq<char>>,
    m: int,
    c: int,
    w: Wrapping,
    places: Seq<(int, int)>,
    max_px: u32,
    width: spec_fn(Seq<char>) -> u32,
) -> (r: Seq<(int, int)>)
    requires
        0 <= m < ws.len(),
        0 <= c <= ws[m].len(),
        ws[m].len() > 0,
        width(ws[m]) > max_px,
        w.current.len() == 0,
        reaches(ws, w.lines, places, max_px, width),
        places.last() == (m, 0int),
    ensures
        ({
            let v = add_chars(w, ws[m].take(c), max_px, width);
            &&& reaches(ws, v.lines, r, max_px, width)
            &&& r.last().0 == m
            &&& 0 <= r.last().1 <= c
            &&& c > 0 ==> r.last().1 < c
            &&& v.current == ws[m].subrange(r.last().1, c)
        }),
    decreases c,
{
    let word = ws[m];
    if c == 0 {
        assert(word.take(0) =~= seq![]);
        assert(word.subrange(0, 0) =~= w.current);
        places
    } else {
        let before = lemma_places_in_word(ws, m, c - 1, w, places, max_px, width);
        let v = add_chars(w, word.take(c - 1), max_px, width);
        let ch = word[c - 1];
        assert(word.take(c).drop_last() =~= word.take(c - 1));
        assert(word.take(c).last() == ch);
        let a = before.last().1;
        if width(v.current.push(ch)) <= max_px || v.current.len() == 0 {
            assert(v.current.push(ch) =~= word.subrange(a, c));
            before
        } else {
            assert(is_line_of(ws, before.last(), (m, c - 1), v.current));
            lemma_reaches_further(ws, v.lines, before, v.current, (m, c - 1), max_px, width);
            assert(seq![ch] =~= word.subrange(c - 1, c));
            before.push((m, c - 1))
        }
    }
}

/// After `m` words, the growing line runs from the last of the places to the end of word `m - 1`.
proof fn lemma_places(
    ws: Seq<Seq<char>>,
    m: int,
    max_px: u32,
    width: spec_fn(Seq<char>) -> u32,
) -> (r: Seq<(int, int)>)
    requires
        0 <= m <= ws.len(),
        forall|i: int| 0 <= i < ws.len() ==> (#[trigger] ws[i]).len() > 0,
    ensures
        ({
            let w = add_words(ws.take(m), max_px, width);
            &&& reaches(ws, w.lines, r, max_px, width)
            &&& m == 0 ==> w.lines.len() == 0 && w.current.len() == 0
            &&& m > 0 ==> w.current.len() > 0 && is_line_of(ws, r.last(), (m, 0int), w.current)
        }),
    decreases m,
{
    if m == 0 {
        assert(ws.take(0) =~= seq![]);
        seq![(0int, 0int)]
    } else {
        let before = lemma_places(ws, m - 1, max_px, width);
        let w = add_words(ws.take(m - 1), max_px, width);
        let word = ws[m - 1];
        assert(ws.take(m).drop_last() =~= ws.take(m - 1));
        assert(ws.take(m).last() == word);
        let here = (m - 1, 0int);
        if width(with_word(w.current, word)) <= max_px {
            let from = before.last();
            if m == 1 {
                assert(word.skip(0) =~= word);
                assert(seq![word.skip(0)] + ws.subrange(1, 1) =~= seq![word]);
            } else {
                let old_parts = seq![ws[from.0].skip(from.1)] + ws.subrange(from.0 + 1, m - 1);
                let parts = seq![ws[from.0].skip(from.1)] + ws.subrange(from.0 + 1, m);
                assert(parts.drop_last() =~= old_parts);
                assert(parts.last() == word);
            }
            before
        } else {
            let mut at = before;
            if w.current.len() > 0 {
                lemma_reaches_further(ws, w.lines, before, w.current, here, max_px, width);
                at = before.push(here);
            }
            let start = Wrapping { lines: flushed(w), current: seq![] };
            assert(at.last() == here);
            assert(reaches(ws, start.lines, at, max_px, width));
            assert(ws.subrange(m, m) =~= seq![]);
            if width(word) <= max_px {
                assert(word.skip(0) =~= word);
                assert(seq![word.skip(0)] + ws.subrange(m, m) =~= seq![word]);
                at
            } else {
                let n = word.len() as int;
                let r = lemma_places_in_word(ws, m - 1, n, start, at, max_px, width);
                assert(word.take(n) =~= word);
                let a = r.last().1;
                assert(word.subrange(a, n) =~= word.skip(a));
                assert(seq![word.skip(a)] + ws.subrange(m, m) =~= seq![word.skip(a)]);
                r
            }
        }
    }
}

/// Wrapping is greedy: the lines hold the words of the text in order, with single spaces between
/// them; a line ends only before a word that is too wide to follow it; and a word is broken only if
/// it is too wide for a line of its own, on lines that it has to itself up to its last part.
pub proof fn law_wrapping_is_greedy(s: Seq<char>, max_px: u32, width: spec_fn(Seq<char>) -> u32)
    ensures
        exists|places: Seq<(int, int)>|
            is_wrapping(text::words(s), wrapped(s, max_px, width), places, max_px, width),
{
    let ws = text::words(s);
    let n = ws.len() as int;
    lemma_words(s);
    let before = lemma_places(ws, n, max_px, width);
    assert(ws.take(n) =~= ws);
    let w = add_words(ws, max_px, width);
    let lines = wrapped(s, max_px, width);
    if w.current.len() > 0 {
        let places = before.push((n, 0int));
        assert forall|i: int| 0 <= i < lines.len() implies is_line_of(
            ws,
            places[i],
            places[i + 1],
            #[trigger] lines[i],
        ) by {
            if i < w.lines.len() {
                assert(lines[i] == w.lines[i]);
                assert(places[i] == before[i] && places[i + 1] == before[i + 1]);
            } else {
                assert(places[i] == before.last());
            }
        }
        assert forall|i: int| 0 <= i < lines.len() - 1 implies is_full(
            ws,
            places[i + 1],
            #[trigger] lines[i],
            max_px,
            width,
        ) by {
            assert(lines[i] == w.lines[i]);
            assert(places[i + 1] == before[i + 1]);
        }
        assert(is_wrapping(ws, lines, places, max_px, width));
    } else {
        assert(is_wrapping(ws, lines, before, max_px, width));
    }
}

proof fn lemma_all_on_one_line(
    ws: Seq<Seq<char>>,
    m: int,
    max_px: u32,
    width: spec_fn(Seq<char>) -> u32,
)
    requires
        0 <= m <= ws.len(),
        forall|i: int| 0 <= i < ws.len() ==> (#[trigger] ws[i]).len() > 0,
        forall|k: int| 1 <= k <= ws.len() ==> width(spaced(#[trigger] ws.take(k))) <= max_px,
    ensures
        add_words(ws.take(m), max_px, width) == (Wrapping {
            lines: seq![],
            current: spaced(ws.take(m)),
        }),
        m > 0 ==> spaced(ws.take(m)).len() > 0,
    decreases m,
{
    if m > 0 {
        lemma_all_on_one_line(ws, m - 1, max_px, width);
        assert(ws.take(m).drop_last() =~= ws.take(m - 1));
        assert(ws.take(m).last() == ws[m - 1]);
        assert(width(spaced(ws.take(m))) <= max_px);
        if m == 1 {
            assert(ws.take(1)[0] == ws[0]);
        }
    }
}

/// A text that fits the width, up to each of its words and as a whole, is one line: its words with
/// single spaces between them. A text without words has no lines.
pub proof fn law_text_that_fits_is_one_line(
    s: Seq<char>,
    max_px: u32,
    width: spec_fn(Seq<char>) -> u32,
)
    requires
        forall|k: int|
            1 <= k <= text::words(s).len() ==> width(spaced(#[trigger] text::words(s).take(k)))
                <= max_px,
    ensures
        wrapped(s, max_px, width) == if text::words(s).len() == 0 {
            seq![]
        } else {
            seq![spaced(text::words(s))]
        },
{
    let ws = text::words(s);
    lemma_words(s);
    lemma_all_on_one_line(ws, ws.len() as int, max_px, width);
    assert(ws.take(ws.len() as int) =~= ws);
    assert(wrapped(s, max_px, width) =~= if ws.len() == 0 {
        seq![]
    } else {
        seq![spaced(ws)]
    });
}

/// One line of a label: its text and the baseline point where it starts.
#[derive(Debug)]
pub struct LabelLine {
    pub text: String,
    pub x: i16,
    pub y: i16,
}

/// Horizontal inset of a label: a base of ten pixels and the tile's padding.
pub open spec fn label_inset(pad: int) -> int {
    if 10 + pad < u32::MAX {
        10 + pad
    } else {
        u32::MAX as int
    }
}

/// The width that a label may take.
pub open spec fn label_width(tile_w: int, pad: int) -> int {
    layout::minus(tile_w, 2 * label_inset(pad))
}

/// The top of the label area.
pub open spec fn label_top(tile: TileGeom, pad: int) -> int {
    tile.y + layout::minus(tile.h as int, LABEL_H + pad)
}

/// Left end of a text of width `text_w`, centred in the label area.
pub open spec fn text_x(tile: TileGeom, pad: int, text_w: int) -> int {
    wire::w16(
        tile.x + label_inset(pad) + layout::minus(label_width(tile.w as int, pad), text_w) / 2,
    )
}

/// Baseline of line `i` of a label.
pub open spec fn line_y(tile: TileGeom, pad: int, ascent: int, line_h: int, i: int) -> int {
    wire::w16(label_top(tile, pad) + ascent + i * line_h)
}

/// The height of a line, at least one pixel.
pub open spec fn line_height(height: int) -> int {
    if height < 1 {
        1
    } else {
        height
    }
}

/// The ascent of a line, at least zero.
pub open spec fn line_ascent(ascent: int) -> int {
    if ascent < 0 {
        0
    } else {
        ascent
    }
}

/// How many lines fit the label area; one is always drawn.
pub open spec fn max_lines(line_h: int) -> int {
    if LABEL_H as int / line_h < 1 {
        1
    } else {
        LABEL_H as int / line_h
    }
}

/// The inset and the width of the label area.
pub fn label_span(tile_w: u32, pad: u32) -> (r: (u32, u32))
    ensures
        r.0 == label_inset(pad as int),
        r.1 == label_width(tile_w as int, pad as int),
{
    let inset: u32 = 10u32.saturating_add(pad);
    let w: u64 = (tile_w as u64).saturating_sub(2 * inset as u64);
    (inset, w as u32)
}

/// Left end of a text of width `text_w`, centred in the label area.
pub fn text_left(tile: &TileGeom, pad: u32, text_w: u32) -> (r: i16)
    ensures
        r == text_x(*tile, pad as int, text_w as int),
{
    let (inset, inner): (u32, u32) = label_span(tile.w, pad);
    let off: i64 = if inner < text_w { 0 } else { (inner - text_w) as i64 / 2 };
    wire::coord(tile.x as i64 + inset as i64 + off)
}

/// The line of a label.
pub open spec fn is_line(
    l: LabelLine,
    lines: Seq<Seq<char>>,
    width: spec_fn(Seq<char>) -> u32,
    tile: TileGeom,
    pad: int,
    height: int,
    ascent: int,
    i: int,
) -> bool {
    &&& l.text@ == lines[i]
    &&& l.x == text_x(tile, pad, width(lines[i]) as int)
    &&& l.y == line_y(tile, pad, line_ascent(ascent), line_height(height), i)
}

/// The lines of a tile's label: the title wrapped to the label area, as many lines as fit there,
/// each centred. `height` and `ascent` are the font's.
pub fn label_lines<F: Fn(&str) -> u32>(
    measure: &F,
    title: &str,
    tile: &TileGeom,
    pad: u32,
    height: i32,
    ascent: i32,
) -> (r: Vec<LabelLine>)
    requires
        is_measure(*measure),
    ensures
        ({
            let width = widths(*measure);
            let lines = wrapped(title@, label_width(tile.w as int, pad as int) as u32, width);
            let most = max_lines(line_height(height as int));
            &&& r.len() == if lines.len() < most {
                lines.len() as int
            } else {
                most
            }
            &&& forall|i: int|
                0 <= i < r.len() ==> is_line(
                    #[trigger] r[i],
                    lines,
                    width,
                    *tile,
                    pad as int,
                    height as int,
                    ascent as int,
                    i,
                )
        }),
{
    let (_, inner): (u32, u32) = label_span(tile.w, pad);
    let lines: Vec<String> = wrap_text(measure, title, inner);
    let line_h: u32 = if height < 1 { 1 } else { height as u32 };
    let up: i64 = if ascent < 0 { 0 } else { ascent as i64 };
    let most: usize = if LABEL_H / line_h < 1 { 1 } else { (LABEL_H / line_h) as usize };
    assert(LABEL_H / line_h <= 48) by (nonlinear_arith)
        requires
            LABEL_H == 48,
            line_h >= 1,
    ;
    let n: usize = if lines.len() < most { lines.len() } else { most };
    let drop: u64 = (tile.h as u64).saturating_sub(LABEL_H as u64 + pad as u64);
    let top: i64 = tile.y as i64 + drop as i64;
    let mut r: Vec<LabelLine> = Vec::new();
    let mut i: usize = 0;
    let ghost all = text::texts(lines@);
    let ghost width = widths(*measure);
    while i < n
        invariant
            is_measure(*measure),
            n <= lines.len(),
            n <= 48,
            i <= n,
            r.len() == i,
            all == text::texts(lines@),
            width == widths(*measure),
            line_h == line_height(height as int),
            up == line_ascent(ascent as int),
            top == label_top(*tile, pad as int),
            forall|j: int|
                0 <= j < i ==> is_line(
                    #[trigger] r[j],
                    all,
                    width,
                    *tile,
                    pad as int,
                    height as int,
                    ascent as int,
                    j,
                ),
        decreases n - i,
    {
        let line: &str = lines[i].as_str();
        assert(line@ == all[i as int]);
        let w: u32 = measured(measure, line);
        let x: i16 = text_left(tile, pad, w);
        assert(0 <= i * line_h <= 48 * 0x1_0000_0000) by (nonlinear_arith)
            requires
                0 <= i <= 48,
                0 <= line_h <= 0x1_0000_0000,
        ;
        let y: i16 = wire::coord(top + up + i as i64 * line_h as i64);
        r.push(LabelLine { text: line.to_owned(), x, y });
        i = i + 1;
    }
    r
}

/// The place of a shadow.
pub open spec fn shadow_place(x: i16, y: i16, offset: u32) -> (int, int) {
    (wire::w16(x + offset), wire::w16(y + offset))
}

/// Where the shadow of a text goes: `offset` pixels right and down.
pub fn shadow_at(x: i16, y: i16, offset: u32) -> (r: (i16, i16))
    ensures
        r.0 == wire::w16(x + offset),
        r.1 == wire::w16(y + offset),
        (r.0 as int, r.1 as int) == shadow_place(x, y, offset),
{
    (wire::coord(x as i64 + offset as i64), wire::coord(y as i64 + offset as i64))
}

/// The start of a label in a bitmap font.
pub open spec fn bitmap_place(tile: TileGeom, pad: int, text_w: int) -> (int, int) {
    (text_x(tile, pad, text_w), wire::w16(tile.y + tile.h - 4 - pad))
}

/// Where the single line of a label in a bitmap font starts.
pub fn bitmap_label_at(tile: &TileGeom, pad: u32, text_w: u32) -> (r: (i16, i16))
    ensures
        r.0 == text_x(*tile, pad as int, text_w as int),
        r.1 == wire::w16(tile.y + tile.h - 4 - pad),
        (r.0 as int, r.1 as int) == bitmap_place(*tile, pad as int, text_w as int),
{
    (text_left(tile, pad, text_w), wire::coord(tile.y as i64 + tile.h as i64 - 4 - pad as i64))
}

/// The text item that draws `title` in a bitmap font: the number of its bytes, no shift, and the
/// bytes. A single byte holds the number, so that it is reduced modulo 256; 100 characters can take
/// more bytes than that.
pub fn text_items(title: &str) -> (r: Vec<u8>)
    ensures
        r@ == seq![(encode_utf8(title@).len() % 256) as u8, 0u8] + encode_utf8(title@),
{
    let bytes: &[u8] = title.as_bytes();
    let mut r: Vec<u8> = Vec::new();
    r.push((bytes.len() % 256) as u8);
    r.push(0);
    r.extend_from_slice(bytes);
    assert(r@ =~= seq![(encode_utf8(title@).len() % 256) as u8, 0u8] + encode_utf8(title@));
    r
}

/// The bitmap font closest to a point size.
pub open spec fn core_font_name(size: u32) -> Seq<char> {
    if size <= 9 {
        "6x13"@
    } else if size <= 11 {
        "7x14"@
    } else if size <= 13 {
        "9x15"@
    } else {
        "10x20"@
    }
}

/// The bitmap fonts to try for a point size, the closest first; "fixed" is always there.
pub fn core_fonts(size: u32) -> (r: (&'static str, &'static str))
    ensures
        r.0@ == core_font_name(size),
        r.1@ == "fixed"@,
{
    let preferred: &'static str = if size <= 9 {
        "6x13"
    } else if size <= 11 {
        "7x14"
    } else if size <= 13 {
        "9x15"
    } else {
        "10x20"
    };
    (preferred, "fixed")
}

/// The Fontconfig pattern of a font name and a point size.
pub fn font_pattern(name: &str, size: u32) -> (r: String)
    ensures
        r@ == name@ + ":size="@ + text::decimal_of(size as nat),
{
    let mut r: String = text::concat(name, ":size=");
    r.append(text::decimal(size).as_str());
    r
}

/// The colour of a shadow.
pub open spec fn shadow_of(shadow_color: Seq<char>, fg_argb: u32) -> int {
    if shadow_color == "auto"@ {
        luminance::contrasting_shadow(fg_argb) as int
    } else {
        config::color_of(shadow_color)
    }
}

/// Resolves the shadow colour of the configuration: "auto" contrasts with the foreground, anything
/// else is a colour.
pub fn resolve_shadow_color(shadow_color: &str, fg_argb: u32) -> (r: u32)
    ensures
        r == if shadow_color@ == "auto"@ {
            luminance::contrasting_shadow(fg_argb) as int
        } else {
            config::color_of(shadow_color@)
        },
        r == shadow_of(shadow_color@, fg_argb),
{
    if text::same_text(shadow_color, "auto") {
        luminance::wcag_shadow_argb(fg_argb)
    } else {
        Config::color_argb(shadow_color)
    }
}

/// A title that is short enough stays whole. A longer one keeps its beginning, ends in three dots
/// and takes all the characters that it may.
pub proof fn law_titles_keep_their_beginning(s: Seq<char>, max_chars: int)
    requires
        max_chars >= 3,
    ensures
        ({
            let (t, r) = (text::trimmed(s), short_title(s, max_chars));
            &&& t.len() <= max_chars ==> r == t
            &&& t.len() > max_chars ==> {
                &&& r.len() == max_chars
                &&& r[max_chars - 1] == '.' && r[max_chars - 2] == '.' && r[max_chars - 3] == '.'
                &&& forall|i: int| 0 <= i < max_chars - 3 ==> #[trigger] r[i] == t[i]
            }
        }),
{
}

/// A line of a label that fits is centred in the tile, up to one pixel, and keeps the padding and ten
/// pixels more from either side.
pub proof fn law_labels_are_centred(tile: TileGeom, pad: int, text_w: int)
    requires
        0 <= pad < 0x1_0000,
        0 <= text_w,
        text_w + 2 * (10 + pad) <= tile.w,
        tile.x + tile.w < 0x8000,
    ensures
        ({
            let left = text_x(tile, pad, text_w) - tile.x;
            let right = tile.w - left - text_w;
            left >= 10 + pad && 0 <= right - left <= 1
        }),
{
    let x = tile.x + label_inset(pad) + layout::minus(label_width(tile.w as int, pad), text_w) / 2;
    wire::law_coordinates_in_range_are_exact(x);
}

/// The lines of a label lie in the lowest 48 pixels of the tile above the padding: the first one
/// has its ascent below the upper edge, the others follow at the height of a line, and there are as
/// many as have room, but at least one.
pub proof fn law_label_lines_have_room(
    tile: TileGeom,
    pad: int,
    ascent: int,
    line_h: int,
    i: int,
    k: int,
)
    requires
        0 <= pad,
        48 + pad <= tile.h,
        0 <= tile.y,
        0 <= ascent <= line_h,
        1 <= line_h < 0x1_0000,
        0 <= i < max_lines(line_h),
        tile.y + tile.h + line_h < 0x8000,
    ensures
        ({
            let edge = tile.y + tile.h - pad - 48;
            &&& line_y(tile, pad, ascent, line_h, 0) == edge + ascent
            &&& i > 0 ==> line_y(tile, pad, ascent, line_h, i) == line_y(
                tile,
                pad,
                ascent,
                line_h,
                i - 1,
            ) + line_h
            &&& i > 0 ==> line_y(tile, pad, ascent, line_h, i) - ascent + line_h <= edge + 48
            &&& 1 <= k && k * line_h <= 48 ==> k <= max_lines(line_h)
            &&& max_lines(line_h) >= 1
            &&& max_lines(line_h) == 1 || max_lines(line_h) * line_h <= 48
        }),
{
    let top = label_top(tile, pad);
    let q = LABEL_H as int / line_h;
    vstd::arithmetic::div_mod::lemma_fundamental_div_mod(LABEL_H as int, line_h);
    let r = LABEL_H as int % line_h;
    assert(line_h * q == q * line_h) by (nonlinear_arith);
    assert(0 * line_h == 0) by (nonlinear_arith);
    if i > 0 {
        assert((i - 1) * line_h == i * line_h - line_h) by (nonlinear_arith);
        assert(line_h <= i * line_h && (i + 1) * line_h <= q * line_h && i * line_h + line_h == (i
            + 1) * line_h) by (nonlinear_arith)
            requires
                1 <= i < q,
                line_h >= 1,
        ;
        wire::law_coordinates_in_range_are_exact(top + ascent + i * line_h);
        wire::law_coordinates_in_range_are_exact(top + ascent + (i - 1) * line_h);
    }
    wire::law_coordinates_in_range_are_exact(top + ascent + 0 * line_h);
    if 1 <= k && k * line_h <= 48 {
        assert(k <= q) by (nonlinear_arith)
            requires
                k * line_h <= q * line_h + r,
                r < line_h,
                line_h >= 1,
        ;
    }
}

/// A line of a label that fits is drawn with its own text, centred in the tile up to one pixel, with
/// its baseline so many lines below the first as there are lines before it.
pub proof fn law_label_lines_are_drawn_in_place(
    l: LabelLine,
    lines: Seq<Seq<char>>,
    width: spec_fn(Seq<char>) -> u32,
    tile: TileGeom,
    pad: int,
    height: int,
    ascent: int,
    i: int,
)
    requires
        is_line(l, lines, width, tile, pad, height, ascent, i),
        0 <= pad < 0x1_0000,
        0 <= i,
        48 + pad <= tile.h,
        0 <= tile.y,
        width(lines[i]) + 2 * (10 + pad) <= tile.w,
        tile.x + tile.w < 0x8000,
        ({
            let line_h = if height < 1 { 1 } else { height };
            let up = if ascent < 0 { 0 } else { ascent };
            tile.y + tile.h + up + i * line_h < 0x8000
        }),
    ensures
        ({
            let line_h = if height < 1 { 1 } else { height };
            let up = if ascent < 0 { 0 } else { ascent };
            let left = l.x - tile.x;
            let right = tile.w - left - width(lines[i]);
            &&& l.text@ == lines[i]
            &&& left >= 10 + pad && 0 <= right - left <= 1
            &&& l.y == tile.y + tile.h - pad - 48 + up + i * line_h
            &&& label_width(tile.w as int, pad) == tile.w - 2 * (10 + pad)
        }),
{
    let line_h = if height < 1 { 1 } else { height };
    let up = if ascent < 0 { 0 } else { ascent };
    law_labels_are_centred(tile, pad, width(lines[i]) as int);
    assert(i * line_h >= 0) by (nonlinear_arith)
        requires
            i >= 0,
            line_h >= 1,
    ;
    wire::law_coordinates_in_range_are_exact(label_top(tile, pad) + up + i * line_h);
}

/// The height of a bitmap font, which its name ends in.
pub open spec fn font_height(name: Seq<char>) -> int {
    if name == "6x13"@ {
        13
    } else if name == "7x14"@ {
        14
    } else if name == "9x15"@ {
        15
    } else if name == "10x20"@ {
        20
    } else {
        0
    }
}

/// Bitmap fonts grow with the size that is asked for: 13 pixels up to size 9, 14 up to 11, 15 up to
/// 13, and 20 above.
pub proof fn law_bitmap_fonts_grow(a: u32, b: u32)
    requires
        a <= b,
    ensures
        0 < font_height(core_font_name(a)) <= font_height(core_font_name(b)),
        font_height(core_font_name(a)) == 13 <==> a <= 9,
        font_height(core_font_name(a)) <= 14 <==> a <= 11,
        font_height(core_font_name(a)) <= 15 <==> a <= 13,
{
    reveal_strlit("6x13");
    reveal_strlit("7x14");
    reveal_strlit("9x15");
    reveal_strlit("10x20");
    assert("6x13"@[0] == '6' && "7x14"@[0] == '7' && "9x15"@[0] == '9' && "10x20"@[0] == '1');
}

/// A text that is too wide for its label starts at the label's left end.
pub proof fn law_wide_texts_start_at_the_left(tile: TileGeom, pad: int, text_w: int)
    requires
        0 <= pad < 0x1_0000,
        0 <= text_w,
        tile.x + 10 + pad < 0x8000,
        text_w + 2 * (10 + pad) >= tile.w,
    ensures
        text_x(tile, pad, text_w) == tile.x + 10 + pad,
{
    wire::law_coordinates_in_range_are_exact(tile.x + 10 + pad);
}

/// A shadow lies as many pixels to the right of its text as below it, and a label in a bitmap font
/// has its baseline four pixels and the padding above the tile's lower edge.
pub proof fn law_shadows_and_bitmap_labels(
    tile: TileGeom,
    pad: int,
    text_w: int,
    x: i16,
    y: i16,
    offset: u32,
)
    requires
        0 <= pad < 0x1_0000,
        0 <= text_w,
        text_w + 2 * (10 + pad) <= tile.w,
        4 + pad <= tile.h,
        0 <= tile.y,
        tile.x + tile.w < 0x8000,
        tile.y + tile.h < 0x8000,
        x + offset < 0x8000,
        y + offset < 0x8000,
    ensures
        shadow_place(x, y, offset) == (x + offset, y + offset),
        ({
            let (left, base) = bitmap_place(tile, pad, text_w);
            let right = tile.x + tile.w - (left + text_w);
            &&& 0 <= right - (left - tile.x) <= 1
            &&& base + 4 + pad == tile.y + tile.h
        }),
{
    law_labels_are_centred(tile, pad, text_w);
    wire::law_coordinates_in_range_are_exact(x + offset);
    wire::law_coordinates_in_range_are_exact(y + offset);
    wire::law_coordinates_in_range_are_exact(tile.y + tile.h - 4 - pad);
}

/// An automatic shadow is black or white, at four fifths of full alpha, and any other shadow has the
/// colour that is given, whatever the text's colour.
pub proof fn law_shadows_have_their_color(given: Seq<char>, fg: u32, other: u32)
    ensures
        given == "auto"@ ==> shadow_of(given, fg) == 0xcc00_0000 || shadow_of(given, fg)
            == 0xccff_ffff,
        given != "auto"@ ==> shadow_of(given, fg) == config::color_of(given) && shadow_of(given, fg)
            == shadow_of(given, other),
{
}

} // verus!
