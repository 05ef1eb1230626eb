//! Text primitives that the rest of the crate builds on.
//!
//! A string is modelled by its characters (`Seq<char>`). Everything here is total: no input makes
//! a function panic.
use vstd::prelude::*;
use vstd::string::*;
use vstd::utf8::*;

verus! {

/// The Unicode `White_Space` property.
pub open spec fn is_white(c: char) -> bool {
    ||| 0x09 <= c as u32 <= 0x0d
    ||| c as u32 == 0x20
    ||| c as u32 == 0x85
    ||| c as u32 == 0xa0
    ||| c as u32 == 0x1680
    ||| 0x2000 <= c as u32 <= 0x200a
    ||| c as u32 == 0x2028
    ||| c as u32 == 0x2029
    ||| c as u32 == 0x202f
    ||| c as u32 == 0x205f
    ||| c as u32 == 0x3000
}

/// `s` without its leading white space.
pub open spec fn trim_start(s: Seq<char>) -> Seq<char>
    decreases s.len(),
{
    if s.len() > 0 && is_white(s[0]) {
        trim_start(s.drop_first())
    } else {
        s
    }
}

/// `s` without its trailing white space.
pub open spec fn trim_end(s: Seq<char>) -> Seq<char>
    decreases s.len(),
{
    if s.len() > 0 && is_white(s.last()) {
        trim_end(s.drop_last())
    } else {
        s
    }
}

/// `s` without its leading and its trailing white space.
pub open spec fn trimmed(s: Seq<char>) -> Seq<char> {
    trim_end(trim_start(s))
}

/// The position of the first `c` in `s`, or `s.len()` where there is none.
pub open spec fn first_index(s: Seq<char>, c: char) -> nat
    decreases s.len(),
{
    if s.len() == 0 || s[0] == c {
        0
    } else {
        1 + first_index(s.drop_first(), c)
    }
}

/// The parts of `s` before and after the first `c`.
pub open spec fn split_at_first(s: Seq<char>, c: char) -> Option<(Seq<char>, Seq<char>)> {
    let i = first_index(s, c) as int;
    if i < s.len() {
        Some((s.take(i), s.skip(i + 1)))
    } else {
        None
    }
}

pub open spec fn is_digit(c: char) -> bool {
    '0' <= c <= '9'
}

/// The number that a run of decimal digits stands for.
pub open spec fn digits_value(s: Seq<char>) -> int
    decreases s.len(),
{
    if s.len() == 0 {
        0
    } else {
        digits_value(s.drop_last()) * 10 + (s.last() as int - '0' as int)
    }
}

/// `s` is one or more decimal digits.
pub open spec fn all_digits(s: Seq<char>) -> bool {
    s.len() > 0 && forall|i: int| 0 <= i < s.len() ==> is_digit(#[trigger] s[i])
}

/// The integer that `s` spells: an optional sign, then one or more decimal digits.
pub open spec fn spelled_int(s: Seq<char>) -> Option<int> {
    if s.len() > 0 && (s[0] == '+' || s[0] == '-') {
        if all_digits(s.drop_first()) {
            Some(if s[0] == '-' { -digits_value(s.drop_first()) } else { digits_value(s.drop_first()) })
        } else {
            None
        }
    } else if all_digits(s) {
        Some(digits_value(s))
    } else {
        None
    }
}

/// The `i16` that `s` spells, if it spells one.
pub open spec fn spelled_i16(s: Seq<char>) -> Option<i16> {
    match spelled_int(s) {
        Some(n) => if i16::MIN <= n <= i16::MAX { Some(n as i16) } else { None },
        None => None,
    }
}

/// The parts in order, with `sep` between neighbours.
pub open spec fn joined(parts: Seq<Seq<char>>, sep: Seq<char>) -> Seq<char>
    decreases parts.len(),
{
    if parts.len() == 0 {
        Seq::empty()
    } else if parts.len() == 1 {
        parts[0]
    } else {
        joined(parts.drop_last(), sep) + sep + parts.last()
    }
}

/// The characters of each string of a list.
pub open spec fn texts(v: Seq<String>) -> Seq<Seq<char>> {
    v.map_values(|s: String| s@)
}

/// The decimal digits of `n`, without leading zeros.
pub open spec fn decimal_of(n: nat) -> Seq<char>
    decreases n,
{
    if n < 10 {
        seq![digit_char(n)]
    } else {
        decimal_of(n / 10).push(digit_char(n % 10))
    }
}

/// The digit that stands for `d`.
pub open spec fn digit_char(d: nat) -> char {
    (d + '0' as nat) as char
}

/// Whether `c` is white space.
pub fn is_whitespace(c: char) -> (r: bool)
    ensures
        r == is_white(c),
{
    let u: u32 = c as u32;
    (0x09 <= u && u <= 0x0d) || u == 0x20 || u == 0x85 || u == 0xa0 || u == 0x1680 || (0x2000 <= u
        && u <= 0x200a) || u == 0x2028 || u == 0x2029 || u == 0x202f || u == 0x205f || u == 0x3000
}

/// The characters of `s`.
pub fn chars_of(s: &str) -> (r: Vec<char>)
    ensures
        r@ == s@,
{
    let mut r: Vec<char> = Vec::new();
    for c in it: s.chars()
        invariant
            r@ == it.seq().take(it.index()),
            it.seq() == s@,
    {
        r.push(c);
    }
    r
}

/// Two strings hold the same characters exactly when their encodings hold the same bytes.
proof fn lemma_same_bytes(a: Seq<char>, b: Seq<char>)
    ensures
        (encode_utf8(a) == encode_utf8(b)) == (a == b),
{
    encode_utf8_decode_utf8(a);
    encode_utf8_decode_utf8(b);
}

/// Whether two strings are the same.
pub fn same_text(a: &str, b: &str) -> (r: bool)
    ensures
        r == (a@ == b@),
{
    proof {
        lemma_same_bytes(a@, b@);
    }
    let x: &[u8] = a.as_bytes();
    let y: &[u8] = b.as_bytes();
    if x.len() != y.len() {
        return false;
    }
    let n: usize = x.len();
    for i in 0..n
        invariant
            n == x@.len(),
            n == y@.len(),
            x@.take(i as int) == y@.take(i as int),
            x@ == a.spec_bytes(),
            y@ == b.spec_bytes(),
            (encode_utf8(a@) == encode_utf8(b@)) == (a@ == b@),
    {
        if x[i] != y[i] {
            return false;
        }
        assert(x@.take(i + 1) == x@.take(i as int).push(x@[i as int]));
        assert(y@.take(i + 1) == y@.take(i as int).push(y@[i as int]));
    }
    assert(x@.take(n as int) == x@);
    assert(y@.take(n as int) == y@);
    true
}

/// Dropping the white space at both ends keeps a range of the characters.
proof fn lemma_trim_start(s: Seq<char>, i: int)
    requires
        0 <= i <= s.len(),
        forall|k: int| 0 <= k < i ==> is_white(#[trigger] s[k]),
        i < s.len() ==> !is_white(s[i]),
    ensures
        trim_start(s) == s.skip(i),
    decreases i,
{
    if i == 0 {
        assert(s.skip(0) == s);
    } else {
        lemma_trim_start(s.drop_first(), i - 1);
        assert(s.drop_first().skip(i - 1) == s.skip(i));
    }
}

proof fn lemma_trim_end(s: Seq<char>, j: int)
    requires
        0 <= j <= s.len(),
        forall|k: int| j <= k < s.len() ==> is_white(#[trigger] s[k]),
        j > 0 ==> !is_white(s[j - 1]),
    ensures
        trim_end(s) == s.take(j),
    decreases s.len(),
{
    if j == s.len() {
        assert(s.take(j) == s);
    } else {
        lemma_trim_end(s.drop_last(), j);
        assert(s.drop_last().take(j) == s.take(j));
    }
}

/// `s` without the white space at its ends.
pub fn trim<'a>(s: &'a str) -> (r: &'a str)
    ensures
        r@ == trimmed(s@),
{
    let cs: Vec<char> = chars_of(s);
    let n: usize = cs.len();
    let mut i: usize = 0;
    while i < n && is_whitespace(cs[i])
        invariant
            0 <= i <= n,
            n == cs.len(),
            forall|k: int| 0 <= k < i ==> is_white(#[trigger] cs@[k]),
        decreases n - i,
    {
        i += 1;
    }
    let mut j: usize = n;
    while j > i && is_whitespace(cs[j - 1])
        invariant
            i <= j <= n,
            n == cs.len(),
            forall|k: int| j <= k < n ==> is_white(#[trigger] cs@[k]),
        decreases j,
    {
        j -= 1;
    }
    proof {
        lemma_trim_start(s@, i as int);
        let t = s@.skip(i as int);
        lemma_trim_end(t, j - i);
        assert(t.take(j - i) == s@.subrange(i as int, j as int));
    }
    s.substring_char(i, j)
}

proof fn lemma_first_index(s: Seq<char>, c: char, i: int)
    requires
        0 <= i <= s.len(),
        forall|k: int| 0 <= k < i ==> #[trigger] s[k] != c,
        i < s.len() ==> s[i] == c,
    ensures
        first_index(s, c) == i,
    decreases i,
{
    if i > 0 {
        lemma_first_index(s.drop_first(), c, i - 1);
    }
}

/// The parts of `s` before and after the first `c`; `None` where `c` does not occur.
pub fn split_once<'a>(s: &'a str, c: char) -> (r: Option<(&'a str, &'a str)>)
    ensures
        match r {
            Some(p) => split_at_first(s@, c) == Some((p.0@, p.1@)),
            None => split_at_first(s@, c) is None,
        },
{
    let cs: Vec<char> = chars_of(s);
    let n: usize = cs.len();
    let mut i: usize = 0;
    while i < n && cs[i] != c
        invariant
            0 <= i <= n,
            n == cs.len(),
            forall|k: int| 0 <= k < i ==> #[trigger] cs@[k] != c,
        decreases n - i,
    {
        i += 1;
    }
    proof {
        lemma_first_index(s@, c, i as int);
    }
    if i < n {
        assert(s@.subrange(0, i as int) == s@.take(i as int));
        assert(s@.subrange(i + 1, n as int) == s@.skip(i + 1));
        Some((s.substring_char(0, i), s.substring_char(i + 1, n)))
    } else {
        None
    }
}

/// Further digits never make a number smaller.
proof fn lemma_digits_grow(s: Seq<char>, i: int)
    requires
        0 <= i <= s.len(),
        forall|k: int| 0 <= k < s.len() ==> is_digit(#[trigger] s[k]),
    ensures
        0 <= digits_value(s.take(i)) <= digits_value(s),
    decreases s.len(),
{
    if s.len() == 0 {
        assert(s.take(i) == s);
    } else if i == s.len() {
        assert(s.take(i) == s);
        lemma_digits_grow(s.drop_last(), s.len() - 1);
    } else {
        lemma_digits_grow(s.drop_last(), i);
        assert(s.drop_last().take(i) == s.take(i));
    }
}

/// The `i16` that `s` spells: an optional sign and decimal digits, within range.
pub fn parse_i16(s: &str) -> (r: Option<i16>)
    ensures
        r == spelled_i16(s@),
{
    let cs: Vec<char> = chars_of(s);
    let n: usize = cs.len();
    let signed: bool = n > 0 && (cs[0] == '+' || cs[0] == '-');
    let negative: bool = n > 0 && cs[0] == '-';
    let start: usize = if signed { 1 } else { 0 };
    let ghost ds = s@.skip(start as int);
    proof {
        assert(signed ==> ds == s@.drop_first());
        assert(!signed ==> ds == s@);
    }
    if start == n {
        return None;
    }
    let mut i: usize = start;
    let mut v: i32 = 0;
    while i < n
        invariant
            start <= i <= n,
            n == cs.len(),
            cs@ == s@,
            ds == s@.skip(start as int),
            forall|k: int| 0 <= k < i - start ==> is_digit(#[trigger] ds[k]),
            0 <= v <= 40000,
            v < 40000 ==> v == digits_value(ds.take(i - start)),
            v == 40000 ==> digits_value(ds.take(i - start)) >= 40000,
            signed ==> ds == s@.drop_first(),
            !signed ==> ds == s@,
            signed == (s@.len() > 0 && (s@[0] == '+' || s@[0] == '-')),
        decreases n - i,
    {
        let c: char = cs[i];
        assert(c == ds[i - start]);
        if c < '0' || c > '9' {
            assert(!is_digit(ds[i - start]));
            return None;
        }
        let d: i32 = (c as u32 - '0' as u32) as i32;
        assert(ds.take(i - start + 1).drop_last() == ds.take(i - start));
        assert(digits_value(ds.take(i - start + 1)) == digits_value(ds.take(i - start)) * 10 + d);
        v = if v * 10 + d < 40000 { v * 10 + d } else { 40000 };
        i += 1;
    }
    assert(ds.take(n - start) == ds);
    assert(all_digits(ds));
    let value: i32 = if negative { -v } else { v };
    if -32768 <= value && value <= 32767 {
        Some(value as i16)
    } else {
        None
    }
}

/// `a` followed by `b`.
pub fn concat(a: &str, b: &str) -> (r: String)
    ensures
        r@ == a@ + b@,
{
    let mut r: String = a.to_owned();
    r.append(b);
    r
}

/// The strings in order, with `sep` between neighbours.
pub fn join(parts: &Vec<String>, sep: &str) -> (r: String)
    ensures
        r@ == joined(texts(parts@), sep@),
{
    let mut r: String = String::new();
    let n: usize = parts.len();
    let ghost ts = texts(parts@);
    for i in 0..n
        invariant
            n == parts.len(),
            ts == texts(parts@),
            r@ == joined(ts.take(i as int), sep@),
    {
        if i > 0 {
            r.append(sep);
        }
        r.append(parts[i].as_str());
        assert(ts.take(i + 1).drop_last() == ts.take(i as int));
        assert(ts[i as int] == parts@[i as int]@);
        if i == 0 {
            assert(joined(ts.take(1), sep@) == ts[0]);
        }
    }
    assert(ts.take(n as int) == ts);
    r
}

/// The digit character for `d`.
fn digit_text(d: u32) -> (r: &'static str)
    requires
        d < 10,
    ensures
        r@ == seq![digit_char(d as nat)],
{
    proof {
        reveal_strlit("0");
        reveal_strlit("1");
        reveal_strlit("2");
        reveal_strlit("3");
        reveal_strlit("4");
        reveal_strlit("5");
        reveal_strlit("6");
        reveal_strlit("7");
        reveal_strlit("8");
        reveal_strlit("9");
    }
    if d == 0 {
        "0"
    } else if d == 1 {
        "1"
    } else if d == 2 {
        "2"
    } else if d == 3 {
        "3"
    } else if d == 4 {
        "4"
    } else if d == 5 {
        "5"
    } else if d == 6 {
        "6"
    } else if d == 7 {
        "7"
    } else if d == 8 {
        "8"
    } else {
        "9"
    }
}

/// `n` in decimal.
pub fn decimal(n: u32) -> (r: String)
    ensures
        r@ == decimal_of(n as nat),
    decreases n,
{
    if n < 10 {
        digit_text(n).to_owned()
    } else {
        let mut r: String = decimal(n / 10);
        r.append(digit_text(n % 10));
        r
    }
}

/// A text without the separator does not split.
pub proof fn lemma_split_without(s: Seq<char>, c: char)
    requires
        !s.contains(c),
    ensures
        split_at_first(s, c) is None,
        first_index(s, c) == s.len(),
    decreases s.len(),
{
    if s.len() > 0 {
        assert(s[0] != c);
        let t = s.drop_first();
        assert forall|i: int| 0 <= i < t.len() implies t[i] != c by {
            assert(t[i] == s[i + 1]);
        }
        lemma_split_without(t, c);
    }
}

/// What follows a separator is shorter than the whole.
pub proof fn lemma_split_is_shorter(s: Seq<char>, c: char)
    ensures
        split_at_first(s, c) matches Some(p) ==> p.1.len() < s.len(),
{
}

/// The number of characters before the first white space in `s`.
pub open spec fn first_white(s: Seq<char>) -> nat
    decreases s.len(),
{
    if s.len() == 0 || is_white(s[0]) {
        0
    } else {
        1 + first_white(s.drop_first())
    }
}

/// The words of `s`: its longest runs of characters that are not white space.
pub open spec fn words(s: Seq<char>) -> Seq<Seq<char>>
    decreases s.len(),
{
    if s.len() == 0 {
        seq![]
    } else if is_white(s[0]) {
        words(s.drop_first())
    } else {
        let k = 1 + first_white(s.drop_first()) as int;
        if k <= s.len() {
            seq![s.take(k)] + words(s.skip(k))
        } else {
            seq![]
        }
    }
}

/// What a sequence of string slices holds.
pub open spec fn slices(v: Seq<&str>) -> Seq<Seq<char>> {
    Seq::new(v.len(), |i: int| v[i]@)
}

proof fn lemma_first_white(s: Seq<char>, i: int)
    requires
        0 <= i <= s.len(),
        forall|k: int| 0 <= k < i ==> !is_white(#[trigger] s[k]),
        i < s.len() ==> is_white(s[i]),
    ensures
        first_white(s) == i,
    decreases i,
{
    if i > 0 {
        lemma_first_white(s.drop_first(), i - 1);
    }
}

pub proof fn lemma_first_white_bound(s: Seq<char>)
    ensures
        first_white(s) <= s.len(),
    decreases s.len(),
{
    if s.len() > 0 && !is_white(s[0]) {
        lemma_first_white_bound(s.drop_first());
    }
}

/// The words of `s`, in order.
pub fn split_words<'a>(s: &'a str) -> (r: Vec<&'a str>)
    ensures
        slices(r@) == words(s@),
{
    let cs: Vec<char> = chars_of(s);
    let n: usize = cs.len();
    let mut r: Vec<&'a str> = Vec::new();
    let mut i: usize = 0;
    assert(s@.skip(0) == s@);
    assert(slices(r@) + words(s@.skip(0)) == words(s@));
    while i < n
        invariant
            i <= n,
            n == cs.len(),
            cs@ == s@,
            slices(r@) + words(s@.skip(i as int)) == words(s@),
        decreases n - i,
    {
        let ghost rest = s@.skip(i as int);
        assert(rest[0] == cs@[i as int]);
        if is_whitespace(cs[i]) {
            assert(rest.drop_first() == s@.skip(i + 1));
            i = i + 1;
        } else {
            let mut j: usize = i + 1;
            while j < n && !is_whitespace(cs[j])
                invariant
                    i < j <= n,
                    n == cs.len(),
                    forall|k: int| i < k < j ==> !is_white(#[trigger] cs@[k]),
                decreases n - j,
            {
                j = j + 1;
            }
            let word: &'a str = s.substring_char(i, j);
            let ghost before = slices(r@);
            r.push(word);
            proof {
                let t = rest.drop_first();
                assert forall|k: int| 0 <= k < j - i - 1 implies !is_white(#[trigger] t[k]) by {
                    assert(t[k] == cs@[i + 1 + k]);
                }
                if j < n {
                    assert(t[j - i - 1] == cs@[j as int]);
                }
                lemma_first_white(t, j - i - 1);
                assert(rest.take(j - i) == s@.subrange(i as int, j as int));
                assert(rest.skip(j - i) == s@.skip(j as int));
                assert(slices(r@) == before.push(word@));
                assert(words(rest) == seq![word@] + words(s@.skip(j as int)));
                assert(before + (seq![word@] + words(s@.skip(j as int))) == before.push(word@)
                    + words(s@.skip(j as int)));
            }
            i = j;
        }
    }
    assert(s@.skip(n as int).len() == 0);
    assert(slices(r@) + words(s@.skip(n as int)) == slices(r@));
    r
}

/// Text is split into words at white space and nowhere else: the words of two texts with white space
/// between them are the words of the first and then those of the second; a text without white space
/// is one word; and the empty text has none.
pub proof fn law_words_end_at_white_space(a: Seq<char>, c: char, b: Seq<char>)
    ensures
        is_white(c) ==> words(a.push(c) + b) == words(a) + words(b),
        a.len() > 0 && (forall|i: int| 0 <= i < a.len() ==> !is_white(#[trigger] a[i])) ==> words(a)
            == seq![a],
        words(seq![]) == Seq::<Seq<char>>::empty(),
    decreases a.len(),
{
    if a.len() > 0 && (forall|i: int| 0 <= i < a.len() ==> !is_white(#[trigger] a[i])) {
        lemma_first_white(a.drop_first(), a.len() - 1);
        assert(a.take(a.len() as int) =~= a);
        assert(words(a.skip(a.len() as int)) =~= seq![]);
        assert(words(a) =~= seq![a]);
    }
    if is_white(c) {
        let t = a.push(c) + b;
        if a.len() == 0 {
            assert(t.drop_first() =~= b);
            assert(words(a) + words(b) =~= words(b));
        } else if is_white(a[0]) {
            law_words_end_at_white_space(a.drop_first(), c, b);
            assert(t.drop_first() =~= a.drop_first().push(c) + b);
        } else {
            let k = 1 + first_white(a.drop_first()) as int;
            lemma_first_white_bound(a.drop_first());
            lemma_first_white_found(a.drop_first());
            let u = t.drop_first();
            assert forall|i: int| 0 <= i < k - 1 implies !is_white(#[trigger] u[i]) by {
                assert(u[i] == a.drop_first()[i]);
            }
            if k < a.len() {
                assert(u[k - 1] == a.drop_first()[k - 1]);
            } else {
                assert(u[k - 1] == c);
            }
            lemma_first_white(u, k - 1);
            assert(t.take(k) =~= a.take(k));
            law_words_end_at_white_space(a.skip(k), c, b);
            assert(t.skip(k) =~= a.skip(k).push(c) + b);
            assert(words(t) =~= words(a) + words(b));
        }
    }
}

proof fn lemma_first_white_found(s: Seq<char>)
    ensures
        forall|i: int| 0 <= i < first_white(s) ==> !is_white(#[trigger] s[i]),
        first_white(s) < s.len() ==> is_white(s[first_white(s) as int]),
    decreases s.len(),
{
    if s.len() > 0 && !is_white(s[0]) {
        let t = s.drop_first();
        lemma_first_white_found(t);
        lemma_first_white_bound(t);
        assert forall|i: int| 0 <= i < first_white(s) implies !is_white(#[trigger] s[i]) by {
            if i > 0 {
                assert(s[i] == t[i - 1]);
            }
        }
    }
}

/// A trimmed text starts and ends with something other than white space, and only white space was
/// taken off on either side.
pub proof fn law_trimming_takes_white_space_only(s: Seq<char>)
    ensures
        exists|i: int, j: int|
            0 <= i <= j <= s.len() && trimmed(s) == #[trigger] s.subrange(i, j) && (forall|k: int|
                0 <= k < s.len() && !(i <= k < j) ==> is_white(#[trigger] s[k])) && (i < j
                ==> !is_white(s[i]) && !is_white(s[j - 1])),
{
    let i = lemma_trim_start_found(s);
    let t = trim_start(s);
    let j = i + lemma_trim_end_found(t);
    assert(trimmed(s) =~= s.subrange(i, j));
    assert forall|k: int| 0 <= k < s.len() && !(i <= k < j) implies is_white(#[trigger] s[k]) by {
        if k >= j {
            assert(t[k - i] == s[k]);
        }
    }
    if i < j {
        assert(t[0] == s[i] && t[j - i - 1] == s[j - 1]);
    }
}

proof fn lemma_trim_start_found(s: Seq<char>) -> (i: int)
    ensures
        0 <= i <= s.len(),
        trim_start(s) == s.skip(i),
        forall|k: int| 0 <= k < i ==> is_white(#[trigger] s[k]),
        i < s.len() ==> !is_white(s[i]),
    decreases s.len(),
{
    if s.len() > 0 && is_white(s[0]) {
        let i = lemma_trim_start_found(s.drop_first());
        assert(s.drop_first().skip(i) =~= s.skip(i + 1));
        assert forall|k: int| 0 <= k < i + 1 implies is_white(#[trigger] s[k]) by {
            if k > 0 {
                assert(s[k] == s.drop_first()[k - 1]);
            }
        }
        i + 1
    } else {
        assert(s.skip(0) =~= s);
        0
    }
}

proof fn lemma_trim_end_found(s: Seq<char>) -> (j: int)
    ensures
        0 <= j <= s.len(),
        trim_end(s) == s.take(j),
        forall|k: int| j <= k < s.len() ==> is_white(#[trigger] s[k]),
        j > 0 ==> !is_white(s[j - 1]),
    decreases s.len(),
{
    if s.len() > 0 && is_white(s.last()) {
        let t = s.drop_last();
        let j = lemma_trim_end_found(t);
        assert(t.take(j) =~= s.take(j));
        assert forall|k: int| j <= k < s.len() implies is_white(#[trigger] s[k]) by {
            if k < t.len() {
                assert(s[k] == t[k]);
            }
        }
        j
    } else {
        assert(s.take(s.len() as int) =~= s);
        s.len() as int
    }
}

/// In ASCII, white space is the space, and the characters from tab to carriage return.
pub proof fn law_ascii_white_space(c: char)
    requires
        c as u32 <= 0x7f,
    ensures
        is_white(c) <==> c as u32 == 0x20 || 9 <= c as u32 <= 13,
{
}

/// A text is taken apart at the first separator: what stands before it and what follows come out as
/// they are, and a text without the separator stays whole.
pub proof fn law_texts_split_at_the_separator(a: Seq<char>, c: char, b: Seq<char>)
    requires
        !a.contains(c),
    ensures
        split_at_first(a.push(c) + b, c) == Some((a, b)),
        split_at_first(a, c) is None,
{
    let s = a.push(c) + b;
    lemma_split_without(a, c);
    assert forall|k: int| 0 <= k < a.len() implies #[trigger] s[k] != c by {
        assert(s[k] == a[k] && a.contains(a[k]));
    }
    lemma_first_index(s, c, a.len() as int);
    assert(s.take(a.len() as int) =~= a);
    assert(s.skip(a.len() as int + 1) =~= b);
}

/// Numbers are read in decimal: a further digit makes ten times the number and that digit, a minus
/// sign turns it round, and a plus sign changes nothing.
pub proof fn law_numbers_are_decimal(s: Seq<char>, d: char)
    requires
        s.len() > 0,
        forall|i: int| 0 <= i < s.len() ==> '0' <= #[trigger] s[i] <= '9',
        '0' <= d <= '9',
    ensures
        spelled_int(seq![d]) == Some(d as int - '0' as int),
        spelled_int(s) matches Some(n) && {
            &&& n >= 0
            &&& spelled_int(s.push(d)) == Some(10 * n + (d as int - '0' as int))
            &&& spelled_int(seq!['-'] + s) == Some(-n)
            &&& spelled_int(seq!['+'] + s) == Some(n)
            &&& n <= 0x7fff ==> spelled_i16(s) == Some(n as i16)
            &&& n > 0x7fff ==> spelled_i16(s) is None
        },
{
    let t = s.push(d);
    assert(t.drop_last() =~= s);
    assert(is_digit(s[0]) && is_digit(t[0]));
    assert(all_digits(t)) by {
        assert forall|i: int| 0 <= i < t.len() implies is_digit(#[trigger] t[i]) by {
            if i < s.len() {
                assert(t[i] == s[i]);
            }
        }
    }
    assert((seq!['-'] + s).drop_first() =~= s);
    assert((seq!['+'] + s).drop_first() =~= s);
    let one = seq![d];
    assert(one.drop_last() =~= seq![]);
    assert(digits_value(seq![]) == 0);
    assert(is_digit(one[0]));
    lemma_digits_grow(s, s.len() as int);
}

/// Numbers that are written are read back, and have no leading zero.
pub proof fn law_written_numbers_are_read_back(n: nat)
    ensures
        spelled_int(decimal_of(n)) == Some(n as int),
        decimal_of(n)[0] == '0' ==> n == 0 && decimal_of(n).len() == 1,
    decreases n,
{
    let s = decimal_of(n);
    if n < 10 {
        law_numbers_are_decimal(seq!['0'], digit_char(n));
    } else {
        law_written_numbers_are_read_back(n / 10);
        let t = decimal_of(n / 10);
        lemma_decimal_has_digits(n / 10);
        law_numbers_are_decimal(t, digit_char(n % 10));
        assert(s[0] == t[0]);
    }
}

proof fn lemma_decimal_has_digits(n: nat)
    ensures
        decimal_of(n).len() > 0,
        forall|i: int| 0 <= i < decimal_of(n).len() ==> '0' <= #[trigger] decimal_of(n)[i] <= '9',
    decreases n,
{
    if n >= 10 {
        lemma_decimal_has_digits(n / 10);
    }
}

/// Joining puts the separator between the parts and nowhere else.
pub proof fn law_joined_parts_are_separated(parts: Seq<Seq<char>>, p: Seq<char>, sep: Seq<char>)
    ensures
        joined(seq![], sep) == Seq::<char>::empty(),
        joined(seq![p], sep) == p,
        parts.len() > 0 ==> joined(parts.push(p), sep) == joined(parts, sep) + sep + p,
{
    assert(parts.push(p).drop_last() =~= parts);
}

/// Only a sign and digits spell a number: a text without a digit does not, nor does one with any
/// other character, or with a sign behind the first place.
pub proof fn law_other_texts_are_no_numbers(s: Seq<char>, i: int)
    requires
        s.len() == 0 || (s.len() == 1 && (s[0] == '+' || s[0] == '-')) || (0 <= i < s.len() && !('0'
            <= s[i] <= '9') && (i > 0 || (s[0] != '+' && s[0] != '-'))),
    ensures
        spelled_int(s) is None,
        spelled_i16(s) is None,
{
    if s.len() > 1 || (s.len() == 1 && s[0] != '+' && s[0] != '-') {
        if s[0] == '+' || s[0] == '-' {
            assert(!is_digit(s.drop_first()[i - 1]));
        } else {
            assert(!is_digit(s[i]));
        }
    }
}

/// Beyond ASCII the white space is that of Unicode: the next line, the spaces of all widths, the
/// line and the paragraph separator, and nothing else.
pub proof fn law_unicode_white_space(c: char)
    requires
        c as u32 >= 0x80,
    ensures
        is_white(c) <==> {
            ||| c == '\u{85}' || c == '\u{a0}' || c == '\u{1680}'
            ||| '\u{2000}' <= c <= '\u{200a}'
            ||| c == '\u{2028}' || c == '\u{2029}' || c == '\u{202f}'
            ||| c == '\u{205f}' || c == '\u{3000}'
        },
{
}

} // verus!
