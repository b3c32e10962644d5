//! Text helpers: trimming, lower case, decimal numbers.

use vstd::prelude::*;

verus! {

/// The characters of a text that may be absent.
pub open spec fn text_of(text: Option<String>) -> Option<Seq<char>> {
    match text {
        Some(text) => Some(text@),
        None => None,
    }
}

/// The characters of a borrowed text that may be absent.
pub open spec fn str_of(text: Option<&str>) -> Option<Seq<char>> {
    match text {
        Some(text) => Some(text@),
        None => None,
    }
}

/// The code points with the Unicode property `White_Space`.
pub open spec fn is_white_space(c: char) -> bool {
    let n = c as u32;
    ||| 0x9 <= n <= 0xd
    ||| n == 0x20
    ||| n == 0x85
    ||| n == 0xa0
    ||| n == 0x1680
    ||| 0x2000 <= n <= 0x200a
    ||| n == 0x2028
    ||| n == 0x2029
    ||| n == 0x202f
    ||| n == 0x205f
    ||| n == 0x3000
}

/// `s` without its leading white space.
pub open spec fn trimmed_start(s: Seq<char>) -> Seq<char>
    decreases s.len(),
{
    if s.len() > 0 && is_white_space(s[0]) {
        trimmed_start(s.drop_first())
    } else {
        s
    }
}

/// `s` without its trailing white space.
pub open spec fn trimmed_end(s: Seq<char>) -> Seq<char>
    decreases s.len(),
{
    if s.len() > 0 && is_white_space(s.last()) {
        trimmed_end(s.drop_last())
    } else {
        s
    }
}

/// `s` without leading and trailing white space.
pub open spec fn trimmed(s: Seq<char>) -> Seq<char> {
    trimmed_end(trimmed_start(s))
}

/// `s` without the run of `c` at its end.
pub open spec fn without_trailing(s: Seq<char>, c: char) -> Seq<char>
    decreases s.len(),
{
    if s.len() > 0 && s.last() == c {
        without_trailing(s.drop_last(), c)
    } else {
        s
    }
}

/// Whether `c` is one of the 128 ASCII characters.
pub open spec fn is_ascii_char(c: char) -> bool {
    (c as u32) < 0x80
}

/// Whether every character of `s` is ASCII.
pub open spec fn all_ascii(s: Seq<char>) -> bool {
    forall|i: int| 0 <= i < s.len() ==> is_ascii_char(#[trigger] s[i])
}

/// The letters `A` to `Z` become `a` to `z`; other characters stay.
pub open spec fn ascii_lower_char(c: char) -> char {
    if 'A' <= c <= 'Z' {
        (c as u32 + 0x20) as char
    } else {
        c
    }
}

/// `s` with each ASCII capital in lower case.
pub open spec fn ascii_lower(s: Seq<char>) -> Seq<char> {
    s.map_values(|c: char| ascii_lower_char(c))
}

/// What [`str::to_lowercase`] makes of a string.
pub uninterp spec fn lowercase(s: Seq<char>) -> Seq<char>;

/// [`str::to_lowercase`] depends on its argument alone, and on text that is all
/// ASCII it lowers the letters `A` to `Z` and keeps the rest. What it does to
/// other letters is left to the name `lowercase`.
pub assume_specification[ str::to_lowercase ](s: &str) -> (r: String)
    ensures
        r@ == lowercase(s@),
        all_ascii(s@) ==> r@ == ascii_lower(s@),
;

/// The character of one decimal digit.
pub open spec fn digit_char(d: nat) -> char {
    ('0' as u32 + d) as char
}

/// `n` in decimal, without leading zeros.
pub open spec fn decimal(n: nat) -> Seq<char>
    decreases n,
{
    if n < 10 {
        seq![digit_char(n)]
    } else {
        decimal(n / 10).push(digit_char(n % 10))
    }
}

fn white_space(c: char) -> (r: bool)
    ensures
        r == is_white_space(c),
{
    let n: u32 = c as u32;
    (0x9 <= n && n <= 0xd) || n == 0x20 || n == 0x85 || n == 0xa0 || n == 0x1680 || (0x2000 <= n
        && n <= 0x200a) || n == 0x2028 || n == 0x2029 || n == 0x202f || n == 0x205f || n == 0x3000
}

/// Removes leading and trailing white space.
pub fn trim(s: &str) -> (r: &str)
    ensures
        r@ == trimmed(s@),
{
    let len: usize = s.unicode_len();
    let mut from: usize = 0;
    assert(s@.skip(0) == s@);
    while from < len && white_space(s.get_char(from))
        invariant
            from <= len,
            len == s@.len(),
            trimmed_start(s@.skip(from as int)) == trimmed_start(s@),
        decreases len - from,
    {
        assert(s@.skip(from as int).drop_first() == s@.skip(from + 1));
        from = from + 1;
    }
    let ghost body = s@.skip(from as int);
    assert(trimmed_start(s@) == body);
    let mut to: usize = len;
    assert(s@.subrange(from as int, to as int) == body);
    while from < to && white_space(s.get_char(to - 1))
        invariant
            from <= to <= len,
            len == s@.len(),
            trimmed_end(s@.subrange(from as int, to as int)) == trimmed_end(body),
        decreases to,
    {
        assert(s@.subrange(from as int, to as int).drop_last() == s@.subrange(
            from as int,
            to - 1,
        ));
        to = to - 1;
    }
    s.substring_char(from, to)
}

/// Removes the run of `c` at the end of `s`.
pub fn trim_trailing(s: &str, c: char) -> (r: &str)
    ensures
        r@ == without_trailing(s@, c),
{
    let mut to: usize = s.unicode_len();
    assert(s@.take(to as int) == s@);
    while 0 < to && s.get_char(to - 1) == c
        invariant
            to <= s@.len(),
            without_trailing(s@.take(to as int), c) == without_trailing(s@, c),
        decreases to,
    {
        assert(s@.take(to as int).drop_last() == s@.take(to - 1));
        to = to - 1;
    }
    assert(s@.take(to as int) == s@.subrange(0, to as int));
    s.substring_char(0, to)
}

/// Whether two texts hold the same characters.
pub fn same_text(a: &str, b: &str) -> (r: bool)
    ensures
        r == (a@ == b@),
{
    let x = a.to_owned();
    let y = b.to_owned();
    x == y
}

/// Whether `s` begins with `c`.
pub fn begins_with(s: &str, c: char) -> (r: bool)
    ensures
        r == (s@.len() > 0 && s@[0] == c),
{
    s.unicode_len() > 0 && s.get_char(0) == c
}

/// A copy of a text that may be absent.
pub fn copy_text(text: &Option<String>) -> (r: Option<String>)
    ensures
        text_of(r) == text_of(*text),
{
    match text {
        Some(text) => Some(text.clone()),
        None => None,
    }
}

/// Appends `n` in decimal.
pub fn append_decimal(out: &mut String, n: u64)
    ensures
        final(out)@ == old(out)@ + decimal(n as nat),
    decreases n,
{
    let ghost before = out@;
    if n >= 10 {
        append_decimal(out, n / 10);
    }
    let digit = digit_text(n % 10);
    out.append(digit);
    assert(out@ == before + decimal(n as nat));
}

fn digit_text(d: u64) -> (r: &'static str)
    requires
        d < 10,
    ensures
        r@ == seq![digit_char(d as nat)],
{
    proof {
        reveal_strlit("0");
        reveal_strlit("1");
        reveal_strlit("2");
        reveal_strlit("3");
        reveal_strlit("4");
        reveal_strlit("5");
        reveal_strlit("6");
        reveal_strlit("7");
        reveal_strlit("8");
        reveal_strlit("9");
    }
    if d == 0 {
        "0"
    } else if d == 1 {
        "1"
    } else if d == 2 {
        "2"
    } else if d == 3 {
        "3"
    } else if d == 4 {
        "4"
    } else if d == 5 {
        "5"
    } else if d == 6 {
        "6"
    } else if d == 7 {
        "7"
    } else if d == 8 {
        "8"
    } else {
        "9"
    }
}

/// White space is the tab and the other line and page breaks of ASCII, the space, the
/// next-line and the no-break space, and the spaces and separators of Unicode.
pub proof fn law_white_space_characters(c: char)
    ensures
        is_white_space(c) <==> (c == '\t' || c == '\n' || c == '\u{b}' || c == '\u{c}' || c == '\r'
            || c == ' ' || c == '\u{85}' || c == '\u{a0}' || c == '\u{1680}' || c == '\u{2000}' || c
            == '\u{2001}' || c == '\u{2002}' || c == '\u{2003}' || c == '\u{2004}' || c
            == '\u{2005}' || c == '\u{2006}' || c == '\u{2007}' || c == '\u{2008}' || c
            == '\u{2009}' || c == '\u{200a}' || c == '\u{2028}' || c == '\u{2029}' || c
            == '\u{202f}' || c == '\u{205f}' || c == '\u{3000}'),
{
}

/// Where the text without leading white space begins.
proof fn lemma_trimmed_start(s: Seq<char>) -> (from: int)
    ensures
        0 <= from <= s.len(),
        trimmed_start(s) == s.skip(from),
        forall|k: int| 0 <= k < from ==> is_white_space(#[trigger] s[k]),
        from < s.len() ==> !is_white_space(s[from]),
    decreases s.len(),
{
    if s.len() > 0 && is_white_space(s[0]) {
        let rest = s.drop_first();
        let from = lemma_trimmed_start(rest);
        assert(rest.skip(from) =~= s.skip(from + 1));
        assert forall|k: int| 0 <= k < from + 1 implies is_white_space(#[trigger] s[k]) by {
            if k > 0 {
                assert(rest[k - 1] == s[k]);
            }
        }
        if from < rest.len() {
            assert(rest[from] == s[from + 1]);
        }
        from + 1
    } else {
        assert(s.skip(0) =~= s);
        0
    }
}

/// Where the text without trailing white space ends.
proof fn lemma_trimmed_end(s: Seq<char>) -> (to: int)
    ensures
        0 <= to <= s.len(),
        trimmed_end(s) == s.take(to),
        forall|k: int| to <= k < s.len() ==> is_white_space(#[trigger] s[k]),
        to > 0 ==> !is_white_space(s[to - 1]),
    decreases s.len(),
{
    if s.len() > 0 && is_white_space(s.last()) {
        let rest = s.drop_last();
        let to = lemma_trimmed_end(rest);
        assert(rest.take(to) =~= s.take(to));
        assert forall|k: int| to <= k < s.len() implies is_white_space(#[trigger] s[k]) by {
            if k < rest.len() {
                assert(rest[k] == s[k]);
            }
        }
        to
    } else {
        assert(s.take(s.len() as int) =~= s);
        s.len() as int
    }
}

/// Whether `t` is the part of `s` from `from` to `to`, with nothing but white space
/// around it, and none at its own ends.
pub open spec fn is_middle_of(t: Seq<char>, s: Seq<char>, from: int, to: int) -> bool {
    &&& 0 <= from <= to <= s.len()
    &&& t == s.subrange(from, to)
    &&& forall|k: int| 0 <= k < s.len() && !(from <= k < to) ==> is_white_space(#[trigger] s[k])
    &&& from < to ==> !is_white_space(s[from]) && !is_white_space(s[to - 1])
}

/// Trimming takes white space off both ends and nothing else: it keeps a part of the
/// text in one piece, and loses no character but white space.
pub proof fn law_trimming_keeps_the_middle(s: Seq<char>)
    ensures
        exists|from: int, to: int| #[trigger] is_middle_of(trimmed(s), s, from, to),
        trimmed(s).len() == 0 <==> (forall|k: int|
            0 <= k < s.len() ==> is_white_space(#[trigger] s[k])),
        trimmed(s).len() > 0 ==> !is_white_space(trimmed(s)[0]) && !is_white_space(
            trimmed(s).last(),
        ),
{
    let from = lemma_trimmed_start(s);
    let body = s.skip(from);
    let len = lemma_trimmed_end(body);
    assert(body.take(len) =~= s.subrange(from, from + len));
    assert forall|k: int| 0 <= k < s.len() && !(from <= k < from + len) implies is_white_space(
        #[trigger] s[k],
    ) by {
        if k >= from {
            assert(body[k - from] == s[k]);
        }
    }
    if len > 0 {
        assert(body[len - 1] == s[from + len - 1]);
        assert(trimmed(s)[0] == s[from]);
        assert(trimmed(s).last() == s[from + len - 1]);
    }
    assert(is_middle_of(trimmed(s), s, from, from + len));
}

/// Taking a run of `c` off the end keeps everything before it, and leaves no `c` at the
/// end.
pub proof fn law_only_the_run_is_removed(s: Seq<char>, c: char)
    ensures
        without_trailing(s, c).len() <= s.len(),
        forall|k: int|
            0 <= k < without_trailing(s, c).len() ==> #[trigger] without_trailing(s, c)[k] == s[k],
        forall|k: int| without_trailing(s, c).len() <= k < s.len() ==> #[trigger] s[k] == c,
        without_trailing(s, c).len() > 0 ==> without_trailing(s, c).last() != c,
    decreases s.len(),
{
    if s.len() > 0 && s.last() == c {
        let rest = s.drop_last();
        law_only_the_run_is_removed(rest, c);
        assert forall|k: int| without_trailing(s, c).len() <= k < s.len() implies #[trigger] s[k]
            == c by {
            if k < rest.len() {
                assert(rest[k] == s[k]);
            }
        }
    }
}

/// The number that decimal digits stand for.
pub open spec fn number(digits: Seq<char>) -> int
    decreases digits.len(),
{
    if digits.len() == 0 {
        0
    } else {
        number(digits.drop_last()) * 10 + (digits.last() as u32 - '0' as u32)
    }
}

/// A decimal number is made of digits, reads back as the number, and has no zero in
/// front.
pub proof fn law_decimal_reads_back(n: nat)
    ensures
        number(decimal(n)) == n,
        decimal(n).len() > 0,
        forall|i: int| 0 <= i < decimal(n).len() ==> '0' <= #[trigger] decimal(n)[i] <= '9',
        n > 0 ==> decimal(n)[0] != '0',
        n == 0 ==> decimal(n) == seq!['0'],
    decreases n,
{
    if n >= 10 {
        law_decimal_reads_back(n / 10);
        assert(decimal(n).drop_last() =~= decimal(n / 10));
        assert forall|i: int| 0 <= i < decimal(n).len() implies '0' <= #[trigger] decimal(n)[i]
            <= '9' by {
            if i < decimal(n / 10).len() {
                assert(decimal(n)[i] == decimal(n / 10)[i]);
            }
        }
        assert(decimal(n)[0] == decimal(n / 10)[0]);
    } else {
        reveal_with_fuel(number, 2);
        assert(decimal(n).drop_last() =~= Seq::empty());
    }
}

/// A text that is there counts, also an empty one, with all its characters; one that is
/// absent does not.
pub proof fn law_texts_are_taken_whole(owned: Option<String>, borrowed: Option<&str>)
    ensures
        text_of(owned) is Some <==> owned is Some,
        owned matches Some(text) ==> text_of(owned) == Some(text@),
        str_of(borrowed) is Some <==> borrowed is Some,
        borrowed matches Some(text) ==> str_of(borrowed) == Some(text@),
{
}

/// Lowering changes the capitals of ASCII and nothing else, character by character.
pub proof fn law_only_capitals_are_lowered(s: Seq<char>)
    ensures
        ascii_lower(s).len() == s.len(),
        forall|i: int|
            0 <= i < s.len() ==> #[trigger] ascii_lower(s)[i] as u32 == (if 'A' <= s[i] <= 'Z' {
                s[i] as u32 + 32
            } else {
                s[i] as u32 as int
            }),
{
}

} // verus!
