use vstd::prelude::*;
use vstd::utf8::*;
use vstd::string::*;

verus! {

broadcast use vstd::string::group_string_axioms;

/// The characters of `s`, in order.
pub fn str_chars(s: &str) -> (res: Vec<char>)
    ensures
        res@ == s@,
{
    let mut res: Vec<char> = Vec::new();
    for c in iter: s.chars()
        invariant
            res@ == iter.seq().take(iter.index()),
            iter.seq() == s@,
    {
        res.push(c);
    }
    res
}

/// Appends one character to a string (`String::push`).
#[verifier::external_body]
pub(crate) fn push_char(s: &mut String, c: char)
    ensures
        final(s)@ == old(s)@.push(c),
{
    s.push(c);
}

/// A string holding the characters of `cs`, in order.
pub fn chars_to_string(cs: &[char]) -> (res: String)
    ensures
        res@ == cs@,
{
    let mut res = String::new();
    let mut i: usize = 0;
    while i < cs.len()
        invariant
            i <= cs@.len(),
            res@ == cs@.take(i as int),
        decreases cs@.len() - i,
    {
        push_char(&mut res, cs[i]);
        proof {
            assert(cs@.take(i as int).push(cs@[i as int]) =~= cs@.take(i + 1));
        }
        i = i + 1;
    }
    proof {
        assert(cs@.take(cs@.len() as int) =~= cs@);
    }
    res
}

/// Whether `c` has the Unicode `White_Space` property.
pub open spec fn is_white_space(c: char) -> bool {
    let v = c as u32;
    ||| 0x09 <= v <= 0x0D
    ||| v == 0x20
    ||| v == 0x85
    ||| v == 0xA0
    ||| v == 0x1680
    ||| 0x2000 <= v <= 0x200A
    ||| v == 0x2028
    ||| v == 0x2029
    ||| v == 0x202F
    ||| v == 0x205F
    ||| v == 0x3000
}

/// Whether `c` has the Unicode `White_Space` property (as `char::is_whitespace`).
pub fn is_whitespace(c: char) -> (res: bool)
    ensures
        res == is_white_space(c),
{
    let v = c as u32;
    (0x09 <= v && v <= 0x0D) || v == 0x20 || v == 0x85 || v == 0xA0 || v == 0x1680 || (0x2000
        <= v && v <= 0x200A) || v == 0x2028 || v == 0x2029 || v == 0x202F || v == 0x205F || v
        == 0x3000
}

/// Whether `c` is one of the ASCII digits `0` to `9`.
pub open spec fn is_digit(c: char) -> bool {
    '0' <= c <= '9'
}

/// The number of bytes of the UTF-8 encoding of the characters `cs`.
pub open spec fn byte_len(cs: Seq<char>) -> nat {
    encode_utf8(cs).len()
}

/// The number of bytes of the UTF-8 encoding of `c`.
pub open spec fn char_byte_len(c: char) -> nat {
    encode_scalar(c as u32).len()
}

/// Encoding a concatenation encodes each part.
pub proof fn lemma_encode_utf8_concat(a: Seq<char>, b: Seq<char>)
    ensures
        encode_utf8(a + b) == encode_utf8(a) + encode_utf8(b),
    decreases a.len(),
{
    if a.len() == 0 {
        assert(a + b =~= b);
        assert(encode_utf8(a) =~= Seq::<u8>::empty());
        assert(encode_utf8(a) + encode_utf8(b) =~= encode_utf8(b));
    } else {
        assert((a + b).drop_first() =~= a.drop_first() + b);
        lemma_encode_utf8_concat(a.drop_first(), b);
        assert((a + b)[0] == a[0]);
        assert(encode_utf8(a + b) =~= encode_utf8(a) + encode_utf8(b));
    }
}

/// The encoding of a single character.
pub proof fn lemma_encode_utf8_single(c: char)
    ensures
        encode_utf8(seq![c]) == encode_scalar(c as u32),
{
    assert(seq![c].drop_first() =~= Seq::<char>::empty());
    assert(encode_utf8(Seq::<char>::empty()) =~= Seq::<u8>::empty());
    assert(encode_scalar(c as u32) + Seq::<u8>::empty() =~= encode_scalar(c as u32));
}

/// The byte length of a prefix grows by the byte length of the next character.
pub proof fn lemma_byte_len_take_next(cs: Seq<char>, k: int)
    requires
        0 <= k < cs.len(),
    ensures
        byte_len(cs.take(k + 1)) == byte_len(cs.take(k)) + char_byte_len(cs[k]),
{
    assert(cs.take(k + 1) =~= cs.take(k) + seq![cs[k]]);
    lemma_encode_utf8_concat(cs.take(k), seq![cs[k]]);
    lemma_encode_utf8_single(cs[k]);
}

/// Byte lengths of prefixes grow with the prefix.
pub proof fn lemma_byte_len_monotonic(cs: Seq<char>, i: int, j: int)
    requires
        0 <= i <= j <= cs.len(),
    ensures
        byte_len(cs.take(i)) <= byte_len(cs.take(j)),
        i < j ==> byte_len(cs.take(i)) < byte_len(cs.take(j)),
    decreases j - i,
{
    if i < j {
        lemma_byte_len_monotonic(cs, i, j - 1);
        lemma_byte_len_take_next(cs, j - 1);
        lemma_char_byte_len_range(cs[j - 1]);
    }
}

/// A character is encoded in one to four bytes; exactly one for ASCII.
pub proof fn lemma_char_byte_len_range(c: char)
    ensures
        1 <= char_byte_len(c) <= 4,
        (c as u32) < 0x80 <==> char_byte_len(c) == 1,
{
    char_is_scalar(c);
}

/// The number of bytes of the UTF-8 encoding of `c` (as `char::len_utf8`).
pub fn utf8_len(c: char) -> (res: usize)
    ensures
        res == char_byte_len(c),
{
    proof {
        char_is_scalar(c);
    }
    let v = c as u32;
    if v <= 0x7F {
        1
    } else if v <= 0x7FF {
        2
    } else if v <= 0xFFFF {
        3
    } else {
        4
    }
}

/// The byte length of a whole string is that of its characters.
pub proof fn lemma_str_len(s: &str)
    ensures
        s.spec_bytes().len() == byte_len(s@),
{
}

/// The decimal representation of `n`, most significant digit first.
pub open spec fn decimal(n: nat) -> Seq<char>
    decreases n,
{
    if n < 10 {
        seq![digit_char_spec(n)]
    } else {
        decimal(n / 10).push(digit_char_spec(n % 10))
    }
}

/// The ASCII digit for `d`, for `d` below ten.
pub open spec fn digit_char_spec(d: nat) -> char {
    ((48 + d) as u32) as char
}

fn digit_char(d: usize) -> (c: char)
    requires
        d < 10,
    ensures
        c == digit_char_spec(d as nat),
{
    if d == 0 {
        '0'
    } else if d == 1 {
        '1'
    } else if d == 2 {
        '2'
    } else if d == 3 {
        '3'
    } else if d == 4 {
        '4'
    } else if d == 5 {
        '5'
    } else if d == 6 {
        '6'
    } else if d == 7 {
        '7'
    } else if d == 8 {
        '8'
    } else {
        '9'
    }
}

/// Appends the decimal representation of `n` to `s`.
pub fn push_decimal(s: &mut String, n: usize)
    ensures
        final(s)@ == old(s)@ + decimal(n as nat),
    decreases n,
{
    if n >= 10 {
        push_decimal(s, n / 10);
    }
    push_char(s, digit_char(n % 10));
    proof {
        if n < 10 {
            assert(old(s)@ + decimal(n as nat) =~= old(s)@.push(digit_char_spec(n as nat)));
        } else {
            assert(old(s)@ + decimal(n as nat) =~= (old(s)@ + decimal((n / 10) as nat)).push(
                digit_char_spec((n % 10) as nat),
            ));
        }
    }
}

/// Appends the characters of `t` to `s`.
pub fn push_str(s: &mut String, t: &str)
    ensures
        final(s)@ == old(s)@ + t@,
{
    s.append(t);
}

/// The index of the first character at or after `i` that is not white space
/// (the length when there is none).
pub open spec fn skip_white_space(cs: Seq<char>, i: int) -> int
    decreases cs.len() - i,
{
    if 0 <= i < cs.len() && is_white_space(cs[i]) {
        skip_white_space(cs, i + 1)
    } else {
        i
    }
}

/// `cs` without its leading white space (as `str::trim_start`).
pub open spec fn trim_start(cs: Seq<char>) -> Seq<char> {
    cs.skip(skip_white_space(cs, 0))
}

/// The index of the first character at or after `i` that is not `c` (the
/// length when there is none).
pub open spec fn skip_char(cs: Seq<char>, c: char, i: int) -> int
    decreases cs.len() - i,
{
    if 0 <= i < cs.len() && cs[i] == c {
        skip_char(cs, c, i + 1)
    } else {
        i
    }
}

/// Whether `cs` starts with `prefix`.
pub open spec fn starts_with(cs: Seq<char>, prefix: Seq<char>) -> bool {
    prefix.len() <= cs.len() && cs.take(prefix.len() as int) == prefix
}

/// The index of the first byte `x` in `b` at or after `i`, if any.
pub open spec fn find_byte(b: Seq<u8>, x: u8, i: int) -> Option<int>
    decreases b.len() - i,
{
    if i < 0 || i >= b.len() {
        None
    } else if b[i] == x {
        Some(i)
    } else {
        find_byte(b, x, i + 1)
    }
}

/// The index of the first occurrence of the two bytes `x`, `y` in `b` at or
/// after `i`, if any.
pub open spec fn find_byte_pair(b: Seq<u8>, x: u8, y: u8, i: int) -> Option<int>
    decreases b.len() - i,
{
    if i < 0 || i + 1 >= b.len() {
        None
    } else if b[i] == x && b[i + 1] == y {
        Some(i)
    } else {
        find_byte_pair(b, x, y, i + 1)
    }
}

/// The index of the first character at or after `i` where `pat` occurs in
/// `cs`, if any.
pub open spec fn find_chars(cs: Seq<char>, pat: Seq<char>, i: int) -> Option<int>
    decreases cs.len() + 1 - i,
{
    if i < 0 || i + pat.len() > cs.len() {
        None
    } else if cs.subrange(i, i + pat.len()) == pat {
        Some(i)
    } else {
        find_chars(cs, pat, i + 1)
    }
}

/// The index of the first white space character at or after `i`, if any.
pub open spec fn find_white_space(cs: Seq<char>, i: int) -> Option<int>
    decreases cs.len() - i,
{
    if i < 0 || i >= cs.len() {
        None
    } else if is_white_space(cs[i]) {
        Some(i)
    } else {
        find_white_space(cs, i + 1)
    }
}

/// The index of the last white space character before `i`, if any.
pub open spec fn rfind_white_space(cs: Seq<char>, i: int) -> Option<int>
    decreases i,
{
    if i <= 0 || i > cs.len() {
        None
    } else if is_white_space(cs[i - 1]) {
        Some(i - 1)
    } else {
        rfind_white_space(cs, i - 1)
    }
}

/// Whether `c` occurs in `cs` between `i` (inclusive) and `j` (exclusive).
pub open spec fn contains_between(cs: Seq<char>, c: char, i: int, j: int) -> bool {
    exists|k: int| i <= k < j && cs[k] == c
}

/// The number of bytes of the UTF-8 encoding of the first `k` characters.
pub fn byte_offset(cs: &Vec<char>, k: usize) -> (res: usize)
    requires
        k <= cs@.len(),
        byte_len(cs@) <= usize::MAX,
    ensures
        res == byte_len(cs@.take(k as int)),
{
    let mut sum: usize = 0;
    let mut i: usize = 0;
    proof {
        assert(cs@.take(0) =~= Seq::<char>::empty());
        assert(encode_utf8(Seq::<char>::empty()) =~= Seq::<u8>::empty());
    }
    while i < k
        invariant
            i <= k <= cs@.len(),
            byte_len(cs@) <= usize::MAX,
            sum == byte_len(cs@.take(i as int)),
        decreases k - i,
    {
        proof {
            lemma_byte_len_take_next(cs@, i as int);
            lemma_byte_len_monotonic(cs@, i + 1, cs@.len() as int);
            assert(cs@.take(cs@.len() as int) =~= cs@);
        }
        sum = sum + utf8_len(cs[i]);
        i = i + 1;
    }
    sum
}

/// Where [`find_byte`] finds a byte: at or after where it starts, inside `b`.
pub proof fn lemma_find_byte_range(b: Seq<u8>, x: u8, i: int)
    ensures
        find_byte(b, x, i) matches Some(k) ==> i <= k < b.len(),
    decreases b.len() - i,
{
    if 0 <= i < b.len() && b[i] != x {
        lemma_find_byte_range(b, x, i + 1);
    }
}

/// Where [`find_byte_pair`] finds a pair: at or after where it starts, both
/// bytes inside `b`.
pub proof fn lemma_find_byte_pair_range(b: Seq<u8>, x: u8, y: u8, i: int)
    ensures
        find_byte_pair(b, x, y, i) matches Some(k) ==> i <= k && k + 1 < b.len(),
    decreases b.len() - i,
{
    if 0 <= i && i + 1 < b.len() && !(b[i] == x && b[i + 1] == y) {
        lemma_find_byte_pair_range(b, x, y, i + 1);
    }
}

/// Where [`find_chars`] finds a pattern: at or after where it starts, all of
/// it inside `cs`.
pub proof fn lemma_find_chars_range(cs: Seq<char>, pat: Seq<char>, i: int)
    ensures
        find_chars(cs, pat, i) matches Some(k) ==> 0 <= i <= k && k + pat.len() <= cs.len(),
    decreases cs.len() + 1 - i,
{
    if 0 <= i && i + pat.len() <= cs.len() && cs.subrange(i, i + pat.len()) != pat {
        lemma_find_chars_range(cs, pat, i + 1);
    }
}

/// Where [`find_white_space`] finds white space: at or after where it starts,
/// inside `cs`.
pub proof fn lemma_find_white_space_range(cs: Seq<char>, i: int)
    ensures
        find_white_space(cs, i) matches Some(k) ==> i <= k < cs.len(),
    decreases cs.len() - i,
{
    if 0 <= i < cs.len() && !is_white_space(cs[i]) {
        lemma_find_white_space_range(cs, i + 1);
    }
}

/// Where [`rfind_white_space`] finds white space: before where it starts.
pub proof fn lemma_rfind_white_space_range(cs: Seq<char>, i: int)
    ensures
        rfind_white_space(cs, i) matches Some(k) ==> 0 <= k < i,
    decreases i,
{
    if 0 < i <= cs.len() && !is_white_space(cs[i - 1]) {
        lemma_rfind_white_space_range(cs, i - 1);
    }
}

/// The displayed width of `c` in columns that the Unicode width tables give,
/// `None` for a control character (`UnicodeWidthChar::width`).
pub uninterp spec fn unicode_char_width(c: char) -> Option<usize>;

/// The displayed width of `c` in columns, `None` for a control character
/// (`unicode_width::UnicodeWidthChar::width`).  The result is named by
/// [`unicode_char_width`]: it depends on `c` alone, through the crate's tables,
/// which are not restated here.
#[verifier::external_body]
fn char_width(c: char) -> (res: Option<usize>)
    ensures
        res == unicode_char_width(c),
{
    unicode_width::UnicodeWidthChar::width(c)
}

/// The one-column character shown in place of grapheme `c`, if it cannot be
/// shown as it is: a space for a tab, `▯` for another control character, `·`
/// for a character of no width, `␣` for white space other than a space.
pub open spec fn stand_in(c: char) -> Option<char> {
    if c == ' ' {
        None
    } else if c == '\t' {
        Some(' ')
    } else {
        match unicode_char_width(c) {
            None => Some('\u{25af}'),
            Some(w) => if w == 0 {
                Some('\u{b7}')
            } else if is_white_space(c) {
                Some('\u{2423}')
            } else {
                None
            },
        }
    }
}

/// What shows on screen for grapheme `c`: its stand-in, or `c` itself.
pub open spec fn shown_char(c: char) -> char {
    match stand_in(c) {
        Some(r) => r,
        None => c,
    }
}

/// The columns a grapheme takes on screen: one when it is shown by a
/// stand-in; else two for a wide character and one for any other.
pub open spec fn grapheme_width(c: char) -> nat {
    if stand_in(c) is Some {
        1
    } else {
        match unicode_char_width(c) {
            Some(w) => if w >= 2 { 2 } else { 1 },
            None => 1,
        }
    }
}

/// The columns the graphemes `cs` take on screen.
pub open spec fn line_width(cs: Seq<char>) -> nat
    decreases cs.len(),
{
    if cs.len() == 0 {
        0
    } else {
        line_width(cs.drop_last()) + grapheme_width(cs.last())
    }
}

/// `n` clamped at `usize::MAX`.
pub open spec fn clamp_usize(n: nat) -> usize {
    if n <= usize::MAX { n as usize } else { usize::MAX }
}

/// The stand-in shown for grapheme `c`, if it needs one.
pub fn stand_in_of(c: char) -> (res: Option<char>)
    ensures
        res == stand_in(c),
{
    if c == ' ' {
        None
    } else if c == '\t' {
        Some(' ')
    } else {
        match char_width(c) {
            None => Some('\u{25af}'),
            Some(w) => if w == 0 {
                Some('\u{b7}')
            } else if is_whitespace(c) {
                Some('\u{2423}')
            } else {
                None
            },
        }
    }
}

/// The columns that grapheme `c` takes on screen.
pub fn grapheme_width_of(c: char) -> (res: usize)
    ensures
        res == grapheme_width(c),
{
    if stand_in_of(c).is_some() {
        return 1;
    }
    match char_width(c) {
        Some(w) => if w >= 2 { 2 } else { 1 },
        None => 1,
    }
}

/// The columns the first `k` graphemes of `cs` take on screen (clamped at
/// `usize::MAX`).
pub fn width_of_prefix(cs: &Vec<char>, k: usize) -> (res: usize)
    requires
        k <= cs@.len(),
    ensures
        res == clamp_usize(line_width(cs@.take(k as int))),
{
    let mut w: usize = 0;
    let mut i: usize = 0;
    while i < k
        invariant
            i <= k <= cs@.len(),
            w == clamp_usize(line_width(cs@.take(i as int))),
        decreases k - i,
    {
        let gw = grapheme_width_of(cs[i]);
        proof {
            assert(cs@.take(i + 1).drop_last() =~= cs@.take(i as int));
            assert(cs@.take(i + 1).last() == cs@[i as int]);
        }
        w = w.saturating_add(gw);
        i = i + 1;
    }
    w
}

} // verus!
