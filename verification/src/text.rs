//! Text: the string operations that the registry formats and the proxy protocol are made of.

use vstd::prelude::*;
use vstd::string::*;
use vstd::utf8::*;

verus! {

broadcast use vstd::string::group_string_axioms;

// ---------------------------------------------------------------------------
// What a text is
// ---------------------------------------------------------------------------

/// The texts that a sequence of strings holds.
pub open spec fn texts(strings: Seq<String>) -> Seq<Seq<char>> {
    Seq::new(strings.len(), |i: int| strings[i]@)
}

/// The position of the first `c` in `s`, or the length of `s` where there is none.
pub open spec fn index_of(s: Seq<char>, c: char) -> nat
    decreases s.len(),
{
    if s.len() == 0 || s[0] == c {
        0
    } else {
        1 + index_of(s.drop_first(), c)
    }
}

/// The position of the last `c` in `s`, where there is one.
pub open spec fn last_index_of(s: Seq<char>, c: char) -> Option<nat>
    decreases s.len(),
{
    if s.len() == 0 {
        None
    } else if s.last() == c {
        Some((s.len() - 1) as nat)
    } else {
        last_index_of(s.drop_last(), c)
    }
}

/// Whether `part` occurs somewhere in `s`.
pub open spec fn occurs(part: Seq<char>, s: Seq<char>) -> bool {
    exists|i: int| occurs_at(part, s, i)
}

/// Whether `part` occurs in `s` at position `i`.
pub open spec fn occurs_at(part: Seq<char>, s: Seq<char>, i: int) -> bool {
    0 <= i && i + part.len() <= s.len() && s.subrange(i, i + part.len()) == part
}

/// The characters with Unicode's `White_Space` property.
pub open spec fn is_white_space(c: char) -> bool {
    let n = c as u32;
    ||| 0x09 <= n <= 0x0d
    ||| n == 0x20
    ||| n == 0x85
    ||| n == 0xa0
    ||| n == 0x1680
    ||| 0x2000 <= n <= 0x200a
    ||| n == 0x2028
    ||| n == 0x2029
    ||| n == 0x202f
    ||| n == 0x205f
    ||| n == 0x3000
}

/// `s` without the white space that it begins with.
pub open spec fn trimmed_start(s: Seq<char>) -> Seq<char>
    decreases s.len(),
{
    if s.len() > 0 && is_white_space(s[0]) {
        trimmed_start(s.drop_first())
    } else {
        s
    }
}

/// `s` without the white space that it ends with.
pub open spec fn trimmed_end(s: Seq<char>) -> Seq<char>
    decreases s.len(),
{
    if s.len() > 0 && is_white_space(s.last()) {
        trimmed_end(s.drop_last())
    } else {
        s
    }
}

/// `s` without the white space at either end.
pub open spec fn trimmed(s: Seq<char>) -> Seq<char> {
    trimmed_end(trimmed_start(s))
}

/// `s` without the characters `c` that it begins with.
pub open spec fn without_leading(s: Seq<char>, c: char) -> Seq<char>
    decreases s.len(),
{
    if s.len() > 0 && s[0] == c {
        without_leading(s.drop_first(), c)
    } else {
        s
    }
}

/// The number of characters before the first white space in `s`.
pub open spec fn word_len(s: Seq<char>) -> nat
    decreases s.len(),
{
    if s.len() == 0 || is_white_space(s[0]) {
        0
    } else {
        1 + word_len(s.drop_first())
    }
}

/// A word is no longer than the text that it begins.
pub proof fn lemma_word_len_bound(s: Seq<char>)
    ensures
        word_len(s) <= s.len(),
    decreases s.len(),
{
    if s.len() > 0 && !is_white_space(s[0]) {
        lemma_word_len_bound(s.drop_first());
    }
}

/// What is left after white space was cut off is no longer than the text, and begins with none.
pub proof fn lemma_trimmed_start_bound(s: Seq<char>)
    ensures
        trimmed_start(s).len() <= s.len(),
        trimmed_start(s).len() > 0 ==> !is_white_space(trimmed_start(s)[0]),
    decreases s.len(),
{
    if s.len() > 0 && is_white_space(s[0]) {
        lemma_trimmed_start_bound(s.drop_first());
    }
}

/// The words of `s`: its parts between white space, none of them empty.
pub open spec fn words(s: Seq<char>) -> Seq<Seq<char>>
    decreases s.len(),
{
    let rest = trimmed_start(s);
    if rest.len() == 0 {
        Seq::empty()
    } else {
        proof {
            lemma_trimmed_start_bound(s);
            lemma_word_len_bound(rest);
        }
        seq![rest.take(word_len(rest) as int)] + words(rest.skip(word_len(rest) as int))
    }
}

/// `line` without the carriage return that it ends with, where it ends with one.
pub open spec fn without_return(line: Seq<char>) -> Seq<char> {
    if line.len() > 0 && line.last() == '\r' {
        line.drop_last()
    } else {
        line
    }
}

/// The first `c` in `s` stands where `index_of` says, and no `c` before it.
pub proof fn lemma_index_of_bound(s: Seq<char>, c: char)
    ensures
        index_of(s, c) <= s.len(),
        index_of(s, c) < s.len() ==> s[index_of(s, c) as int] == c,
        forall|i: int| 0 <= i < index_of(s, c) ==> s[i] != c,
    decreases s.len(),
{
    if s.len() > 0 && s[0] != c {
        lemma_index_of_bound(s.drop_first(), c);
        assert forall|i: int| 0 <= i < index_of(s, c) implies s[i] != c by {
            if i > 0 {
                assert(s.drop_first()[i - 1] == s[i]);
            }
        }
    }
}

/// The lines of `s`. A line ends at a line feed, or at a carriage return and a line feed; the
/// last one need not be ended.
pub open spec fn lines(s: Seq<char>) -> Seq<Seq<char>>
    decreases s.len(),
{
    if s.len() == 0 {
        Seq::empty()
    } else {
        let n = index_of(s, '\n') as int;
        if n >= s.len() {
            seq![s]
        } else {
            seq![without_return(s.take(n))] + lines(s.skip(n + 1))
        }
    }
}

/// `parts` one after the other, with `sep` between each two.
pub open spec fn joined(parts: Seq<Seq<char>>, sep: Seq<char>) -> Seq<char>
    decreases parts.len(),
{
    if parts.len() == 0 {
        Seq::empty()
    } else if parts.len() == 1 {
        parts[0]
    } else {
        parts[0] + sep + joined(parts.drop_first(), sep)
    }
}

/// `parts` as lines of text, the last one ended too.
pub open spec fn joined_lines(parts: Seq<Seq<char>>) -> Seq<char> {
    joined(parts, "\n"@) + "\n"@
}

// ---------------------------------------------------------------------------
// Numbers in text
// ---------------------------------------------------------------------------

/// The decimal digit for `d`.
pub open spec fn digit(d: nat) -> char {
    (48 + d) as char
}

/// `n` in decimal, without leading zeros.
pub open spec fn decimal(n: nat) -> Seq<char>
    decreases n,
{
    if n < 10 {
        seq![digit(n)]
    } else {
        decimal(n / 10).push(digit(n % 10))
    }
}

pub open spec fn is_digit(c: char) -> bool {
    '0' <= c <= '9'
}

pub open spec fn all_digits(s: Seq<char>) -> bool {
    forall|i: int| 0 <= i < s.len() ==> is_digit(#[trigger] s[i])
}

/// The number that a sequence of decimal digits denotes.
pub open spec fn digits_value(s: Seq<char>) -> nat
    decreases s.len(),
{
    if s.len() == 0 {
        0
    } else {
        10 * digits_value(s.drop_last()) + (s.last() as u32 - 48) as nat
    }
}

/// The number that `s` denotes: one or more decimal digits, after a `+` where there is one, for
/// a number of at most `max`.
pub open spec fn number(s: Seq<char>, max: nat) -> Option<nat> {
    let digits = if s.len() > 0 && s[0] == '+' {
        s.skip(1)
    } else {
        s
    };
    if digits.len() > 0 && all_digits(digits) && digits_value(digits) <= max {
        Some(digits_value(digits))
    } else {
        None
    }
}

/// The lower-case hexadecimal digit for `d`.
pub open spec fn hex_digit(d: nat) -> char {
    if d < 10 {
        (48 + d) as char
    } else {
        (87 + d) as char
    }
}

/// `bytes` in lower-case hexadecimal, two digits for each byte.
pub open spec fn hex(bytes: Seq<u8>) -> Seq<char> {
    Seq::new(
        2 * bytes.len(),
        |i: int|
            if i % 2 == 0 {
                hex_digit((bytes[i / 2] / 16) as nat)
            } else {
                hex_digit((bytes[i / 2] % 16) as nat)
            },
    )
}

// ---------------------------------------------------------------------------
// Strings of std
// ---------------------------------------------------------------------------

/// `String::push` puts one character behind the text.
pub assume_specification[ String::push ](s: &mut String, c: char)
    ensures
        final(s)@ == old(s)@.push(c),
;

/// The lower-case form of an ASCII character.
pub open spec fn ascii_lower(c: char) -> char {
    if 'A' <= c <= 'Z' {
        (c as u32 + 32) as char
    } else {
        c
    }
}

/// What `str::to_lowercase` makes of a text: its lower-case form by the Unicode rules.
pub uninterp spec fn lowercase(s: Seq<char>) -> Seq<char>;

/// `str::to_lowercase` depends on the text alone. On an ASCII text it replaces the letters `A`
/// to `Z` and nothing else.
#[verifier::external_body]
pub(crate) fn to_lowercase(s: &str) -> (r: String)
    ensures
        r@ == lowercase(s@),
        is_ascii_chars(s@) ==> r@ == s@.map_values(|c: char| ascii_lower(c)),
{
    s.to_lowercase()
}

/// What `String::from_utf8_lossy` makes of bytes: their text, with a replacement character for
/// what is not UTF-8.
pub uninterp spec fn lossy_text(bytes: Seq<u8>) -> Seq<char>;

/// `String::from_utf8_lossy` depends on the bytes alone, and hands valid UTF-8 out unchanged.
#[verifier::external_body]
pub(crate) fn from_utf8_lossy(bytes: &[u8]) -> (r: String)
    ensures
        r@ == lossy_text(bytes@),
        valid_utf8(bytes@) ==> r@ == decode_utf8(bytes@),
{
    String::from_utf8_lossy(bytes).into_owned()
}

/// The characters of `s`.
pub fn chars_of(s: &str) -> (r: Vec<char>)
    ensures
        r@ == s@,
{
    let mut out: Vec<char> = Vec::new();
    for c in it: s.chars()
        invariant
            it.seq() == s@,
            out@ == s@.take(it.index() as int),
    {
        out.push(c);
    }
    out
}

/// The string with the given characters.
pub fn string_of(chars: &[char]) -> (r: String)
    ensures
        r@ == chars@,
{
    let mut out = String::new();
    let mut i: usize = 0;
    while i < chars.len()
        invariant
            i <= chars@.len(),
            out@ == chars@.take(i as int),
        decreases chars@.len() - i,
    {
        out.push(chars[i]);
        i += 1;
    }
    out
}

// ---------------------------------------------------------------------------
// Searching
// ---------------------------------------------------------------------------

/// Whether two texts are the same.
pub fn same_text(a: &str, b: &str) -> (r: bool)
    ensures
        r == (a@ == b@),
{
    same_chars(&chars_of(a), &chars_of(b))
}

/// Whether two sequences of characters are the same.
pub fn same_chars(a: &[char], b: &[char]) -> (r: bool)
    ensures
        r == (a@ == b@),
{
    if a.len() != b.len() {
        return false;
    }
    let mut i: usize = 0;
    while i < a.len()
        invariant
            a@.len() == b@.len(),
            i <= a@.len(),
            forall|j: int| 0 <= j < i ==> a@[j] == b@[j],
        decreases a@.len() - i,
    {
        if a[i] != b[i] {
            return false;
        }
        i += 1;
    }
    assert(a@ =~= b@);
    true
}

/// Whether a character is in ASCII.
pub fn is_ascii_char(c: char) -> (r: bool)
    ensures
        r == ('\0' <= c <= '\u{7f}'),
{
    c as u32 <= 0x7f
}

/// Whether a text is in ASCII.
pub fn is_ascii_text(s: &str) -> (r: bool)
    ensures
        r == is_ascii_chars(s@),
{
    let chars = chars_of(s);
    let mut i: usize = 0;
    while i < chars.len()
        invariant
            i <= chars@.len(),
            chars@ == s@,
            forall|j: int| 0 <= j < i ==> '\0' <= #[trigger] s@[j] <= '\u{7f}',
        decreases chars@.len() - i,
    {
        let c = chars[i];
        assert(c == s@[i as int]);
        if !is_ascii_char(c) {
            return false;
        }
        i += 1;
    }
    true
}

/// The position of the first `c`, or the length where there is none.
pub fn find(s: &[char], c: char) -> (r: usize)
    ensures
        r == index_of(s@, c),
        r <= s@.len(),
{
    let mut i: usize = 0;
    assert(s@.skip(0) == s@);
    while i < s.len()
        invariant
            i <= s@.len(),
            index_of(s@, c) == i + index_of(s@.skip(i as int), c),
        decreases s@.len() - i,
    {
        if s[i] == c {
            return i;
        }
        assert(s@.skip(i as int).drop_first() == s@.skip(i + 1));
        i += 1;
    }
    i
}

/// The position of the last `c`, where there is one.
pub fn rfind(s: &[char], c: char) -> (r: Option<usize>)
    ensures
        r matches Some(i) ==> i < s@.len() && last_index_of(s@, c) == Some(i as nat),
        r is None ==> last_index_of(s@, c) is None,
{
    let mut n: usize = s.len();
    assert(s@.take(n as int) == s@);
    while n > 0
        invariant
            n <= s@.len(),
            last_index_of(s@, c) == last_index_of(s@.take(n as int), c),
        decreases n,
    {
        if s[n - 1] == c {
            return Some(n - 1);
        }
        assert(s@.take(n as int).drop_last() == s@.take(n - 1));
        n -= 1;
    }
    None
}

/// Whether `s` begins with `prefix`.
pub fn starts_with(s: &[char], prefix: &[char]) -> (r: bool)
    ensures
        r == prefix@.is_prefix_of(s@),
{
    prefix.len() <= s.len() && same_chars(vstd::slice::slice_subrange(s, 0, prefix.len()), prefix)
}

/// Whether `s` ends with `suffix`.
pub fn ends_with(s: &[char], suffix: &[char]) -> (r: bool)
    ensures
        r == suffix@.is_suffix_of(s@),
{
    suffix.len() <= s.len() && same_chars(
        vstd::slice::slice_subrange(s, s.len() - suffix.len(), s.len()),
        suffix,
    )
}

/// Whether `part` occurs somewhere in `s`.
pub fn contains(s: &[char], part: &[char]) -> (r: bool)
    ensures
        r == occurs(part@, s@),
{
    let mut i: usize = 0;
    while i <= s.len() && part.len() <= s.len() - i
        invariant
            i <= s@.len() + 1,
            forall|j: int| 0 <= j < i ==> !occurs_at(part@, s@, j),
        decreases s@.len() + 1 - i,
    {
        if same_chars(vstd::slice::slice_subrange(s, i, i + part.len()), part) {
            assert(occurs_at(part@, s@, i as int));
            return true;
        }
        if i == s.len() {
            assert forall|j: int| !occurs_at(part@, s@, j) by {}
            return false;
        }
        i += 1;
    }
    assert forall|j: int| !occurs_at(part@, s@, j) by {}
    false
}

// ---------------------------------------------------------------------------
// Cutting
// ---------------------------------------------------------------------------

/// Whether a character has Unicode's `White_Space` property.
pub fn white_space(c: char) -> (r: bool)
    ensures
        r == is_white_space(c),
{
    let n: u32 = c as u32;
    (0x09 <= n && n <= 0x0d) || n == 0x20 || n == 0x85 || n == 0xa0 || n == 0x1680 || (0x2000 <= n
        && n <= 0x200a) || n == 0x2028 || n == 0x2029 || n == 0x202f || n == 0x205f || n == 0x3000
}

/// `s` without the white space that it begins with.
pub fn trim_start(s: &[char]) -> (r: &[char])
    ensures
        r@ == trimmed_start(s@),
{
    let mut i: usize = 0;
    assert(s@.skip(0) == s@);
    while i < s.len() && white_space(s[i])
        invariant
            i <= s@.len(),
            trimmed_start(s@) == trimmed_start(s@.skip(i as int)),
        decreases s@.len() - i,
    {
        assert(s@.skip(i as int).drop_first() == s@.skip(i + 1));
        i += 1;
    }
    vstd::slice::slice_subrange(s, i, s.len())
}

/// `s` without the white space at either end.
pub fn trim(s: &[char]) -> (r: &[char])
    ensures
        r@ == trimmed(s@),
{
    let rest = trim_start(s);
    let mut n: usize = rest.len();
    assert(rest@.take(n as int) == rest@);
    while n > 0 && white_space(rest[n - 1])
        invariant
            n <= rest@.len(),
            trimmed_end(rest@) == trimmed_end(rest@.take(n as int)),
        decreases n,
    {
        assert(rest@.take(n as int).drop_last() == rest@.take(n - 1));
        n -= 1;
    }
    vstd::slice::slice_subrange(rest, 0, n)
}

/// `s` without the characters `c` that it begins with.
pub fn strip_leading(s: &[char], c: char) -> (r: &[char])
    ensures
        r@ == without_leading(s@, c),
{
    let mut i: usize = 0;
    assert(s@.skip(0) == s@);
    while i < s.len() && s[i] == c
        invariant
            i <= s@.len(),
            without_leading(s@, c) == without_leading(s@.skip(i as int), c),
        decreases s@.len() - i,
    {
        assert(s@.skip(i as int).drop_first() == s@.skip(i + 1));
        i += 1;
    }
    vstd::slice::slice_subrange(s, i, s.len())
}

/// The words of a text.
pub fn split_words(text: &str) -> (r: Vec<String>)
    ensures
        texts(r@) == words(text@),
{
    let all = chars_of(text);
    let mut out: Vec<String> = Vec::new();
    let mut rest: &[char] = trim_start(all.as_slice());
    assert(texts(out@) == Seq::<Seq<char>>::empty());
    proof {
        lemma_words_of_trimmed(text@);
    }
    while rest.len() > 0
        invariant
            words(text@) == texts(out@) + words(rest@),
            rest@ == trimmed_start(rest@),
        decreases rest@.len(),
    {
        let mut n: usize = 0;
        proof {
            lemma_trimmed_start_bound(rest@);
            assert(rest@.skip(0) == rest@);
        }
        while n < rest.len() && !white_space(rest[n])
            invariant
                n <= rest@.len(),
                word_len(rest@) == n + word_len(rest@.skip(n as int)),
            decreases rest@.len() - n,
        {
            assert(rest@.skip(n as int).drop_first() == rest@.skip(n + 1));
            n += 1;
        }
        let ghost before = texts(out@);
        let word = vstd::slice::slice_subrange(rest, 0, n);
        let tail = vstd::slice::slice_subrange(rest, n, rest.len());
        out.push(string_of(word));
        proof {
            assert(texts(out@) == before.push(word@));
            assert(word@ == rest@.take(word_len(rest@) as int));
            assert(tail@ == rest@.skip(word_len(rest@) as int));
            lemma_words_of_trimmed(tail@);
            lemma_trimmed_start_bound(tail@);
            assert(n > 0);
        }
        rest = trim_start(tail);
    }
    out
}

/// Leading white space does not change the words, and trimming twice trims once.
proof fn lemma_words_of_trimmed(s: Seq<char>)
    ensures
        trimmed_start(trimmed_start(s)) == trimmed_start(s),
        words(trimmed_start(s)) == words(s),
{
    lemma_trimmed_start_bound(s);
}

/// The lines of a text.
pub fn split_lines(text: &str) -> (r: Vec<String>)
    ensures
        texts(r@) == lines(text@),
{
    let all = chars_of(text);
    let mut out: Vec<String> = Vec::new();
    let mut rest: &[char] = all.as_slice();
    assert(texts(out@) == Seq::<Seq<char>>::empty());
    while rest.len() > 0
        invariant
            lines(text@) == texts(out@) + lines(rest@),
        decreases rest@.len(),
    {
        let n = find(rest, '\n');
        let ghost before = texts(out@);
        if n == rest.len() {
            out.push(string_of(rest));
            proof {
                assert(texts(out@) == before.push(rest@));
                assert(lines(rest@) == seq![rest@]);
            }
            return out;
        }
        let line = vstd::slice::slice_subrange(rest, 0, n);
        let end: usize = if n > 0 && line[n - 1] == '\r' {
            n - 1
        } else {
            n
        };
        let kept = vstd::slice::slice_subrange(line, 0, end);
        out.push(string_of(kept));
        let tail = vstd::slice::slice_subrange(rest, n + 1, rest.len());
        proof {
            assert(line@ == rest@.take(n as int));
            assert(kept@ == without_return(line@));
            assert(texts(out@) == before.push(kept@));
            assert(tail@ == rest@.skip(n + 1));
        }
        rest = tail;
    }
    out
}

// ---------------------------------------------------------------------------
// Putting together
// ---------------------------------------------------------------------------

/// `parts` one after the other, with `sep` between each two.
pub fn join(parts: &[String], sep: &str) -> (r: String)
    ensures
        r@ == joined(texts(parts@), sep@),
{
    let ghost all = texts(parts@);
    let mut out = String::new();
    let mut i: usize = 0;
    assert(all.skip(0) == all);
    while i < parts.len()
        invariant
            i <= parts@.len(),
            all == texts(parts@),
            i == 0 ==> out@ == Seq::<char>::empty(),
            0 < i < parts@.len() ==> joined(all, sep@) == out@ + sep@ + joined(
                all.skip(i as int),
                sep@,
            ),
            0 < i == parts@.len() ==> joined(all, sep@) == out@,
            all.skip(0) == all,
        decreases parts@.len() - i,
    {
        let ghost before = out@;
        if i > 0 {
            out.append(sep);
        }
        out.append(parts[i].as_str());
        proof {
            let rest = all.skip(i as int);
            assert(rest[0] == all[i as int]);
            assert(rest.drop_first() == all.skip(i + 1));
            assert(all[i as int] == parts@[i as int]@);
            if i == 0 {
                assert(out@ == all[0]);
            } else {
                assert(out@ == before + sep@ + all[i as int]);
                if i + 1 < parts@.len() {
                    assert(joined(all, sep@) == out@ + sep@ + joined(all.skip(i + 1), sep@));
                }
            }
        }
        i += 1;
    }
    out
}

/// `parts` as lines of text, the last one ended too.
pub fn join_lines(parts: &[String]) -> (r: String)
    ensures
        r@ == joined_lines(texts(parts@)),
{
    let mut out = join(parts, "\n");
    out.append("\n");
    out
}

/// `a`, then `b`.
pub fn concat(a: &str, b: &str) -> (r: String)
    ensures
        r@ == a@ + b@,
{
    let mut out = String::new();
    out.append(a);
    out.append(b);
    out
}

/// `a`, then `b`, then `c`.
pub fn concat3(a: &str, b: &str, c: &str) -> (r: String)
    ensures
        r@ == a@ + b@ + c@,
{
    let mut out = concat(a, b);
    out.append(c);
    out
}

// ---------------------------------------------------------------------------
// Numbers
// ---------------------------------------------------------------------------

/// `n` in decimal.
pub fn to_decimal(n: u64) -> (r: String)
    ensures
        r@ == decimal(n as nat),
    decreases n,
{
    let d: u8 = 48 + (n % 10) as u8;
    let mut out = if n < 10 {
        String::new()
    } else {
        to_decimal(n / 10)
    };
    out.push(d as char);
    out
}

/// The number that a text denotes, where it denotes one of at most `max`.
pub fn parse_number(s: &[char], max: u64) -> (r: Option<u64>)
    ensures
        r matches Some(n) ==> number(s@, max as nat) == Some(n as nat),
        r is None ==> number(s@, max as nat) is None,
{
    let digits = if s.len() > 0 && s[0] == '+' {
        vstd::slice::slice_subrange(s, 1, s.len())
    } else {
        s
    };
    if digits.len() == 0 {
        return None;
    }
    let mut value: u64 = 0;
    let mut i: usize = 0;
    while i < digits.len()
        invariant
            i <= digits@.len(),
            value <= max,
            value == digits_value(digits@.take(i as int)),
            all_digits(digits@.take(i as int)),
            digits@ == (if s@.len() > 0 && s@[0] == '+' {
                s@.skip(1)
            } else {
                s@
            }),
        decreases digits@.len() - i,
    {
        let c = digits[i];
        if !('0' <= c && c <= '9') {
            assert(!is_digit(digits@[i as int]));
            return None;
        }
        let d: u64 = (c as u32 - 48) as u64;
        proof {
            assert(digits@.take(i + 1).drop_last() == digits@.take(i as int));
            assert(digits@.take(i + 1).last() == c);
            assert(digits_value(digits@.take(i + 1)) == 10 * value + d);
        }
        if d > max || value > (max - d) / 10 {
            proof {
                assert(10 * value + d > max);
                lemma_digits_value_grows(digits@, i + 1);
            }
            return None;
        }
        value = 10 * value + d;
        i += 1;
    }
    assert(digits@.take(i as int) == digits@);
    Some(value)
}

/// More digits denote no smaller number.
proof fn lemma_digits_value_grows(s: Seq<char>, n: int)
    requires
        0 <= n <= s.len(),
    ensures
        digits_value(s.take(n)) <= digits_value(s),
    decreases s.len() - n,
{
    if n == s.len() {
        assert(s.take(n) == s);
    } else {
        assert(s.take(n + 1).drop_last() == s.take(n));
        lemma_digits_value_grows(s, n + 1);
    }
}

/// `bytes` in lower-case hexadecimal.
pub fn to_hex(bytes: &[u8]) -> (r: String)
    ensures
        r@ == hex(bytes@),
{
    let mut out = String::new();
    let mut i: usize = 0;
    while i < bytes.len()
        invariant
            i <= bytes@.len(),
            out@ == hex(bytes@.take(i as int)),
        decreases bytes@.len() - i,
    {
        let b = bytes[i];
        out.push(to_hex_digit(b / 16));
        out.push(to_hex_digit(b % 16));
        assert(out@ == hex(bytes@.take(i + 1)));
        i += 1;
    }
    assert(bytes@.take(i as int) == bytes@);
    out
}

fn to_hex_digit(d: u8) -> (r: char)
    requires
        d < 16,
    ensures
        r == hex_digit(d as nat),
{
    if d < 10 {
        (48 + d) as char
    } else {
        (87 + d) as char
    }
}

// ---------------------------------------------------------------------------
// Laws
// ---------------------------------------------------------------------------

/// Whether a text can stand as a line: it has no line feed, and does not end with a carriage
/// return.
pub open spec fn is_line(s: Seq<char>) -> bool {
    &&& !s.contains('\n')
    &&& s.len() > 0 ==> s.last() != '\r'
}

/// The first `c` behind a text without one is right behind it.
proof fn lemma_index_of_behind(s: Seq<char>, c: char, rest: Seq<char>)
    requires
        !s.contains(c),
    ensures
        index_of(s + seq![c] + rest, c) == s.len(),
    decreases s.len(),
{
    let all = s + seq![c] + rest;
    if s.len() > 0 {
        assert(s.contains(s[0]));
        assert(all[0] == s[0]);
        assert forall|i: int| 0 <= i < s.drop_first().len() implies s.drop_first()[i] != c by {
            assert(s.contains(s[i + 1]));
        }
        lemma_index_of_behind(s.drop_first(), c, rest);
        assert(all.drop_first() =~= s.drop_first() + seq![c] + rest);
    }
}

/// The first line and the rest of joined lines.
proof fn lemma_joined_lines_first(parts: Seq<Seq<char>>)
    requires
        parts.len() > 1,
    ensures
        joined_lines(parts) == parts[0] + "\n"@ + joined_lines(parts.drop_first()),
{
    assert(joined_lines(parts) =~= parts[0] + "\n"@ + joined_lines(parts.drop_first()));
}

/// Texts without a line feed that are written as lines read back, each without the carriage return
/// that it ends with.
pub proof fn lemma_lines_of_joined(parts: Seq<Seq<char>>)
    requires
        parts.len() > 0,
        forall|i: int| 0 <= i < parts.len() ==> !(#[trigger] parts[i]).contains('\n'),
    ensures
        lines(joined_lines(parts)) == parts.map_values(|part: Seq<char>| without_return(part)),
    decreases parts.len(),
{
    reveal_strlit("\n");
    assert("\n"@ =~= seq!['\n']);
    let strip = |part: Seq<char>| without_return(part);
    let all = joined_lines(parts);
    let first = parts[0];
    let n = first.len() as int;
    assert(!parts[0].contains('\n'));
    if parts.len() == 1 {
        assert(all =~= first + seq!['\n'] + Seq::<char>::empty());
        lemma_index_of_behind(first, '\n', Seq::empty());
        assert(all.take(n) =~= first);
        assert(lines(all.skip(n + 1)) =~= Seq::<Seq<char>>::empty());
        assert(seq![without_return(first)] + Seq::<Seq<char>>::empty() =~= parts.map_values(strip));
    } else {
        let rest = parts.drop_first();
        lemma_joined_lines_first(parts);
        assert forall|i: int| 0 <= i < rest.len() implies !(#[trigger] rest[i]).contains('\n') by {
            assert(rest[i] == parts[i + 1]);
        }
        lemma_lines_of_joined(rest);
        assert(all =~= first + seq!['\n'] + joined_lines(rest));
        lemma_index_of_behind(first, '\n', joined_lines(rest));
        assert(all.take(n) =~= first);
        assert(all.skip(n + 1) =~= joined_lines(rest));
        assert(seq![without_return(first)] + rest.map_values(strip) =~= parts.map_values(strip));
    }
}

/// No line of a text has a line feed.
pub proof fn lemma_lines_have_no_feed(s: Seq<char>)
    ensures
        forall|i: int| 0 <= i < lines(s).len() ==> !(#[trigger] lines(s)[i]).contains('\n'),
    decreases s.len(),
{
    if s.len() > 0 {
        let n = index_of(s, '\n') as int;
        lemma_index_of_bound(s, '\n');
        if n < s.len() {
            let first = without_return(s.take(n));
            let rest = lines(s.skip(n + 1));
            lemma_lines_have_no_feed(s.skip(n + 1));
            assert forall|i: int| 0 <= i < lines(s).len() implies !(#[trigger] lines(
                s,
            )[i]).contains('\n') by {
                if i == 0 {
                    assert forall|j: int| 0 <= j < first.len() implies first[j] != '\n' by {
                        assert(first[j] == s[j]);
                    }
                } else {
                    assert(lines(s)[i] == rest[i - 1]);
                }
            }
        } else {
            assert(lines(s) =~= seq![s]);
        }
    }
}

/// Lines that are written as a text read back as they were.
pub proof fn law_lines_read_back(parts: Seq<Seq<char>>)
    requires
        parts.len() > 0,
        forall|i: int| 0 <= i < parts.len() ==> is_line(#[trigger] parts[i]),
    ensures
        lines(joined_lines(parts)) == parts,
{
    assert forall|i: int| 0 <= i < parts.len() implies !(#[trigger] parts[i]).contains('\n') by {
        assert(is_line(parts[i]));
    }
    lemma_lines_of_joined(parts);
    assert forall|i: int| 0 <= i < parts.len() implies without_return(#[trigger] parts[i])
        == parts[i] by {
        assert(is_line(parts[i]));
    }
    assert(parts.map_values(|part: Seq<char>| without_return(part)) =~= parts);
}

/// A number that is written in decimal reads back as it was.
pub proof fn law_decimal_reads_back(n: nat, max: nat)
    requires
        n <= max,
    ensures
        number(decimal(n), max) == Some(n),
{
    lemma_decimal(n);
}

/// What `decimal` writes is digits that denote the number.
pub proof fn lemma_decimal(n: nat)
    ensures
        decimal(n).len() > 0,
        all_digits(decimal(n)),
        digits_value(decimal(n)) == n,
    decreases n,
{
    let s = decimal(n);
    if n < 10 {
        assert(s.drop_last() =~= Seq::<char>::empty());
        assert(digits_value(s.drop_last()) == 0);
    } else {
        lemma_decimal(n / 10);
        assert(s.drop_last() =~= decimal(n / 10));
        assert forall|i: int| 0 <= i < s.len() implies is_digit(#[trigger] s[i]) by {
            if i < s.len() - 1 {
                assert(s[i] == decimal(n / 10)[i]);
            }
        }
    }
}

/// White space at either end is cut off, and nothing else: what stands between white space and
/// neither begins nor ends with it is what is left.
pub proof fn law_trimmed_is_what_is_between(left: Seq<char>, s: Seq<char>, right: Seq<char>)
    requires
        forall|i: int| 0 <= i < left.len() ==> is_white_space(#[trigger] left[i]),
        forall|i: int| 0 <= i < right.len() ==> is_white_space(#[trigger] right[i]),
        s.len() > 0 ==> !is_white_space(s[0]) && !is_white_space(s.last()),
    ensures
        trimmed(left + s + right) == s,
    decreases left.len() + right.len(),
{
    let all = left + s + right;
    if s.len() == 0 {
        lemma_blank_is_trimmed_away(all);
    } else if left.len() > 0 {
        assert(is_white_space(left[0]));
        assert(all[0] == left[0]);
        assert(all.drop_first() =~= left.drop_first() + s + right);
        assert forall|i: int| 0 <= i < left.drop_first().len() implies is_white_space(
            #[trigger] left.drop_first()[i],
        ) by {
            assert(left.drop_first()[i] == left[i + 1]);
        }
        law_trimmed_is_what_is_between(left.drop_first(), s, right);
    } else {
        assert(all =~= s + right);
        assert(all[0] == s[0]);
        assert(trimmed_start(all) == all);
        lemma_trimmed_end_of(s, right);
    }
}

/// A text of white space alone is cut off whole.
pub proof fn lemma_blank_is_trimmed_away(s: Seq<char>)
    requires
        forall|i: int| 0 <= i < s.len() ==> is_white_space(#[trigger] s[i]),
    ensures
        trimmed_start(s).len() == 0,
        trimmed(s) == Seq::<char>::empty(),
    decreases s.len(),
{
    if s.len() > 0 {
        assert(is_white_space(s[0]));
        assert forall|i: int| 0 <= i < s.drop_first().len() implies is_white_space(
            #[trigger] s.drop_first()[i],
        ) by {
            assert(s.drop_first()[i] == s[i + 1]);
        }
        lemma_blank_is_trimmed_away(s.drop_first());
    }
    assert(trimmed_start(s) =~= Seq::<char>::empty());
}

/// White space behind a text that does not end with it is cut off.
proof fn lemma_trimmed_end_of(s: Seq<char>, right: Seq<char>)
    requires
        s.len() > 0,
        !is_white_space(s.last()),
        forall|i: int| 0 <= i < right.len() ==> is_white_space(#[trigger] right[i]),
    ensures
        trimmed_end(s + right) == s,
    decreases right.len(),
{
    let all = s + right;
    if right.len() > 0 {
        assert(is_white_space(right[right.len() - 1]));
        assert(all.last() == right[right.len() - 1]);
        assert(all.drop_last() =~= s + right.drop_last());
        assert forall|i: int| 0 <= i < right.drop_last().len() implies is_white_space(
            #[trigger] right.drop_last()[i],
        ) by {
            assert(right.drop_last()[i] == right[i]);
        }
        lemma_trimmed_end_of(s, right.drop_last());
    } else {
        assert(all =~= s);
    }
}

/// A word and white space behind it come off a text one after the other: its words are the word,
/// and then those of the rest.
pub proof fn law_words_come_one_by_one(word: Seq<char>, c: char, rest: Seq<char>)
    requires
        word.len() > 0,
        forall|i: int| 0 <= i < word.len() ==> !is_white_space(#[trigger] word[i]),
        is_white_space(c),
    ensures
        words(word + seq![c] + rest) == seq![word] + words(rest),
        words(word) == seq![word],
{
    let all = word + seq![c] + rest;
    assert(!is_white_space(word[0]));
    assert(all[0] == word[0]);
    lemma_word_len_of(word, seq![c] + rest);
    assert(all =~= word + (seq![c] + rest));
    assert(all.take(word.len() as int) =~= word);
    let tail = all.skip(word.len() as int);
    assert(tail =~= seq![c] + rest);
    assert(tail[0] == c);
    assert(tail.drop_first() =~= rest);
    assert(trimmed_start(tail) == trimmed_start(rest));
    assert(words(tail) == words(rest));
    lemma_word_len_of(word, Seq::empty());
    assert(word + Seq::<char>::empty() =~= word);
    assert(word.take(word.len() as int) =~= word);
    assert(word.skip(word.len() as int) =~= Seq::<char>::empty());
    assert(words(Seq::<char>::empty()) =~= Seq::<Seq<char>>::empty());
}

/// The word that a text begins with ends at its first white space.
proof fn lemma_word_len_of(word: Seq<char>, rest: Seq<char>)
    requires
        forall|i: int| 0 <= i < word.len() ==> !is_white_space(#[trigger] word[i]),
        rest.len() > 0 ==> is_white_space(rest[0]),
    ensures
        word_len(word + rest) == word.len(),
    decreases word.len(),
{
    let all = word + rest;
    if word.len() > 0 {
        assert(!is_white_space(word[0]));
        assert(all[0] == word[0]);
        assert(all.drop_first() =~= word.drop_first() + rest);
        assert forall|i: int| 0 <= i < word.drop_first().len() implies !is_white_space(
            #[trigger] word.drop_first()[i],
        ) by {
            assert(word.drop_first()[i] == word[i + 1]);
        }
        lemma_word_len_of(word.drop_first(), rest);
    } else {
        assert(all =~= rest);
    }
}

/// A text occurs in another exactly when the other is made of something before it, it, and
/// something behind it.
pub proof fn law_what_occurs_is_between(part: Seq<char>, s: Seq<char>)
    ensures
        occurs(part, s) <==> exists|left: Seq<char>, right: Seq<char>| s == #[trigger] (left + part
            + right),
{
    if occurs(part, s) {
        let i = choose|i: int| occurs_at(part, s, i);
        let left = s.take(i);
        let right = s.skip(i + part.len());
        assert(s =~= left + part + right);
    }
    if exists|left: Seq<char>, right: Seq<char>| s == #[trigger] (left + part + right) {
        let (left, right) = choose|left: Seq<char>, right: Seq<char>|
            s == #[trigger] (left + part + right);
        assert(s.subrange(left.len() as int, (left.len() + part.len()) as int) =~= part);
        assert(occurs_at(part, s, left.len() as int));
    }
}

/// The text before the first `c`, with `c` and whatever is behind it, has its first `c` there; and
/// the text before the last one its last.
pub proof fn law_first_and_last_positions(left: Seq<char>, c: char, right: Seq<char>)
    ensures
        !left.contains(c) ==> index_of(left + seq![c] + right, c) == left.len(),
        !right.contains(c) ==> last_index_of(left + seq![c] + right, c) == Some(left.len()),
    decreases right.len(),
{
    let all = left + seq![c] + right;
    if !left.contains(c) {
        lemma_index_of_behind(left, c, right);
    }
    if !right.contains(c) {
        if right.len() > 0 {
            assert(right.contains(right[right.len() - 1]));
            assert(all.last() == right[right.len() - 1]);
            assert(all.drop_last() =~= left + seq![c] + right.drop_last());
            assert forall|i: int| 0 <= i < right.drop_last().len() implies right.drop_last()[i]
                != c by {
                assert(right.contains(right[i]));
            }
            law_first_and_last_positions(left, c, right.drop_last());
        } else {
            assert(all.last() == c);
        }
    }
}

/// Parts that are joined stand one after the other, with the separator between them.
pub proof fn law_joined_parts(parts: Seq<Seq<char>>, last: Seq<char>, sep: Seq<char>)
    ensures
        joined(seq![last], sep) == last,
        parts.len() > 0 ==> joined(parts.push(last), sep) == joined(parts, sep) + sep + last,
    decreases parts.len(),
{
    if parts.len() == 1 {
        let all = parts.push(last);
        assert(all.drop_first() =~= seq![last]);
        assert(joined(all.drop_first(), sep) == last);
    } else if parts.len() > 1 {
        let all = parts.push(last);
        law_joined_parts(parts.drop_first(), last, sep);
        assert(all.drop_first() =~= parts.drop_first().push(last));
        assert(joined(all, sep) =~= joined(parts, sep) + sep + last);
    }
}

/// What is written in hexadecimal reads back: each byte is read off its two digits, the high one
/// first.
pub proof fn law_hex_reads_back(bytes: Seq<u8>, i: int)
    requires
        0 <= i < bytes.len(),
    ensures
        hex(bytes).len() == 2 * bytes.len(),
        hex_value(hex(bytes)[2 * i]) * 16 + hex_value(hex(bytes)[2 * i + 1]) == bytes[i],
{
    let high = (bytes[i] / 16) as nat;
    let low = (bytes[i] % 16) as nat;
    assert(2 * i / 2 == i && (2 * i + 1) / 2 == i && (2 * i) % 2 == 0 && (2 * i + 1) % 2 == 1);
    assert(hex(bytes)[2 * i] == hex_digit(high));
    assert(hex(bytes)[2 * i + 1] == hex_digit(low));
    assert(hex_value(hex_digit(high)) == high);
    assert(hex_value(hex_digit(low)) == low);
}

/// The number that a lower-case hexadecimal digit denotes.
pub open spec fn hex_value(c: char) -> int {
    if '0' <= c <= '9' {
        c as int - '0' as int
    } else {
        c as int - 'a' as int + 10
    }
}

/// A text is read as a number exactly when it is decimal digits, with one `+` before them or none,
/// for a number that is not too large; each further digit counts the ones before it ten times.
pub proof fn law_numbers_are_decimal(digits: Seq<char>, d: char, max: nat)
    requires
        '0' <= d <= '9',
    ensures
        number(Seq::empty(), max) is None,
        number(seq!['+'] + digits, max) is Some ==> digits.len() > 0 && (digits[0] != '+'),
        digits.len() > 0 && digits[0] != '+' ==> number(seq!['+'] + digits, max) == number(
            digits,
            max,
        ),
        digits.len() > 0 && digits[0] != '+' && number(digits, max) is Some && number(digits, max)->0
            * 10 + (d as int - '0' as int) <= max ==> number(digits.push(d), max) == Some(
            (number(digits, max)->0 * 10 + (d as int - '0' as int)) as nat,
        ),
        forall|i: int|
            1 <= i < digits.len() && !('0' <= #[trigger] digits[i] <= '9') ==> number(digits, max)
                is None,
        number(digits, max) matches Some(n) ==> n <= max,
{
    let signed = seq!['+'] + digits;
    assert(signed.skip(1) =~= digits);
    if digits.len() > 0 && digits[0] != '+' {
        let more = digits.push(d);
        assert(more.drop_last() =~= digits);
        assert(more[0] == digits[0]);
        if number(digits, max) is Some {
            assert forall|i: int| 0 <= i < more.len() implies is_digit(#[trigger] more[i]) by {
                if i < digits.len() {
                    assert(is_digit(digits[i]));
                }
            }
        }
    }
    if digits.len() > 0 && digits[0] == '+' {
        assert(!is_digit(digits[0]));
    }
    assert forall|i: int| 1 <= i < digits.len() && !('0' <= #[trigger] digits[i] <= '9') implies number(
        digits,
        max,
    ) is None by {
        if digits[0] == '+' {
            assert(digits.skip(1)[i - 1] == digits[i]);
            assert(!is_digit(digits.skip(1)[i - 1]));
        } else {
            assert(!is_digit(digits[i]));
        }
    }
}

/// The texts of strings are theirs, each in its place.
pub proof fn law_texts_of_strings(strings: Seq<String>, i: int)
    ensures
        texts(strings).len() == strings.len(),
        0 <= i < strings.len() ==> texts(strings)[i] == strings[i]@,
{
}

/// The characters that are white space, by their code points.
pub proof fn law_white_space(c: char)
    ensures
        is_white_space(c) <==> seq![
            0x9int,
            0xa,
            0xb,
            0xc,
            0xd,
            0x20,
            0x85,
            0xa0,
            0x1680,
            0x2000,
            0x2001,
            0x2002,
            0x2003,
            0x2004,
            0x2005,
            0x2006,
            0x2007,
            0x2008,
            0x2009,
            0x200a,
            0x2028,
            0x2029,
            0x202f,
            0x205f,
            0x3000,
        ].contains(c as int),
{
    let all = seq![
        0x9int,
        0xa,
        0xb,
        0xc,
        0xd,
        0x20,
        0x85,
        0xa0,
        0x1680,
        0x2000,
        0x2001,
        0x2002,
        0x2003,
        0x2004,
        0x2005,
        0x2006,
        0x2007,
        0x2008,
        0x2009,
        0x200a,
        0x2028,
        0x2029,
        0x202f,
        0x205f,
        0x3000,
    ];
    let n = c as int;
    if 0x9 <= n <= 0xd {
        assert(all[n - 0x9] == n);
    } else if 0x2000 <= n <= 0x200a {
        assert(all[n - 0x2000 + 9] == n);
    } else {
        assert(all[5] == 0x20 && all[6] == 0x85 && all[7] == 0xa0 && all[8] == 0x1680);
        assert(all[20] == 0x2028 && all[21] == 0x2029 && all[22] == 0x202f);
        assert(all[23] == 0x205f && all[24] == 0x3000);
    }
}

/// What is left without its leading characters is the end of the text, behind nothing but that
/// character, and does not begin with it.
pub proof fn law_leading_characters_go(s: Seq<char>, c: char)
    ensures
        ({
            let left = without_leading(s, c);
            &&& left.len() <= s.len()
            &&& left == s.skip(s.len() - left.len())
            &&& forall|i: int| 0 <= i < s.len() - left.len() ==> s[i] == c
            &&& left.len() > 0 ==> left[0] != c
        }),
    decreases s.len(),
{
    let left = without_leading(s, c);
    if s.len() > 0 && s[0] == c {
        let rest = s.drop_first();
        law_leading_characters_go(rest, c);
        assert(left =~= s.skip(s.len() - left.len()));
        assert forall|i: int| 0 <= i < s.len() - left.len() implies s[i] == c by {
            if i > 0 {
                assert(rest[i - 1] == s[i]);
            }
        }
    } else {
        assert(left =~= s.skip(0));
    }
}

/// Lines are read one after the other: a line ends with a line feed, or with a carriage return and
/// one, neither of which is part of it; the last one may also end with the text.
pub proof fn law_lines_come_one_by_one(line: Seq<char>, rest: Seq<char>)
    requires
        !line.contains('\n'),
    ensures
        lines(Seq::empty()) == Seq::<Seq<char>>::empty(),
        line.len() > 0 ==> lines(line) == seq![line],
        line.len() == 0 || line.last() != '\r' ==> lines(line + seq!['\n'] + rest) == seq![line]
            + lines(rest),
        lines(line + seq!['\r', '\n'] + rest) == seq![line] + lines(rest),
{
    let plain = line + seq!['\n'] + rest;
    law_first_and_last_positions(line, '\n', rest);
    assert(plain.take(line.len() as int) =~= line);
    assert(plain.skip(line.len() as int + 1) =~= rest);
    let returned = line.push('\r');
    let other = returned + seq!['\n'] + rest;
    assert(other =~= line + seq!['\r', '\n'] + rest);
    assert forall|i: int| 0 <= i < returned.len() implies returned[i] != '\n' by {
        if i < line.len() {
            assert(line.contains(line[i]));
        }
    }
    law_first_and_last_positions(returned, '\n', rest);
    assert(other.take(returned.len() as int) =~= returned);
    assert(other.skip(returned.len() as int + 1) =~= rest);
    assert(returned.drop_last() =~= line);
    if line.len() > 0 {
        assert forall|i: int| 0 <= i < line.len() implies line[i] != '\n' by {
            assert(line.contains(line[i]));
        }
        lemma_no_feed(line);
    }
}

/// Where a text has no line feed, there is no position of one.
proof fn lemma_no_feed(s: Seq<char>)
    requires
        forall|i: int| 0 <= i < s.len() ==> s[i] != '\n',
    ensures
        index_of(s, '\n') == s.len(),
    decreases s.len(),
{
    if s.len() > 0 {
        let rest = s.drop_first();
        assert forall|i: int| 0 <= i < rest.len() implies rest[i] != '\n' by {
            assert(rest[i] == s[i + 1]);
        }
        lemma_no_feed(rest);
    }
}

/// Lines are written one after the other, each with a line feed behind it; no lines are written as
/// a line feed.
pub proof fn law_lines_are_written_one_by_one(parts: Seq<Seq<char>>, last: Seq<char>)
    ensures
        joined_lines(Seq::empty()) == seq!['\n'],
        joined_lines(seq![last]) == last + seq!['\n'],
        parts.len() > 0 ==> joined_lines(parts.push(last)) == joined_lines(parts) + last
            + seq!['\n'],
{
    reveal_strlit("\n");
    law_joined_parts(parts, last, "\n"@);
    assert("\n"@ =~= seq!['\n']);
    assert(joined_lines(Seq::empty()) =~= seq!['\n']);
}

} // verus!
