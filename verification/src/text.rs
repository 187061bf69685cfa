//! Text: UTF-8, white space, lines and fields.

use vstd::prelude::*;
use vstd::slice::slice_subrange;
use vstd::string::{StrSliceExecFns, StringExecFns, StringSliceAdditionalSpecFns};
use vstd::utf8::{
    decode_utf8, encode_utf8, encode_utf8_decode_utf8, encode_utf8_valid_utf8, pop_first_scalar,
    valid_utf8,
};

verus! {

/// Where bytes stop being UTF-8.
pub struct Utf8Stop {
    /// How many bytes in front make whole characters.
    pub valid_up_to: usize,
    /// How many bytes behind them are to be skipped, unless all are.
    pub error_len: Option<usize>,
}

/// The first `n` bytes, and no more of them, are UTF-8.
pub open spec fn longest_valid(bytes: Seq<u8>, n: int) -> bool {
    &&& 0 <= n <= bytes.len()
    &&& valid_utf8(bytes.take(n))
    &&& forall|m: int| n < m <= bytes.len() ==> !valid_utf8(#[trigger] bytes.take(m))
}

/// How many bytes make up the first sequence that is not UTF-8, where it does not reach to the
/// end of the input: what `Utf8Error::error_len` tells of an input.
pub uninterp spec fn utf8_error_len(bytes: Seq<u8>) -> Option<nat>;

/// Reads bytes as text.
///
/// Calls `core::str::from_utf8`. What is believed of it: it succeeds exactly on UTF-8, with the
/// text that the bytes encode; otherwise `valid_up_to` is the greatest length of a prefix that is
/// UTF-8, and a sequence of known length that is not UTF-8 has at least one byte and lies inside
/// the input. How long that sequence is, is a function of the input that is not spelled out.
#[verifier::external_body]
pub(crate) fn from_utf8(bytes: &[u8]) -> (res: Result<&str, Utf8Stop>)
    ensures
        match res {
            Ok(text) => valid_utf8(bytes@) && text.spec_bytes() == bytes@,
            Err(stop) => {
                &&& !valid_utf8(bytes@)
                &&& longest_valid(bytes@, stop.valid_up_to as int)
                &&& match stop.error_len {
                    None => utf8_error_len(bytes@) is None,
                    Some(n) => {
                        &&& utf8_error_len(bytes@) == Some(n as nat)
                        &&& 0 < n
                        &&& stop.valid_up_to + n <= bytes@.len()
                    },
                }
            },
        },
{
    match core::str::from_utf8(bytes) {
        Ok(text) => Ok(text),
        Err(e) => Err(Utf8Stop { valid_up_to: e.valid_up_to(), error_len: e.error_len() }),
    }
}

/// The text of bytes that need not be UTF-8: each sequence that is not becomes U+FFFD.
pub open spec fn lossy_text(bytes: Seq<u8>) -> Seq<char>
    decreases bytes.len(),
{
    if valid_utf8(bytes) {
        decode_utf8(bytes)
    } else {
        let n = choose|n: int| longest_valid(bytes, n);
        decode_utf8(bytes.take(n)) + "\u{FFFD}"@ + match utf8_error_len(bytes) {
            Some(len) if 0 < len && 0 <= n && n + len <= bytes.len() => lossy_text(
                bytes.skip(n + len),
            ),
            _ => Seq::empty(),
        }
    }
}

proof fn lemma_longest_valid_unique(bytes: Seq<u8>, n: int, m: int)
    requires
        longest_valid(bytes, n),
        longest_valid(bytes, m),
    ensures
        n == m,
{
    assert(valid_utf8(bytes.take(n)));
    assert(valid_utf8(bytes.take(m)));
}

proof fn lemma_lossy_step(bytes: Seq<u8>, n: int)
    requires
        !valid_utf8(bytes),
        longest_valid(bytes, n),
        utf8_error_len(bytes) matches Some(len) ==> 0 < len && n + len <= bytes.len(),
    ensures
        lossy_text(bytes) == decode_utf8(bytes.take(n)) + "\u{FFFD}"@ + match utf8_error_len(bytes) {
            Some(len) => lossy_text(bytes.skip(n + len)),
            None => Seq::empty(),
        },
{
    lemma_longest_valid_unique(bytes, n, choose|m: int| longest_valid(bytes, m));
}

/// Reads bytes as text, with U+FFFD in place of each sequence that is not UTF-8.
pub fn lossy(bytes: &[u8]) -> (res: String)
    ensures
        res@ == lossy_text(bytes@),
{
    let mut out: String = String::new();
    let mut rest: &[u8] = bytes;
    assert(out@ + lossy_text(rest@) =~= lossy_text(bytes@));
    loop
        invariant
            out@ + lossy_text(rest@) == lossy_text(bytes@),
        decreases rest@.len(),
    {
        let ghost before = out@;
        match from_utf8(rest) {
            Ok(text) => {
                proof {
                    encode_utf8_decode_utf8(text@);
                }
                out.append(text);
                return out;
            },
            Err(stop) => {
                let n: usize = stop.valid_up_to;
                proof {
                    lemma_lossy_step(rest@, n as int);
                }
                let prefix: &[u8] = slice_subrange(rest, 0, n);
                assert(prefix@ =~= rest@.take(n as int));
                if let Ok(text) = from_utf8(prefix) {
                    proof {
                        encode_utf8_decode_utf8(text@);
                    }
                    out.append(text);
                }
                out.append("\u{FFFD}");
                let ghost head = decode_utf8(rest@.take(n as int)) + "\u{FFFD}"@;
                assert(out@ =~= before + head);
                match stop.error_len {
                    None => {
                        assert(before + (head + Seq::<char>::empty()) =~= before + head);
                        return out;
                    },
                    Some(len) => {
                        let ghost tail = rest@.skip(n + len);
                        assert(n + len <= rest.len());
                        let next: &[u8] = slice_subrange(rest, n + len, rest.len());
                        assert(next@ =~= tail);
                        assert(before + (head + lossy_text(tail)) =~= (before + head) + lossy_text(
                            tail,
                        ));
                        rest = next;
                    },
                }
            },
        }
    }
}

proof fn lemma_decoded_len(bytes: Seq<u8>)
    requires
        valid_utf8(bytes),
    ensures
        decode_utf8(bytes).len() <= bytes.len(),
    decreases bytes.len(),
{
    if bytes.len() > 0 {
        lemma_decoded_len(pop_first_scalar(bytes));
    }
}

proof fn lemma_longest_valid_exists(bytes: Seq<u8>, k: int)
    requires
        0 <= k <= bytes.len(),
        forall|m: int| k < m <= bytes.len() ==> !valid_utf8(#[trigger] bytes.take(m)),
    ensures
        exists|n: int| longest_valid(bytes, n),
    decreases k,
{
    if valid_utf8(bytes.take(k)) {
        assert(longest_valid(bytes, k));
    } else {
        assert(k > 0);
        lemma_longest_valid_exists(bytes, k - 1);
    }
}

/// A text has no more characters than the bytes that it was read from.
pub proof fn lossy_text_is_no_longer(bytes: Seq<u8>)
    ensures
        lossy_text(bytes).len() <= bytes.len(),
    decreases bytes.len(),
{
    reveal_strlit("\u{FFFD}");
    if valid_utf8(bytes) {
        lemma_decoded_len(bytes);
    } else {
        assert(bytes.take(bytes.len() as int) =~= bytes);
        lemma_longest_valid_exists(bytes, bytes.len() as int);
        let n = choose|n: int| longest_valid(bytes, n);
        assert(n < bytes.len());
        lemma_decoded_len(bytes.take(n));
        if let Some(len) = utf8_error_len(bytes) {
            if 0 < len && n + len <= bytes.len() {
                lossy_text_is_no_longer(bytes.skip(n + len));
            }
        }
    }
}

/// UTF-8 takes at most four bytes for a character.
pub proof fn encoded_length(text: Seq<char>)
    ensures
        text.len() <= encode_utf8(text).len() <= 4 * text.len(),
    decreases text.len(),
{
    if text.len() > 0 {
        encoded_length(text.drop_first());
    }
}

/// The characters of a text.
pub fn chars_of(text: &str) -> (res: Vec<char>)
    ensures
        res@ == text@,
{
    let mut out: Vec<char> = Vec::new();
    for c in it: text.chars()
        invariant
            out@ == it.seq().take(it.index() as int),
            it.seq() == text@,
    {
        out.push(c);
        assert(out@ =~= it.seq().take(it.index() + 1));
    }
    assert(out@ =~= text@);
    out
}

/// `prefix` stands at the beginning of `s`.
pub open spec fn begins_with(s: Seq<char>, prefix: Seq<char>) -> bool {
    prefix.len() <= s.len() && s.take(prefix.len() as int) == prefix
}

/// The text behind `prefix`, if the text begins with it.
pub fn strip_prefix<'a>(text: &'a str, prefix: &str) -> (res: Option<&'a str>)
    ensures
        match res {
            Some(rest) => begins_with(text@, prefix@) && rest@ == text@.skip(prefix@.len() as int),
            None => !begins_with(text@, prefix@),
        },
{
    let chars: Vec<char> = chars_of(text);
    let wanted: Vec<char> = chars_of(prefix);
    if wanted.len() > chars.len() {
        return None;
    }
    let mut i: usize = 0;
    while i < wanted.len()
        invariant
            i <= wanted@.len() <= chars@.len(),
            chars@ == text@,
            wanted@ == prefix@,
            forall|k: int| 0 <= k < i ==> chars@[k] == wanted@[k],
        decreases wanted@.len() - i,
    {
        if chars[i] != wanted[i] {
            assert(text@.take(prefix@.len() as int)[i as int] != prefix@[i as int]);
            return None;
        }
        i = i + 1;
    }
    assert(text@.take(prefix@.len() as int) =~= prefix@);
    let rest: &'a str = text.substring_char(wanted.len(), chars.len());
    assert(rest@ =~= text@.skip(prefix@.len() as int));
    Some(rest)
}

/// A decimal digit.
pub open spec fn is_digit_char(c: char) -> bool {
    '0' <= c && c <= '9'
}

/// Only decimal digits, and at least one.
pub open spec fn is_number(s: Seq<char>) -> bool {
    s.len() > 0 && forall|i: int| 0 <= i < s.len() ==> is_digit_char(#[trigger] s[i])
}

/// The number that decimal digits spell.
pub open spec fn number(s: Seq<char>) -> nat
    decreases s.len(),
{
    if s.len() == 0 {
        0
    } else {
        10 * number(s.drop_last()) + (s.last() as nat - '0' as nat) as nat
    }
}

proof fn lemma_number_grows(s: Seq<char>, n: int)
    requires
        0 <= n <= s.len(),
    ensures
        number(s.take(n)) <= number(s),
    decreases s.len() - n,
{
    if n == s.len() {
        assert(s.take(n) =~= s);
    } else {
        lemma_number_grows(s, n + 1);
        assert(s.take(n + 1).drop_last() =~= s.take(n));
    }
}

/// Reads decimal digits that spell a number up to `max`.
pub fn parse_number(chars: &Vec<char>, from: usize, max: u32) -> (res: Option<u32>)
    requires
        from <= chars@.len(),
    ensures
        match res {
            Some(n) => {
                &&& is_number(chars@.skip(from as int))
                &&& n == number(chars@.skip(from as int))
                &&& n <= max
            },
            None => !is_number(chars@.skip(from as int)) || number(chars@.skip(from as int)) > max,
        },
{
    let ghost s = chars@.skip(from as int);
    let mut n: u64 = 0;
    let mut i: usize = from;
    assert(s.take(0) =~= Seq::<char>::empty());
    while i < chars.len()
        invariant
            from <= i <= chars@.len(),
            s == chars@.skip(from as int),
            n <= max,
            n == number(s.take(i - from)),
            forall|k: int| 0 <= k < i - from ==> is_digit_char(#[trigger] s[k]),
        decreases chars@.len() - i,
    {
        let c: char = chars[i];
        assert(c == s[i - from]);
        if !('0' <= c && c <= '9') {
            assert(!is_digit_char(s[i - from]));
            return None;
        }
        assert(s.take(i - from + 1).drop_last() =~= s.take(i - from));
        n = 10 * n + (c as u64 - '0' as u64);
        if n > max as u64 {
            proof {
                lemma_number_grows(s, i - from + 1);
            }
            return None;
        }
        i = i + 1;
    }
    if i == from {
        return None;
    }
    assert(s.take(i - from) =~= s);
    Some(n as u32)
}

/// A white space character, as Unicode has it.
pub open spec fn is_white_space(c: char) -> bool {
    ||| '\u{9}' <= c && c <= '\u{d}'
    ||| c == ' '
    ||| c == '\u{85}'
    ||| c == '\u{a0}'
    ||| c == '\u{1680}'
    ||| '\u{2000}' <= c && c <= '\u{200a}'
    ||| c == '\u{2028}'
    ||| c == '\u{2029}'
    ||| c == '\u{202f}'
    ||| c == '\u{205f}'
    ||| c == '\u{3000}'
}

/// Characters that can be trimmed off a text.
#[derive(Clone, Copy, Debug, PartialEq, Eq, Structural)]
pub enum CharClass {
    /// White space.
    WhiteSpace,
    /// One character.
    Only(char),
}

impl CharClass {
    /// The class has this character.
    pub open spec fn has(self, c: char) -> bool {
        match self {
            CharClass::WhiteSpace => is_white_space(c),
            CharClass::Only(only) => c == only,
        }
    }

    /// Whether the class has this character.
    pub fn contains(&self, c: char) -> (res: bool)
        ensures
            res == self.has(c),
    {
        match self {
            CharClass::WhiteSpace => ('\u{9}' <= c && c <= '\u{d}') || c == ' ' || c == '\u{85}'
                || c == '\u{a0}' || c == '\u{1680}' || ('\u{2000}' <= c && c <= '\u{200a}') || c
                == '\u{2028}' || c == '\u{2029}' || c == '\u{202f}' || c == '\u{205f}' || c
                == '\u{3000}',
            CharClass::Only(only) => c == *only,
        }
    }
}

/// A text without the characters of a class at its beginning.
pub open spec fn trim_start(s: Seq<char>, class: CharClass) -> Seq<char>
    decreases s.len(),
{
    if s.len() > 0 && class.has(s[0]) {
        trim_start(s.drop_first(), class)
    } else {
        s
    }
}

/// A text without the characters of a class at its end.
pub open spec fn trim_end(s: Seq<char>, class: CharClass) -> Seq<char>
    decreases s.len(),
{
    if s.len() > 0 && class.has(s.last()) {
        trim_end(s.drop_last(), class)
    } else {
        s
    }
}

/// A text without the characters of a class at its beginning and at its end.
pub open spec fn trim(s: Seq<char>, class: CharClass) -> Seq<char> {
    trim_end(trim_start(s, class), class)
}

/// Where the text between two positions begins once characters of a class are trimmed off.
pub fn find_start(chars: &Vec<char>, from: usize, to: usize, class: CharClass) -> (start: usize)
    requires
        from <= to <= chars@.len(),
    ensures
        from <= start <= to,
        chars@.subrange(start as int, to as int) == trim_start(
            chars@.subrange(from as int, to as int),
            class,
        ),
{
    let mut start: usize = from;
    while start < to && class.contains(chars[start])
        invariant
            from <= start <= to <= chars@.len(),
            trim_start(chars@.subrange(from as int, to as int), class) == trim_start(
                chars@.subrange(start as int, to as int),
                class,
            ),
        decreases to - start,
    {
        assert(chars@.subrange(start as int, to as int).drop_first() =~= chars@.subrange(
            start + 1,
            to as int,
        ));
        start = start + 1;
    }
    start
}

/// Where the text between two positions ends once characters of a class are trimmed off.
pub fn find_end(chars: &Vec<char>, from: usize, to: usize, class: CharClass) -> (end: usize)
    requires
        from <= to <= chars@.len(),
    ensures
        from <= end <= to,
        chars@.subrange(from as int, end as int) == trim_end(
            chars@.subrange(from as int, to as int),
            class,
        ),
{
    let mut end: usize = to;
    while end > from && class.contains(chars[end - 1])
        invariant
            from <= end <= to <= chars@.len(),
            trim_end(chars@.subrange(from as int, to as int), class) == trim_end(
                chars@.subrange(from as int, end as int),
                class,
            ),
        decreases end,
    {
        assert(chars@.subrange(from as int, end as int).drop_last() =~= chars@.subrange(
            from as int,
            end - 1,
        ));
        end = end - 1;
    }
    end
}

/// The index of the first `c`, or the length where there is none.
pub open spec fn index_of_char(s: Seq<char>, c: char) -> nat
    decreases s.len(),
{
    if s.len() == 0 || s[0] == c {
        0
    } else {
        1 + index_of_char(s.drop_first(), c)
    }
}

proof fn lemma_index_of_char(s: Seq<char>, c: char, n: int)
    requires
        0 <= n <= s.len(),
        forall|i: int| 0 <= i < n ==> s[i] != c,
        n < s.len() ==> s[n] == c,
    ensures
        index_of_char(s, c) == n,
    decreases n,
{
    if n > 0 {
        lemma_index_of_char(s.drop_first(), c, n - 1);
    }
}

/// Finds the first `c` between two positions; the second position where there is none.
pub fn find_char(chars: &Vec<char>, from: usize, to: usize, c: char) -> (at: usize)
    requires
        from <= to <= chars@.len(),
    ensures
        from <= at <= to,
        at - from == index_of_char(chars@.subrange(from as int, to as int), c),
{
    let ghost s = chars@.subrange(from as int, to as int);
    let mut at: usize = from;
    while at < to && chars[at] != c
        invariant
            from <= at <= to <= chars@.len(),
            s == chars@.subrange(from as int, to as int),
            forall|i: int| 0 <= i < at - from ==> s[i] != c,
        decreases to - at,
    {
        assert(s[at - from] == chars@[at as int]);
        at = at + 1;
    }
    proof {
        if at < to {
            assert(s[at - from] == chars@[at as int]);
        }
        lemma_index_of_char(s, c, at - from);
    }
    at
}

/// The first line of a text, without its line ending: LF, or CR and LF.
pub open spec fn first_line(s: Seq<char>) -> Seq<char> {
    let end = index_of_char(s, '\n') as int;
    let line = s.take(end);
    if end < s.len() && line.len() > 0 && line.last() == '\r' {
        line.drop_last()
    } else {
        line
    }
}

/// The text behind the first line.
pub open spec fn other_lines(s: Seq<char>) -> Seq<char> {
    let end = index_of_char(s, '\n') as int;
    if end < s.len() {
        s.skip(end + 1)
    } else {
        Seq::empty()
    }
}

/// The value of a field in a text of lines that hold a key and a value with a separator between
/// them: what stands behind the first separator in the first line with that key. Lines without
/// separator are passed over. Where `loose`, white space around the key is ignored.
pub open spec fn field(s: Seq<char>, separator: char, key: Seq<char>, loose: bool) -> Option<
    Seq<char>,
>
    decreases s.len(),
{
    let line = first_line(s);
    let at = index_of_char(line, separator) as int;
    let found = if loose {
        trim(line.take(at), CharClass::WhiteSpace)
    } else {
        line.take(at)
    };
    if s.len() == 0 {
        None
    } else if at < line.len() && found == key {
        Some(line.skip(at + 1))
    } else if other_lines(s).len() < s.len() {
        field(other_lines(s), separator, key, loose)
    } else {
        None
    }
}

/// Whether the text between two positions is `wanted`.
fn is_text_at(chars: &Vec<char>, from: usize, to: usize, wanted: &Vec<char>) -> (res: bool)
    requires
        from <= to <= chars@.len(),
    ensures
        res == (chars@.subrange(from as int, to as int) == wanted@),
{
    let ghost s = chars@.subrange(from as int, to as int);
    if to - from != wanted.len() {
        return false;
    }
    let mut i: usize = 0;
    while i < wanted.len()
        invariant
            i <= wanted@.len(),
            from + wanted@.len() == to,
            to <= chars@.len(),
            s == chars@.subrange(from as int, to as int),
            forall|k: int| 0 <= k < i ==> s[k] == wanted@[k],
        decreases wanted@.len() - i,
    {
        assert(s[i as int] == chars@[from + i]);
        if chars[from + i] != wanted[i] {
            return false;
        }
        i = i + 1;
    }
    assert(s =~= wanted@);
    true
}

/// Finds the value of a field, and returns where it stands.
pub fn find_field(chars: &Vec<char>, separator: char, key: &str, loose: bool) -> (res: Option<
    (usize, usize),
>)
    ensures
        match res {
            Some((from, to)) => {
                &&& from <= to <= chars@.len()
                &&& field(chars@, separator, key@, loose) == Some(
                    chars@.subrange(from as int, to as int),
                )
            },
            None => field(chars@, separator, key@, loose) is None,
        },
{
    let wanted: Vec<char> = chars_of(key);
    let mut pos: usize = 0;
    assert(chars@.skip(0) =~= chars@);
    while pos < chars.len()
        invariant
            pos <= chars@.len(),
            wanted@ == key@,
            field(chars@, separator, key@, loose) == field(
                chars@.skip(pos as int),
                separator,
                key@,
                loose,
            ),
        decreases chars@.len() - pos,
    {
        let ghost s = chars@.skip(pos as int);
        let newline: usize = find_char(chars, pos, chars.len(), '\n');
        assert(chars@.subrange(pos as int, chars@.len() as int) =~= s);
        let ends: bool = newline < chars.len();
        let end: usize = if ends && newline > pos && chars[newline - 1] == '\r' {
            newline - 1
        } else {
            newline
        };
        let ghost line = first_line(s);
        assert(chars@.subrange(pos as int, end as int) =~= line);
        let at: usize = find_char(chars, pos, end, separator);
        let (from, to): (usize, usize) = if loose {
            let from: usize = find_start(chars, pos, at, CharClass::WhiteSpace);
            (from, find_end(chars, from, at, CharClass::WhiteSpace))
        } else {
            (pos, at)
        };
        assert(chars@.subrange(pos as int, at as int) =~= line.take(at - pos));
        if at < end && is_text_at(chars, from, to, &wanted) {
            assert(chars@.subrange(at + 1, end as int) =~= line.skip(at - pos + 1));
            return Some((at + 1, end));
        }
        assert(other_lines(s) =~= chars@.skip(if ends {
            newline + 1
        } else {
            chars@.len() as int
        }));
        pos =
        if ends {
            newline + 1
        } else {
            chars.len()
        };
    }
    assert(chars@.skip(pos as int) =~= Seq::<char>::empty());
    None
}

proof fn lemma_trim_start(left: Seq<char>, rest: Seq<char>, class: CharClass)
    requires
        forall|i: int| 0 <= i < left.len() ==> class.has(#[trigger] left[i]),
        rest.len() > 0 ==> !class.has(rest[0]),
    ensures
        trim_start(left + rest, class) == rest,
    decreases left.len(),
{
    if left.len() == 0 {
        assert(left + rest =~= rest);
    } else {
        assert(class.has(left[0]));
        assert((left + rest)[0] == left[0]);
        assert((left + rest).drop_first() =~= left.drop_first() + rest);
        assert forall|i: int| 0 <= i < left.drop_first().len() implies class.has(
            #[trigger] left.drop_first()[i],
        ) by {
            assert(class.has(left[i + 1]));
        }
        lemma_trim_start(left.drop_first(), rest, class);
    }
}

/// Trimming the end gives back what stands in front of the characters that are trimmed off.
pub proof fn trimming_the_end_gives_back_the_front(
    front: Seq<char>,
    right: Seq<char>,
    class: CharClass,
)
    requires
        forall|i: int| 0 <= i < right.len() ==> class.has(#[trigger] right[i]),
        front.len() > 0 ==> !class.has(front.last()),
    ensures
        trim_end(front + right, class) == front,
    decreases right.len(),
{
    if right.len() == 0 {
        assert(front + right =~= front);
    } else {
        assert(class.has(right[right.len() - 1]));
        assert((front + right).last() == right[right.len() - 1]);
        assert((front + right).drop_last() =~= front + right.drop_last());
        assert forall|i: int| 0 <= i < right.drop_last().len() implies class.has(
            #[trigger] right.drop_last()[i],
        ) by {
            assert(class.has(right[i]));
        }
        trimming_the_end_gives_back_the_front(front, right.drop_last(), class);
    }
}

/// Trimming takes off the characters of the class on both sides, all of them and nothing else:
/// it gives back what stands between them, whatever characters that has inside.
pub proof fn trimming_gives_back_the_core(
    left: Seq<char>,
    core: Seq<char>,
    right: Seq<char>,
    class: CharClass,
)
    requires
        forall|i: int| 0 <= i < left.len() ==> class.has(#[trigger] left[i]),
        forall|i: int| 0 <= i < right.len() ==> class.has(#[trigger] right[i]),
        core.len() > 0 ==> !class.has(core[0]) && !class.has(core.last()),
    ensures
        trim(left + core + right, class) == core,
{
    if core.len() == 0 {
        let all = left + right;
        assert(left + core + right =~= all);
        assert forall|i: int| 0 <= i < all.len() implies class.has(#[trigger] all[i]) by {
            if i < left.len() {
                assert(class.has(left[i]));
            } else {
                assert(class.has(right[i - left.len()]));
            }
        }
        lemma_trim_start(all, Seq::empty(), class);
        assert(all + Seq::<char>::empty() =~= all);
    } else {
        assert(left + core + right =~= left + (core + right));
        assert((core + right)[0] == core[0]);
        lemma_trim_start(left, core + right, class);
        trimming_the_end_gives_back_the_front(core, right, class);
    }
}

/// A text has this character nowhere.
pub open spec fn lacks(s: Seq<char>, c: char) -> bool {
    forall|i: int| 0 <= i < s.len() ==> #[trigger] s[i] != c
}

/// What can stand between a line and the text behind it: LF, or CR and LF; and nothing, where no
/// text follows.
pub open spec fn ends_line(line: Seq<char>, ending: Seq<char>, rest: Seq<char>) -> bool {
    ||| ending == seq!['\r', '\n']
    ||| ending == seq!['\n'] && !(line.len() > 0 && line.last() == '\r')
    ||| ending.len() == 0 && rest.len() == 0
}

proof fn lemma_lines(line: Seq<char>, ending: Seq<char>, rest: Seq<char>)
    requires
        lacks(line, '\n'),
        ends_line(line, ending, rest),
    ensures
        first_line(line + ending + rest) == line,
        other_lines(line + ending + rest) == rest,
{
    let s = line + ending + rest;
    if ending.len() == 0 {
        assert(s =~= line);
        lemma_index_of_char(s, '\n', s.len() as int);
        assert(s.take(s.len() as int) =~= line);
        assert(rest =~= Seq::empty());
    } else {
        let at = line.len() + ending.len() - 1;
        assert(s[at] == '\n');
        assert forall|i: int| 0 <= i < at implies s[i] != '\n' by {
            if i < line.len() {
                assert(s[i] == line[i]);
            }
        }
        lemma_index_of_char(s, '\n', at);
        assert(s.skip(at + 1) =~= rest);
        if ending.len() == 2 {
            assert(s.take(at) =~= line.push('\r'));
            assert(line.push('\r').drop_last() =~= line);
        } else {
            assert(s.take(at) =~= line);
        }
    }
}

proof fn lemma_key_and_value(k: Seq<char>, separator: char, value: Seq<char>)
    requires
        lacks(k, separator),
    ensures
        ({
            let line = k + seq![separator] + value;
            &&& index_of_char(line, separator) == k.len()
            &&& line.take(k.len() as int) == k
            &&& line.skip(k.len() as int + 1) == value
        }),
{
    let line = k + seq![separator] + value;
    assert(line[k.len() as int] == separator);
    assert forall|i: int| 0 <= i < k.len() implies line[i] != separator by {
        assert(line[i] == k[i]);
    }
    lemma_index_of_char(line, separator, k.len() as int);
    assert(line.take(k.len() as int) =~= k);
    assert(line.skip(k.len() as int + 1) =~= value);
}

/// What stands in front of the separator names the key: it is the key, and where `loose`, it may
/// have white space around it.
pub open spec fn names_key(k: Seq<char>, key: Seq<char>, loose: bool) -> bool {
    if loose {
        trim(k, CharClass::WhiteSpace) == key
    } else {
        k == key
    }
}

/// The first line that names the key gives the value: all that stands behind the first separator,
/// up to the end of the line.
pub proof fn first_line_with_the_key_gives_the_value(
    k: Seq<char>,
    separator: char,
    value: Seq<char>,
    ending: Seq<char>,
    rest: Seq<char>,
    key: Seq<char>,
    loose: bool,
)
    requires
        lacks(k, separator),
        lacks(k + seq![separator] + value, '\n'),
        ends_line(k + seq![separator] + value, ending, rest),
        names_key(k, key, loose),
    ensures
        field(k + seq![separator] + value + ending + rest, separator, key, loose) == Some(value),
{
    lemma_lines(k + seq![separator] + value, ending, rest);
    lemma_key_and_value(k, separator, value);
}

/// A line that names another key is passed over.
pub proof fn lines_with_other_keys_are_passed_over(
    k: Seq<char>,
    separator: char,
    value: Seq<char>,
    ending: Seq<char>,
    rest: Seq<char>,
    key: Seq<char>,
    loose: bool,
)
    requires
        lacks(k, separator),
        lacks(k + seq![separator] + value, '\n'),
        ends_line(k + seq![separator] + value, ending, rest),
        !names_key(k, key, loose),
    ensures
        field(k + seq![separator] + value + ending + rest, separator, key, loose) == field(
            rest,
            separator,
            key,
            loose,
        ),
{
    lemma_lines(k + seq![separator] + value, ending, rest);
    lemma_key_and_value(k, separator, value);
}

/// A line without separator is passed over, and an empty text has no field.
pub proof fn lines_without_separator_are_passed_over(
    line: Seq<char>,
    separator: char,
    ending: Seq<char>,
    rest: Seq<char>,
    key: Seq<char>,
    loose: bool,
)
    requires
        lacks(line, separator),
        lacks(line, '\n'),
        ends_line(line, ending, rest),
    ensures
        field(line + ending + rest, separator, key, loose) == field(rest, separator, key, loose),
        field(Seq::empty(), separator, key, loose) is None,
{
    lemma_lines(line, ending, rest);
    lemma_index_of_char(line, separator, line.len() as int);
    if line.len() + ending.len() == 0 {
        assert(line + ending + rest =~= rest);
    }
}

/// A number in decimal digits, without leading zeros.
pub open spec fn decimal_text(n: nat) -> Seq<char>
    decreases n,
{
    if n < 10 {
        seq![('0' as int + n) as char]
    } else {
        decimal_text(n / 10).push(('0' as int + n % 10) as char)
    }
}

/// Whoever writes a number in decimal digits is understood: reading gives the number back, and
/// zeros in front make no difference.
pub proof fn reading_undoes_writing(n: nat, zeros: nat)
    ensures
        is_number(decimal_text(n)),
        number(decimal_text(n)) == n,
        decimal_text(n)[0] != '+' && decimal_text(n)[0] != '-',
        is_number(Seq::new(zeros, |i: int| '0') + decimal_text(n)),
        number(Seq::new(zeros, |i: int| '0') + decimal_text(n)) == n,
    decreases n, zeros,
{
    let text = decimal_text(n);
    reveal_with_fuel(number, 2);
    if n < 10 {
        assert(text.drop_last() =~= Seq::empty());
    } else {
        reading_undoes_writing(n / 10, 0);
        assert(text.drop_last() =~= decimal_text(n / 10));
    }
    assert forall|i: int| 0 <= i < text.len() implies is_digit_char(#[trigger] text[i]) by {
        if i < text.len() - 1 {
            assert(is_digit_char(decimal_text(n / 10)[i]));
        }
    }
    lemma_leading_zeros(zeros, text);
    let padded = Seq::new(zeros, |i: int| '0') + text;
    assert forall|i: int| 0 <= i < padded.len() implies is_digit_char(#[trigger] padded[i]) by {
        if i >= zeros {
            assert(is_digit_char(text[i - zeros]));
        }
    }
}

proof fn lemma_leading_zeros(zeros: nat, text: Seq<char>)
    ensures
        number(Seq::new(zeros, |i: int| '0') + text) == number(text),
    decreases zeros + text.len(),
{
    let front = Seq::new(zeros, |i: int| '0');
    if text.len() > 0 {
        assert((front + text).drop_last() =~= front + text.drop_last());
        lemma_leading_zeros(zeros, text.drop_last());
    } else if zeros > 0 {
        let less = Seq::new((zeros - 1) as nat, |i: int| '0');
        assert((front + text).drop_last() =~= less + text);
        lemma_leading_zeros((zeros - 1) as nat, text);
    }
}

/// Text in UTF-8 is read as it is.
pub proof fn valid_text_is_read_as_it_is(text: Seq<char>)
    ensures
        lossy_text(encode_utf8(text)) == text,
{
    encode_utf8_valid_utf8(text);
    encode_utf8_decode_utf8(text);
}

/// Bytes that are not all UTF-8 are read as the text in front of the first sequence that is not,
/// with U+FFFD behind it.
pub proof fn invalid_text_is_read_up_to_its_flaw(bytes: Seq<u8>, n: int)
    requires
        !valid_utf8(bytes),
        longest_valid(bytes, n),
    ensures
        ({
            let front = decode_utf8(bytes.take(n));
            let text = lossy_text(bytes);
            &&& text.len() > front.len()
            &&& text.take(front.len() as int) == front
            &&& text[front.len() as int] == '\u{FFFD}'
        }),
{
    reveal_strlit("\u{FFFD}");
    lemma_longest_valid_unique(bytes, n, choose|m: int| longest_valid(bytes, m));
    let front = decode_utf8(bytes.take(n));
    assert(lossy_text(bytes).take(front.len() as int) =~= front);
}

/// A text begins with a prefix exactly if it is the prefix with something, or nothing, behind it.
pub proof fn beginnings_can_be_cut_off(s: Seq<char>, prefix: Seq<char>, rest: Seq<char>)
    ensures
        begins_with(prefix + rest, prefix),
        begins_with(s, prefix) ==> s == prefix + s.skip(prefix.len() as int),
{
    assert((prefix + rest).take(prefix.len() as int) =~= prefix);
    if begins_with(s, prefix) {
        assert(s =~= s.take(prefix.len() as int) + s.skip(prefix.len() as int));
    }
}

} // verus!
