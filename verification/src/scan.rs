//! Taking text apart: pieces, words, lines and numbers.

use vstd::prelude::*;

use crate::text::{chars_of, join2};

verus! {

/// `c` is white space: it has the Unicode property White_Space.
pub open spec fn is_white(c: char) -> bool {
    ||| '\t' <= c <= '\r'
    ||| c == ' '
    ||| c == '\u{85}'
    ||| c == '\u{a0}'
    ||| c == '\u{1680}'
    ||| '\u{2000}' <= c <= '\u{200a}'
    ||| c == '\u{2028}'
    ||| c == '\u{2029}'
    ||| c == '\u{202f}'
    ||| c == '\u{205f}'
    ||| c == '\u{3000}'
}

/// Whether a character is white space.
fn white(c: char) -> (r: bool)
    ensures
        r == is_white(c),
{
    ('\t' <= c && c <= '\r') || c == ' ' || c == '\u{85}' || c == '\u{a0}' || c == '\u{1680}' || (
    '\u{2000}' <= c && c <= '\u{200a}') || c == '\u{2028}' || c == '\u{2029}' || c == '\u{202f}'
        || c == '\u{205f}' || c == '\u{3000}'
}

/// Where `sep` first stands in `s`; the length of `s` where it does not.
pub open spec fn first_of(s: Seq<char>, sep: char) -> int
    decreases s.len(),
{
    if s.len() == 0 || s[0] == sep {
        0
    } else {
        1 + first_of(s.drop_first(), sep)
    }
}

/// The pieces of `s` between the separators, at most `most` of them where that is given: the
/// last piece is then the rest, separators and all.
pub open spec fn pieces(s: Seq<char>, sep: char, most: Option<nat>) -> Seq<Seq<char>>
    decreases s.len(),
{
    let i = first_of(s, sep);
    if i >= s.len() || i < 0 || (most matches Some(n) && n <= 1) {
        seq![s]
    } else {
        let rest: Option<nat> = match most {
            Some(n) => Some((n - 1) as nat),
            None => None,
        };
        seq![s.take(i)] + pieces(s.skip(i + 1), sep, rest)
    }
}

/// `s` without the white space at its start.
pub open spec fn trim_front(s: Seq<char>) -> Seq<char>
    decreases s.len(),
{
    if s.len() > 0 && is_white(s[0]) {
        trim_front(s.drop_first())
    } else {
        s
    }
}

/// `s` without the white space at its end.
pub open spec fn trim_back(s: Seq<char>) -> Seq<char>
    decreases s.len(),
{
    if s.len() > 0 && is_white(s.last()) {
        trim_back(s.drop_last())
    } else {
        s
    }
}

/// `s` without white space at its ends.
pub open spec fn trimmed(s: Seq<char>) -> Seq<char> {
    trim_back(trim_front(s))
}

/// The texts of `list`.
pub open spec fn text_views(list: Seq<String>) -> Seq<Seq<char>> {
    list.map_values(|t: String| t@)
}

/// Where `sep` first stands in `chars` from `from` on; the length where it does not.
fn find_char(chars: &Vec<char>, from: usize, sep: char) -> (i: usize)
    requires
        from <= chars@.len(),
    ensures
        from <= i <= chars@.len(),
        i == from + first_of(chars@.skip(from as int), sep),
{
    let mut i: usize = from;
    while i < chars.len() && chars[i] != sep
        invariant
            from <= i <= chars@.len(),
            first_of(chars@.skip(from as int), sep) == (i - from) + first_of(
                chars@.skip(i as int),
                sep,
            ),
        decreases chars.len() - i,
    {
        assert(chars@.skip(i as int).drop_first() =~= chars@.skip(i + 1));
        i = i + 1;
    }
    i
}

/// The pieces of `s` between the separators, at most `most` of them where that is given.
pub fn split(s: &str, sep: char, most: Option<usize>) -> (r: Vec<String>)
    ensures
        text_views(r@) == pieces(
            s@,
            sep,
            match most {
                Some(n) => Some(n as nat),
                None => None,
            },
        ),
{
    let chars: Vec<char> = chars_of(s);
    let ghost limit: Option<nat> = match most {
        Some(n) => Some(n as nat),
        None => None,
    };
    let mut out: Vec<String> = Vec::new();
    let mut from: usize = 0;
    let mut left: Option<usize> = most;
    assert(s@.skip(0) =~= s@);
    assert(text_views(out@) =~= Seq::<Seq<char>>::empty());
    loop
        invariant_except_break
            from <= chars@.len(),
            chars@ == s@,
            ({
                let l: Option<nat> = match left {
                    Some(n) => Some(n as nat),
                    None => None,
                };
                pieces(s@, sep, limit) == text_views(out@) + pieces(s@.skip(from as int), sep, l)
            }),
        ensures
            text_views(out@) == pieces(s@, sep, limit),
        decreases chars@.len() - from,
    {
        let ghost before = text_views(out@);
        let i: usize = find_char(&chars, from, sep);
        let last: bool = match left {
            Some(n) => n <= 1,
            None => false,
        };
        if i >= chars.len() || last {
            out.push(s.substring_char(from, chars.len()).to_owned());
            assert(s@.subrange(from as int, chars@.len() as int) =~= s@.skip(from as int));
            assert(text_views(out@) =~= before + seq![s@.skip(from as int)]);
            break;
        }
        out.push(s.substring_char(from, i).to_owned());
        assert(s@.subrange(from as int, i as int) =~= s@.skip(from as int).take(i - from));
        assert(text_views(out@) =~= before + seq![s@.skip(from as int).take(i - from)]);
        assert(s@.skip(from as int).skip(i - from + 1) =~= s@.skip(i + 1));
        from = i + 1;
        left =
        match left {
            Some(n) => Some(n - 1),
            None => None,
        };
        proof {
            let l: Option<nat> = match left {
                Some(n) => Some(n as nat),
                None => None,
            };
            assert(pieces(s@, sep, limit) =~= text_views(out@) + pieces(
                s@.skip(from as int),
                sep,
                l,
            ));
        }
    }
    out
}

/// `s` without white space at its ends.
pub fn trim(s: &str) -> (r: String)
    ensures
        r@ == trimmed(s@),
{
    let chars: Vec<char> = chars_of(s);
    let mut from: usize = 0;
    assert(s@.skip(0) =~= s@);
    while from < chars.len() && white(chars[from])
        invariant
            from <= chars@.len(),
            chars@ == s@,
            trim_front(s@) == trim_front(s@.skip(from as int)),
        decreases chars.len() - from,
    {
        assert(s@.skip(from as int).drop_first() =~= s@.skip(from + 1));
        from = from + 1;
    }
    let ghost front = s@.skip(from as int);
    assert(trim_front(s@) == front);
    let mut to: usize = chars.len();
    assert(front =~= s@.subrange(from as int, to as int));
    while from < to && white(chars[to - 1])
        invariant
            from <= to <= chars@.len(),
            chars@ == s@,
            trim_back(front) == trim_back(s@.subrange(from as int, to as int)),
        decreases to,
    {
        assert(s@.subrange(from as int, to as int).drop_last() =~= s@.subrange(
            from as int,
            to - 1,
        ));
        to = to - 1;
    }
    s.substring_char(from, to).to_owned()
}

/// How many characters at the start of `s` are no white space.
pub open spec fn word_len(s: Seq<char>) -> int
    decreases s.len(),
{
    if s.len() == 0 || is_white(s[0]) {
        0
    } else {
        1 + word_len(s.drop_first())
    }
}

proof fn lemma_word_len_bound(s: Seq<char>)
    ensures
        0 <= word_len(s) <= s.len(),
        s.len() > 0 && !is_white(s[0]) ==> word_len(s) > 0,
    decreases s.len(),
{
    if s.len() > 0 && !is_white(s[0]) {
        lemma_word_len_bound(s.drop_first());
    }
}

/// The words of `s`: its longest stretches without white space.
pub open spec fn words_of(s: Seq<char>) -> Seq<Seq<char>>
    decreases s.len(),
{
    if s.len() == 0 {
        Seq::empty()
    } else if is_white(s[0]) {
        words_of(s.drop_first())
    } else {
        let n = word_len(s);
        if 0 < n <= s.len() {
            seq![s.take(n)] + words_of(s.skip(n))
        } else {
            Seq::empty()
        }
    }
}

/// The words of `s`.
pub fn words(s: &str) -> (r: Vec<String>)
    ensures
        text_views(r@) == words_of(s@),
{
    let chars: Vec<char> = chars_of(s);
    let mut out: Vec<String> = Vec::new();
    let mut from: usize = 0;
    assert(s@.skip(0) =~= s@);
    assert(text_views(out@) =~= Seq::<Seq<char>>::empty());
    while from < chars.len()
        invariant
            from <= chars@.len(),
            chars@ == s@,
            words_of(s@) == text_views(out@) + words_of(s@.skip(from as int)),
        decreases chars.len() - from,
    {
        let ghost rest = s@.skip(from as int);
        let ghost before = text_views(out@);
        if white(chars[from]) {
            assert(rest.drop_first() =~= s@.skip(from + 1));
            from = from + 1;
        } else {
            proof {
                lemma_word_len_bound(rest);
            }
            let mut to: usize = from;
            while to < chars.len() && !white(chars[to])
                invariant
                    from <= to <= chars@.len(),
                    chars@ == s@,
                    rest == s@.skip(from as int),
                    word_len(rest) == (to - from) + word_len(s@.skip(to as int)),
                decreases chars.len() - to,
            {
                assert(s@.skip(to as int).drop_first() =~= s@.skip(to + 1));
                to = to + 1;
            }
            out.push(s.substring_char(from, to).to_owned());
            assert(s@.subrange(from as int, to as int) =~= rest.take(to - from));
            assert(rest.skip(to - from) =~= s@.skip(to as int));
            assert(text_views(out@) =~= before + seq![rest.take(to - from)]);
            assert(words_of(s@) =~= text_views(out@) + words_of(s@.skip(to as int)));
            from = to;
        }
    }
    assert(text_views(out@) + Seq::<Seq<char>>::empty() =~= text_views(out@));
    out
}

/// `s` without the carriage return at its end, where there is one.
pub open spec fn without_return(s: Seq<char>) -> Seq<char> {
    if s.len() > 0 && s.last() == '\r' {
        s.drop_last()
    } else {
        s
    }
}

/// The lines of `s`. A line ends with a line feed, or a carriage return and a line feed; at
/// the end of the text nothing of the kind is needed.
pub open spec fn lines_of(s: Seq<char>) -> Seq<Seq<char>>
    decreases s.len(),
{
    let i = first_of(s, '\n');
    if s.len() == 0 {
        Seq::empty()
    } else if i < 0 || i >= s.len() {
        seq![s]
    } else {
        seq![without_return(s.take(i))] + lines_of(s.skip(i + 1))
    }
}

/// The lines of `s`.
pub fn lines(s: &str) -> (r: Vec<String>)
    ensures
        text_views(r@) == lines_of(s@),
{
    let chars: Vec<char> = chars_of(s);
    let mut out: Vec<String> = Vec::new();
    let mut from: usize = 0;
    assert(s@.skip(0) =~= s@);
    assert(text_views(out@) =~= Seq::<Seq<char>>::empty());
    while from < chars.len()
        invariant
            from <= chars@.len(),
            chars@ == s@,
            lines_of(s@) == text_views(out@) + lines_of(s@.skip(from as int)),
        decreases chars.len() - from,
    {
        let ghost rest = s@.skip(from as int);
        let ghost before = text_views(out@);
        let i: usize = find_char(&chars, from, '\n');
        if i >= chars.len() {
            out.push(s.substring_char(from, i).to_owned());
            assert(s@.subrange(from as int, i as int) =~= rest);
            assert(text_views(out@) =~= before + seq![rest]);
            assert(s@.skip(i as int) =~= Seq::<char>::empty());
            assert(lines_of(s@) =~= text_views(out@) + lines_of(s@.skip(i as int)));
            from = i;
        } else {
            let to: usize = if from < i && chars[i - 1] == '\r' {
                i - 1
            } else {
                i
            };
            out.push(s.substring_char(from, to).to_owned());
            assert(s@.subrange(from as int, to as int) =~= without_return(rest.take(i - from)));
            assert(text_views(out@) =~= before + seq![without_return(rest.take(i - from))]);
            assert(rest.skip(i - from + 1) =~= s@.skip(i + 1));
            assert(lines_of(s@) =~= text_views(out@) + lines_of(s@.skip(i + 1)));
            from = i + 1;
        }
    }
    assert(text_views(out@) + Seq::<Seq<char>>::empty() =~= text_views(out@));
    out
}

/// `c` is a decimal digit.
pub open spec fn is_digit(c: char) -> bool {
    '0' <= c <= '9'
}

/// The number that decimal digits write.
pub open spec fn digits_value(s: Seq<char>) -> int
    decreases s.len(),
{
    if s.len() == 0 {
        0
    } else {
        10 * digits_value(s.drop_last()) + (s.last() as int - '0' as int)
    }
}

/// `s` without the plus sign at its start, where there is one.
pub open spec fn unsigned_part(s: Seq<char>) -> Seq<char> {
    if s.len() > 0 && s[0] == '+' {
        s.drop_first()
    } else {
        s
    }
}

/// The number that `s` writes: decimal digits, with a plus sign before them or not; none
/// where `s` is something else, or the number takes more than 64 bits.
pub open spec fn number_of(s: Seq<char>) -> Option<u64> {
    let digits = unsigned_part(s);
    if digits.len() > 0 && (forall|i: int| 0 <= i < digits.len() ==> is_digit(#[trigger] digits[i]))
        && digits_value(digits) <= u64::MAX {
        Some(digits_value(digits) as u64)
    } else {
        None
    }
}

/// A longer row of digits does not write a smaller number.
proof fn lemma_digits_grow(s: Seq<char>, n: int)
    requires
        0 <= n <= s.len(),
        forall|i: int| 0 <= i < s.len() ==> is_digit(#[trigger] s[i]),
    ensures
        0 <= digits_value(s.take(n)) <= digits_value(s),
    decreases s.len(),
{
    if n == s.len() {
        assert(s.take(n) =~= s);
        if s.len() > 0 {
            let shorter = s.drop_last();
            lemma_digits_grow(shorter, shorter.len() as int);
            assert(is_digit(s[s.len() - 1]));
        }
    } else {
        let shorter = s.drop_last();
        lemma_digits_grow(shorter, n);
        assert(shorter.take(n) =~= s.take(n));
        assert(is_digit(s[s.len() - 1]));
    }
}

/// The number that `s` writes.
pub fn parse_number(s: &str) -> (r: Option<u64>)
    ensures
        r == number_of(s@),
{
    let chars: Vec<char> = chars_of(s);
    let start: usize = if chars.len() > 0 && chars[0] == '+' {
        1
    } else {
        0
    };
    let ghost digits = unsigned_part(s@);
    assert(digits =~= s@.skip(start as int));
    if start >= chars.len() {
        return None;
    }
    let mut i: usize = start;
    while i < chars.len()
        invariant
            start <= i <= chars@.len(),
            chars@ == s@,
            digits == unsigned_part(s@),
            digits == s@.skip(start as int),
            forall|j: int| 0 <= j < i - start ==> is_digit(#[trigger] digits[j]),
        decreases chars.len() - i,
    {
        let c: char = chars[i];
        if !('0' <= c && c <= '9') {
            assert(!is_digit(digits[i - start]));
            return None;
        }
        assert(is_digit(digits[i - start]));
        i = i + 1;
    }
    let mut value: u64 = 0;
    let mut k: usize = start;
    assert(digits.take(0) =~= Seq::<char>::empty());
    while k < chars.len()
        invariant
            start <= k <= chars@.len(),
            chars@ == s@,
            digits == unsigned_part(s@),
            digits == s@.skip(start as int),
            forall|j: int| 0 <= j < digits.len() ==> is_digit(#[trigger] digits[j]),
            value == digits_value(digits.take(k - start)),
        decreases chars.len() - k,
    {
        let ghost n = k - start;
        assert(is_digit(digits[n]));
        assert(digits.take(n + 1).drop_last() =~= digits.take(n));
        let d: u64 = (chars[k] as u32 - '0' as u32) as u64;
        proof {
            lemma_digits_grow(digits, n + 1);
        }
        if value > (u64::MAX - d) / 10 {
            return None;
        }
        value = value * 10 + d;
        k = k + 1;
    }
    assert(digits.take(digits.len() as int) =~= digits);
    Some(value)
}

/// The decimal digits of a number.
pub open spec fn digits_of(n: nat) -> Seq<char>
    decreases n,
{
    if n < 10 {
        seq![digit_char(n)]
    } else {
        digits_of(n / 10).push(digit_char(n % 10))
    }
}

/// The character of a digit.
pub open spec fn digit_char(d: nat) -> char {
    if d == 0 {
        '0'
    } else if d == 1 {
        '1'
    } else if d == 2 {
        '2'
    } else if d == 3 {
        '3'
    } else if d == 4 {
        '4'
    } else if d == 5 {
        '5'
    } else if d == 6 {
        '6'
    } else if d == 7 {
        '7'
    } else if d == 8 {
        '8'
    } else {
        '9'
    }
}

/// A number in decimal digits, with a minus sign where it is negative.
pub open spec fn decimal(n: int) -> Seq<char> {
    if n < 0 {
        seq!['-'] + digits_of((-n) as nat)
    } else {
        digits_of(n as nat)
    }
}

/// The text of a digit.
fn digit_text(d: u64) -> (r: &'static str)
    requires
        d < 10,
    ensures
        r@ == seq![digit_char(d as nat)],
{
    proof {
        reveal_strlit("0");
        reveal_strlit("1");
        reveal_strlit("2");
        reveal_strlit("3");
        reveal_strlit("4");
        reveal_strlit("5");
        reveal_strlit("6");
        reveal_strlit("7");
        reveal_strlit("8");
        reveal_strlit("9");
    }
    let r: &'static str = if d == 0 {
        "0"
    } else if d == 1 {
        "1"
    } else if d == 2 {
        "2"
    } else if d == 3 {
        "3"
    } else if d == 4 {
        "4"
    } else if d == 5 {
        "5"
    } else if d == 6 {
        "6"
    } else if d == 7 {
        "7"
    } else if d == 8 {
        "8"
    } else {
        "9"
    };
    assert(r@ =~= seq![digit_char(d as nat)]);
    r
}

/// The decimal digits of a number.
fn digits_text(n: u64) -> (r: String)
    ensures
        r@ == digits_of(n as nat),
    decreases n,
{
    if n < 10 {
        digit_text(n).to_owned()
    } else {
        let head: String = digits_text(n / 10);
        let r: String = join2(head.as_str(), digit_text(n % 10));
        assert(r@ =~= digits_of(n as nat));
        r
    }
}

/// A number in decimal digits.
pub fn decimal_text(n: i32) -> (r: String)
    ensures
        r@ == decimal(n as int),
{
    if n < 0 {
        let digits: String = digits_text((-(n as i64)) as u64);
        proof {
            reveal_strlit("-");
        }
        let r: String = join2("-", digits.as_str());
        assert(r@ =~= decimal(n as int));
        r
    } else {
        digits_text(n as u64)
    }
}

/// White space is 25 characters of these numbers: the five from 9 on, the eleven from 0x2000
/// on, and nine that stand alone.
pub proof fn white_space_by_number(c: char)
    ensures
        is_white(c) <==> {
            let n = c as int;
            ||| 9 <= n < 9 + 5
            ||| 0x2000 <= n < 0x2000 + 11
            ||| n == 0x20 || n == 0x85 || n == 0xa0
            ||| n == 0x1680 || n == 0x2028 || n == 0x2029
            ||| n == 0x202f || n == 0x205f || n == 0x3000
        },
{
}

/// A separator is found where it first stands: it stands there, and nowhere before; where it
/// does not stand at all, the end is found.
pub proof fn found_separator_is_the_first(s: Seq<char>, sep: char)
    ensures
        0 <= first_of(s, sep) <= s.len(),
        first_of(s, sep) < s.len() ==> s[first_of(s, sep)] == sep,
        forall|i: int| 0 <= i < first_of(s, sep) ==> #[trigger] s[i] != sep,
    decreases s.len(),
{
    if s.len() > 0 && s[0] != sep {
        let rest = s.drop_first();
        found_separator_is_the_first(rest, sep);
        assert forall|i: int| 0 <= i < first_of(s, sep) implies #[trigger] s[i] != sep by {
            if i > 0 {
                assert(rest[i - 1] == s[i]);
            }
        }
    }
}

/// Pieces with the separator between each two.
pub open spec fn joined(list: Seq<Seq<char>>, sep: char) -> Seq<char>
    decreases list.len(),
{
    if list.len() == 0 {
        Seq::empty()
    } else if list.len() == 1 {
        list[0]
    } else {
        list[0].push(sep) + joined(list.drop_first(), sep)
    }
}

/// Splitting loses nothing and splits wherever it may: the pieces with the separator between
/// them are the text again; no piece but the last holds a separator, nor does the last one
/// where more pieces were allowed; and there are no more pieces than were allowed.
pub proof fn pieces_are_what_stands_between(s: Seq<char>, sep: char, most: Option<nat>)
    ensures
        joined(pieces(s, sep, most), sep) == s,
        pieces(s, sep, most).len() > 0,
        most matches Some(n) ==> pieces(s, sep, most).len() <= n || pieces(s, sep, most).len()
            == 1,
        forall|i: int|
            0 <= i < pieces(s, sep, most).len() - 1 ==> !(#[trigger] pieces(
                s,
                sep,
                most,
            )[i]).contains(sep),
        (most matches Some(n) ==> pieces(s, sep, most).len() < n) ==> !pieces(
            s,
            sep,
            most,
        ).last().contains(sep),
    decreases s.len(),
{
    let i = first_of(s, sep);
    found_separator_is_the_first(s, sep);
    let all = pieces(s, sep, most);
    if i >= s.len() || (most matches Some(n) && n <= 1) {
        assert(all =~= seq![s]);
        if s.contains(sep) && i >= s.len() {
            let at = choose|at: int| 0 <= at < s.len() && s[at] == sep;
            assert(s[at] != sep);
        }
    } else {
        let left: Option<nat> = match most {
            Some(n) => Some((n - 1) as nat),
            None => None,
        };
        let rest = pieces(s.skip(i + 1), sep, left);
        pieces_are_what_stands_between(s.skip(i + 1), sep, left);
        assert(all =~= seq![s.take(i)] + rest);
        assert(all.drop_first() =~= rest);
        assert(s =~= s.take(i).push(sep) + s.skip(i + 1));
        assert(all.last() == rest.last());
        assert forall|k: int| 0 <= k < all.len() - 1 implies !(#[trigger] all[k]).contains(
            sep,
        ) by {
            if k == 0 {
                if s.take(i).contains(sep) {
                    let at = choose|at: int| 0 <= at < i && s.take(i)[at] == sep;
                    assert(s[at] == sep);
                }
            } else {
                assert(all[k] == rest[k - 1]);
            }
        }
    }
}

/// Trimming takes white space off the ends and nothing else: what is left is a stretch of the
/// text, before and behind which there is only white space, and which neither starts nor ends
/// with any.
pub proof fn trimming_takes_white_ends(s: Seq<char>) -> (ends: (int, int))
    ensures
        0 <= ends.0 <= ends.1 <= s.len(),
        trimmed(s) == s.subrange(ends.0, ends.1),
        forall|i: int| 0 <= i < ends.0 ==> is_white(#[trigger] s[i]),
        forall|i: int| ends.1 <= i < s.len() ==> is_white(#[trigger] s[i]),
        ends.0 < ends.1 ==> !is_white(s[ends.0]) && !is_white(s[ends.1 - 1]),
{
    let from = lemma_front(s);
    let front = s.skip(from);
    let to = lemma_back(front);
    assert(front.take(to) =~= s.subrange(from, from + to));
    assert forall|i: int| from + to <= i < s.len() implies is_white(#[trigger] s[i]) by {
        assert(front[i - from] == s[i]);
    }
    if 0 < to {
        assert(front[0] == s[from]);
        assert(front[to - 1] == s[from + to - 1]);
    }
    (from, from + to)
}

/// How many characters are trimmed off the start.
proof fn lemma_front(s: Seq<char>) -> (from: int)
    ensures
        0 <= from <= s.len(),
        trim_front(s) == s.skip(from),
        forall|i: int| 0 <= i < from ==> is_white(#[trigger] s[i]),
        from < s.len() ==> !is_white(s[from]),
    decreases s.len(),
{
    if s.len() > 0 && is_white(s[0]) {
        let rest = s.drop_first();
        let from = lemma_front(rest);
        assert(rest.skip(from) =~= s.skip(from + 1));
        assert forall|i: int| 0 <= i < from + 1 implies is_white(#[trigger] s[i]) by {
            if i > 0 {
                assert(rest[i - 1] == s[i]);
            }
        }
        if from < rest.len() {
            assert(rest[from] == s[from + 1]);
        }
        from + 1
    } else {
        assert(s.skip(0) =~= s);
        0
    }
}

/// How many characters are left when the end is trimmed off.
proof fn lemma_back(s: Seq<char>) -> (to: int)
    ensures
        0 <= to <= s.len(),
        trim_back(s) == s.take(to),
        forall|i: int| to <= i < s.len() ==> is_white(#[trigger] s[i]),
        0 < to ==> !is_white(s[to - 1]),
    decreases s.len(),
{
    if s.len() > 0 && is_white(s.last()) {
        let rest = s.drop_last();
        let to = lemma_back(rest);
        assert(rest.take(to) =~= s.take(to));
        assert forall|i: int| to <= i < s.len() implies is_white(#[trigger] s[i]) by {
            if i < s.len() - 1 {
                assert(rest[i] == s[i]);
            }
        }
        to
    } else {
        assert(s.take(s.len() as int) =~= s);
        s.len() as int
    }
}

/// What stands before white space and what stands behind it have their words each on its own;
/// a text without white space is one word, and the empty text has none.
pub proof fn white_space_parts_words(a: Seq<char>, space: char, b: Seq<char>)
    requires
        is_white(space),
    ensures
        words_of(a.push(space) + b) == words_of(a) + words_of(b),
        (forall|i: int| 0 <= i < a.len() ==> !is_white(#[trigger] a[i])) ==> words_of(a) == (
        if a.len() == 0 {
            Seq::<Seq<char>>::empty()
        } else {
            seq![a]
        }),
    decreases a.len(),
{
    let all = a.push(space) + b;
    lemma_word_len_bound(a);
    lemma_word_len_bound(all);
    if a.len() == 0 {
        assert(all.drop_first() =~= b);
        assert(words_of(a) + words_of(b) =~= words_of(b));
    } else if is_white(a[0]) {
        assert(all[0] == a[0]);
        assert(all.drop_first() =~= a.drop_first().push(space) + b);
        white_space_parts_words(a.drop_first(), space, b);
    } else {
        let n = word_len(a);
        lemma_word_ends(a, space, b);
        assert(all[0] == a[0]);
        assert(all.take(n) =~= a.take(n));
        assert(all.skip(n) =~= a.skip(n).push(space) + b);
        white_space_parts_words(a.skip(n), space, b);
        assert(words_of(all) =~= words_of(a) + words_of(b));
        if forall|i: int| 0 <= i < a.len() ==> !is_white(#[trigger] a[i]) {
            lemma_one_word(a);
            assert(a.take(n) =~= a);
            assert(a.skip(n) =~= Seq::<char>::empty());
            assert(words_of(a) =~= seq![a]);
        }
    }
}

/// A word ends where white space stands.
proof fn lemma_word_ends(a: Seq<char>, space: char, b: Seq<char>)
    requires
        is_white(space),
    ensures
        word_len(a.push(space) + b) == word_len(a),
    decreases a.len(),
{
    let all = a.push(space) + b;
    if a.len() > 0 && !is_white(a[0]) {
        assert(all[0] == a[0]);
        assert(all.drop_first() =~= a.drop_first().push(space) + b);
        lemma_word_ends(a.drop_first(), space, b);
    } else if a.len() == 0 {
        assert(all[0] == space);
    } else {
        assert(all[0] == a[0]);
    }
}

/// A text without white space is a word as a whole.
proof fn lemma_one_word(a: Seq<char>)
    requires
        forall|i: int| 0 <= i < a.len() ==> !is_white(#[trigger] a[i]),
    ensures
        word_len(a) == a.len(),
    decreases a.len(),
{
    if a.len() > 0 {
        assert forall|i: int| 0 <= i < a.drop_first().len() implies !is_white(
            #[trigger] a.drop_first()[i],
        ) by {
            assert(a.drop_first()[i] == a[i + 1]);
        }
        lemma_one_word(a.drop_first());
    }
}

/// A line feed ends a line, together with the carriage return before it, where there is one;
/// what stands behind it has its lines on its own. A text without line feeds is one line, and
/// the empty text has none.
pub proof fn line_feed_parts_lines(a: Seq<char>, b: Seq<char>)
    requires
        forall|i: int| 0 <= i < a.len() ==> #[trigger] a[i] != '\n',
    ensures
        lines_of(a.push('\n') + b) == seq![
            if a.len() > 0 && a[a.len() - 1] == '\r' {
                a.take(a.len() - 1)
            } else {
                a
            },
        ] + lines_of(b),
        lines_of(a) == (if a.len() == 0 {
            Seq::<Seq<char>>::empty()
        } else {
            seq![a]
        }),
{
    let all = a.push('\n') + b;
    let n = a.len() as int;
    found_separator_is_the_first(all, '\n');
    found_separator_is_the_first(a, '\n');
    let i = first_of(all, '\n');
    assert(all[n] == '\n');
    if i < n {
        assert(all[i] == a[i]);
    }
    assert(i == n);
    assert(all.take(n) =~= a);
    assert(all.skip(n + 1) =~= b);
    if a.len() > 0 {
        assert(a.drop_last() =~= a.take(a.len() - 1));
        if first_of(a, '\n') < a.len() {
            assert(a[first_of(a, '\n')] == '\n');
        }
    }
}

/// A number is read digit by digit, from the left: a digit alone is worth what it stands for,
/// and one that is put behind a number adds itself to ten times that number, as long as the
/// whole takes no more than 64 bits. A plus sign before the digits changes nothing. Where
/// anything else is among the characters, or nothing at all, there is no number.
pub proof fn numbers_are_read_from_the_left(s: Seq<char>, c: char)
    ensures
        number_of(Seq::empty()) is None,
        number_of(seq!['+']) is None,
        '0' <= c <= '9' ==> number_of(seq![c]) == Some((c as int - '0' as int) as u64),
        '0' <= c <= '9' ==> (number_of(s) matches Some(n) ==> number_of(s.push(c)) == (if 10 * n + (
        c as int - '0' as int) <= u64::MAX {
            Some((10 * n + (c as int - '0' as int)) as u64)
        } else {
            None
        })),
        !('0' <= c <= '9') ==> number_of(s.push(c)) is None,
        s.len() > 0 && s[0] != '+' ==> number_of(seq!['+'] + s) == number_of(s),
        number_of(s) is Some ==> forall|i: int|
            0 <= i < s.len() ==> '0' <= #[trigger] s[i] <= '9' || i == 0 && s[0] == '+',
{
    assert(unsigned_part(seq!['+']) =~= Seq::<char>::empty());
    let one = seq![c];
    if '0' <= c <= '9' {
        assert(unsigned_part(one) =~= one);
        assert(one.drop_last() =~= Seq::<char>::empty());
        assert(digits_value(one.drop_last()) == 0);
        assert(digits_value(one) == c as int - '0' as int);
        assert forall|i: int| 0 <= i < one.len() implies is_digit(#[trigger] one[i]) by {}
    }
    let longer = s.push(c);
    let digits = unsigned_part(s);
    if number_of(s) is Some && '0' <= c <= '9' {
        assert(unsigned_part(longer) =~= digits.push(c));
        assert(digits.push(c).drop_last() =~= digits);
        assert forall|i: int| 0 <= i < digits.push(c).len() implies is_digit(
            #[trigger] digits.push(c)[i],
        ) by {
            if i < digits.len() {
                assert(is_digit(digits[i]));
            }
        }
        lemma_digits_grow(digits, 0);
        assert(digits_value(digits) as u64 == digits_value(digits));
    }
    if !('0' <= c <= '9') && s.len() > 0 {
        let all = unsigned_part(longer);
        assert(all.len() > 0);
        assert(all[all.len() - 1] == c);
        assert(!is_digit(all[all.len() - 1]));
    }
    if !('0' <= c <= '9') && s.len() == 0 {
        assert(longer =~= one);
        if c == '+' {
            assert(unsigned_part(longer) =~= Seq::<char>::empty());
        } else {
            assert(!is_digit(longer[0]));
        }
    }
    if s.len() > 0 && s[0] != '+' {
        assert(unsigned_part(seq!['+'] + s) =~= s);
    }
    if number_of(s) is Some {
        assert forall|i: int| 0 <= i < s.len() implies '0' <= #[trigger] s[i] <= '9' || i == 0
            && s[0] == '+' by {
            if s[0] == '+' {
                if i > 0 {
                    assert(is_digit(digits[i - 1]));
                }
            } else {
                assert(is_digit(digits[i]));
            }
        }
    }
}

/// A number is written digit by digit: one below ten as the digit that stands for it, and one
/// that is ten times another and something less than ten as the other with that digit behind
/// it. What is written is read back, and a negative number is its opposite behind a minus
/// sign.
pub proof fn numbers_are_written_digit_by_digit(n: nat, d: nat)
    requires
        d < 10,
    ensures
        decimal(d as int) == seq![('0' as int + d) as char],
        n > 0 ==> decimal((10 * n + d) as int) == decimal(n as int).push(('0' as int + d) as char),
        n > 0 ==> decimal(-(n as int)) == seq!['-'] + decimal(n as int),
        n <= u64::MAX ==> number_of(decimal(n as int)) == Some(n as u64),
{
    lemma_digit(d);
    if n > 0 {
        let all = (10 * n + d) as nat;
        assert(all / 10 == n && all % 10 == d);
    }
    lemma_digits_read_back(n);
}

/// The character of a digit.
proof fn lemma_digit(d: nat)
    requires
        d < 10,
    ensures
        digit_char(d) == ('0' as int + d) as char,
        is_digit(digit_char(d)),
        digit_char(d) as int - '0' as int == d,
{
}

/// The digits of a number write that number.
proof fn lemma_digits_read_back(n: nat)
    ensures
        digits_of(n).len() > 0,
        digits_of(n)[0] != '+',
        forall|i: int| 0 <= i < digits_of(n).len() ==> is_digit(#[trigger] digits_of(n)[i]),
        digits_value(digits_of(n)) == n,
    decreases n,
{
    if n < 10 {
        lemma_digit(n);
        let one = digits_of(n);
        assert(one.drop_last() =~= Seq::<char>::empty());
        assert(digits_value(one.drop_last()) == 0);
    } else {
        lemma_digit(n % 10);
        lemma_digits_read_back(n / 10);
        let all = digits_of(n);
        assert(all.drop_last() =~= digits_of(n / 10));
        assert(all[0] == digits_of(n / 10)[0]);
        assert forall|i: int| 0 <= i < all.len() implies is_digit(#[trigger] all[i]) by {
            if i < all.len() - 1 {
                assert(all[i] == digits_of(n / 10)[i]);
            }
        }
    }
}

/// What stands before the first separator is the first piece, and what stands behind it has
/// its pieces on its own, one fewer where there is a limit; a text without separators is one
/// piece.
pub proof fn separators_part_pieces(a: Seq<char>, sep: char, b: Seq<char>, most: Option<nat>)
    requires
        forall|i: int| 0 <= i < a.len() ==> #[trigger] a[i] != sep,
        most matches Some(n) ==> n > 1,
    ensures
        pieces(a, sep, most) == seq![a],
        pieces(a.push(sep) + b, sep, most) == seq![a] + pieces(
            b,
            sep,
            match most {
                Some(n) => Some((n - 1) as nat),
                None => None,
            },
        ),
{
    let all = a.push(sep) + b;
    let n = a.len() as int;
    found_separator_is_the_first(a, sep);
    found_separator_is_the_first(all, sep);
    if first_of(a, sep) < n {
        assert(a[first_of(a, sep)] == sep);
    }
    assert(all[n] == sep);
    if first_of(all, sep) < n {
        assert(all[first_of(all, sep)] == a[first_of(all, sep)]);
    }
    assert(first_of(all, sep) == n);
    assert(all.take(n) =~= a);
    assert(all.skip(n + 1) =~= b);
}

} // verus!
