//! Text as sequences of characters: splitting, words, case and numbers.

use vstd::prelude::*;
use vstd::string::StrSliceExecFns;

verus! {

/// `String::push` appends the character to the end of the string.
pub assume_specification[ String::push ](s: &mut String, ch: char)
    ensures
        final(s)@ == old(s)@.push(ch),
;

/// The characters of a text.
pub fn chars_of(s: &str) -> (chars: Vec<char>)
    ensures
        chars@ == s@,
{
    let n = s.unicode_len();
    let mut chars: Vec<char> = Vec::new();
    let mut i: usize = 0;
    while i < n
        invariant
            n == s@.len(),
            0 <= i <= n,
            chars@ == s@.take(i as int),
        decreases n - i,
    {
        chars.push(s.get_char(i));
        proof {
            assert(chars@ =~= s@.take(i + 1));
        }
        i += 1;
    }
    proof {
        assert(s@.take(n as int) =~= s@);
    }
    chars
}

/// The text that a slice of characters spells.
pub fn text_of(chars: &[char]) -> (s: String)
    ensures
        s@ == chars@,
{
    let mut s = String::new();
    let mut i: usize = 0;
    while i < chars.len()
        invariant
            0 <= i <= chars@.len(),
            s@ == chars@.take(i as int),
        decreases chars@.len() - i,
    {
        s.push(chars[i]);
        proof {
            assert(s@ =~= chars@.take(i + 1));
        }
        i += 1;
    }
    proof {
        assert(chars@.take(chars@.len() as int) =~= chars@);
    }
    s
}

/// Whether a character is white space, as Unicode defines it.
pub open spec fn is_space(c: char) -> bool {
    let u = c as u32;
    ||| 0x09 <= u <= 0x0D
    ||| u == 0x20
    ||| u == 0x85
    ||| u == 0xA0
    ||| u == 0x1680
    ||| 0x2000 <= u <= 0x200A
    ||| u == 0x2028
    ||| u == 0x2029
    ||| u == 0x202F
    ||| u == 0x205F
    ||| u == 0x3000
}

/// Whether a character is white space.
pub fn space(c: char) -> (b: bool)
    ensures
        b == is_space(c),
{
    let u: u32 = c as u32;
    (0x09 <= u && u <= 0x0D) || u == 0x20 || u == 0x85 || u == 0xA0 || u == 0x1680 || (0x2000 <= u
        && u <= 0x200A) || u == 0x2028 || u == 0x2029 || u == 0x202F || u == 0x205F || u == 0x3000
}

/// A text in lower case, as the standard library's `str::to_lowercase`
/// returns it: the lowercase that Unicode defines, which may hold more
/// characters than the text.
pub uninterp spec fn lowercase_of(s: Seq<char>) -> Seq<char>;

/// Calls `str::to_lowercase`. The result is what [`lowercase_of`] names:
/// nothing more is claimed of it.
#[verifier::external_body]
pub(crate) fn lowercase(s: &str) -> (low: String)
    ensures
        low@ == lowercase_of(s@),
{
    s.to_lowercase()
}

/// The pieces into which a separator cuts a text. There is one piece more
/// than there are separators, so a text without one is a single piece.
pub open spec fn split(s: Seq<char>, sep: char) -> Seq<Seq<char>>
    decreases s.len(),
{
    if s.len() == 0 {
        seq![Seq::<char>::empty()]
    } else {
        let before = split(s.drop_last(), sep);
        if s.last() == sep {
            before.push(Seq::<char>::empty())
        } else {
            before.drop_last().push(before.last().push(s.last()))
        }
    }
}

/// The texts that a list of vectors holds.
pub open spec fn texts_of(v: Seq<Vec<char>>) -> Seq<Seq<char>> {
    v.map_values(|t: Vec<char>| t@)
}

/// The pieces into which a separator cuts a text.
pub fn split_chars(chars: &[char], sep: char) -> (pieces: Vec<Vec<char>>)
    ensures
        texts_of(pieces@) == split(chars@, sep),
        pieces@.len() > 0,
{
    let mut pieces: Vec<Vec<char>> = Vec::new();
    let mut piece: Vec<char> = Vec::new();
    let mut i: usize = 0;
    proof {
        assert(chars@.take(0) =~= Seq::<char>::empty());
        assert(texts_of(pieces@).push(piece@) =~= split(chars@.take(0), sep));
    }
    while i < chars.len()
        invariant
            0 <= i <= chars@.len(),
            texts_of(pieces@).push(piece@) == split(chars@.take(i as int), sep),
        decreases chars@.len() - i,
    {
        let ghost done = texts_of(pieces@);
        let ghost open = piece@;
        proof {
            assert(chars@.take(i + 1).drop_last() =~= chars@.take(i as int));
            assert(done.push(open).drop_last() =~= done);
        }
        if chars[i] == sep {
            pieces.push(piece);
            piece = Vec::new();
            proof {
                assert(texts_of(pieces@) =~= done.push(open));
            }
        } else {
            piece.push(chars[i]);
            proof {
                assert(texts_of(pieces@) =~= done);
            }
        }
        i += 1;
    }
    proof {
        assert(chars@.take(chars@.len() as int) =~= chars@);
    }
    let ghost done = texts_of(pieces@);
    pieces.push(piece);
    proof {
        assert(texts_of(pieces@) =~= done.push(piece@));
    }
    pieces
}

/// The words of a text that have ended, and the word that has not: the
/// characters since the last white space.
pub open spec fn words_open(s: Seq<char>) -> (Seq<Seq<char>>, Seq<char>)
    decreases s.len(),
{
    if s.len() == 0 {
        (Seq::<Seq<char>>::empty(), Seq::<char>::empty())
    } else {
        let (done, open) = words_open(s.drop_last());
        if !is_space(s.last()) {
            (done, open.push(s.last()))
        } else if open.len() > 0 {
            (done.push(open), Seq::<char>::empty())
        } else {
            (done, open)
        }
    }
}

/// The words of a text: its longest runs of characters that are no white
/// space, in order.
pub open spec fn words(s: Seq<char>) -> Seq<Seq<char>> {
    let (done, open) = words_open(s);
    if open.len() > 0 {
        done.push(open)
    } else {
        done
    }
}

/// The words of a text.
pub fn words_of(chars: &[char]) -> (found: Vec<Vec<char>>)
    ensures
        texts_of(found@) == words(chars@),
{
    let mut found: Vec<Vec<char>> = Vec::new();
    let mut word: Vec<char> = Vec::new();
    let mut i: usize = 0;
    proof {
        assert(chars@.take(0) =~= Seq::<char>::empty());
        assert(texts_of(found@) =~= Seq::<Seq<char>>::empty());
    }
    while i < chars.len()
        invariant
            0 <= i <= chars@.len(),
            (texts_of(found@), word@) == words_open(chars@.take(i as int)),
        decreases chars@.len() - i,
    {
        let ghost done = texts_of(found@);
        proof {
            assert(chars@.take(i + 1).drop_last() =~= chars@.take(i as int));
        }
        if !space(chars[i]) {
            word.push(chars[i]);
        } else if word.len() > 0 {
            let ghost open = word@;
            found.push(word);
            word = Vec::new();
            proof {
                assert(texts_of(found@) =~= done.push(open));
            }
        }
        i += 1;
    }
    proof {
        assert(chars@.take(chars@.len() as int) =~= chars@);
    }
    if word.len() > 0 {
        let ghost done = texts_of(found@);
        let ghost open = word@;
        found.push(word);
        proof {
            assert(texts_of(found@) =~= done.push(open));
        }
    }
    found
}

/// Whether a character is a decimal digit.
pub open spec fn is_digit(c: char) -> bool {
    '0' <= c <= '9'
}

/// Whether every character of a text is a decimal digit.
pub open spec fn all_digits(s: Seq<char>) -> bool {
    forall|i: int| 0 <= i < s.len() ==> is_digit(#[trigger] s[i])
}

/// The number that a text of decimal digits spells.
pub open spec fn decimal(s: Seq<char>) -> nat
    decreases s.len(),
{
    if s.len() == 0 {
        0
    } else {
        decimal(s.drop_last()) * 10 + (s.last() as u32 - '0' as u32) as nat
    }
}

/// The number that a text spells, if it spells one that is at most `max`:
/// decimal digits, at least one, after an optional `+`.
pub open spec fn number(s: Seq<char>, max: nat) -> Option<nat> {
    let digits = if s.len() > 0 && s[0] == '+' {
        s.skip(1)
    } else {
        s
    };
    if digits.len() > 0 && all_digits(digits) && decimal(digits) <= max {
        Some(decimal(digits))
    } else {
        None
    }
}

/// The number spelled grows with every digit.
pub proof fn lemma_decimal_grows(s: Seq<char>, k: int)
    requires
        0 <= k <= s.len(),
    ensures
        decimal(s.take(k)) <= decimal(s),
    decreases s.len() - k,
{
    if k < s.len() {
        lemma_decimal_grows(s, k + 1);
        assert(s.take(k + 1).drop_last() =~= s.take(k));
    } else {
        assert(s.take(k) =~= s);
    }
}

/// The number that a text spells, if it spells one that is at most `max`.
pub fn parse_number(chars: &[char], max: u32) -> (n: Option<u32>)
    ensures
        match n {
            Some(v) => number(chars@, max as nat) == Some(v as nat),
            None => number(chars@, max as nat) is None,
        },
{
    let start: usize = if chars.len() > 0 && chars[0] == '+' {
        1
    } else {
        0
    };
    let ghost digits = chars@.skip(start as int);
    proof {
        assert(chars@.skip(0) =~= chars@);
    }
    if start >= chars.len() {
        return None;
    }
    let mut value: u32 = 0;
    let mut i: usize = start;
    proof {
        assert(digits.take(0) =~= Seq::<char>::empty());
    }
    while i < chars.len()
        invariant
            start <= i <= chars@.len(),
            digits == chars@.skip(start as int),
            digits == if chars@.len() > 0 && chars@[0] == '+' {
                chars@.skip(1)
            } else {
                chars@
            },
            forall|j: int| 0 <= j < i - start ==> is_digit(#[trigger] digits[j]),
            value == decimal(digits.take(i - start)),
            value <= max,
        decreases chars@.len() - i,
    {
        let c = chars[i];
        proof {
            assert(digits.take(i - start + 1).drop_last() =~= digits.take(i - start));
            assert(digits[i - start] == c);
            assert(digits.take(i - start + 1).last() == c);
            lemma_decimal_grows(digits, i - start + 1);
        }
        if !('0' <= c && c <= '9') {
            proof {
                let spelled = if chars@.len() > 0 && chars@[0] == '+' {
                    chars@.skip(1)
                } else {
                    chars@
                };
                assert(!is_digit(spelled[i - start]));
            }
            return None;
        }
        let next: u64 = value as u64 * 10 + (c as u32 - '0' as u32) as u64;
        if next > max as u64 {
            return None;
        }
        value = next as u32;
        i += 1;
    }
    proof {
        assert(digits.take(digits.len() as int) =~= digits);
    }
    Some(value)
}

/// The decimal digits that spell a number.
pub open spec fn digits_of(n: nat) -> Seq<char>
    decreases n,
{
    if n < 10 {
        seq![(48u8 + n as u8) as char]
    } else {
        digits_of(n / 10).push((48u8 + (n % 10) as u8) as char)
    }
}

/// Appends the decimal digits that spell a number.
pub fn push_number(out: &mut Vec<char>, n: u32)
    ensures
        final(out)@ == old(out)@ + digits_of(n as nat),
    decreases n,
{
    if n >= 10 {
        push_number(out, n / 10);
    }
    out.push((48u8 + (n % 10) as u8) as char);
    proof {
        if n < 10 {
            assert(final(out)@ =~= old(out)@ + digits_of(n as nat));
        } else {
            assert(final(out)@ =~= old(out)@ + digits_of(n as nat));
        }
    }
}

/// A line without the carriage return that ends it, if one does.
pub open spec fn trimmed(line: Seq<char>) -> Seq<char> {
    if line.len() > 0 && line.last() == '\r' {
        line.drop_last()
    } else {
        line
    }
}

/// The lines of a text. A line ends with a line feed, or with a carriage
/// return and a line feed, and holds neither. What follows the last line
/// feed is a line too, unless it is empty.
pub open spec fn lines(s: Seq<char>) -> Seq<Seq<char>> {
    let pieces = split(s, '\n');
    let ended = pieces.drop_last().map_values(|line: Seq<char>| trimmed(line));
    if pieces.last().len() > 0 {
        ended.push(pieces.last())
    } else {
        ended
    }
}

/// The lines of a text.
pub fn lines_of(chars: &[char]) -> (found: Vec<Vec<char>>)
    ensures
        texts_of(found@) == lines(chars@),
{
    let mut pieces = split_chars(chars, '\n');
    let ghost all = texts_of(pieces@);
    let last = pieces.pop().unwrap();
    proof {
        assert(texts_of(pieces@) =~= all.drop_last());
        assert(last@ == all.last());
    }
    let mut found: Vec<Vec<char>> = Vec::new();
    let mut i: usize = 0;
    proof {
        assert(texts_of(found@) =~= all.drop_last().take(0).map_values(
            |line: Seq<char>| trimmed(line),
        ));
    }
    while i < pieces.len()
        invariant
            0 <= i <= pieces@.len(),
            all.len() > 0,
            texts_of(pieces@) == all.drop_last(),
            texts_of(found@) == all.drop_last().take(i as int).map_values(
                |line: Seq<char>| trimmed(line),
            ),
        decreases pieces@.len() - i,
    {
        let ghost done = texts_of(found@);
        let line = &pieces[i];
        let n = line.len();
        let keep: usize = if n > 0 && line[n - 1] == '\r' {
            n - 1
        } else {
            n
        };
        let mut copy: Vec<char> = Vec::new();
        let mut j: usize = 0;
        while j < keep
            invariant
                i < pieces@.len(),
                line == &pieces@[i as int],
                0 <= j <= keep <= line@.len(),
                copy@ == line@.take(j as int),
            decreases keep - j,
        {
            copy.push(line[j]);
            proof {
                assert(copy@ =~= line@.take(j + 1));
            }
            j += 1;
        }
        proof {
            assert(texts_of(pieces@)[i as int] == line@);
            assert(copy@ =~= trimmed(line@));
        }
        found.push(copy);
        proof {
            assert(texts_of(found@) =~= done.push(trimmed(line@)));
            assert(all.drop_last()[i as int] == line@);
            assert(all.drop_last().take(i + 1) =~= all.drop_last().take(i as int).push(line@));
            assert(texts_of(found@) =~= all.drop_last().take(i + 1).map_values(
                |line: Seq<char>| trimmed(line),
            ));
        }
        i += 1;
    }
    proof {
        assert(all.drop_last().take(pieces@.len() as int) =~= all.drop_last());
    }
    if last.len() > 0 {
        let ghost done = texts_of(found@);
        found.push(last);
        proof {
            assert(texts_of(found@) =~= done.push(last@));
        }
    }
    found
}

/// Whether a text begins with another.
pub open spec fn begins_with(s: Seq<char>, prefix: Seq<char>) -> bool {
    prefix.len() <= s.len() && s.take(prefix.len() as int) == prefix
}

/// Whether a text begins with what a literal spells.
pub fn starts_with(chars: &[char], prefix: &str) -> (b: bool)
    ensures
        b == begins_with(chars@, prefix@),
{
    let want = chars_of(prefix);
    if want.len() > chars.len() {
        return false;
    }
    let mut i: usize = 0;
    while i < want.len()
        invariant
            want@ == prefix@,
            want@.len() <= chars@.len(),
            0 <= i <= want@.len(),
            chars@.take(i as int) == want@.take(i as int),
        decreases want@.len() - i,
    {
        if chars[i] != want[i] {
            proof {
                assert(chars@.take(want@.len() as int)[i as int] != want@[i as int]);
            }
            return false;
        }
        proof {
            assert(chars@.take(i + 1) =~= chars@.take(i as int).push(chars@[i as int]));
            assert(want@.take(i + 1) =~= want@.take(i as int).push(want@[i as int]));
        }
        i += 1;
    }
    proof {
        assert(want@.take(want@.len() as int) =~= want@);
    }
    true
}

} // verus!
