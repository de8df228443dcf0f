//! Characters, lines and decimal numbers: the lexical layer under the schedule parser.

use vstd::prelude::*;
use vstd::slice::{slice_subrange, slice_to_vec};
use vstd::std_specs::iter::IteratorSpec;

verus! {

broadcast use vstd::string::group_string_axioms;

/// The characters of `s`, in order.
pub fn to_chars(s: &str) -> (r: Vec<char>)
    ensures
        r@ == s@,
{
    let mut out: Vec<char> = Vec::new();
    let mut it = s.chars();
    loop
        invariant
            it.obeys_prophetic_iter_laws(),
            it.decrease() is Some,
            out@ + it.remaining() == s@,
        decreases it.decrease()->0,
    {
        let ghost before = it.remaining();
        match it.next() {
            Some(c) => {
                assert(out@.push(c) + before.drop_first() =~= out@ + before);
                out.push(c);
            },
            None => {
                assert(out@ + before =~= out@);
                return out;
            },
        }
    }
}


/// `i` is the first position at which `c` occurs in `s`.
pub open spec fn is_first(s: Seq<char>, c: char, i: int) -> bool {
    &&& 0 <= i < s.len()
    &&& s[i] == c
    &&& forall|j: int| 0 <= j < i ==> s[j] != c
}

/// The first position at which `c` occurs in `s`, if it occurs at all.
pub open spec fn first_index(s: Seq<char>, c: char) -> Option<int> {
    if exists|i: int| is_first(s, c, i) {
        Some(choose|i: int| is_first(s, c, i))
    } else {
        None
    }
}

/// A first occurrence is the first occurrence.
pub proof fn lemma_first_index_found(s: Seq<char>, c: char, i: int)
    requires
        is_first(s, c, i),
    ensures
        first_index(s, c) == Some(i),
{
    let k = choose|k: int| is_first(s, c, k);
    assert(is_first(s, c, k));
    if k < i {
        assert(s[k] != c);
    }
    if i < k {
        assert(s[i] != c);
    }
}

/// Where a character does not occur it has no first occurrence.
pub proof fn lemma_first_index_absent(s: Seq<char>, c: char)
    requires
        forall|j: int| 0 <= j < s.len() ==> s[j] != c,
    ensures
        first_index(s, c) is None,
{
}

/// Position of the first `c` in `s`.
pub fn find(s: &[char], c: char) -> (r: Option<usize>)
    ensures
        (match r {
            Some(i) => first_index(s@, c) == Some(i as int),
            None => first_index(s@, c) is None,
        }),
{
    let mut i: usize = 0;
    while i < s.len()
        invariant
            i <= s.len(),
            forall|j: int| 0 <= j < i ==> s@[j] != c,
        decreases s.len() - i,
    {
        if s[i] == c {
            proof {
                lemma_first_index_found(s@, c, i as int);
            }
            return Some(i);
        }
        i = i + 1;
    }
    proof {
        lemma_first_index_absent(s@, c);
    }
    None
}

/// A line without the carriage return that may precede its line feed.
pub open spec fn strip_carriage_return(line: Seq<char>) -> Seq<char> {
    if line.len() > 0 && line.last() == '\r' {
        line.drop_last()
    } else {
        line
    }
}

/// The lines of a text. A line ends at a line feed; the line feed, and a carriage
/// return directly before it, belong to no line. Text after the last line feed is a
/// line of its own unless it is empty, so a final line feed adds no empty line.
pub open spec fn lines(s: Seq<char>) -> Seq<Seq<char>>
    decreases s.len(),
{
    if s.len() == 0 {
        Seq::empty()
    } else {
        match first_index(s, '\n') {
            None => seq![s],
            Some(e) => seq![strip_carriage_return(s.take(e))] + lines(s.skip(e + 1)),
        }
    }
}

/// The contents of a vector of lines.
pub open spec fn rows(v: Seq<Vec<char>>) -> Seq<Seq<char>> {
    v.map_values(|line: Vec<char>| line@)
}

/// Splits a text into its lines.
pub fn split_lines(text: &[char]) -> (r: Vec<Vec<char>>)
    ensures
        rows(r@) == lines(text@),
{
    let mut out: Vec<Vec<char>> = Vec::new();
    let mut pos: usize = 0;
    assert(text@.skip(0) =~= text@);
    assert(rows(out@) + lines(text@.skip(0)) =~= lines(text@));
    while pos < text.len()
        invariant
            pos <= text.len(),
            rows(out@) + lines(text@.skip(pos as int)) == lines(text@),
        decreases text.len() - pos,
    {
        let ghost rest = text@.skip(pos as int);
        let ghost done = rows(out@);
        let tail = slice_subrange(text, pos, text.len());
        assert(tail@ =~= rest);
        match find(tail, '\n') {
            None => {
                out.push(slice_to_vec(tail));
                pos = text.len();
                proof {
                    assert(text@.skip(pos as int).len() == 0);
                    assert(lines(rest) =~= seq![rest]);
                    assert(rows(out@) =~= done + seq![rest]);
                    assert(rows(out@) + lines(text@.skip(pos as int)) =~= done + lines(rest));
                }
            },
            Some(e) => {
                assert(first_index(rest, '\n') == Some(e as int));
                assert(is_first(rest, '\n', e as int));
                let end = if e > 0 && tail[e - 1] == '\r' {
                    e - 1
                } else {
                    e
                };
                let line = slice_to_vec(slice_subrange(tail, 0, end));
                assert(line@ =~= strip_carriage_return(rest.take(e as int)));
                out.push(line);
                proof {
                    assert(rest.skip(e + 1) =~= text@.skip(pos + e + 1));
                    assert(rows(out@) =~= done + seq![line@]);
                    assert(rows(out@) + lines(text@.skip(pos + e + 1)) =~= done + lines(rest));
                }
                pos = pos + e + 1;
            },
        }
    }
    assert(rows(out@) + lines(text@.skip(pos as int)) =~= rows(out@));
    out
}

/// The value of a decimal digit; `None` for any other character.
pub open spec fn digit_value(c: char) -> Option<nat> {
    match c {
        '0' => Some(0),
        '1' => Some(1),
        '2' => Some(2),
        '3' => Some(3),
        '4' => Some(4),
        '5' => Some(5),
        '6' => Some(6),
        '7' => Some(7),
        '8' => Some(8),
        '9' => Some(9),
        _ => None,
    }
}

/// `s` is a non-empty run of decimal digits.
pub open spec fn all_digits(s: Seq<char>) -> bool {
    &&& s.len() > 0
    &&& forall|i: int| 0 <= i < s.len() ==> digit_value(#[trigger] s[i]) is Some
}

/// The number that a run of decimal digits denotes, most significant digit first.
pub open spec fn decimal(s: Seq<char>) -> nat
    decreases s.len(),
{
    if s.len() == 0 {
        0
    } else {
        decimal(s.drop_last()) * 10 + digit_value(s.last()).unwrap_or(0)
    }
}

/// A number never gets smaller when digits are appended to it.
pub proof fn lemma_decimal_prefix(s: Seq<char>, k: int)
    requires
        0 <= k <= s.len(),
    ensures
        decimal(s.take(k)) <= decimal(s),
    decreases s.len() - k,
{
    if k == s.len() {
        assert(s.take(k) =~= s);
    } else {
        lemma_decimal_prefix(s.drop_last(), k);
        assert(s.drop_last().take(k) =~= s.take(k));
    }
}

/// An unsigned decimal number: an optional `+`, then at least one digit, denoting a
/// value that fits a `u64`. Anything else, a leading `-` included, is no number.
pub open spec fn parse_unsigned(s: Seq<char>) -> Option<nat> {
    let digits = if s.len() > 0 && s[0] == '+' {
        s.skip(1)
    } else {
        s
    };
    if all_digits(digits) && decimal(digits) <= u64::MAX {
        Some(decimal(digits))
    } else {
        None
    }
}

/// A signed decimal number: an optional `+` or `-`, then at least one digit, denoting
/// a value that fits an `i64`.
pub open spec fn parse_signed(s: Seq<char>) -> Option<int> {
    let signed = s.len() > 0 && (s[0] == '+' || s[0] == '-');
    let digits = if signed {
        s.skip(1)
    } else {
        s
    };
    let value = if signed && s[0] == '-' {
        -(decimal(digits) as int)
    } else {
        decimal(digits) as int
    };
    if all_digits(digits) && i64::MIN <= value <= i64::MAX {
        Some(value)
    } else {
        None
    }
}

/// The value of the decimal digit `c`.
pub fn digit(c: char) -> (r: Option<u64>)
    ensures
        (match r {
            Some(d) => digit_value(c) == Some(d as nat),
            None => digit_value(c) is None,
        }),
{
    match c {
        '0' => Some(0),
        '1' => Some(1),
        '2' => Some(2),
        '3' => Some(3),
        '4' => Some(4),
        '5' => Some(5),
        '6' => Some(6),
        '7' => Some(7),
        '8' => Some(8),
        '9' => Some(9),
        _ => None,
    }
}

/// Reads `s` from position `start` on as a run of digits.
fn read_digits(s: &[char], start: usize) -> (r: Option<u64>)
    requires
        start <= s.len(),
    ensures
        (match r {
            Some(v) => all_digits(s@.skip(start as int)) && decimal(s@.skip(start as int)) == v,
            None => !all_digits(s@.skip(start as int)) || decimal(s@.skip(start as int)) > u64::MAX,
        }),
{
    let ghost digits = s@.skip(start as int);
    if start == s.len() {
        return None;
    }
    let mut acc: u64 = 0;
    let mut i: usize = start;
    assert(digits.take(0) =~= Seq::<char>::empty());
    while i < s.len()
        invariant
            start <= i <= s.len(),
            digits == s@.skip(start as int),
            forall|j: int| 0 <= j < i - start ==> digit_value(#[trigger] digits[j]) is Some,
            acc == decimal(digits.take(i - start)),
        decreases s.len() - i,
    {
        let ghost k = i - start;
        assert(digits[k] == s@[i as int]);
        assert(digits.take(k + 1).drop_last() =~= digits.take(k));
        assert(digits.take(k + 1).last() == digits[k]);
        match digit(s[i]) {
            None => {
                return None;
            },
            Some(d) => {
                proof {
                    lemma_decimal_prefix(digits, k + 1);
                }
                if acc > (u64::MAX - d) / 10 {
                    return None;
                }
                acc = acc * 10 + d;
            },
        }
        i = i + 1;
    }
    assert(digits.take(i - start) =~= digits);
    Some(acc)
}

/// Reads `s` as an unsigned decimal number.
pub fn parse_u64(s: &[char]) -> (r: Option<u64>)
    ensures
        (match r {
            Some(v) => parse_unsigned(s@) == Some(v as nat),
            None => parse_unsigned(s@) is None,
        }),
{
    if s.len() > 0 && s[0] == '+' {
        read_digits(s, 1)
    } else {
        assert(s@.skip(0) =~= s@);
        read_digits(s, 0)
    }
}

/// Reads `s` as a signed decimal number.
pub fn parse_i64(s: &[char]) -> (r: Option<i64>)
    ensures
        (match r {
            Some(v) => parse_signed(s@) == Some(v as int),
            None => parse_signed(s@) is None,
        }),
{
    let negative = s.len() > 0 && s[0] == '-';
    let signed = s.len() > 0 && (s[0] == '+' || s[0] == '-');
    let magnitude = if signed {
        read_digits(s, 1)
    } else {
        assert(s@.skip(0) =~= s@);
        read_digits(s, 0)
    };
    match magnitude {
        None => None,
        Some(m) => {
            if negative {
                if m > 0x8000_0000_0000_0000 {
                    None
                } else if m == 0x8000_0000_0000_0000 {
                    Some(i64::MIN)
                } else {
                    Some(-(m as i64))
                }
            } else if m > 0x7fff_ffff_ffff_ffff {
                None
            } else {
                Some(m as i64)
            }
        },
    }
}

/// The character that writes the digit `d`.
pub open spec fn digit_char(d: nat) -> char {
    if d == 0 {
        '0'
    } else if d == 1 {
        '1'
    } else if d == 2 {
        '2'
    } else if d == 3 {
        '3'
    } else if d == 4 {
        '4'
    } else if d == 5 {
        '5'
    } else if d == 6 {
        '6'
    } else if d == 7 {
        '7'
    } else if d == 8 {
        '8'
    } else {
        '9'
    }
}

/// A number written in decimal digits, without leading zeros.
pub open spec fn digits_of(n: nat) -> Seq<char>
    decreases n,
{
    if n < 10 {
        seq![digit_char(n)]
    } else {
        digits_of(n / 10).push(digit_char(n % 10))
    }
}

/// An integer written in decimal digits, with `-` in front where it is negative.
pub open spec fn signed_text(v: int) -> Seq<char> {
    if v < 0 {
        seq!['-'] + digits_of((-v) as nat)
    } else {
        digits_of(v as nat)
    }
}

/// A number written out is a run of digits that denotes the number.
pub proof fn lemma_digits_of(n: nat)
    ensures
        all_digits(digits_of(n)),
        decimal(digits_of(n)) == n,
    decreases n,
{
    let s = digits_of(n);
    if n < 10 {
        assert(s.drop_last() =~= Seq::<char>::empty());
        assert(decimal(s.drop_last()) == 0);
    } else {
        lemma_digits_of(n / 10);
        assert(s.drop_last() =~= digits_of(n / 10));
        assert(s.last() == digit_char(n % 10));
        assert forall|i: int| 0 <= i < s.len() implies digit_value(#[trigger] s[i]) is Some by {
            if i < s.len() - 1 {
                assert(s[i] == digits_of(n / 10)[i]);
            }
        }
    }
}

/// An unsigned number that was written out reads back as itself.
pub proof fn lemma_unsigned_round_trip(n: nat)
    requires
        n <= u64::MAX,
    ensures
        parse_unsigned(digits_of(n)) == Some(n),
{
    lemma_digits_of(n);
    let s = digits_of(n);
    assert(digit_value(s[0]) is Some);
}

/// A signed number that was written out reads back as itself.
pub proof fn lemma_signed_round_trip(v: int)
    requires
        i64::MIN <= v <= i64::MAX,
    ensures
        parse_signed(signed_text(v)) == Some(v),
{
    if v < 0 {
        let digits = digits_of((-v) as nat);
        lemma_digits_of((-v) as nat);
        assert(signed_text(v).skip(1) =~= digits);
    } else {
        lemma_digits_of(v as nat);
        let s = digits_of(v as nat);
        assert(digit_value(s[0]) is Some);
    }
}

/// The text that writes the digit `d`.
fn digit_text(d: u64) -> (r: &'static str)
    requires
        d < 10,
    ensures
        r@ == seq![digit_char(d as nat)],
{
    proof {
        reveal_strlit("0");
        reveal_strlit("1");
        reveal_strlit("2");
        reveal_strlit("3");
        reveal_strlit("4");
        reveal_strlit("5");
        reveal_strlit("6");
        reveal_strlit("7");
        reveal_strlit("8");
        reveal_strlit("9");
    }
    let text = if d == 0 {
        "0"
    } else if d == 1 {
        "1"
    } else if d == 2 {
        "2"
    } else if d == 3 {
        "3"
    } else if d == 4 {
        "4"
    } else if d == 5 {
        "5"
    } else if d == 6 {
        "6"
    } else if d == 7 {
        "7"
    } else if d == 8 {
        "8"
    } else {
        "9"
    };
    assert(text@ =~= seq![digit_char(d as nat)]);
    text
}

/// Appends `n` in decimal digits to `out`.
pub fn write_u64(out: &mut String, n: u64)
    ensures
        final(out)@ == old(out)@ + digits_of(n as nat),
    decreases n,
{
    if n >= 10 {
        write_u64(out, n / 10);
    }
    let ghost before = out@;
    out.append(digit_text(n % 10));
    assert(out@ =~= old(out)@ + digits_of(n as nat));
}

/// Appends `v` in decimal digits to `out`, with `-` in front where it is negative.
pub fn write_i64(out: &mut String, v: i64)
    ensures
        final(out)@ == old(out)@ + signed_text(v as int),
{
    if v < 0 {
        proof {
            reveal_strlit("-");
        }
        out.append("-");
        let magnitude: u64 = (-(v + 1)) as u64 + 1;
        write_u64(out, magnitude);
        assert(out@ =~= old(out)@ + signed_text(v as int));
    } else {
        write_u64(out, v as u64);
    }
}

} // verus!
