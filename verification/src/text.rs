//! Small text operations: decimal numerals, ASCII case folding and trimming.

use vstd::prelude::*;
use vstd::string::{StrSliceExecFns, StringExecFns};

verus! {

/// The character of one decimal digit.
pub open spec fn digit_char(d: int) -> char {
    if d == 0 {
        '0'
    } else if d == 1 {
        '1'
    } else if d == 2 {
        '2'
    } else if d == 3 {
        '3'
    } else if d == 4 {
        '4'
    } else if d == 5 {
        '5'
    } else if d == 6 {
        '6'
    } else if d == 7 {
        '7'
    } else if d == 8 {
        '8'
    } else {
        '9'
    }
}

/// The decimal numeral of a natural number, without leading zeros.
pub open spec fn decimal(n: nat) -> Seq<char>
    decreases n,
{
    if n < 10 {
        seq![digit_char(n as int)]
    } else {
        decimal(n / 10).push(digit_char((n % 10) as int))
    }
}

fn digit_text(d: u64) -> (r: &'static str)
    requires
        d < 10,
    ensures
        r@ == seq![digit_char(d as int)],
{
    proof {
        reveal_strlit("0");
        reveal_strlit("1");
        reveal_strlit("2");
        reveal_strlit("3");
        reveal_strlit("4");
        reveal_strlit("5");
        reveal_strlit("6");
        reveal_strlit("7");
        reveal_strlit("8");
        reveal_strlit("9");
    }
    let r = if d == 0 {
        "0"
    } else if d == 1 {
        "1"
    } else if d == 2 {
        "2"
    } else if d == 3 {
        "3"
    } else if d == 4 {
        "4"
    } else if d == 5 {
        "5"
    } else if d == 6 {
        "6"
    } else if d == 7 {
        "7"
    } else if d == 8 {
        "8"
    } else {
        "9"
    };
    assert(r@ =~= seq![digit_char(d as int)]);
    r
}

/// Appends the decimal numeral of `n`.
pub fn append_decimal(out: &mut String, n: u64)
    ensures
        final(out)@ == old(out)@ + decimal(n as nat),
    decreases n,
{
    if n < 10 {
        let t = digit_text(n);
        out.append(t);
    } else {
        append_decimal(out, n / 10);
        let t = digit_text(n % 10);
        out.append(t);
        assert(out@ =~= old(out)@ + decimal(n as nat));
    }
}

/// `head` followed by the numeral of `n` and by `tail`.
pub fn with_number(head: &str, n: u64, tail: &str) -> (r: String)
    ensures
        r@ == head@ + decimal(n as nat) + tail@,
{
    let mut out = head.to_owned();
    append_decimal(&mut out, n);
    out.append(tail);
    out
}

/// `head`, the numeral of `a`, `middle`, the numeral of `b`, `tail`.
pub fn with_numbers(head: &str, a: u64, middle: &str, b: u64, tail: &str) -> (r: String)
    ensures
        r@ == head@ + decimal(a as nat) + middle@ + decimal(b as nat) + tail@,
{
    let mut out = with_number(head, a, middle);
    append_decimal(&mut out, b);
    out.append(tail);
    out
}

/// `head`, a number, `first`, a number, `second`, a number, `tail`.
pub fn with_three_numbers(
    head: &str,
    a: u64,
    first: &str,
    b: u64,
    second: &str,
    c: u64,
    tail: &str,
) -> (r: String)
    ensures
        r@ == head@ + decimal(a as nat) + first@ + decimal(b as nat) + second@ + decimal(c as nat)
            + tail@,
{
    let mut out: String = with_numbers(head, a, first, b, second);
    append_decimal(&mut out, c);
    out.append(tail);
    out
}

/// `head`, `word` and `tail` in a row.
pub fn with_word(head: &str, word: &str, tail: &str) -> (r: String)
    ensures
        r@ == head@ + word@ + tail@,
{
    let mut out = head.to_owned();
    out.append(word);
    out.append(tail);
    out
}

/// Whether two texts hold the same characters.
pub fn same_text(a: &str, b: &str) -> (r: bool)
    ensures
        r == (a@ == b@),
{
    a.to_owned() == b.to_owned()
}

/// ASCII letters `A` to `Z` become `a` to `z`; every other character stays.
pub open spec fn lower_char(c: char) -> char {
    if 65 <= c as u32 <= 90 {
        (c as u32 + 32) as char
    } else {
        c
    }
}

/// The text with its ASCII capitals folded to small letters.
pub open spec fn lower(s: Seq<char>) -> Seq<char> {
    Seq::new(s.len(), |i: int| lower_char(s[i]))
}

/// Whether `value`, folded to small letters, is `word`.
pub fn equals_lowered(value: &str, word: &str) -> (r: bool)
    ensures
        r == (lower(value@) == word@),
{
    let n: usize = value.unicode_len();
    if n != word.unicode_len() {
        assert(lower(value@).len() != word@.len());
        return false;
    }
    let mut i: usize = 0;
    while i < n
        invariant
            i <= n,
            n == value@.len(),
            n == word@.len(),
            forall|k: int| 0 <= k < i ==> lower_char(value@[k]) == word@[k],
        decreases n - i,
    {
        let c: u32 = value.get_char(i) as u32;
        let w: u32 = word.get_char(i) as u32;
        let folded: u32 = if 65 <= c && c <= 90 {
            c + 32
        } else {
            c
        };
        if folded != w {
            assert(lower(value@)[i as int] != word@[i as int]);
            return false;
        }
        i = i + 1;
    }
    assert(lower(value@) =~= word@);
    true
}

/// The characters with the Unicode property `White_Space`.
pub open spec fn is_white_space(c: char) -> bool {
    let u = c as u32;
    ||| 9 <= u <= 13
    ||| u == 32
    ||| u == 0x85
    ||| u == 0xa0
    ||| u == 0x1680
    ||| 0x2000 <= u <= 0x200a
    ||| u == 0x2028
    ||| u == 0x2029
    ||| u == 0x202f
    ||| u == 0x205f
    ||| u == 0x3000
}

/// The text without the white space it starts with.
pub open spec fn trim_front(s: Seq<char>) -> Seq<char>
    decreases s.len(),
{
    if s.len() > 0 && is_white_space(s[0]) {
        trim_front(s.skip(1))
    } else {
        s
    }
}

/// The text without the white space it ends with.
pub open spec fn trim_back(s: Seq<char>) -> Seq<char>
    decreases s.len(),
{
    if s.len() > 0 && is_white_space(s.last()) {
        trim_back(s.drop_last())
    } else {
        s
    }
}

/// The text without the white space around it.
pub open spec fn trimmed(s: Seq<char>) -> Seq<char> {
    trim_back(trim_front(s))
}

fn white_space(c: char) -> (r: bool)
    ensures
        r == is_white_space(c),
{
    let u: u32 = c as u32;
    (9 <= u && u <= 13) || u == 32 || u == 0x85 || u == 0xa0 || u == 0x1680 || (0x2000 <= u && u
        <= 0x200a) || u == 0x2028 || u == 0x2029 || u == 0x202f || u == 0x205f || u == 0x3000
}

/// The text without the white space around it.
pub fn trim(value: &str) -> (r: &str)
    ensures
        r@ == trimmed(value@),
{
    let n: usize = value.unicode_len();
    let mut from: usize = 0;
    assert(value@.skip(0) =~= value@);
    while from < n && white_space(value.get_char(from))
        invariant
            from <= n,
            n == value@.len(),
            trim_front(value@) == trim_front(value@.skip(from as int)),
        ensures
            from <= n,
            trim_front(value@) == value@.skip(from as int),
        decreases n - from,
    {
        assert(value@.skip(from as int).skip(1) =~= value@.skip(from + 1));
        from = from + 1;
    }
    let ghost rest = value@.skip(from as int);
    let mut to: usize = n;
    assert(value@.subrange(from as int, n as int) =~= rest);
    while from < to && white_space(value.get_char((to - 1) as usize))
        invariant
            from <= to <= n,
            n == value@.len(),
            rest == value@.skip(from as int),
            trim_back(rest) == trim_back(value@.subrange(from as int, to as int)),
        ensures
            from <= to <= n,
            trim_back(rest) == value@.subrange(from as int, to as int),
        decreases to,
    {
        assert(value@.subrange(from as int, to as int).drop_last() =~= value@.subrange(
            from as int,
            to - 1,
        ));
        to = to - 1;
    }
    value.substring_char(from, to)
}

} // verus!
