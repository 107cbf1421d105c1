//! Text: what a string is made of, how it is taken apart, and how numbers are
//! written and read.

use vstd::prelude::*;
use vstd::string::*;

verus! {

/// The digits that numbers are written with, lower case.
pub const DIGITS: &'static str = "0123456789abcdef";

/// The texts of a sequence of strings.
pub open spec fn texts(strings: Seq<String>) -> Seq<Seq<char>> {
    strings.map_values(|s: String| s@)
}

/// `n` in decimal, without leading zeros.
pub open spec fn dec(n: nat) -> Seq<char>
    decreases n,
{
    if n < 10 {
        seq![DIGITS@[n as int]]
    } else {
        dec(n / 10) + seq![DIGITS@[(n % 10) as int]]
    }
}

/// The low `width` hexadecimal digits of `n`, leading zeros kept.
pub open spec fn hex(n: nat, width: nat) -> Seq<char>
    decreases width,
{
    if width == 0 {
        Seq::empty()
    } else {
        hex(n / 16, (width - 1) as nat) + seq![DIGITS@[(n % 16) as int]]
    }
}

/// The pieces of `s` between the characters `a` and `b`, which are both left out.
/// There is always one piece more than there are separators.
pub open spec fn split(s: Seq<char>, a: char, b: char) -> Seq<Seq<char>>
    decreases s.len(),
{
    if s.len() == 0 {
        seq![Seq::empty()]
    } else {
        let head = split(s.drop_last(), a, b);
        if s.last() == a || s.last() == b {
            head.push(Seq::empty())
        } else {
            head.drop_last().push(head.last().push(s.last()))
        }
    }
}

/// `s` without the copies of `suffix` that it ends with.
pub open spec fn trim_end(s: Seq<char>, suffix: Seq<char>) -> Seq<char>
    decreases s.len(),
{
    if suffix.len() > 0 && suffix.is_suffix_of(s) {
        trim_end(s.take(s.len() - suffix.len()), suffix)
    } else {
        s
    }
}

/// `c` with an ASCII capital letter made small.
pub open spec fn lower(c: char) -> char {
    if 'A' <= c && c <= 'Z' {
        (c as u8 + 32) as u8 as char
    } else {
        c
    }
}

/// `s` with every ASCII capital letter made small.
pub open spec fn lowered(s: Seq<char>) -> Seq<char> {
    s.map_values(|c: char| lower(c))
}

/// What `c` counts as a digit in `base`, at most sixteen, in either case.
pub open spec fn digit_value(c: char, base: nat) -> Option<nat> {
    let v = if '0' <= c && c <= '9' {
        c as nat - '0' as nat
    } else if 'a' <= c && c <= 'f' {
        c as nat - 'a' as nat + 10
    } else if 'A' <= c && c <= 'F' {
        c as nat - 'A' as nat + 10
    } else {
        base as int
    };
    if v < base {
        Some(v as nat)
    } else {
        None
    }
}

/// The number that the digits of `s` write in `base`; nothing if one is no digit.
pub open spec fn digits_value(s: Seq<char>, base: nat) -> Option<nat>
    decreases s.len(),
{
    if s.len() == 0 {
        Some(0)
    } else {
        match (digits_value(s.drop_last(), base), digit_value(s.last(), base)) {
            (Some(v), Some(d)) => Some(v * base + d),
            _ => None,
        }
    }
}

/// The number that `s` writes in `base`: an optional plus sign and at least one digit.
pub open spec fn radix_value(s: Seq<char>, base: nat) -> Option<nat> {
    let digits = if s.len() > 0 && s[0] == '+' {
        s.skip(1)
    } else {
        s
    };
    if digits.len() == 0 {
        None
    } else {
        digits_value(digits, base)
    }
}

/// `value` where it is there and at most `max`.
pub open spec fn at_most(value: Option<nat>, max: nat) -> Option<nat> {
    match value {
        Some(v) if v <= max => Some(v),
        _ => None,
    }
}

/// The characters of `s`.
pub fn chars_of(s: &str) -> (chars: Vec<char>)
    ensures
        chars@ == s@,
{
    let mut chars: Vec<char> = Vec::new();
    for c in it: s.chars()
        invariant
            it.seq() == s@,
            chars@ == it.seq().take(it.index()),
    {
        proof {
            assert(s@.take(it.index() + 1) =~= s@.take(it.index()).push(c));
        }
        chars.push(c);
    }
    proof {
        assert(s@.take(s@.len() as int) =~= s@);
    }
    chars
}

/// Whether two texts are the same.
pub fn same_text(a: &str, b: &str) -> (same: bool)
    ensures
        same == (a@ == b@),
{
    let x = a.as_bytes();
    let y = b.as_bytes();
    proof {
        vstd::utf8::encode_utf8_decode_utf8(a@);
        vstd::utf8::encode_utf8_decode_utf8(b@);
    }
    if x.len() != y.len() {
        return false;
    }
    let mut i: usize = 0;
    while i < x.len()
        invariant
            i <= x@.len(),
            x@.len() == y@.len(),
            x@ == a.spec_bytes(),
            y@ == b.spec_bytes(),
            forall|j: int| 0 <= j < i ==> x@[j] == y@[j],
        decreases x@.len() - i,
    {
        if x[i] != y[i] {
            return false;
        }
        i = i + 1;
    }
    assert(x@ =~= y@);
    true
}

/// Whether `s` begins with `prefix`.
pub fn starts_with(s: &str, prefix: &str) -> (yes: bool)
    ensures
        yes == prefix@.is_prefix_of(s@),
{
    let chars = chars_of(s);
    let wanted = chars_of(prefix);
    if wanted.len() > chars.len() {
        return false;
    }
    let mut i: usize = 0;
    while i < wanted.len()
        invariant
            i <= wanted@.len() <= chars@.len(),
            chars@ == s@,
            wanted@ == prefix@,
            forall|j: int| 0 <= j < i ==> wanted@[j] == chars@[j],
        decreases wanted@.len() - i,
    {
        if wanted[i] != chars[i] {
            return false;
        }
        i = i + 1;
    }
    assert(prefix@ =~= s@.subrange(0, prefix@.len() as int));
    true
}

/// Whether `s` ends with `suffix`.
pub fn ends_with(s: &str, suffix: &str) -> (yes: bool)
    ensures
        yes == suffix@.is_suffix_of(s@),
{
    let chars = chars_of(s);
    let wanted = chars_of(suffix);
    if wanted.len() > chars.len() {
        return false;
    }
    let from: usize = chars.len() - wanted.len();
    let mut i: usize = 0;
    while i < wanted.len()
        invariant
            i <= wanted@.len(),
            from + wanted@.len() == chars@.len() <= usize::MAX,
            chars@ == s@,
            wanted@ == suffix@,
            forall|j: int| 0 <= j < i ==> wanted@[j] == chars@[from + j],
        decreases wanted@.len() - i,
    {
        if wanted[i] != chars[from + i] {
            assert(s@.subrange(from as int, s@.len() as int)[i as int] != suffix@[i as int]);
            return false;
        }
        i = i + 1;
    }
    assert(suffix@ =~= s@.subrange(from as int, s@.len() as int));
    true
}

/// What follows the first `count` characters of `s`.
pub fn skip_text(s: &str, count: usize) -> (rest: &str)
    requires
        count <= s@.len(),
    ensures
        rest@ == s@.skip(count as int),
{
    let len = s.unicode_len();
    assert(s@.subrange(count as int, len as int) =~= s@.skip(count as int));
    s.substring_char(count, len)
}

/// `s` without the copies of `suffix` that it ends with.
pub fn trim_end_matches(s: &str, suffix: &str) -> (trimmed: String)
    ensures
        trimmed@ == trim_end(s@, suffix@),
{
    let width = suffix.unicode_len();
    let mut len = s.unicode_len();
    assert(s@.take(len as int) =~= s@);
    while width > 0 && ends_with(s.substring_char(0, len), suffix)
        invariant
            width == suffix@.len(),
            len <= s@.len(),
            trim_end(s@.take(len as int), suffix@) == trim_end(s@, suffix@),
        decreases len,
    {
        proof {
            assert(s@.subrange(0, len as int) =~= s@.take(len as int));
            assert(s@.take(len as int).take(len - width) =~= s@.take(len - width));
        }
        len = len - width;
    }
    assert(s@.subrange(0, len as int) =~= s@.take(len as int));
    s.substring_char(0, len).to_string()
}

/// The pieces of `s` between the characters `a` and `b`.
pub fn split_text(s: &str, a: char, b: char) -> (pieces: Vec<String>)
    ensures
        texts(pieces@) == split(s@, a, b),
        pieces@.len() > 0,
{
    let chars = chars_of(s);
    let mut pieces: Vec<String> = Vec::new();
    let mut start: usize = 0;
    let mut i: usize = 0;
    proof {
        assert(s@.subrange(0, 0) =~= Seq::<char>::empty());
        assert(texts(pieces@).push(s@.subrange(0, 0)) =~= split(s@.take(0), a, b));
    }
    while i < chars.len()
        invariant
            start <= i <= chars@.len(),
            chars@ == s@,
            texts(pieces@).push(s@.subrange(start as int, i as int)) == split(
                s@.take(i as int),
                a,
                b,
            ),
        decreases chars@.len() - i,
    {
        let ghost before = s@.take(i as int);
        let ghost after = s@.take(i + 1);
        let ghost head = split(before, a, b);
        let ghost done = texts(pieces@);
        proof {
            assert(after.drop_last() =~= before);
            assert(after.last() == s@[i as int]);
            assert(head.drop_last() =~= done);
            assert(head.last() == s@.subrange(start as int, i as int));
        }
        if chars[i] == a || chars[i] == b {
            pieces.push(s.substring_char(start, i).to_string());
            start = i + 1;
            proof {
                assert(texts(pieces@) =~= head);
                assert(s@.subrange(start as int, i + 1) =~= Seq::<char>::empty());
            }
        } else {
            proof {
                assert(s@.subrange(start as int, i + 1) =~= s@.subrange(start as int, i as int).push(
                    s@[i as int],
                ));
            }
        }
        i = i + 1;
    }
    let ghost done = texts(pieces@);
    pieces.push(s.substring_char(start, i).to_string());
    proof {
        assert(s@.take(i as int) =~= s@);
        assert(texts(pieces@) =~= done.push(s@.subrange(start as int, i as int)));
    }
    pieces
}

/// Whether `s`, its ASCII capital letters made small, is `word`.
pub fn lowers_to(s: &str, word: &str) -> (yes: bool)
    ensures
        yes == (lowered(s@) == word@),
{
    let chars = chars_of(s);
    let wanted = chars_of(word);
    if wanted.len() != chars.len() {
        return false;
    }
    let mut i: usize = 0;
    while i < wanted.len()
        invariant
            i <= wanted@.len() == chars@.len(),
            chars@ == s@,
            wanted@ == word@,
            forall|j: int| 0 <= j < i ==> lower(#[trigger] chars@[j]) == wanted@[j],
        decreases wanted@.len() - i,
    {
        let c = chars[i];
        let small = if 'A' <= c && c <= 'Z' {
            (c as u8 + 32) as char
        } else {
            c
        };
        assert(small == lower(c));
        if small != wanted[i] {
            assert(lowered(s@)[i as int] != word@[i as int]);
            return false;
        }
        i = i + 1;
    }
    assert(lowered(s@) =~= word@);
    true
}

/// What `c` counts as a digit in `base`.
fn digit_of(c: char, base: u64) -> (digit: Option<u64>)
    requires
        base <= 16,
    ensures
        digit is Some <==> digit_value(c, base as nat) is Some,
        digit matches Some(d) ==> d == digit_value(c, base as nat)->0 && d < base,
{
    let v: u64 = if '0' <= c && c <= '9' {
        c as u64 - '0' as u64
    } else if 'a' <= c && c <= 'f' {
        c as u64 - 'a' as u64 + 10
    } else if 'A' <= c && c <= 'F' {
        c as u64 - 'A' as u64 + 10
    } else {
        base
    };
    if v < base {
        Some(v)
    } else {
        None
    }
}

/// A longer numeral writes no smaller number.
pub proof fn lemma_digits_grow(s: Seq<char>, base: nat, k: int)
    requires
        base >= 1,
        0 <= k <= s.len(),
        digits_value(s, base) is Some,
    ensures
        digits_value(s.take(k), base) is Some,
        digits_value(s.take(k), base)->0 <= digits_value(s, base)->0,
    decreases s.len(),
{
    if k == s.len() {
        assert(s.take(k) =~= s);
    } else {
        lemma_digits_grow(s.drop_last(), base, k);
        assert(s.drop_last().take(k) =~= s.take(k));
        let v = digits_value(s.drop_last(), base)->0;
        assert(v <= v * base) by (nonlinear_arith)
            requires
                base >= 1,
        ;
    }
}

/// The number that `chars` write in `base`, where it is at most `max`.
pub fn parse_radix(chars: &Vec<char>, base: u64, max: u64) -> (number: Option<u64>)
    requires
        1 <= base <= 16,
        max < 0x1000_0000_0000,
    ensures
        number is Some <==> at_most(radix_value(chars@, base as nat), max as nat) is Some,
        number matches Some(n) ==> n == at_most(radix_value(chars@, base as nat), max as nat)->0,
{
    let from: usize = if chars.len() > 0 && chars[0] == '+' {
        1
    } else {
        0
    };
    let ghost digits = chars@.skip(from as int);
    assert(chars@.skip(0) =~= chars@);
    if from == chars.len() {
        return None;
    }
    let mut number: u64 = 0;
    let mut i: usize = from;
    while i < chars.len()
        invariant
            from <= i <= chars@.len(),
            1 <= base <= 16,
            max < 0x1000_0000_0000,
            number <= max,
            digits == chars@.skip(from as int),
            digits.len() > 0,
            radix_value(chars@, base as nat) == digits_value(digits, base as nat),
            digits_value(digits.take(i - from), base as nat) == Some(number as nat),
        decreases chars@.len() - i,
    {
        let ghost next = digits.take(i + 1 - from);
        proof {
            assert(next.drop_last() =~= digits.take(i - from));
            assert(next.last() == chars@[i as int]);
            if digits_value(digits, base as nat) is Some {
                lemma_digits_grow(digits, base as nat, i + 1 - from);
            }
        }
        match digit_of(chars[i], base) {
            None => {
                return None;
            },
            Some(d) => {
                assert(number * base <= 0x1000_0000_0000 * 16) by (nonlinear_arith)
                    requires
                        number < 0x1000_0000_0000,
                        base <= 16,
                ;
                number = number * base + d;
                if number > max {
                    return None;
                }
            },
        }
        i = i + 1;
    }
    assert(digits.take(i - from) =~= digits);
    Some(number)
}

/// Appends the digit `d`.
fn push_digit(out: &mut String, d: usize)
    requires
        d < 16,
    ensures
        final(out)@ == old(out)@ + seq![DIGITS@[d as int]],
{
    proof {
        reveal_strlit("0123456789abcdef");
        assert(DIGITS@.subrange(d as int, d + 1) =~= seq![DIGITS@[d as int]]);
    }
    out.append(DIGITS.substring_char(d, d + 1));
}

/// Appends `n` in decimal.
pub fn push_dec(out: &mut String, n: usize)
    ensures
        final(out)@ == old(out)@ + dec(n as nat),
    decreases n,
{
    if n >= 10 {
        push_dec(out, n / 10);
    }
    push_digit(out, n % 10);
    proof {
        if n >= 10 {
            assert(dec(n as nat) == dec((n / 10) as nat) + seq![DIGITS@[(n % 10) as int]]);
            assert(out@ =~= old(out)@ + dec(n as nat));
        } else {
            assert(out@ =~= old(out)@ + dec(n as nat));
        }
    }
}

/// Appends the low `width` hexadecimal digits of `n`.
pub fn push_hex(out: &mut String, n: u32, width: usize)
    ensures
        final(out)@ == old(out)@ + hex(n as nat, width as nat),
    decreases width,
{
    if width > 0 {
        push_hex(out, n / 16, width - 1);
        push_digit(out, (n % 16) as usize);
    }
    assert(out@ =~= old(out)@ + hex(n as nat, width as nat));
}

/// How many hexadecimal digits `s` begins with.
pub open spec fn leading_digits(s: Seq<char>) -> nat
    decreases s.len(),
{
    if s.len() > 0 && digit_value(s[0], 16) is Some {
        1 + leading_digits(s.skip(1))
    } else {
        0
    }
}

/// Whether the hexadecimal digits that `s` begins with, behind a plus sign, write a
/// number beyond 32 bits.
pub open spec fn overflows(s: Seq<char>) -> bool {
    let digits = if s.len() > 0 && s[0] == '+' {
        s.skip(1)
    } else {
        s
    };
    digits_value(digits.take(leading_digits(digits) as int), 16)->0 > u32::MAX
}

/// Whether the hexadecimal digits that `s` begins with write a number beyond 32 bits.
pub fn check_overflow(s: &str) -> (yes: bool)
    ensures
        yes == overflows(s@),
{
    let chars = chars_of(s);
    let from: usize = if chars.len() > 0 && chars[0] == '+' {
        1
    } else {
        0
    };
    let ghost digits = chars@.skip(from as int);
    assert(chars@.skip(0) =~= chars@);
    let mut front: Vec<char> = Vec::new();
    let mut i: usize = from;
    proof {
        assert(front@ =~= digits.take(0));
        assert(digits.skip(0) =~= digits);
    }
    while i < chars.len() && digit_of(chars[i], 16).is_some()
        invariant
            from <= i <= chars@.len(),
            digits == chars@.skip(from as int),
            front@ == digits.take(i - from),
            digits_value(front@, 16) is Some,
            leading_digits(digits) == (i - from) + leading_digits(digits.skip(i - from)),
        decreases chars@.len() - i,
    {
        proof {
            let next = digits.take(i + 1 - from);
            assert(next.drop_last() =~= digits.take(i - from));
            assert(next.last() == chars@[i as int]);
            assert(digits.skip(i - from)[0] == chars@[i as int]);
            assert(digits.skip(i - from).skip(1) =~= digits.skip(i + 1 - from));
        }
        front.push(chars[i]);
        assert(front@ =~= digits.take(i + 1 - from));
        i = i + 1;
    }
    proof {
        if i < chars.len() {
            assert(digits.skip(i - from)[0] == chars@[i as int]);
        }
        assert(leading_digits(digits) == i - from);
        if front@.len() > 0 {
            lemma_digits_grow(front@, 16, 1);
            assert(front@.take(1).drop_last() =~= Seq::<char>::empty());
            assert(front@.take(1).last() == front@[0]);
            assert(digit_value('+', 16) is None);
        }
    }
    front.len() > 0 && parse_radix(&front, 16, u32::MAX as u64).is_none()
}

} // verus!
