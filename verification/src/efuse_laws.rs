//! What holds of numbers in text, and of the names of efuse files.

use crate::efuse::EfuseView;
use crate::fault::Fault;
use crate::text::{
    at_most, dec, digit_value, digits_value, hex, lowered, radix_value, split, DIGITS,
};
use vstd::prelude::*;
use vstd::string::*;

verus! {

/// The digits count what they stand for.
proof fn lemma_digit(v: nat, base: nat)
    requires
        v < base <= 16,
    ensures
        DIGITS@.len() == 16,
        digit_value(DIGITS@[v as int], base) == Some(v),
        DIGITS@[v as int] != '-',
        DIGITS@[v as int] != '+',
{
    reveal_strlit("0123456789abcdef");
}

/// A number written in decimal is read back.
pub proof fn law_decimal(n: nat)
    ensures
        digits_value(dec(n), 10) == Some(n),
        dec(n).len() > 0,
    decreases n,
{
    if n < 10 {
        lemma_digit(n, 10);
        assert(dec(n).drop_last() =~= Seq::<char>::empty());
        assert(digits_value(dec(n).drop_last(), 10) == Some(0nat));
    } else {
        law_decimal(n / 10);
        lemma_digit(n % 10, 10);
        assert(dec(n).drop_last() =~= dec(n / 10));
    }
}

/// How many numbers have `width` hexadecimal digits at most.
pub open spec fn hex_count(width: nat) -> nat
    decreases width,
{
    if width == 0 {
        1
    } else {
        16 * hex_count((width - 1) as nat)
    }
}

/// A number written in hexadecimal, with digits enough, is read back.
pub proof fn law_hexadecimal(n: nat, width: nat)
    requires
        n < hex_count(width),
    ensures
        digits_value(hex(n, width), 16) == Some(n),
        hex(n, width).len() == width,
        !hex(n, width).contains('-'),
        !hex(n, width).contains('+'),
    decreases width,
{
    if width > 0 {
        let head = hex(n / 16, (width - 1) as nat);
        law_hexadecimal(n / 16, (width - 1) as nat);
        lemma_digit(n % 16, 16);
        assert(hex(n, width).drop_last() =~= head);
        assert forall|i: int| 0 <= i < width implies hex(n, width)[i] != '-' && hex(n, width)[i]
            != '+' by {
            if i < width - 1 {
                assert(hex(n, width)[i] == head[i]);
                assert(head.contains(head[i]));
            }
        }
    }
}

/// A text without the separator is in one piece.
pub(crate) proof fn lemma_split_one(s: Seq<char>, c: char)
    requires
        !s.contains(c),
    ensures
        split(s, c, c) == seq![s],
    decreases s.len(),
{
    if s.len() > 0 {
        let head = s.drop_last();
        assert(s.last() == s[s.len() - 1]);
        assert forall|i: int| 0 <= i < head.len() implies head[i] != c by {
            assert(s[i] != c);
        }
        lemma_split_one(head, c);
        assert(seq![head].drop_last().push(head.push(s.last())) =~= seq![s]) by {
            assert(head.push(s.last()) =~= s);
        }
    } else {
        assert(s =~= Seq::<char>::empty());
    }
}

/// What stands behind the last separator is the last piece.
pub(crate) proof fn lemma_split_more(s: Seq<char>, c: char, t: Seq<char>)
    requires
        !t.contains(c),
    ensures
        split(s + seq![c] + t, c, c) == split(s, c, c).push(t),
    decreases t.len(),
{
    let whole = s + seq![c] + t;
    let head = split(s, c, c);
    if t.len() == 0 {
        assert(whole.drop_last() =~= s);
        assert(t =~= Seq::<char>::empty());
    } else {
        let rest = t.drop_last();
        assert(t.last() == t[t.len() - 1]);
        assert forall|i: int| 0 <= i < rest.len() implies rest[i] != c by {
            assert(t[i] != c);
        }
        lemma_split_more(s, c, rest);
        assert(whole.drop_last() =~= s + seq![c] + rest);
        assert(head.push(rest).drop_last() =~= head);
        assert(rest.push(t.last()) =~= t);
    }
}

/// Three texts without dashes, with dashes between them, are the three pieces.
proof fn lemma_split_three(a: Seq<char>, b: Seq<char>, c: Seq<char>)
    requires
        !a.contains('-'),
        !b.contains('-'),
        !c.contains('-'),
    ensures
        split(a + seq!['-'] + b + seq!['-'] + c, '-', '-') == seq![a, b, c],
{
    lemma_split_one(a, '-');
    lemma_split_more(a, '-', b);
    lemma_split_more(a + seq!['-'] + b, '-', c);
    assert(seq![a].push(b).push(c) =~= seq![a, b, c]);
}

/// The types of efuses, in small letters, are as they are in the names of files.
proof fn lemma_types()
    ensures
        lowered("param"@) == "param"@,
        lowered("key"@) == "key"@,
        lowered("keydigest"@) == "keydigest"@,
        "param"@ != "key"@,
        "keydigest"@ != "key"@,
        "keydigest"@ != "param"@,
        !"param"@.contains('-'),
        !"key"@.contains('-'),
        !"keydigest"@.contains('-'),
        "param-"@ == "param"@ + seq!['-'],
        "key-"@ == "key"@ + seq!['-'],
        "keydigest-"@ == "keydigest"@ + seq!['-'],
        "-"@ == seq!['-'],
{
    reveal_strlit("param");
    reveal_strlit("key");
    reveal_strlit("keydigest");
    reveal_strlit("param-");
    reveal_strlit("key-");
    reveal_strlit("keydigest-");
    reveal_strlit("-");
    assert(lowered("param"@) =~= "param"@);
    assert(lowered("key"@) =~= "key"@);
    assert(lowered("keydigest"@) =~= "keydigest"@);
    assert("param-"@ =~= "param"@ + seq!['-']);
    assert("key-"@ =~= "key"@ + seq!['-']);
    assert("keydigest-"@ =~= "keydigest"@ + seq!['-']);
    assert("-"@ =~= seq!['-']);
    assert("param"@.len() == 5);
    assert("key"@.len() == 3);
    assert("keydigest"@.len() == 9);
}

/// The text of a key or a key digest is the name of a file that describes it, where
/// neither its block nor its purpose has a dash, and there is data.
pub proof fn law_key_text(efuse: EfuseView, data: Seq<u8>)
    requires
        data.len() > 0,
        efuse matches EfuseView::Key { block, key_value, purpose } ==> !block.contains('-')
            && !purpose.contains('-') && key_value == data,
        efuse matches EfuseView::KeyDigest { block, digest_value, purpose } ==> !block.contains(
            '-',
        ) && !purpose.contains('-') && digest_value == data,
        !(efuse is Param),
    ensures
        EfuseView::of_file(efuse.spec_text(), data) == Ok::<EfuseView, Fault<Seq<char>>>(efuse),
{
    lemma_types();
    match efuse {
        EfuseView::Param { .. } => {},
        EfuseView::Key { block, key_value, purpose } => {
            lemma_split_three("key"@, block, purpose);
        },
        EfuseView::KeyDigest { block, digest_value, purpose } => {
            lemma_split_three("keydigest"@, block, purpose);
        },
    }
}

/// The digits of a number are digits, and are no dashes.
proof fn lemma_no_dash(s: Seq<char>)
    requires
        digits_value(s, 16) is Some,
    ensures
        !s.contains('-'),
    decreases s.len(),
{
    if s.len() > 0 {
        let head = s.drop_last();
        lemma_no_dash(head);
        assert(digit_value('-', 16) is None);
        assert forall|i: int| 0 <= i < s.len() implies s[i] != '-' by {
            if i < head.len() {
                assert(head[i] == s[i]);
                assert(head.contains(head[i]));
            }
        }
    }
}

/// An empty file named after a parameter and its value, in any hexadecimal digits
/// behind `0x`, describes that parameter, where its name has no dash.
pub proof fn law_param_file(name: Seq<char>, digits: Seq<char>, value: u32)
    requires
        !name.contains('-'),
        radix_value(digits, 16) == Some(value as nat),
    ensures
        EfuseView::of_file("param-"@ + name + "-"@ + ("0x"@ + digits), Seq::empty()) == Ok::<
            EfuseView,
            Fault<Seq<char>>,
        >(EfuseView::Param { name, value }),
{
    reveal_strlit("0x");
    lemma_types();
    let written = "0x"@ + digits;
    let signed = digits[0] == '+';
    if signed {
        lemma_no_dash(digits.skip(1));
    } else {
        lemma_no_dash(digits);
    }
    assert forall|i: int| 0 <= i < written.len() implies written[i] != '-' by {
        if i >= 2 {
            assert(written[i] == digits[i - 2]);
            if !signed {
                assert(digits.contains(digits[i - 2]));
            } else if i >= 3 {
                assert(digits.skip(1)[i - 3] == digits[i - 2]);
                assert(digits.skip(1).contains(digits.skip(1)[i - 3]));
            }
        }
    }
    lemma_split_three("param"@, name, written);
    assert("0x"@.is_prefix_of(written)) by {
        assert("0x"@ =~= written.subrange(0, 2));
    }
    assert(written.skip(2) =~= digits);
    assert(at_most(radix_value(digits, 16), u32::MAX as nat) == Some(value as nat));
}

/// The eight digits that a parameter efuse is written with, behind `0x`, are read back.
pub proof fn law_param_text(name: Seq<char>, value: u32)
    requires
        !name.contains('-'),
    ensures
        EfuseView::of_file(
            "param-"@ + name + "-"@ + ("0x"@ + hex(value as nat, 8)),
            Seq::empty(),
        ) == Ok::<EfuseView, Fault<Seq<char>>>(EfuseView::Param { name, value }),
{
    assert(value < hex_count(8)) by {
        reveal_with_fuel(hex_count, 9);
    }
    law_hexadecimal(value as nat, 8);
    let digits = hex(value as nat, 8);
    assert(digits[0] != '+') by {
        assert(digits.contains(digits[0]));
    }
    law_param_file(name, digits, value);
}

} // verus!
