//! What the names of efuse files mean, piece by piece, and the numbers in them.

use crate::efuse::EfuseView;
use crate::efuse_laws::{hex_count, lemma_split_more, lemma_split_one};
use crate::fault::Fault;
use crate::text::{dec, digits_value, hex, lower, lowered, radix_value, split, DIGITS};
use vstd::prelude::*;
use vstd::string::*;

verus! {

/// What a character counts as a digit, up to fifteen.
pub open spec fn digit_of(c: char) -> Option<nat> {
    if '0' <= c <= '9' {
        Some((c as u32 - '0' as u32) as nat)
    } else if 'a' <= c <= 'f' {
        Some((c as u32 - 'a' as u32 + 10) as nat)
    } else if 'A' <= c <= 'F' {
        Some((c as u32 - 'A' as u32 + 10) as nat)
    } else {
        None
    }
}

/// The number that digits write in a base, none of them being nothing.
pub open spec fn number_in(digits: Seq<char>, base: nat) -> Option<nat>
    decreases digits.len(),
{
    if digits.len() == 0 {
        Some(0)
    } else {
        match (number_in(digits.drop_last(), base), digit_of(digits.last())) {
            (Some(rest), Some(digit)) => if digit < base {
                Some(base * rest + digit)
            } else {
                None
            },
            _ => None,
        }
    }
}

/// The number that a text writes in a base: at least one digit, behind a plus sign or not.
pub open spec fn number_written(text: Seq<char>, base: nat) -> Option<nat> {
    if text.len() > 0 && text[0] == '+' {
        if text.len() > 1 {
            number_in(text.skip(1), base)
        } else {
            None
        }
    } else if text.len() > 0 {
        number_in(text, base)
    } else {
        None
    }
}

proof fn lemma_number_in(digits: Seq<char>, base: nat)
    requires
        base <= 16,
    ensures
        digits_value(digits, base) == number_in(digits, base),
    decreases digits.len(),
{
    if digits.len() > 0 {
        let head = digits.drop_last();
        lemma_number_in(head, base);
        if let Some(rest) = number_in(head, base) {
            assert(rest * base == base * rest) by (nonlinear_arith);
        }
    }
}

/// Numbers are read by their digits: each digit of the base, in either case, counts as
/// often as the base tells for its place. Anything else is no number.
pub proof fn law_numbers(text: Seq<char>, base: nat)
    requires
        base <= 16,
    ensures
        radix_value(text, base) == number_written(text, base),
        digits_value(text, base) == number_in(text, base),
{
    lemma_number_in(text, base);
    if text.len() > 0 && text[0] == '+' {
        lemma_number_in(text.skip(1), base);
    }
}

/// Whether a character is a digit as numbers are written: in small letters.
pub open spec fn is_small_digit(c: char) -> bool {
    '0' <= c <= '9' || 'a' <= c <= 'f'
}

proof fn lemma_small_digit(v: nat)
    requires
        v < 16,
    ensures
        digit_of(DIGITS@[v as int]) == Some(v),
        is_small_digit(DIGITS@[v as int]),
        DIGITS@[v as int] == '0' <==> v == 0,
{
    reveal_strlit("0123456789abcdef");
}

/// A number in decimal is written in digits that write it, without a zero in front unless
/// it is zero.
pub proof fn law_decimal_digits(n: nat)
    ensures
        number_in(dec(n), 10) == Some(n),
        dec(n).len() > 0,
        dec(n)[0] == '0' ==> n == 0 && dec(n).len() == 1,
        forall|i: int| 0 <= i < dec(n).len() ==> '0' <= #[trigger] dec(n)[i] <= '9',
    decreases n,
{
    reveal_strlit("0123456789abcdef");
    if n < 10 {
        lemma_small_digit(n);
        assert(dec(n).drop_last() =~= Seq::<char>::empty());
        assert(number_in(dec(n).drop_last(), 10) == Some(0nat));
    } else {
        law_decimal_digits(n / 10);
        lemma_small_digit(n % 10);
        assert(dec(n).drop_last() =~= dec(n / 10));
        assert forall|i: int| 0 <= i < dec(n).len() implies '0' <= #[trigger] dec(n)[i] <= '9' by {
            if i < dec(n / 10).len() {
                assert(dec(n)[i] == dec(n / 10)[i]);
            }
        }
    }
}

/// A number in hexadecimal is written in as many digits as asked for, in small letters,
/// and they write it where they are enough.
pub proof fn law_hexadecimal_digits(n: nat, width: nat)
    ensures
        hex(n, width).len() == width,
        n < hex_count(width) ==> number_in(hex(n, width), 16) == Some(n),
        forall|i: int| 0 <= i < width ==> is_small_digit(#[trigger] hex(n, width)[i]),
    decreases width,
{
    if width > 0 {
        let head = hex(n / 16, (width - 1) as nat);
        law_hexadecimal_digits(n / 16, (width - 1) as nat);
        lemma_small_digit(n % 16);
        assert(hex(n, width).drop_last() =~= head);
        assert forall|i: int| 0 <= i < width implies is_small_digit(
            #[trigger] hex(n, width)[i],
        ) by {
            if i < width - 1 {
                assert(hex(n, width)[i] == head[i]);
            }
        }
    }
}

/// Pieces, with a dash between each two of them.
pub open spec fn dashed(pieces: Seq<Seq<char>>) -> Seq<char>
    decreases pieces.len(),
{
    if pieces.len() <= 1 {
        pieces[0]
    } else {
        dashed(pieces.drop_last()) + seq!['-'] + pieces.last()
    }
}

/// Whether `pieces` are what a name has between its dashes.
pub open spec fn are_pieces(pieces: Seq<Seq<char>>, name: Seq<char>) -> bool {
    &&& pieces.len() > 0
    &&& forall|i: int| 0 <= i < pieces.len() ==> !(#[trigger] pieces[i]).contains('-')
    &&& name == dashed(pieces)
}

/// Whether a text spells a word, in capital or small letters.
pub open spec fn spells(text: Seq<char>, word: Seq<char>) -> bool {
    &&& text.len() == word.len()
    &&& forall|i: int|
        0 <= i < word.len() ==> {
            ||| #[trigger] text[i] == word[i]
            ||| 'A' <= text[i] <= 'Z' && text[i] as u32 + 32 == word[i] as u32
        }
}

/// Every name has pieces.
pub proof fn law_names_have_pieces(name: Seq<char>) -> (pieces: Seq<Seq<char>>)
    ensures
        are_pieces(pieces, name),
        split(name, '-', '-') == pieces,
    decreases name.len(),
{
    let pieces = split(name, '-', '-');
    if name.len() == 0 {
        assert(name =~= dashed(pieces));
        assert(!pieces[0].contains('-'));
    } else {
        let head = name.drop_last();
        let c = name.last();
        let before = law_names_have_pieces(head);
        assert(head.push(c) =~= name);
        if c == '-' {
            assert(pieces == before.push(Seq::empty()));
            assert(pieces.drop_last() =~= before);
            assert(dashed(pieces) =~= name);
            assert forall|i: int| 0 <= i < pieces.len() implies !(
            #[trigger] pieces[i]).contains('-') by {
                if i < before.len() {
                    assert(pieces[i] == before[i]);
                }
            }
        } else {
            let last = before.last().push(c);
            assert(pieces == before.drop_last().push(last));
            assert(pieces.drop_last() =~= before.drop_last());
            assert(pieces.last() == last);
            assert(dashed(pieces) =~= name);
            assert forall|i: int| 0 <= i < pieces.len() implies !(
            #[trigger] pieces[i]).contains('-') by {
                if i < before.len() - 1 {
                    assert(pieces[i] == before[i]);
                } else {
                    let old = before[before.len() - 1];
                    assert(!old.contains('-'));
                    assert forall|k: int| 0 <= k < last.len() implies last[k] != '-' by {
                        if k < old.len() {
                            assert(last[k] == old[k]);
                            assert(old.contains(old[k]));
                        }
                    }
                }
            }
        }
    }
    pieces
}

/// The pieces of a name are those that it is split into.
proof fn lemma_pieces(pieces: Seq<Seq<char>>)
    requires
        pieces.len() > 0,
        forall|i: int| 0 <= i < pieces.len() ==> !(#[trigger] pieces[i]).contains('-'),
    ensures
        split(dashed(pieces), '-', '-') == pieces,
    decreases pieces.len(),
{
    if pieces.len() == 1 {
        lemma_split_one(pieces[0], '-');
        assert(seq![pieces[0]] =~= pieces);
    } else {
        let head = pieces.drop_last();
        assert forall|i: int| 0 <= i < head.len() implies !(#[trigger] head[i]).contains('-') by {
            assert(head[i] == pieces[i]);
        }
        lemma_pieces(head);
        assert(!pieces[pieces.len() - 1].contains('-'));
        lemma_split_more(dashed(head), '-', pieces.last());
        assert(head.push(pieces.last()) =~= pieces);
    }
}

/// A text in small letters is the word that it spells.
proof fn lemma_spells(text: Seq<char>, word: Seq<char>)
    requires
        forall|i: int| 0 <= i < word.len() ==> 'a' <= #[trigger] word[i] <= 'z',
    ensures
        lowered(text) == word <==> spells(text, word),
{
    if lowered(text) == word {
        assert forall|i: int| 0 <= i < word.len() implies {
            ||| #[trigger] text[i] == word[i]
            ||| 'A' <= text[i] <= 'Z' && text[i] as u32 + 32 == word[i] as u32
        } by {
            assert(lowered(text)[i] == lower(text[i]));
        }
    }
    if spells(text, word) {
        assert forall|i: int| 0 <= i < word.len() implies lowered(text)[i] == word[i] by {
            assert(text[i] == word[i] || 'A' <= text[i] <= 'Z');
        }
        assert(lowered(text) =~= word);
    }
}

/// An efuse file is told by the first piece of its name. A parameter has a name and a
/// value in hexadecimal behind `0x`, of at most 32 bits, and no data; a key or a key digest
/// has a block, a purpose and data. `key` in other letters than small ones is the one for a
/// key digest. What is wrong first is reported.
pub proof fn law_efuse_file(name: Seq<char>, pieces: Seq<Seq<char>>, data: Seq<u8>)
    requires
        are_pieces(pieces, name),
    ensures
        ({
            let efuse = EfuseView::of_file(name, data);
            let digits = pieces[2].skip(2);
            let value = number_written(digits, 16);
            let fault = match efuse {
                Ok(_) => None,
                Err(fault) => Some(fault),
            };
            if spells(pieces[0], "param"@) {
                &&& efuse is Ok <==> pieces.len() == 3 && "0x"@.is_prefix_of(pieces[2])
                    && value is Some && value->0 < 0x1_0000_0000 && data.len() == 0
                &&& efuse matches Ok(burned) ==> burned == (EfuseView::Param {
                    name: pieces[1],
                    value: value->0 as u32,
                })
                &&& pieces.len() == 1 ==> fault == Some(Fault::EfuseName { name })
                &&& pieces.len() == 2 ==> fault == Some(Fault::EfuseNoValue { name: pieces[1] })
                &&& pieces.len() > 2 && !"0x"@.is_prefix_of(pieces[2]) ==> fault == Some(
                    Fault::EfuseValue { value: pieces[2], name: pieces[1] },
                )
                &&& pieces.len() > 2 && "0x"@.is_prefix_of(pieces[2]) ==> {
                    &&& value is None || value->0 >= 0x1_0000_0000 ==> fault == Some(
                        Fault::EfuseNumber { digits },
                    )
                    &&& value is Some && value->0 < 0x1_0000_0000 ==> {
                        &&& pieces.len() > 3 ==> fault == Some(
                            Fault::EfuseName { name: pieces[1] },
                        )
                        &&& pieces.len() == 3 && data.len() > 0 ==> fault == Some(
                            Fault::EfuseData { name: pieces[1], len: data.len() as usize },
                        )
                    }
                }
            } else if spells(pieces[0], "key"@) || spells(pieces[0], "keydigest"@) {
                &&& efuse is Ok <==> pieces.len() == 3 && data.len() > 0
                &&& efuse matches Ok(burned) ==> if pieces[0] == "key"@ {
                    burned == (EfuseView::Key {
                        block: pieces[1],
                        key_value: data,
                        purpose: pieces[2],
                    })
                } else {
                    burned == (EfuseView::KeyDigest {
                        block: pieces[1],
                        digest_value: data,
                        purpose: pieces[2],
                    })
                }
                &&& pieces.len() != 3 ==> fault == Some(Fault::EfuseName { name })
                &&& pieces.len() == 3 && data.len() == 0 ==> fault == Some(
                    Fault::EfuseEmpty { name },
                )
            } else {
                fault == Some(Fault::EfuseType { ty: pieces[0] })
            }
        }),
{
    lemma_pieces(pieces);
    reveal_strlit("param");
    reveal_strlit("key");
    reveal_strlit("keydigest");
    reveal_strlit("0x");
    lemma_spells(pieces[0], "param"@);
    lemma_spells(pieces[0], "key"@);
    lemma_spells(pieces[0], "keydigest"@);
    law_numbers(pieces[2].skip(2), 16);
}

/// What names an efuse is its own name or its block, and two efuses are the same if and
/// only if they are of one kind and have that in common.
pub proof fn law_efuse_names(a: EfuseView, b: EfuseView)
    ensures
        match a {
            EfuseView::Param { name, .. } => a.spec_name() == name,
            EfuseView::Key { block, .. } => a.spec_name() == block,
            EfuseView::KeyDigest { block, .. } => a.spec_name() == block,
        },
        a.same_as(b) <==> match (a, b) {
            (EfuseView::Param { name: x, .. }, EfuseView::Param { name: y, .. }) => x == y,
            (EfuseView::Key { block: x, .. }, EfuseView::Key { block: y, .. }) => x == y,
            (EfuseView::KeyDigest { block: x, .. }, EfuseView::KeyDigest { block: y, .. }) => x
                == y,
            _ => false,
        },
{
}

} // verus!
