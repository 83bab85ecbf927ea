//! Strings: optional text, decimal numbers and the trimming of padding.

use vstd::prelude::*;

verus! {

/// The characters of an optional string.
pub open spec fn text_option(text: Option<String>) -> Option<Seq<char>> {
    match text {
        Some(t) => Some(t@),
        None => None,
    }
}

/// The characters of each string of a list.
pub open spec fn texts(list: Seq<String>) -> Seq<Seq<char>> {
    list.map_values(|t: String| t@)
}

/// Copies an optional string.
pub fn copy_text_option(text: &Option<String>) -> (copy: Option<String>)
    ensures
        text_option(copy) == text_option(*text),
        match (text, copy) {
            (Some(t), Some(c)) => c@ == t@,
            (None, None) => true,
            _ => false,
        },
{
    match text {
        Some(t) => Some(t.clone()),
        None => None,
    }
}

/// The value of an optional string is its characters, and that of a list has the characters of each
/// of its strings, in their order.
pub proof fn lemma_string_values(text: Option<String>, list: Seq<String>)
    ensures
        match text {
            Some(t) => text_option(text) == Some(t@),
            None => text_option(text) is None,
        },
        texts(list).len() == list.len(),
        forall|i: int| 0 <= i < list.len() ==> #[trigger] texts(list)[i] == list[i]@,
{
}

/// `text` without the characters `pad` at its two ends.
pub open spec fn trimmed(text: Seq<char>, pad: char) -> Seq<char>
    decreases text.len(),
{
    if text.len() == 0 {
        text
    } else if text.first() == pad {
        trimmed(text.drop_first(), pad)
    } else if text.last() == pad {
        trimmed(text.drop_last(), pad)
    } else {
        text
    }
}

/// `str::trim_matches` with a character as its pattern: every `pad` at the start and at the end of
/// `text` is removed, what stands between stays as it is.
#[verifier::external_body]
pub(crate) fn trim_matches<'a>(text: &'a str, pad: char) -> (rest: &'a str)
    ensures
        rest@ == trimmed(text@, pad),
{
    text.trim_matches(pad)
}

/// What trimming leaves is a contiguous part of the text, all that was removed is `pad`, and
/// neither end of what is left is `pad`.
#[verifier::spinoff_prover]
#[verifier::rlimit(40)]
pub proof fn lemma_trimmed(text: Seq<char>, pad: char) -> (bounds: (int, int))
    ensures
        0 <= bounds.0 <= bounds.1 <= text.len(),
        trimmed(text, pad) == text.subrange(bounds.0, bounds.1),
        forall|i: int| 0 <= i < bounds.0 ==> text[i] == pad,
        forall|i: int| bounds.1 <= i < text.len() ==> text[i] == pad,
        trimmed(text, pad).len() > 0 ==> trimmed(text, pad).first() != pad && trimmed(
            text,
            pad,
        ).last() != pad,
    decreases text.len(),
{
    if text.len() == 0 {
        assert(text =~= text.subrange(0, 0));
        (0, 0)
    } else if text.first() == pad {
        let inner = lemma_trimmed(text.drop_first(), pad);
        assert(text.drop_first().subrange(inner.0, inner.1) =~= text.subrange(
            inner.0 + 1,
            inner.1 + 1,
        ));
        assert forall|i: int| 0 <= i < inner.0 + 1 implies text[i] == pad by {
            if i > 0 {
                assert(text.drop_first()[i - 1] == pad);
            }
        }
        assert forall|i: int| inner.1 + 1 <= i < text.len() implies text[i] == pad by {
            assert(text.drop_first()[i - 1] == pad);
        }
        (inner.0 + 1, inner.1 + 1)
    } else if text.last() == pad {
        let inner = lemma_trimmed(text.drop_last(), pad);
        assert(text.drop_last().subrange(inner.0, inner.1) =~= text.subrange(inner.0, inner.1));
        assert forall|i: int| 0 <= i < inner.0 implies text[i] == pad by {
            assert(text.drop_last()[i] == pad);
        }
        assert forall|i: int| inner.1 <= i < text.len() implies text[i] == pad by {
            if i < text.len() - 1 {
                assert(text.drop_last()[i] == pad);
            }
        }
        inner
    } else {
        assert(text =~= text.subrange(0, text.len() as int));
        (0, text.len() as int)
    }
}

/// Trimming twice leaves what trimming once leaves.
pub proof fn lemma_trimmed_idempotent(text: Seq<char>, pad: char)
    ensures
        trimmed(trimmed(text, pad), pad) == trimmed(text, pad),
{
    lemma_trimmed(text, pad);
}

/// The decimal digit `digit`.
pub open spec fn digit_char(digit: nat) -> char {
    if digit == 0 {
        '0'
    } else if digit == 1 {
        '1'
    } else if digit == 2 {
        '2'
    } else if digit == 3 {
        '3'
    } else if digit == 4 {
        '4'
    } else if digit == 5 {
        '5'
    } else if digit == 6 {
        '6'
    } else if digit == 7 {
        '7'
    } else if digit == 8 {
        '8'
    } else {
        '9'
    }
}

/// `number` in decimal notation, without leading zeros.
pub open spec fn decimal(number: nat) -> Seq<char>
    decreases number,
{
    if number < 10 {
        seq![digit_char(number)]
    } else {
        decimal(number / 10).push(digit_char(number % 10))
    }
}

fn digit_text(digit: usize) -> (text: &'static str)
    requires
        digit < 10,
    ensures
        text@ == seq![digit_char(digit as nat)],
{
    proof {
        reveal_strlit("0");
        reveal_strlit("1");
        reveal_strlit("2");
        reveal_strlit("3");
        reveal_strlit("4");
        reveal_strlit("5");
        reveal_strlit("6");
        reveal_strlit("7");
        reveal_strlit("8");
        reveal_strlit("9");
    }
    match digit {
        0 => "0",
        1 => "1",
        2 => "2",
        3 => "3",
        4 => "4",
        5 => "5",
        6 => "6",
        7 => "7",
        8 => "8",
        _ => "9",
    }
}

/// Writes a number in decimal notation.
pub fn decimal_text(number: usize) -> (text: String)
    ensures
        text@ == decimal(number as nat),
    decreases number,
{
    if number < 10 {
        digit_text(number).to_owned()
    } else {
        let mut text = decimal_text(number / 10);
        text.append(digit_text(number % 10));
        text
    }
}

/// A number below ten is written as its digit, and a further digit is written behind the digits
/// that a number has already.
pub proof fn lemma_decimal(number: nat, digit: nat)
    requires
        digit < 10,
    ensures
        decimal(digit).len() == 1,
        decimal(digit)[0] as int == '0' as int + digit,
        number > 0 ==> decimal(10 * number + digit) == decimal(number) + decimal(digit),
{
    if number > 0 {
        assert((10 * number + digit) / 10 == number);
        assert((10 * number + digit) % 10 == digit);
        assert(decimal(10 * number + digit) =~= decimal(number) + decimal(digit));
    }
}

} // verus!
