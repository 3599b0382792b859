//! Texts read back as what they were written from.

use crate::text::{
    decimal, decimal_i64, decimal_u64, hex, replaced, signed_decimal, without_leading,
};
use vstd::prelude::*;

verus! {

/// The number that decimal digits stand for.
pub open spec fn read_decimal(digits: Seq<char>) -> int {
    digits.fold_left(0int, |n: int, c: char| 10 * n + (c as int - '0' as int))
}

/// The number that a decimal with or without a sign stands for.
pub open spec fn read_signed(text: Seq<char>) -> int {
    if text.len() > 0 && text[0] == '-' {
        -read_decimal(text.skip(1))
    } else {
        read_decimal(text)
    }
}

/// A number in decimal reads back as the number. All of its characters are digits, and the first
/// is a zero only where it is the only one.
pub proof fn decimals_read_back(n: nat)
    ensures
        read_decimal(decimal(n)) == n,
        decimal(n).len() > 0,
        forall|i: int| 0 <= i < decimal(n).len() ==> '0' <= #[trigger] decimal(n)[i] <= '9',
        decimal(n).len() > 1 ==> decimal(n)[0] != '0',
    decreases n,
{
    reveal_with_fuel(Seq::fold_left, 2);
    let text = decimal(n);
    if n < 10 {
        assert(text.drop_last() =~= Seq::<char>::empty());
    } else {
        decimals_read_back(n / 10);
        let front = decimal(n / 10);
        assert(text.drop_last() =~= front);
        assert forall|i: int| 0 <= i < text.len() implies '0' <= #[trigger] text[i] <= '9' by {
            if i < front.len() {
                assert(text[i] == front[i]);
            }
        }
        assert(text[0] == front[0]);
        if front.len() == 1 && front[0] == '0' {
            assert(front.drop_last() =~= Seq::<char>::empty());
            assert(read_decimal(front) == 0);
        }
    }
}

/// A number with a sign reads back as the number.
pub proof fn signed_decimals_read_back(n: int)
    ensures
        read_signed(signed_decimal(n)) == n,
        signed_decimal(n)[0] == '-' <==> n < 0,
{
    let text = signed_decimal(n);
    if n < 0 {
        decimals_read_back((-n) as nat);
        assert(text.skip(1) =~= decimal((-n) as nat));
    } else {
        decimals_read_back(n as nat);
        assert('0' <= text[0]);
    }
}

/// What is written in decimal reads back as what was written.
pub proof fn written_numbers_read_back(n: u64, text: String, m: i64, signed: String)
    requires
        call_ensures(decimal_u64, (n,), text),
        call_ensures(decimal_i64, (m,), signed),
    ensures
        read_decimal(text@) == n,
        read_signed(signed@) == m,
{
    decimals_read_back(n as nat);
    signed_decimals_read_back(m as int);
}

/// The value of a lower-case hexadecimal digit.
pub open spec fn hex_value(c: char) -> int {
    if '0' <= c <= '9' {
        c as int - '0' as int
    } else if 'a' <= c <= 'f' {
        c as int - 'a' as int + 10
    } else {
        -1
    }
}

/// Bytes in hexadecimal read back as the bytes, two lower-case digits for each.
pub proof fn hexadecimals_read_back(bytes: Seq<u8>)
    ensures
        hex(bytes).len() == 2 * bytes.len(),
        forall|i: int|
            0 <= i < bytes.len() ==> 16 * hex_value(hex(bytes)[2 * i]) + hex_value(
                hex(bytes)[2 * i + 1],
            ) == #[trigger] bytes[i],
        forall|i: int|
            0 <= i < hex(bytes).len() ==> 0 <= hex_value(#[trigger] hex(bytes)[i]) < 16,
{
    assert forall|i: int| 0 <= i < bytes.len() implies 16 * hex_value(hex(bytes)[2 * i])
        + hex_value(hex(bytes)[2 * i + 1]) == #[trigger] bytes[i] by {
        assert((2 * i) / 2 == i && (2 * i) % 2 == 0);
        assert((2 * i + 1) / 2 == i && (2 * i + 1) % 2 == 1);
    }
    assert forall|i: int| 0 <= i < hex(bytes).len() implies 0 <= hex_value(
        #[trigger] hex(bytes)[i],
    ) < 16 by {
        assert(0 <= i / 2 < bytes.len());
    }
}

/// Different bytes are written differently.
pub proof fn hexadecimals_tell_bytes_apart(a: Seq<u8>, b: Seq<u8>)
    requires
        hex(a) == hex(b),
    ensures
        a == b,
{
    hexadecimals_read_back(a);
    hexadecimals_read_back(b);
    assert forall|i: int| 0 <= i < a.len() implies a[i] == b[i] by {
        assert(16 * hex_value(hex(a)[2 * i]) + hex_value(hex(a)[2 * i + 1]) == a[i]);
        assert(16 * hex_value(hex(b)[2 * i]) + hex_value(hex(b)[2 * i + 1]) == b[i]);
    }
    assert(a =~= b);
}

/// Replacing a character keeps all others in their places.
pub proof fn replacing_keeps_the_others(text: Seq<char>, from: char, to: char, i: int)
    requires
        0 <= i < text.len(),
    ensures
        replaced(text, from, to).len() == text.len(),
        text[i] == from ==> replaced(text, from, to)[i] == to,
        text[i] != from ==> replaced(text, from, to)[i] == text[i],
{
}

/// Dropping a leading run drops nothing but the character, and all of the run.
pub proof fn leading_runs_are_dropped(text: Seq<char>, c: char)
    ensures
        ({
            let rest = without_leading(text, c);
            let dropped = text.len() - rest.len();
            &&& 0 <= dropped
            &&& text.skip(dropped) == rest
            &&& forall|i: int| 0 <= i < dropped ==> text[i] == c
            &&& rest.len() > 0 ==> rest[0] != c
        }),
    decreases text.len(),
{
    let rest = without_leading(text, c);
    if text.len() > 0 && text[0] == c {
        let less = text.drop_first();
        leading_runs_are_dropped(less, c);
        let dropped = text.len() - rest.len();
        assert(less.skip(dropped - 1) =~= text.skip(dropped));
        assert forall|i: int| 0 <= i < dropped implies text[i] == c by {
            if i > 0 {
                assert(less[i - 1] == text[i]);
            }
        }
    } else {
        assert(text.skip(0) =~= text);
    }
}

} // verus!
