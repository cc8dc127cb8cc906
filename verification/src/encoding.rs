//! Fixed-width big-endian integers and lower-case hexadecimal text.

use vstd::prelude::*;
use vstd::string::StringExecFns;

verus! {

/// The `width` lowest base-256 digits of `value`, most significant first.
pub open spec fn be_bytes(value: nat, width: nat) -> Seq<u8>
    decreases width,
{
    if width == 0 {
        Seq::empty()
    } else {
        be_bytes(value / 256, (width - 1) as nat).push((value % 256) as u8)
    }
}

/// `be_bytes` yields exactly `width` bytes.
pub proof fn lemma_be_bytes_len(value: nat, width: nat)
    ensures
        be_bytes(value, width).len() == width,
    decreases width,
{
    if width > 0 {
        lemma_be_bytes_len(value / 256, (width - 1) as nat);
    }
}

/// 256 to the power `width`.
pub open spec fn radix_pow(width: nat) -> nat
    decreases width,
{
    if width == 0 {
        1
    } else {
        256 * radix_pow((width - 1) as nat)
    }
}

/// The values of `radix_pow` at the widths that the ledger encodes with.
pub proof fn lemma_radix_pow_values()
    ensures
        radix_pow(4) == 0x1_0000_0000,
        radix_pow(8) == 0x1_0000_0000_0000_0000,
        radix_pow(16) == 0x1_0000_0000_0000_0000_0000_0000_0000_0000,
{
    assert(radix_pow(0) == 1);
    assert(radix_pow(1) == 0x100);
    assert(radix_pow(2) == 0x1_0000);
    assert(radix_pow(3) == 0x100_0000);
    assert(radix_pow(4) == 0x1_0000_0000);
    assert(radix_pow(5) == 0x100_0000_0000);
    assert(radix_pow(6) == 0x1_0000_0000_0000);
    assert(radix_pow(7) == 0x100_0000_0000_0000);
    assert(radix_pow(8) == 0x1_0000_0000_0000_0000);
    assert(radix_pow(9) == 0x100_0000_0000_0000_0000);
    assert(radix_pow(10) == 0x1_0000_0000_0000_0000_0000);
    assert(radix_pow(11) == 0x100_0000_0000_0000_0000_0000);
    assert(radix_pow(12) == 0x1_0000_0000_0000_0000_0000_0000);
    assert(radix_pow(13) == 0x100_0000_0000_0000_0000_0000_0000);
    assert(radix_pow(14) == 0x1_0000_0000_0000_0000_0000_0000_0000);
    assert(radix_pow(15) == 0x100_0000_0000_0000_0000_0000_0000_0000);
}

/// Two values below `256^width` with the same big-endian bytes are equal.
pub proof fn lemma_be_bytes_injective(a: nat, b: nat, width: nat)
    requires
        a < radix_pow(width),
        b < radix_pow(width),
        be_bytes(a, width) == be_bytes(b, width),
    ensures
        a == b,
    decreases width,
{
    if width > 0 {
        let w = (width - 1) as nat;
        lemma_be_bytes_len(a / 256, w);
        lemma_be_bytes_len(b / 256, w);
        let sa = be_bytes(a / 256, w);
        let sb = be_bytes(b / 256, w);
        assert(sa.push((a % 256) as u8).last() == (a % 256) as u8);
        assert(sb.push((b % 256) as u8).last() == (b % 256) as u8);
        assert(sa.push((a % 256) as u8).drop_last() =~= sa);
        assert(sb.push((b % 256) as u8).drop_last() =~= sb);
        lemma_be_bytes_injective(a / 256, b / 256, w);
    }
}

/// Writes `value` as `N` big-endian bytes; digits above the width are dropped.
pub fn be_array<const N: usize>(value: u128) -> (out: [u8; N])
    ensures
        out@ == be_bytes(value as nat, N as nat),
{
    let mut out: [u8; N] = [0u8; N];
    let mut rest: u128 = value;
    let mut i: usize = N;
    while i > 0
        invariant
            i <= N,
            out@.len() == N,
            be_bytes(value as nat, N as nat) == be_bytes(rest as nat, i as nat) + out@.subrange(
                i as int,
                N as int,
            ),
        decreases i,
    {
        let ghost before = out@;
        let digit: u8 = (rest % 256) as u8;
        i = i - 1;
        out[i] = digit;
        proof {
            let low = be_bytes((rest / 256) as nat, i as nat);
            assert(low.push(digit) + before.subrange(i + 1, N as int) =~= low + out@.subrange(
                i as int,
                N as int,
            ));
        }
        rest = rest / 256;
    }
    assert(out@.subrange(0, N as int) =~= out@);
    out
}

/// The lower-case hexadecimal digit for a value below sixteen.
pub open spec fn hex_digit(value: int) -> char {
    if value == 0 {
        '0'
    } else if value == 1 {
        '1'
    } else if value == 2 {
        '2'
    } else if value == 3 {
        '3'
    } else if value == 4 {
        '4'
    } else if value == 5 {
        '5'
    } else if value == 6 {
        '6'
    } else if value == 7 {
        '7'
    } else if value == 8 {
        '8'
    } else if value == 9 {
        '9'
    } else if value == 10 {
        'a'
    } else if value == 11 {
        'b'
    } else if value == 12 {
        'c'
    } else if value == 13 {
        'd'
    } else if value == 14 {
        'e'
    } else {
        'f'
    }
}

/// Two hexadecimal digits per byte, the high half of each byte first.
pub open spec fn hex_string(bytes: Seq<u8>) -> Seq<char> {
    Seq::new(
        2 * bytes.len(),
        |i: int|
            if i % 2 == 0 {
                hex_digit(bytes[i / 2] as int / 16)
            } else {
                hex_digit(bytes[i / 2] as int % 16)
            },
    )
}

fn digit_text(value: u8) -> (text: &'static str)
    requires
        value < 16,
    ensures
        text@ == seq![hex_digit(value as int)],
{
    proof {
        reveal_strlit("0");
        reveal_strlit("1");
        reveal_strlit("2");
        reveal_strlit("3");
        reveal_strlit("4");
        reveal_strlit("5");
        reveal_strlit("6");
        reveal_strlit("7");
        reveal_strlit("8");
        reveal_strlit("9");
        reveal_strlit("a");
        reveal_strlit("b");
        reveal_strlit("c");
        reveal_strlit("d");
        reveal_strlit("e");
        reveal_strlit("f");
    }
    let text = match value {
        0 => "0",
        1 => "1",
        2 => "2",
        3 => "3",
        4 => "4",
        5 => "5",
        6 => "6",
        7 => "7",
        8 => "8",
        9 => "9",
        10 => "a",
        11 => "b",
        12 => "c",
        13 => "d",
        14 => "e",
        _ => "f",
    };
    assert(text@ =~= seq![hex_digit(value as int)]);
    text
}

/// Renders bytes as lower-case hexadecimal text.
pub fn to_hex(bytes: &[u8]) -> (text: String)
    ensures
        text@ == hex_string(bytes@),
{
    let mut text = String::new();
    let mut i: usize = 0;
    while i < bytes.len()
        invariant
            i <= bytes@.len(),
            text@ == hex_string(bytes@.take(i as int)),
        decreases bytes@.len() - i,
    {
        let byte: u8 = bytes[i];
        let ghost before = text@;
        text.append(digit_text(byte / 16));
        text.append(digit_text(byte % 16));
        proof {
            assert(text@ =~= hex_string(bytes@.take(i + 1)));
        }
        i = i + 1;
    }
    assert(bytes@.take(i as int) =~= bytes@);
    text
}

} // verus!
