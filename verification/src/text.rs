//! Verified text helpers: decimal and hexadecimal rendering of integers,
//! a stable 64-bit string hash, and the indentation applied to captured
//! compiler diagnostics.

use vstd::prelude::*;
use vstd::string::StrSliceExecFns;
use vstd::string::StringExecFns;

verus! {

/// The decimal digit character for a value below ten.
pub open spec fn spec_dec_digit(d: int) -> char {
    if d == 0 {
        '0'
    } else if d == 1 {
        '1'
    } else if d == 2 {
        '2'
    } else if d == 3 {
        '3'
    } else if d == 4 {
        '4'
    } else if d == 5 {
        '5'
    } else if d == 6 {
        '6'
    } else if d == 7 {
        '7'
    } else if d == 8 {
        '8'
    } else {
        '9'
    }
}

/// The decimal rendering of a natural number, most significant digit first,
/// with no leading zeroes (a lone `0` for zero).
pub open spec fn spec_dec(n: nat) -> Seq<char>
    decreases n,
{
    if n < 10 {
        seq![spec_dec_digit(n as int)]
    } else {
        spec_dec(n / 10) + seq![spec_dec_digit((n % 10) as int)]
    }
}

/// The hexadecimal digit character for a value below sixteen.
pub open spec fn spec_hex_digit(d: int) -> char {
    if d < 10 {
        spec_dec_digit(d)
    } else if d == 10 {
        'a'
    } else if d == 11 {
        'b'
    } else if d == 12 {
        'c'
    } else if d == 13 {
        'd'
    } else if d == 14 {
        'e'
    } else {
        'f'
    }
}

/// The lowercase hexadecimal rendering of a natural number, most
/// significant digit first, with no leading zeroes.
pub open spec fn spec_hex(n: nat) -> Seq<char>
    decreases n,
{
    if n < 16 {
        seq![spec_hex_digit(n as int)]
    } else {
        spec_hex(n / 16) + seq![spec_hex_digit((n % 16) as int)]
    }
}

fn dec_digit_str(d: u64) -> (r: &'static str)
    requires
        d < 10,
    ensures
        r@ == seq![spec_dec_digit(d as int)],
{
    proof {
        reveal_strlit("0");
        reveal_strlit("1");
        reveal_strlit("2");
        reveal_strlit("3");
        reveal_strlit("4");
        reveal_strlit("5");
        reveal_strlit("6");
        reveal_strlit("7");
        reveal_strlit("8");
        reveal_strlit("9");
    }
    match d {
        0 => "0",
        1 => "1",
        2 => "2",
        3 => "3",
        4 => "4",
        5 => "5",
        6 => "6",
        7 => "7",
        8 => "8",
        _ => "9",
    }
}

fn hex_digit_str(d: u64) -> (r: &'static str)
    requires
        d < 16,
    ensures
        r@ == seq![spec_hex_digit(d as int)],
{
    proof {
        reveal_strlit("a");
        reveal_strlit("b");
        reveal_strlit("c");
        reveal_strlit("d");
        reveal_strlit("e");
        reveal_strlit("f");
    }
    if d < 10 {
        dec_digit_str(d)
    } else {
        match d {
            10 => "a",
            11 => "b",
            12 => "c",
            13 => "d",
            14 => "e",
            _ => "f",
        }
    }
}

/// Renders `n` in decimal.
pub fn dec_u64(n: u64) -> (r: String)
    ensures
        r@ == spec_dec(n as nat),
    decreases n,
{
    if n < 10 {
        String::from_str(dec_digit_str(n))
    } else {
        let prefix = dec_u64(n / 10);
        prefix.concat(dec_digit_str(n % 10))
    }
}

/// Renders `n` in lowercase hexadecimal.
pub fn hex_u64(n: u64) -> (r: String)
    ensures
        r@ == spec_hex(n as nat),
    decreases n,
{
    if n < 16 {
        String::from_str(hex_digit_str(n))
    } else {
        let prefix = hex_u64(n / 16);
        prefix.concat(hex_digit_str(n % 16))
    }
}

/// The first eight characters of the hexadecimal rendering of `n`
/// (all of it when it is shorter than eight characters).
pub open spec fn spec_hex8(n: nat) -> Seq<char> {
    if spec_hex(n).len() <= 8 {
        spec_hex(n)
    } else {
        spec_hex(n).subrange(0, 8)
    }
}

/// Renders the first eight hexadecimal characters of `n`.
pub fn hex8_u64(n: u64) -> (r: String)
    ensures
        r@ == spec_hex8(n as nat),
{
    let s = hex_u64(n);
    let len = s.as_str().unicode_len();
    if len > 8 {
        String::from_str(s.as_str().substring_char(0, 8))
    } else {
        s
    }
}

/// Whether `c` is a decimal digit character.
pub open spec fn is_dec_digit(c: char) -> bool {
    c == '0' || c == '1' || c == '2' || c == '3' || c == '4' || c == '5' || c == '6' || c == '7'
        || c == '8' || c == '9'
}

/// Whether `c` is a lowercase hexadecimal digit character.
pub open spec fn is_hex_digit(c: char) -> bool {
    is_dec_digit(c) || c == 'a' || c == 'b' || c == 'c' || c == 'd' || c == 'e' || c == 'f'
}

/// Every character of a decimal rendering is a decimal digit.
pub proof fn lemma_dec_digits(n: nat)
    ensures
        forall|i: int| 0 <= i < spec_dec(n).len() ==> is_dec_digit(#[trigger] spec_dec(n)[i]),
    decreases n,
{
    if n < 10 {
    } else {
        lemma_dec_digits(n / 10);
        assert forall|i: int| 0 <= i < spec_dec(n).len() implies is_dec_digit(
            #[trigger] spec_dec(n)[i],
        ) by {
            if i < spec_dec(n / 10).len() {
                assert(spec_dec(n)[i] == spec_dec(n / 10)[i]);
            } else {
                assert(spec_dec(n)[i] == spec_dec_digit((n % 10) as int));
            }
        }
    }
}

/// Every character of a hexadecimal rendering is a hexadecimal digit.
pub proof fn lemma_hex_digits(n: nat)
    ensures
        forall|i: int| 0 <= i < spec_hex(n).len() ==> is_hex_digit(#[trigger] spec_hex(n)[i]),
    decreases n,
{
    if n < 16 {
    } else {
        lemma_hex_digits(n / 16);
        assert forall|i: int| 0 <= i < spec_hex(n).len() implies is_hex_digit(
            #[trigger] spec_hex(n)[i],
        ) by {
            if i < spec_hex(n / 16).len() {
                assert(spec_hex(n)[i] == spec_hex(n / 16)[i]);
            } else {
                assert(spec_hex(n)[i] == spec_hex_digit((n % 16) as int));
            }
        }
    }
}

/// Offset basis of the 64-bit FNV-1a hash.
pub const FNV_OFFSET: u64 = 0xcbf2_9ce4_8422_2325;

/// Prime of the 64-bit FNV-1a hash.
pub const FNV_PRIME: u64 = 0x100_0000_01b3;

/// One step of the hash: fold one character into the running value.
pub open spec fn spec_fnv_step(h: u64, c: char) -> u64 {
    vstd::wrapping::u64_specs::wrapping_mul(h ^ (c as u64), FNV_PRIME)
}

/// The 64-bit FNV-1a hash of a character sequence. A pure function of the
/// sequence alone, so repeated runs over an unchanged input agree.
pub open spec fn spec_fnv(s: Seq<char>) -> u64
    decreases s.len(),
{
    if s.len() == 0 {
        FNV_OFFSET
    } else {
        spec_fnv_step(spec_fnv(s.drop_last()), s.last())
    }
}

/// Hashes a string with 64-bit FNV-1a.
pub fn fnv_hash_str(s: &str) -> (r: u64)
    ensures
        r == spec_fnv(s@),
{
    let n = s.unicode_len();
    let mut h: u64 = FNV_OFFSET;
    let mut i: usize = 0;
    while i < n
        invariant
            i <= n,
            n == s@.len(),
            h == spec_fnv(s@.subrange(0, i as int)),
        decreases n - i,
    {
        let c = s.get_char(i);
        let folded: u64 = h ^ (c as u64);
        h = folded.wrapping_mul(FNV_PRIME);
        proof {
            let pre = s@.subrange(0, i as int);
            let post = s@.subrange(0, i + 1 as int);
            assert(post.drop_last() =~= pre);
            assert(post.last() == s@[i as int]);
        }
        i = i + 1;
    }
    proof {
        assert(s@.subrange(0, n as int) =~= s@);
    }
    h
}

} // verus!
