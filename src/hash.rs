//! FNV-1a hashing of text and its rendering as eight lowercase hex digits.
use vstd::prelude::*;
use crate::text::string_of;
use vstd::string::StringSliceAdditionalSpecFns;

verus! {

/// The 32-bit FNV-1a hash of a byte sequence.
pub open spec fn fnv1a(bytes: Seq<u8>) -> u32
    decreases bytes.len(),
{
    if bytes.len() == 0 {
        0x811c9dc5u32
    } else {
        (fnv1a(bytes.drop_last()) ^ (bytes.last() as u32)).wrapping_mul(0x01000193u32)
    }
}

/// The lowercase hex digit of a value below sixteen.
pub open spec fn hex_digit(n: nat) -> char {
    if n == 0 { '0' } else if n == 1 { '1' } else if n == 2 { '2' } else if n == 3 { '3' }
    else if n == 4 { '4' } else if n == 5 { '5' } else if n == 6 { '6' } else if n == 7 { '7' }
    else if n == 8 { '8' } else if n == 9 { '9' } else if n == 10 { 'a' } else if n == 11 { 'b' }
    else if n == 12 { 'c' } else if n == 13 { 'd' } else if n == 14 { 'e' } else { 'f' }
}

/// Whether `c` is one of `0-9a-f`.
pub open spec fn is_lower_hex(c: char) -> bool {
    ('0' <= c && c <= '9') || ('a' <= c && c <= 'f')
}

/// `h` shifted right by `k` hex digits.
pub open spec fn shr_digits(h: nat, k: nat) -> nat
    decreases k,
{
    if k == 0 { h } else { shr_digits(h, (k - 1) as nat) / 16 }
}

/// The eight-digit, zero-padded lowercase hex form of `h`, most significant digit first.
pub open spec fn hex8(h: u32) -> Seq<char> {
    Seq::new(8, |i: int| hex_digit(shr_digits(h as nat, (7 - i) as nat) % 16))
}

/// The identifier hash of a text: FNV-1a over its UTF-8 bytes, as eight hex digits.
pub open spec fn hash8_of(s: Seq<char>) -> Seq<char> {
    hex8(fnv1a(vstd::utf8::encode_utf8(s)))
}

fn hex_digit_exec(n: u32) -> (c: char)
    requires
        n < 16,
    ensures
        c == hex_digit(n as nat),
{
    if n < 8 {
        if n == 0 { '0' } else if n == 1 { '1' } else if n == 2 { '2' } else if n == 3 { '3' }
        else if n == 4 { '4' } else if n == 5 { '5' } else if n == 6 { '6' } else { '7' }
    } else {
        if n == 8 { '8' } else if n == 9 { '9' } else if n == 10 { 'a' } else if n == 11 { 'b' }
        else if n == 12 { 'c' } else if n == 13 { 'd' } else if n == 14 { 'e' } else { 'f' }
    }
}

/// The FNV-1a hash of the UTF-8 bytes of `s`.
pub fn fnv1a_str(s: &str) -> (h: u32)
    ensures
        h == fnv1a(s.spec_bytes()),
{
    let bytes = s.as_bytes();
    let mut h: u32 = 0x811c9dc5;
    let mut i: usize = 0;
    while i < bytes.len()
        invariant
            bytes@ == s.spec_bytes(),
            i <= bytes@.len(),
            h == fnv1a(bytes@.subrange(0, i as int)),
        decreases bytes@.len() - i,
    {
        proof {
            let pre = bytes@.subrange(0, i as int + 1);
            assert(pre.drop_last() == bytes@.subrange(0, i as int));
        }
        h = (h ^ (bytes[i] as u32)).wrapping_mul(0x01000193);
        i = i + 1;
    }
    assert(bytes@.subrange(0, bytes@.len() as int) == bytes@);
    h
}

/// Renders `h` as eight zero-padded lowercase hex digits.
pub fn hex8_exec(h: u32) -> (r: Vec<char>)
    ensures
        r@ == hex8(h),
{
    let mut r: Vec<char> = vec!['0', '0', '0', '0', '0', '0', '0', '0'];
    let mut x: u32 = h;
    let mut k: usize = 0;
    while k < 8
        invariant
            k <= 8,
            r@.len() == 8,
            x as nat == shr_digits(h as nat, k as nat),
            forall|j: int| 8 - k <= j < 8 ==> r@[j] == hex8(h)[j],
        decreases 8 - k,
    {
        let d = hex_digit_exec(x % 16);
        r.set(7 - k, d);
        x = x / 16;
        k = k + 1;
    }
    assert(r@ =~= hex8(h));
    r
}

/// The identifier hash of `s`: FNV-1a over its UTF-8 bytes as eight lowercase hex digits.
pub fn hash8(s: &str) -> (r: String)
    ensures
        r@ == hash8_of(s@),
{
    let v = hex8_exec(fnv1a_str(s));
    string_of(&v)
}

/// Every identifier hash is exactly eight lowercase hex digits, and distinct
/// hash values always render to distinct identifiers.
pub proof fn lemma_hash8_shape(s: Seq<char>, t: Seq<char>)
    ensures
        hash8_of(s).len() == 8,
        forall|i: int| 0 <= i < 8 ==> is_lower_hex(#[trigger] hash8_of(s)[i]),
        fnv1a(vstd::utf8::encode_utf8(s)) != fnv1a(vstd::utf8::encode_utf8(t))
            ==> hash8_of(s) != hash8_of(t),
{
    lemma_hex8_injective(fnv1a(vstd::utf8::encode_utf8(s)), fnv1a(vstd::utf8::encode_utf8(t)));
}

proof fn lemma_hex_digit_injective(a: nat, b: nat)
    requires
        a < 16,
        b < 16,
        hex_digit(a) == hex_digit(b),
    ensures
        a == b,
{
}

proof fn lemma_shr_digits_split(h: nat, k: nat)
    ensures
        shr_digits(h, k + 1) == shr_digits(h, k) / 16,
{
}

/// Two values whose eight hex digits agree are equal.
pub proof fn lemma_hex8_injective(a: u32, b: u32)
    ensures
        a != b ==> hex8(a) != hex8(b),
{
    if hex8(a) == hex8(b) {
        assert forall|i: int| 0 <= i < 8 implies hex_digit(
            #[trigger] shr_digits(a as nat, (7 - i) as nat) % 16,
        ) == hex_digit(shr_digits(b as nat, (7 - i) as nat) % 16) by {
            assert(hex8(a)[i] == hex8(b)[i]);
        }
        lemma_shr_top(a as nat, 8, b as nat);
    }
}

proof fn lemma_shr_top(a: nat, k: nat, b: nat)
    requires
        a < 0x1_0000_0000,
        b < 0x1_0000_0000,
        k <= 8,
        forall|i: int| 0 <= i < 8 ==> hex_digit(#[trigger] shr_digits(a, (7 - i) as nat) % 16)
            == hex_digit(shr_digits(b, (7 - i) as nat) % 16),
    ensures
        shr_digits(a, (8 - k) as nat) == shr_digits(b, (8 - k) as nat),
    decreases k,
{
    if k == 0 {
        lemma_shr8_zero(a);
        lemma_shr8_zero(b);
    } else {
        lemma_shr_top(a, (k - 1) as nat, b);
        let j = (8 - k) as nat;
        let i = 7 - j;
        assert(hex_digit(shr_digits(a, (7 - i) as nat) % 16)
            == hex_digit(shr_digits(b, (7 - i) as nat) % 16));
        lemma_hex_digit_injective(shr_digits(a, j) % 16, shr_digits(b, j) % 16);
        lemma_shr_digits_split(a, j);
        lemma_shr_digits_split(b, j);
        let x = shr_digits(a, j);
        let y = shr_digits(b, j);
        assert(x == (x / 16) * 16 + x % 16);
        assert(y == (y / 16) * 16 + y % 16);
    }
}

proof fn lemma_shr8_zero(a: nat)
    requires
        a < 0x1_0000_0000,
    ensures
        shr_digits(a, 8) == 0,
{
    reveal_with_fuel(shr_digits, 9);
}

} // verus!
