//! The MD5 digest of bytes, as RFC 1321 defines it.

use crate::text::hex_char;
use crate::text::hex_digit;
use vstd::prelude::*;
use vstd::utf8::encode_utf8;

verus! {

// ------------------------------------------------------------------------- the definition

/// Four words of state.
#[derive(Debug, Clone, Copy, PartialEq, Eq, Structural)]
pub struct Words {
    pub a: u32,
    pub b: u32,
    pub c: u32,
    pub d: u32,
}

/// The words that the digest starts with.
pub open spec fn first_words() -> Words {
    Words { a: 0x67452301, b: 0xefcdab89, c: 0x98badcfe, d: 0x10325476 }
}

/// How far the sum of a step is rotated.
pub open spec fn turn(i: int) -> u32 {
    let r = i / 16;
    let k = i % 4;
    if r == 0 {
        if k == 0 { 7 } else if k == 1 { 12 } else if k == 2 { 17 } else { 22 }
    } else if r == 1 {
        if k == 0 { 5 } else if k == 1 { 9 } else if k == 2 { 14 } else { 20 }
    } else if r == 2 {
        if k == 0 { 4 } else if k == 1 { 11 } else if k == 2 { 16 } else { 23 }
    } else {
        if k == 0 { 6 } else if k == 1 { 10 } else if k == 2 { 15 } else { 21 }
    }
}

/// The whole parts of 4294967296 times the sines of one to sixty-four, without their
/// signs.
pub open spec fn sines() -> Seq<u32> {
    seq![
        0xd76aa478, 0xe8c7b756, 0x242070db, 0xc1bdceee, 0xf57c0faf, 0x4787c62a, 0xa8304613,
        0xfd469501, 0x698098d8, 0x8b44f7af, 0xffff5bb1, 0x895cd7be, 0x6b901122, 0xfd987193,
        0xa679438e, 0x49b40821, 0xf61e2562, 0xc040b340, 0x265e5a51, 0xe9b6c7aa, 0xd62f105d,
        0x02441453, 0xd8a1e681, 0xe7d3fbc8, 0x21e1cde6, 0xc33707d6, 0xf4d50d87, 0x455a14ed,
        0xa9e3e905, 0xfcefa3f8, 0x676f02d9, 0x8d2a4c8a, 0xfffa3942, 0x8771f681, 0x6d9d6122,
        0xfde5380c, 0xa4beea44, 0x4bdecfa9, 0xf6bb4b60, 0xbebfbc70, 0x289b7ec6, 0xeaa127fa,
        0xd4ef3085, 0x04881d05, 0xd9d4d039, 0xe6db99e5, 0x1fa27cf8, 0xc4ac5665, 0xf4292244,
        0x432aff97, 0xab9423a7, 0xfc93a039, 0x655b59c3, 0x8f0ccc92, 0xffeff47d, 0x85845dd1,
        0x6fa87e4f, 0xfe2ce6e0, 0xa3014314, 0x4e0811a1, 0xf7537e82, 0xbd3af235, 0x2ad7d2bb,
        0xeb86d391,
    ]
}

/// How a step mixes three words.
pub open spec fn mixed(w: Words, i: int) -> u32 {
    if i < 16 {
        (w.b & w.c) | (!w.b & w.d)
    } else if i < 32 {
        (w.d & w.b) | (!w.d & w.c)
    } else if i < 48 {
        w.b ^ w.c ^ w.d
    } else {
        w.c ^ (w.b | !w.d)
    }
}

/// Which word of a block a step takes in.
pub open spec fn taken(i: int) -> int {
    if i < 16 {
        i
    } else if i < 32 {
        (5 * i + 1) % 16
    } else if i < 48 {
        (3 * i + 5) % 16
    } else {
        (7 * i) % 16
    }
}

/// A word with its bits rotated to the left.
pub open spec fn rotated(x: u32, n: u32) -> u32 {
    (x << n) | (x >> ((32 - n) as u32))
}

/// The state after step `i` of a block.
pub open spec fn stepped(w: Words, m: Seq<u32>, i: int) -> Words {
    let x = w.a.wrapping_add(mixed(w, i)).wrapping_add(sines()[i]).wrapping_add(m[taken(i)]);
    Words { a: w.d, b: w.b.wrapping_add(rotated(x, turn(i))), c: w.b, d: w.c }
}

/// The state after the first `n` steps of a block.
pub open spec fn steps(w: Words, m: Seq<u32>, n: int) -> Words
    decreases n,
{
    if n <= 0 {
        w
    } else {
        stepped(steps(w, m, n - 1), m, n - 1)
    }
}

/// The word at a place of a message, its lowest byte first.
pub open spec fn word_at(msg: Seq<u8>, i: int) -> u32 {
    (msg[i] + msg[i + 1] * 0x100 + msg[i + 2] * 0x1_0000 + msg[i + 3] * 0x100_0000) as u32
}

/// The words of a block.
pub open spec fn block(msg: Seq<u8>, k: int) -> Seq<u32> {
    Seq::new(16, |i: int| word_at(msg, 64 * k + 4 * i))
}

/// The sum of two states, word by word.
pub open spec fn summed(a: Words, b: Words) -> Words {
    Words {
        a: a.a.wrapping_add(b.a),
        b: a.b.wrapping_add(b.b),
        c: a.c.wrapping_add(b.c),
        d: a.d.wrapping_add(b.d),
    }
}

/// The state after the first `k` blocks of a message.
pub open spec fn blocks(msg: Seq<u8>, k: int) -> Words
    decreases k,
{
    if k <= 0 {
        first_words()
    } else {
        let w = blocks(msg, k - 1);
        summed(w, steps(w, block(msg, k - 1), 64))
    }
}

/// How many zeros fill up a message of `n` bytes.
pub open spec fn filling(n: nat) -> nat {
    ((119 - n % 64) % 64) as nat
}

/// Byte `i` of a number, the lowest first.
pub open spec fn byte_of(x: u64, i: int) -> u8
    decreases i,
{
    if i <= 0 {
        (x % 0x100) as u8
    } else {
        byte_of(x / 0x100, i - 1)
    }
}

/// The message with its filling and its length in bits.
pub open spec fn filled(bytes: Seq<u8>) -> Seq<u8> {
    let bits = (bytes.len() as u64).wrapping_mul(8);
    bytes.push(0x80) + Seq::new(filling(bytes.len()), |i: int| 0u8) + Seq::new(
        8,
        |i: int| byte_of(bits, i),
    )
}

/// The last state of a message.
pub open spec fn md5_words(bytes: Seq<u8>) -> Words {
    let msg = filled(bytes);
    blocks(msg, msg.len() as int / 64)
}

/// The two digits of a byte.
pub open spec fn byte_digits(b: u8) -> Seq<char> {
    seq![hex_digit((b / 16) as nat), hex_digit((b % 16) as nat)]
}

/// The eight digits of a word, its lowest byte first.
pub open spec fn word_digits(x: u32) -> Seq<char> {
    byte_digits(byte_of(x as u64, 0)) + byte_digits(byte_of(x as u64, 1)) + byte_digits(
        byte_of(x as u64, 2),
    ) + byte_digits(byte_of(x as u64, 3))
}

/// The digest of bytes.
pub open spec fn md5_of(bytes: Seq<u8>) -> Seq<char> {
    let w = md5_words(bytes);
    word_digits(w.a) + word_digits(w.b) + word_digits(w.c) + word_digits(w.d)
}

// ------------------------------------------------------------------------ the computation

fn read_turn(i: usize) -> (out: u32)
    requires
        i < 64,
    ensures
        out == turn(i as int),
        4 <= out <= 23,
{
    let r: usize = i / 16;
    let k: usize = i % 4;
    if r == 0 {
        if k == 0 { 7 } else if k == 1 { 12 } else if k == 2 { 17 } else { 22 }
    } else if r == 1 {
        if k == 0 { 5 } else if k == 1 { 9 } else if k == 2 { 14 } else { 20 }
    } else if r == 2 {
        if k == 0 { 4 } else if k == 1 { 11 } else if k == 2 { 16 } else { 23 }
    } else {
        if k == 0 { 6 } else if k == 1 { 10 } else if k == 2 { 15 } else { 21 }
    }
}

fn make_sines() -> (out: [u32; 64])
    ensures
        out@ == sines(),
{
    let k: [u32; 64] = [
        0xd76aa478, 0xe8c7b756, 0x242070db, 0xc1bdceee, 0xf57c0faf, 0x4787c62a, 0xa8304613,
        0xfd469501, 0x698098d8, 0x8b44f7af, 0xffff5bb1, 0x895cd7be, 0x6b901122, 0xfd987193,
        0xa679438e, 0x49b40821, 0xf61e2562, 0xc040b340, 0x265e5a51, 0xe9b6c7aa, 0xd62f105d,
        0x02441453, 0xd8a1e681, 0xe7d3fbc8, 0x21e1cde6, 0xc33707d6, 0xf4d50d87, 0x455a14ed,
        0xa9e3e905, 0xfcefa3f8, 0x676f02d9, 0x8d2a4c8a, 0xfffa3942, 0x8771f681, 0x6d9d6122,
        0xfde5380c, 0xa4beea44, 0x4bdecfa9, 0xf6bb4b60, 0xbebfbc70, 0x289b7ec6, 0xeaa127fa,
        0xd4ef3085, 0x04881d05, 0xd9d4d039, 0xe6db99e5, 0x1fa27cf8, 0xc4ac5665, 0xf4292244,
        0x432aff97, 0xab9423a7, 0xfc93a039, 0x655b59c3, 0x8f0ccc92, 0xffeff47d, 0x85845dd1,
        0x6fa87e4f, 0xfe2ce6e0, 0xa3014314, 0x4e0811a1, 0xf7537e82, 0xbd3af235, 0x2ad7d2bb,
        0xeb86d391,
    ];
    assert(k@ =~= sines());
    k
}

fn step(w: Words, m: &Vec<u32>, k: &[u32; 64], i: usize) -> (out: Words)
    requires
        i < 64,
        m@.len() == 16,
        k@ == sines(),
    ensures
        out == stepped(w, m@, i as int),
{
    let f: u32 = if i < 16 {
        (w.b & w.c) | (!w.b & w.d)
    } else if i < 32 {
        (w.d & w.b) | (!w.d & w.c)
    } else if i < 48 {
        w.b ^ w.c ^ w.d
    } else {
        w.c ^ (w.b | !w.d)
    };
    let g: usize = if i < 16 {
        i
    } else if i < 32 {
        (5 * i + 1) % 16
    } else if i < 48 {
        (3 * i + 5) % 16
    } else {
        (7 * i) % 16
    };
    let x: u32 = w.a.wrapping_add(f).wrapping_add(k[i]).wrapping_add(m[g]);
    let n: u32 = read_turn(i);
    let r: u32 = (x << n) | (x >> (32 - n));
    Words { a: w.d, b: w.b.wrapping_add(r), c: w.b, d: w.c }
}

fn read_block(msg: &Vec<u8>, k: usize) -> (out: Vec<u32>)
    requires
        64 * k + 64 <= msg.len(),
    ensures
        out@ == block(msg@, k as int),
{
    let mut out: Vec<u32> = Vec::new();
    let mut i: usize = 0;
    while i < 16
        invariant
            i <= 16,
            64 * k + 64 <= msg.len(),
            out@.len() == i,
            forall|j: int| 0 <= j < i ==> (#[trigger] out@[j]) == word_at(msg@, 64 * k + 4 * j),
        decreases 16 - i,
    {
        let p: usize = 64 * k + 4 * i;
        let w: u32 = msg[p] as u32 + msg[p + 1] as u32 * 0x100 + msg[p + 2] as u32 * 0x1_0000
            + msg[p + 3] as u32 * 0x100_0000;
        out.push(w);
        i += 1;
    }
    assert(out@ =~= block(msg@, k as int));
    out
}

fn read_byte(x: u64, i: usize) -> (out: u8)
    ensures
        out == byte_of(x, i as int),
    decreases i,
{
    if i == 0 {
        (x % 0x100) as u8
    } else {
        read_byte(x / 0x100, i - 1)
    }
}

fn fill(bytes: &[u8]) -> (out: Vec<u8>)
    ensures
        out@ == filled(bytes@),
{
    let n: usize = bytes.len();
    let bits: u64 = (n as u64).wrapping_mul(8);
    let mut out: Vec<u8> = Vec::new();
    let mut i: usize = 0;
    while i < n
        invariant
            i <= n,
            n == bytes@.len(),
            out@ == bytes@.take(i as int),
        decreases n - i,
    {
        out.push(bytes[i]);
        assert(out@ =~= bytes@.take(i + 1));
        i += 1;
    }
    assert(bytes@.take(n as int) =~= bytes@);
    out.push(0x80);
    let z: usize = (119 - n % 64) % 64;
    let mut j: usize = 0;
    let ghost head = out@;
    while j < z
        invariant
            j <= z,
            out@ == head + Seq::new(j as nat, |i: int| 0u8),
        decreases z - j,
    {
        out.push(0);
        j += 1;
        assert(out@ =~= head + Seq::new(j as nat, |i: int| 0u8));
    }
    let ghost body = out@;
    let mut k: usize = 0;
    assert(out@ =~= body + Seq::new(0, |i: int| byte_of(bits, i)));
    while k < 8
        invariant
            k <= 8,
            out@ == body + Seq::new(k as nat, |i: int| byte_of(bits, i)),
        decreases 8 - k,
    {
        out.push(read_byte(bits, k));
        k += 1;
        assert(out@ =~= body + Seq::new(k as nat, |i: int| byte_of(bits, i)));
    }
    assert(out@ =~= filled(bytes@));
    out
}

fn push_word(out: &mut String, x: u32)
    ensures
        final(out)@ == old(out)@ + word_digits(x),
{
    let ghost start = out@;
    let b0: u8 = read_byte(x as u64, 0);
    let b1: u8 = read_byte(x as u64, 1);
    let b2: u8 = read_byte(x as u64, 2);
    let b3: u8 = read_byte(x as u64, 3);
    out.push(hex_char(b0 / 16));
    out.push(hex_char(b0 % 16));
    out.push(hex_char(b1 / 16));
    out.push(hex_char(b1 % 16));
    out.push(hex_char(b2 / 16));
    out.push(hex_char(b2 % 16));
    out.push(hex_char(b3 / 16));
    out.push(hex_char(b3 % 16));
    assert(out@ =~= start + word_digits(x));
}

/// The digest of the bytes of a text, in digits.
pub fn md5_hex(input: &str) -> (out: String)
    ensures
        out@ == md5_of(encode_utf8(input@)),
{
    let bytes: &[u8] = input.as_bytes();
    let msg: Vec<u8> = fill(bytes);
    let k: [u32; 64] = make_sines();
    let n: usize = msg.len() / 64;
    let mut w: Words = Words { a: 0x67452301, b: 0xefcdab89, c: 0x98badcfe, d: 0x10325476 };
    let mut i: usize = 0;
    while i < n
        invariant
            i <= n,
            n == msg.len() / 64,
            k@ == sines(),
            w == blocks(msg@, i as int),
        decreases n - i,
    {
        assert(64 * i + 64 <= msg.len());
        let m: Vec<u32> = read_block(&msg, i);
        let mut v: Words = w;
        let mut s: usize = 0;
        while s < 64
            invariant
                s <= 64,
                m@.len() == 16,
                k@ == sines(),
                v == steps(w, m@, s as int),
            decreases 64 - s,
        {
            v = step(v, &m, &k, s);
            s += 1;
        }
        w = Words {
            a: w.a.wrapping_add(v.a),
            b: w.b.wrapping_add(v.b),
            c: w.c.wrapping_add(v.c),
            d: w.d.wrapping_add(v.d),
        };
        i += 1;
    }
    let mut out: String = String::new();
    push_word(&mut out, w.a);
    push_word(&mut out, w.b);
    push_word(&mut out, w.c);
    push_word(&mut out, w.d);
    assert(out@ =~= md5_of(encode_utf8(input@)));
    out
}

/// Whether a character is a digit in base sixteen, in lower case.
pub open spec fn is_hex(c: char) -> bool {
    ('0' <= c && c <= '9') || ('a' <= c && c <= 'f')
}

/// Whether all characters of a text are digits in base sixteen.
pub open spec fn all_hex(s: Seq<char>) -> bool {
    forall|i: int| 0 <= i < s.len() ==> is_hex(#[trigger] s[i])
}

proof fn lemma_word_hex(x: u32)
    ensures
        word_digits(x).len() == 8,
        all_hex(word_digits(x)),
{
    let s = word_digits(x);
    let b0 = byte_digits(byte_of(x as u64, 0));
    let b1 = byte_digits(byte_of(x as u64, 1));
    let b2 = byte_digits(byte_of(x as u64, 2));
    let b3 = byte_digits(byte_of(x as u64, 3));
    lemma_byte_hex(byte_of(x as u64, 0));
    lemma_byte_hex(byte_of(x as u64, 1));
    lemma_byte_hex(byte_of(x as u64, 2));
    lemma_byte_hex(byte_of(x as u64, 3));
    assert forall|i: int| 0 <= i < 8 implies is_hex(#[trigger] s[i]) by {
        if i < 2 {
            assert(s[i] == b0[i]);
        } else if i < 4 {
            assert(s[i] == b1[i - 2]);
        } else if i < 6 {
            assert(s[i] == b2[i - 4]);
        } else {
            assert(s[i] == b3[i - 6]);
        }
    }
}

proof fn lemma_byte_hex(b: u8)
    ensures
        byte_digits(b).len() == 2,
        is_hex(byte_digits(b)[0]),
        is_hex(byte_digits(b)[1]),
{
}

/// A digest has thirty-two digits in base sixteen.
pub proof fn law_digest_shape(bytes: Seq<u8>)
    ensures
        md5_of(bytes).len() == 32,
        all_hex(md5_of(bytes)),
{
    lemma_shape(md5_words(bytes));
}

proof fn lemma_shape(w: Words)
    ensures
        ({
            let s = word_digits(w.a) + word_digits(w.b) + word_digits(w.c) + word_digits(w.d);
            s.len() == 32 && all_hex(s)
        }),
{
    lemma_word_hex(w.a);
    lemma_word_hex(w.b);
    lemma_word_hex(w.c);
    lemma_word_hex(w.d);
    lemma_hex_joined(word_digits(w.a), word_digits(w.b));
    lemma_hex_joined(word_digits(w.a) + word_digits(w.b), word_digits(w.c));
    lemma_hex_joined(
        word_digits(w.a) + word_digits(w.b) + word_digits(w.c),
        word_digits(w.d),
    );
}

proof fn lemma_hex_joined(a: Seq<char>, b: Seq<char>)
    requires
        all_hex(a),
        all_hex(b),
    ensures
        all_hex(a + b),
{
    assert forall|i: int| 0 <= i < (a + b).len() implies is_hex(#[trigger] (a + b)[i]) by {
        if i < a.len() {
            assert(is_hex(a[i]));
        } else {
            assert(is_hex(b[i - a.len()]));
        }
    }
}

/// A filled message is a whole number of blocks.
pub proof fn law_whole_blocks(bytes: Seq<u8>)
    ensures
        filled(bytes).len() % 64 == 0,
{
    let n = bytes.len() as int;
    let z = filling(bytes.len()) as int;
    assert(filled(bytes).len() == n + 1 + z + 8);
    lemma_filling(n, n / 64, n % 64, z);
}

proof fn lemma_filling(n: int, q: int, r: int, z: int)
    requires
        n == 64 * q + r,
        0 <= r < 64,
        z == (119 - r) % 64,
    ensures
        (n + 1 + z + 8) % 64 == 0,
{
    if r <= 55 {
        assert(z == 55 - r);
        assert(n + 1 + z + 8 == 64 * (q + 1));
    } else {
        assert(z == 119 - r);
        assert(n + 1 + z + 8 == 64 * (q + 2));
    }
}

} // verus!
