//! MD5 and base64, for the hash that names the user's choice of viewer.

use crate::bytes::{bytes32, bytes64, le32, put_all, put_u32, put_u64, u32_at};
use vstd::prelude::*;

verus! {

/// How far each of the 64 steps turns.
pub const SHIFTS: [u32; 64] = [
    7, 12, 17, 22, 7, 12, 17, 22, 7, 12, 17, 22, 7, 12, 17, 22,
    5, 9, 14, 20, 5, 9, 14, 20, 5, 9, 14, 20, 5, 9, 14, 20,
    4, 11, 16, 23, 4, 11, 16, 23, 4, 11, 16, 23, 4, 11, 16, 23,
    6, 10, 15, 21, 6, 10, 15, 21, 6, 10, 15, 21, 6, 10, 15, 21,
];

/// The constant of each step: the first 32 bits of the fraction of |sin(i + 1)|.
pub const SINES: [u32; 64] = [
    0xd76aa478, 0xe8c7b756, 0x242070db, 0xc1bdceee,
    0xf57c0faf, 0x4787c62a, 0xa8304613, 0xfd469501,
    0x698098d8, 0x8b44f7af, 0xffff5bb1, 0x895cd7be,
    0x6b901122, 0xfd987193, 0xa679438e, 0x49b40821,
    0xf61e2562, 0xc040b340, 0x265e5a51, 0xe9b6c7aa,
    0xd62f105d, 0x02441453, 0xd8a1e681, 0xe7d3fbc8,
    0x21e1cde6, 0xc33707d6, 0xf4d50d87, 0x455a14ed,
    0xa9e3e905, 0xfcefa3f8, 0x676f02d9, 0x8d2a4c8a,
    0xfffa3942, 0x8771f681, 0x6d9d6122, 0xfde5380c,
    0xa4beea44, 0x4bdecfa9, 0xf6bb4b60, 0xbebfbc70,
    0x289b7ec6, 0xeaa127fa, 0xd4ef3085, 0x04881d05,
    0xd9d4d039, 0xe6db99e5, 0x1fa27cf8, 0xc4ac5665,
    0xf4292244, 0x432aff97, 0xab9423a7, 0xfc93a039,
    0x655b59c3, 0x8f0ccc92, 0xffeff47d, 0x85845dd1,
    0x6fa87e4f, 0xfe2ce6e0, 0xa3014314, 0x4e0811a1,
    0xf7537e82, 0xbd3af235, 0x2ad7d2bb, 0xeb86d391,
];

/// Four words carried from block to block.
#[derive(Clone, Copy)]
pub struct State {
    pub a: u32,
    pub b: u32,
    pub c: u32,
    pub d: u32,
}

pub open spec fn start() -> State {
    State { a: 0x67452301, b: 0xefcdab89, c: 0x98badcfe, d: 0x10325476 }
}

/// The message with a one bit after it, zeros up to eight bytes short of a whole block, and its
/// length in bits.
pub open spec fn padded(m: Seq<u8>) -> Seq<u8> {
    m + seq![0x80u8] + Seq::new(((55 - m.len()) % 64) as nat, |i: int| 0u8) + bytes64(
        (m.len() as u64).wrapping_mul(8),
    )
}

/// The turn of a word to the left.
pub open spec fn rotated(x: u32, s: u32) -> u32 {
    (x << s) | (x >> ((32 - s) as u32))
}

/// The function of the step's round.
pub open spec fn mixed(s: State, i: int) -> u32 {
    if i < 16 {
        (s.b & s.c) | (!s.b & s.d)
    } else if i < 32 {
        (s.d & s.b) | (!s.d & s.c)
    } else if i < 48 {
        s.b ^ s.c ^ s.d
    } else {
        s.c ^ (s.b | !s.d)
    }
}

/// Which word of the block the step takes.
pub open spec fn taken(i: int) -> int {
    if i < 16 {
        i
    } else if i < 32 {
        (5 * i + 1) % 16
    } else if i < 48 {
        (3 * i + 5) % 16
    } else {
        (7 * i) % 16
    }
}

/// Step `i` on the block that starts at byte `at`.
pub open spec fn stepped(s: State, m: Seq<u8>, at: int, i: int) -> State {
    let f = mixed(s, i).wrapping_add(s.a).wrapping_add(SINES@[i]).wrapping_add(
        le32(m, at + 4 * taken(i)),
    );
    State { a: s.d, b: s.b.wrapping_add(rotated(f, SHIFTS@[i])), c: s.b, d: s.c }
}

/// The first `n` steps.
pub open spec fn steps(s: State, m: Seq<u8>, at: int, n: nat) -> State
    decreases n,
{
    if n == 0 {
        s
    } else {
        stepped(steps(s, m, at, (n - 1) as nat), m, at, n - 1)
    }
}

/// All 64 steps on one block, added to what they started from.
pub open spec fn compressed(h: State, m: Seq<u8>, at: int) -> State {
    let t = steps(h, m, at, 64);
    State {
        a: h.a.wrapping_add(t.a),
        b: h.b.wrapping_add(t.b),
        c: h.c.wrapping_add(t.c),
        d: h.d.wrapping_add(t.d),
    }
}

/// The state after the first `n` blocks.
pub open spec fn chained(m: Seq<u8>, n: nat) -> State
    decreases n,
{
    if n == 0 {
        start()
    } else {
        compressed(chained(m, (n - 1) as nat), m, 64 * (n - 1))
    }
}

/// The MD5 digest of a message.
pub open spec fn digest(m: Seq<u8>) -> Seq<u8> {
    let h = chained(padded(m), padded(m).len() / 64);
    bytes32(h.a) + bytes32(h.b) + bytes32(h.c) + bytes32(h.d)
}

proof fn lemma_shift(i: int)
    requires
        0 <= i < 64,
    ensures
        4 <= SHIFTS@[i] <= 23,
{
}

fn step(s: State, m: &[u8], at: usize, i: usize) -> (r: State)
    requires
        i < 64,
        at + 64 <= m@.len(),
    ensures
        r == stepped(s, m@, at as int, i as int),
{
    assert(m.len() <= usize::MAX);
    let f: u32;
    let g: usize;
    if i < 16 {
        f = (s.b & s.c) | (!s.b & s.d);
        g = i;
    } else if i < 32 {
        f = (s.d & s.b) | (!s.d & s.c);
        g = (5 * i + 1) % 16;
    } else if i < 48 {
        f = s.b ^ s.c ^ s.d;
        g = (3 * i + 5) % 16;
    } else {
        f = s.c ^ (s.b | !s.d);
        g = (7 * i) % 16;
    }
    let f: u32 = f.wrapping_add(s.a).wrapping_add(SINES[i]).wrapping_add(u32_at(m, at + 4 * g));
    proof {
        lemma_shift(i as int);
    }
    let k: u32 = SHIFTS[i];
    let turned: u32 = (f << k) | (f >> (32 - k));
    State { a: s.d, b: s.b.wrapping_add(turned), c: s.b, d: s.c }
}

fn compress(h: State, m: &[u8], at: usize) -> (r: State)
    requires
        at + 64 <= m@.len(),
    ensures
        r == compressed(h, m@, at as int),
{
    let mut s = h;
    for i in 0..64usize
        invariant
            at + 64 <= m@.len(),
            s == steps(h, m@, at as int, i as nat),
    {
        s = step(s, m, at, i);
    }
    State {
        a: h.a.wrapping_add(s.a),
        b: h.b.wrapping_add(s.b),
        c: h.c.wrapping_add(s.c),
        d: h.d.wrapping_add(s.d),
    }
}

fn pad(input: &[u8]) -> (r: Vec<u8>)
    ensures
        r@ == padded(input@),
{
    let mut msg: Vec<u8> = Vec::new();
    put_all(&mut msg, input);
    msg.push(0x80);
    let n: usize = input.len();
    let zeros: usize = (119 - n % 64) % 64;
    let ghost head = msg@;
    assert(zeros == (55 - input@.len()) % 64);
    for i in 0..zeros
        invariant
            msg@ == head + Seq::new(i as nat, |j: int| 0u8),
    {
        msg.push(0);
        assert(msg@ =~= head + Seq::new((i + 1) as nat, |j: int| 0u8));
    }
    put_u64(&mut msg, (n as u64).wrapping_mul(8));
    assert(msg@ =~= padded(input@));
    msg
}

/// The MD5 of `input`.
pub fn md5(input: &[u8]) -> (out: Vec<u8>)
    ensures
        out@ == digest(input@),
        out@.len() == 16,
{
    let msg = pad(input);
    proof {
        law_padded_blocks(input@);
    }
    let blocks: usize = msg.len() / 64;
    let mut h = State { a: 0x67452301, b: 0xefcdab89, c: 0x98badcfe, d: 0x10325476 };
    for i in 0..blocks
        invariant
            64 * blocks <= msg@.len() <= usize::MAX,
            h == chained(msg@, i as nat),
    {
        h = compress(h, msg.as_slice(), 64 * i);
    }
    let mut out: Vec<u8> = Vec::new();
    put_u32(&mut out, h.a);
    put_u32(&mut out, h.b);
    put_u32(&mut out, h.c);
    put_u32(&mut out, h.d);
    assert(out@ =~= digest(input@));
    out
}

/// The padded message fills whole blocks, and starts with the message.
pub proof fn law_padded_blocks(m: Seq<u8>)
    ensures
        padded(m).len() % 64 == 0,
        padded(m).take(m.len() as int) == m,
{
    assert(padded(m).take(m.len() as int) =~= m);
}

/// The character for six bits.
#[verifier::opaque]
pub open spec fn sextet(n: int) -> char {
    if n < 26 {
        (65 + n) as char
    } else if n < 52 {
        (71 + n) as char
    } else if n < 62 {
        (n - 4) as char
    } else if n == 62 {
        '+'
    } else {
        '/'
    }
}

/// Up to three bytes as four characters, the missing ones as `=`.
pub open spec fn quad(b: Seq<u8>) -> Seq<char> {
    let n = 0x1_0000 * b[0] + 0x100 * (if b.len() > 1 { b[1] as int } else { 0 }) + (if b.len() > 2 {
        b[2] as int
    } else {
        0
    });
    seq![
        sextet(n / 0x4_0000),
        sextet(n / 0x1000 % 64),
        if b.len() > 1 { sextet(n / 64 % 64) } else { '=' },
        if b.len() > 2 { sextet(n % 64) } else { '=' },
    ]
}

/// Base64 with padding.
pub open spec fn base64_of(b: Seq<u8>) -> Seq<char>
    decreases b.len(),
{
    if b.len() == 0 {
        seq![]
    } else if b.len() <= 3 {
        quad(b)
    } else {
        quad(b.take(3)) + base64_of(b.skip(3))
    }
}

fn sextet_char(n: u32) -> (c: char)
    requires
        n < 64,
    ensures
        c == sextet(n as int),
{
    reveal(sextet);
    if n < 26 {
        (65 + n as u8) as char
    } else if n < 52 {
        (71 + n as u8) as char
    } else if n < 62 {
        (n as u8 - 4) as char
    } else if n == 62 {
        '+'
    } else {
        '/'
    }
}

pub fn base64(b: &[u8]) -> (s: String)
    ensures
        s@ == base64_of(b@),
{
    let mut s = String::new();
    let len: usize = b.len();
    let mut at: usize = 0;
    assert(b@.skip(0) =~= b@);
    assert(s@ + base64_of(b@) =~= base64_of(b@));
    while at < len
        invariant
            len == b@.len(),
            at <= len,
            s@ + base64_of(b@.skip(at as int)) == base64_of(b@),
        decreases len - at,
    {
        let ghost rest = b@.skip(at as int);
        let ghost before = s@;
        let n1: u32 = if len - at > 1 {
            b[at + 1] as u32
        } else {
            0
        };
        let n2: u32 = if len - at > 2 {
            b[at + 2] as u32
        } else {
            0
        };
        let n: u32 = 0x1_0000 * b[at] as u32 + 0x100 * n1 + n2;
        s.push(sextet_char(n / 0x4_0000));
        s.push(sextet_char(n / 0x1000 % 64));
        s.push(
            if len - at > 1 {
                sextet_char(n / 64 % 64)
            } else {
                '='
            },
        );
        s.push(
            if len - at > 2 {
                sextet_char(n % 64)
            } else {
                '='
            },
        );
        if len - at <= 3 {
            assert(s@ =~= before + quad(rest));
            at = len;
            assert(b@.skip(len as int) =~= seq![]);
            assert(s@ + base64_of(b@.skip(at as int)) =~= s@);
        } else {
            assert(s@ =~= before + quad(rest.take(3)));
            assert(rest.skip(3) =~= b@.skip(at + 3));
            assert(s@ + base64_of(b@.skip(at + 3)) =~= before + (quad(rest.take(3)) + base64_of(
                rest.skip(3),
            )));
            at = at + 3;
        }
    }
    assert(b@.skip(len as int) =~= seq![]);
    assert(s@ + base64_of(b@.skip(len as int)) =~= s@);
    s
}

/// The number a character of base64 stands for.
#[verifier::opaque]
pub open spec fn sextet_number(c: char) -> int {
    let n = c as u32 as int;
    if 65 <= n <= 90 {
        n - 65
    } else if 97 <= n <= 122 {
        n - 71
    } else if 48 <= n <= 57 {
        n + 4
    } else if c == '+' {
        62
    } else {
        63
    }
}

/// The bytes that four characters of base64 stand for: one fewer for each `=`.
pub open spec fn quad_bytes(s: Seq<char>) -> Seq<u8> {
    let n = 0x4_0000 * sextet_number(s[0]) + 0x1000 * sextet_number(s[1]) + (if s[2] == '=' {
        0
    } else {
        64 * sextet_number(s[2])
    }) + (if s[3] == '=' {
        0
    } else {
        sextet_number(s[3])
    });
    let all = seq![(n / 0x1_0000) as u8, (n / 0x100 % 0x100) as u8, (n % 0x100) as u8];
    if s[2] == '=' {
        all.take(1)
    } else if s[3] == '=' {
        all.take(2)
    } else {
        all
    }
}

/// The bytes that base64 stands for.
pub open spec fn base64_bytes(s: Seq<char>) -> Seq<u8>
    decreases s.len(),
{
    if s.len() < 4 {
        seq![]
    } else {
        quad_bytes(s.take(4)) + base64_bytes(s.skip(4))
    }
}

proof fn lemma_sextet(n: int)
    requires
        0 <= n < 64,
    ensures
        sextet_number(sextet(n)) == n,
        sextet(n) != '=',
{
    reveal(sextet);
    reveal(sextet_number);
}

proof fn lemma_sextets(n: int)
    requires
        0 <= n < 0x100_0000,
    ensures
        n == 0x4_0000 * (n / 0x4_0000) + 0x1000 * (n / 0x1000 % 64) + 64 * (n / 64 % 64) + n % 64,
        n / 0x4_0000 < 64,
{
    assert(n / 0x1000 == 64 * (n / 0x4_0000) + n / 0x1000 % 64);
    assert(n / 64 == 64 * (n / 0x1000) + n / 64 % 64);
}

proof fn lemma_three(b0: int, b1: int, b2: int)
    requires
        0 <= b0 < 0x100,
        0 <= b1 < 0x100,
        0 <= b2 < 0x100,
    ensures
        (0x1_0000 * b0 + 0x100 * b1 + b2) / 0x1_0000 == b0,
        (0x1_0000 * b0 + 0x100 * b1 + b2) / 0x100 % 0x100 == b1,
        (0x1_0000 * b0 + 0x100 * b1 + b2) % 0x100 == b2,
        b2 == 0 ==> (0x1_0000 * b0 + 0x100 * b1 + b2) % 64 == 0,
        b1 == 0 && b2 == 0 ==> (0x1_0000 * b0 + 0x100 * b1 + b2) / 64 % 64 == 0,
{
}

proof fn lemma_quad(b: Seq<u8>)
    requires
        0 < b.len() <= 3,
    ensures
        quad(b).len() == 4,
        quad_bytes(quad(b)) == b,
{
    let b1 = if b.len() > 1 {
        b[1] as int
    } else {
        0
    };
    let b2 = if b.len() > 2 {
        b[2] as int
    } else {
        0
    };
    let n = 0x1_0000 * b[0] + 0x100 * b1 + b2;
    lemma_three(b[0] as int, b1, b2);
    lemma_sextets(n);
    lemma_sextet(n / 0x4_0000);
    lemma_sextet(n / 0x1000 % 64);
    lemma_sextet(n / 64 % 64);
    lemma_sextet(n % 64);
    let s = quad(b);
    let m = 0x4_0000 * sextet_number(s[0]) + 0x1000 * sextet_number(s[1]) + (if s[2] == '=' {
        0
    } else {
        64 * sextet_number(s[2])
    }) + (if s[3] == '=' {
        0
    } else {
        sextet_number(s[3])
    });
    assert(m == n);
    assert(quad_bytes(s) =~= b);
}

/// Base64 gives its bytes back.
pub proof fn law_base64_returns(b: Seq<u8>)
    ensures
        base64_bytes(base64_of(b)) == b,
    decreases b.len(),
{
    let s = base64_of(b);
    if b.len() == 0 {
        assert(base64_bytes(s) =~= b);
    } else if b.len() <= 3 {
        reveal_with_fuel(base64_bytes, 2);
        lemma_quad(b);
        assert(s.take(4) =~= s);
        assert(base64_bytes(s) =~= b);
    } else {
        lemma_quad(b.take(3));
        law_base64_returns(b.skip(3));
        assert(s.take(4) =~= quad(b.take(3)));
        assert(s.skip(4) =~= base64_of(b.skip(3)));
        assert(base64_bytes(s) =~= b);
    }
}

/// Bytes up to a multiple of three and those after them can be put into base64 one after the
/// other.
pub proof fn law_base64_concatenates(a: Seq<u8>, b: Seq<u8>)
    requires
        a.len() % 3 == 0,
    ensures
        base64_of(a + b) == base64_of(a) + base64_of(b),
    decreases a.len(),
{
    if a.len() == 0 {
        assert(a + b =~= b);
        assert(base64_of(a) + base64_of(b) =~= base64_of(b));
    } else {
        law_base64_concatenates(a.skip(3), b);
        assert((a + b).take(3) =~= a.take(3));
        assert((a + b).skip(3) =~= a.skip(3) + b);
        if a.len() == 3 {
            assert(a.take(3) =~= a);
            assert(a.skip(3) =~= seq![]);
            if b.len() == 0 {
                assert(a + b =~= a);
            }
        }
        assert(base64_of(a + b) =~= base64_of(a) + base64_of(b));
    }
}

/// Four characters for every three bytes begun.
pub proof fn law_base64_length(b: Seq<u8>)
    ensures
        base64_of(b).len() == 4 * ((b.len() + 2) / 3),
    decreases b.len(),
{
    if b.len() > 3 {
        law_base64_length(b.skip(3));
    }
}

} // verus!
