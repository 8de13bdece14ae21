//! Text as the viewer handles it: characters in a slice, split, trimmed, and turned into
//! numbers and back.

use vstd::prelude::*;

verus! {

/// `String::push`: the character goes to the end, everything before it stays.
pub assume_specification[ String::push ](s: &mut String, c: char)
    ensures
        final(s)@ == old(s)@.push(c),
;

/// What `str::to_lowercase` makes of a text.
pub uninterp spec fn lower(s: Seq<char>) -> Seq<char>;

/// `str::to_lowercase`: the lower case of the text by the rules of Unicode, a function of the
/// text alone.
pub assume_specification[ str::to_lowercase ](s: &str) -> (r: String)
    ensures
        r@ == lower(s@),
;

/// The first half of a character that takes two UTF-16 units.
pub open spec fn leads(u: u16) -> bool {
    0xd800 <= u <= 0xdbff
}

/// The second half of one.
pub open spec fn trails(u: u16) -> bool {
    0xdc00 <= u <= 0xdfff
}

/// The text that UTF-16 units spell: two halves in their order are one character, a half without
/// the other is U+FFFD, and any other unit is the character of its number.
pub open spec fn utf16_text(units: Seq<u16>) -> Seq<char>
    decreases units.len(),
{
    if units.len() == 0 {
        seq![]
    } else if leads(units[0]) && units.len() >= 2 && trails(units[1]) {
        seq![(0x10000 + (units[0] - 0xd800) * 0x400 + (units[1] - 0xdc00)) as char] + utf16_text(
            units.skip(2),
        )
    } else if leads(units[0]) || trails(units[0]) {
        seq!['\u{fffd}'] + utf16_text(units.skip(1))
    } else {
        seq![units[0] as char] + utf16_text(units.skip(1))
    }
}

/// `String::from_utf16_lossy`: the text the units spell, with U+FFFD for each half that stands
/// alone.
pub assume_specification[ String::from_utf16_lossy ](v: &[u16]) -> (r: String)
    ensures
        r@ == utf16_text(v@),
;

/// One text after another.
pub fn cat2(a: &str, b: &str) -> (r: String)
    ensures
        r@ == a@ + b@,
{
    let mut s = a.to_owned();
    s.append(b);
    s
}

pub fn cat3(a: &str, b: &str, c: &str) -> (r: String)
    ensures
        r@ == a@ + b@ + c@,
{
    let mut s = a.to_owned();
    s.append(b);
    s.append(c);
    s
}

/// What the strings of a list say.
pub open spec fn said(v: Seq<String>) -> Seq<Seq<char>> {
    Seq::new(v.len(), |i: int| v[i]@)
}

/// Texts one after another, with a separator between them.
pub open spec fn joined(v: Seq<Seq<char>>, between: Seq<char>) -> Seq<char>
    decreases v.len(),
{
    if v.len() == 0 {
        seq![]
    } else if v.len() == 1 {
        v[0]
    } else {
        joined(v.drop_last(), between) + between + v.last()
    }
}

pub fn join(v: &Vec<String>, between: &str) -> (r: String)
    ensures
        r@ == joined(said(v@), between@),
{
    let mut s = String::new();
    assert(s@ =~= seq![]);
    for i in 0..v.len()
        invariant
            s@ == joined(said(v@).take(i as int), between@),
    {
        let ghost so_far = said(v@).take(i + 1);
        assert(so_far.drop_last() =~= said(v@).take(i as int));
        if i > 0 {
            s.append(between);
        }
        s.append(v[i].as_str());
        assert(s@ =~= joined(so_far, between@));
    }
    assert(said(v@).take(v@.len() as int) =~= said(v@));
    s
}

/// The characters of a string, in order.
pub fn chars_of(s: &str) -> (r: Vec<char>)
    ensures
        r@ == s@,
{
    let mut v: Vec<char> = Vec::new();
    for c in it: s.chars()
        invariant
            it.seq() == s@,
            v@ == s@.take(it.index() as int),
    {
        v.push(c);
        assert(s@.take(it.index() as int).push(c) =~= s@.take(it.index() + 1));
    }
    assert(s@.take(s@.len() as int) =~= s@);
    v
}

/// A string of these characters.
pub fn string_of(v: &[char]) -> (r: String)
    ensures
        r@ == v@,
{
    let mut s = String::new();
    let n: usize = v.len();
    for i in 0..n
        invariant
            n == v@.len(),
            s@ == v@.take(i as int),
    {
        s.push(v[i]);
        assert(v@.take(i as int).push(v@[i as int]) =~= v@.take(i + 1));
    }
    assert(v@.take(n as int) =~= v@);
    s
}

/// The Unicode property White_Space.
pub open spec fn white(c: char) -> bool {
    let n = c as u32;
    ||| 0x9 <= n <= 0xd
    ||| n == 0x20
    ||| n == 0x85
    ||| n == 0xa0
    ||| n == 0x1680
    ||| 0x2000 <= n <= 0x200a
    ||| n == 0x2028
    ||| n == 0x2029
    ||| n == 0x202f
    ||| n == 0x205f
    ||| n == 0x3000
}

pub fn is_white(c: char) -> (r: bool)
    ensures
        r == white(c),
{
    let n: u32 = c as u32;
    (0x9 <= n && n <= 0xd) || n == 0x20 || n == 0x85 || n == 0xa0 || n == 0x1680 || (0x2000 <= n && n
        <= 0x200a) || n == 0x2028 || n == 0x2029 || n == 0x202f || n == 0x205f || n == 0x3000
}

pub open spec fn trim_front(s: Seq<char>) -> Seq<char>
    decreases s.len(),
{
    if s.len() > 0 && white(s[0]) {
        trim_front(s.skip(1))
    } else {
        s
    }
}

pub open spec fn trim_back(s: Seq<char>) -> Seq<char>
    decreases s.len(),
{
    if s.len() > 0 && white(s.last()) {
        trim_back(s.drop_last())
    } else {
        s
    }
}

/// The text without the white space around it.
pub open spec fn trimmed(s: Seq<char>) -> Seq<char> {
    trim_back(trim_front(s))
}

proof fn lemma_trim_front(s: Seq<char>, i: int)
    requires
        0 <= i <= s.len(),
        forall|j: int| 0 <= j < i ==> white(#[trigger] s[j]),
        i < s.len() ==> !white(s[i]),
    ensures
        trim_front(s) == s.skip(i),
    decreases i,
{
    if i == 0 {
        assert(s.skip(0) =~= s);
    } else {
        let t = s.skip(1);
        assert(white(s[0]));
        assert forall|j: int| 0 <= j < i - 1 implies white(#[trigger] t[j]) by {
            assert(t[j] == s[j + 1]);
        }
        lemma_trim_front(t, i - 1);
        assert(t.skip(i - 1) =~= s.skip(i));
    }
}

proof fn lemma_trim_back(s: Seq<char>, i: int)
    requires
        0 <= i <= s.len(),
        forall|j: int| i <= j < s.len() ==> white(#[trigger] s[j]),
        i > 0 ==> !white(s[i - 1]),
    ensures
        trim_back(s) == s.take(i),
    decreases s.len() - i,
{
    if i == s.len() {
        assert(s.take(i) =~= s);
    } else {
        let t = s.drop_last();
        assert(white(s[s.len() - 1]));
        assert forall|j: int| i <= j < t.len() implies white(#[trigger] t[j]) by {
            assert(t[j] == s[j]);
        }
        lemma_trim_back(t, i);
        assert(t.take(i) =~= s.take(i));
    }
}

pub fn trim(v: &[char]) -> (r: &[char])
    ensures
        r@ == trimmed(v@),
{
    let n: usize = v.len();
    let mut a: usize = 0;
    while a < n && is_white(v[a])
        invariant
            n == v@.len(),
            a <= n,
            forall|j: int| 0 <= j < a ==> white(#[trigger] v@[j]),
        decreases n - a,
    {
        a = a + 1;
    }
    proof {
        lemma_trim_front(v@, a as int);
    }
    let ghost f = v@.skip(a as int);
    let mut b: usize = n;
    while b > a && is_white(v[b - 1])
        invariant
            n == v@.len(),
            a <= b <= n,
            f == v@.skip(a as int),
            forall|j: int| b - a <= j < f.len() ==> white(#[trigger] f[j]),
        decreases b,
    {
        b = b - 1;
    }
    proof {
        lemma_trim_back(f, b - a);
        assert(f.take(b - a) =~= v@.subrange(a as int, b as int));
    }
    &v[a..b]
}

/// Trimmed text is as it is when trimmed again.
pub proof fn lemma_trim_fixed(s: Seq<char>)
    requires
        s.len() > 0 ==> !white(s[0]) && !white(s.last()),
    ensures
        trimmed(s) == s,
{
}

/// Where `c` first occurs, or the length where it does not.
pub open spec fn first_of(s: Seq<char>, c: char) -> nat
    decreases s.len(),
{
    if s.len() == 0 || s[0] == c {
        0
    } else {
        1 + first_of(s.skip(1), c)
    }
}

pub proof fn lemma_first_of(s: Seq<char>, c: char, i: int)
    requires
        0 <= i <= s.len(),
        forall|j: int| 0 <= j < i ==> #[trigger] s[j] != c,
        i < s.len() ==> s[i] == c,
    ensures
        first_of(s, c) == i,
    decreases i,
{
    if i > 0 {
        let t = s.skip(1);
        assert(s[0] != c);
        assert forall|j: int| 0 <= j < i - 1 implies #[trigger] t[j] != c by {
            assert(t[j] == s[j + 1]);
        }
        lemma_first_of(t, c, i - 1);
    }
}

pub proof fn lemma_first_of_is(s: Seq<char>, c: char)
    ensures
        first_of(s, c) <= s.len(),
        forall|j: int| 0 <= j < first_of(s, c) ==> #[trigger] s[j] != c,
        first_of(s, c) < s.len() ==> s[first_of(s, c) as int] == c,
    decreases s.len(),
{
    if s.len() > 0 && s[0] != c {
        let t = s.skip(1);
        lemma_first_of_is(t, c);
        assert forall|j: int| 0 <= j < first_of(s, c) implies #[trigger] s[j] != c by {
            if j > 0 {
                assert(t[j - 1] == s[j]);
            }
        }
        if first_of(s, c) < s.len() {
            assert(t[first_of(t, c) as int] == s[first_of(s, c) as int]);
        }
    }
}

pub fn find(v: &[char], c: char) -> (i: usize)
    ensures
        i == first_of(v@, c),
        i <= v@.len(),
{
    let n: usize = v.len();
    let mut i: usize = 0;
    while i < n && v[i] != c
        invariant
            n == v@.len(),
            i <= n,
            forall|j: int| 0 <= j < i ==> #[trigger] v@[j] != c,
        decreases n - i,
    {
        i = i + 1;
    }
    proof {
        lemma_first_of(v@, c, i as int);
    }
    i
}

pub fn same(a: &[char], b: &[char]) -> (r: bool)
    ensures
        r == (a@ == b@),
{
    if a.len() != b.len() {
        return false;
    }
    let n: usize = a.len();
    for i in 0..n
        invariant
            n == a@.len() == b@.len(),
            a@.take(i as int) =~= b@.take(i as int),
    {
        if a[i] != b[i] {
            return false;
        }
        assert(a@.take(i + 1) =~= a@.take(i as int).push(a@[i as int]));
        assert(b@.take(i + 1) =~= b@.take(i as int).push(b@[i as int]));
    }
    assert(a@.take(n as int) =~= a@);
    assert(b@.take(n as int) =~= b@);
    true
}

/// Whether the characters spell the word.
pub fn is_word(a: &[char], word: &str) -> (r: bool)
    ensures
        r == (a@ == word@),
{
    let w = chars_of(word);
    same(a, w.as_slice())
}

/// What the strings in a list hold.
pub open spec fn texts(v: Seq<Vec<char>>) -> Seq<Seq<char>> {
    v.map_values(|x: Vec<char>| x@)
}

/// The text cut at every `c`; one part more than there are `c`s.
pub open spec fn parts(s: Seq<char>, c: char) -> Seq<Seq<char>>
    decreases s.len(),
{
    let i = first_of(s, c) as int;
    if i >= s.len() {
        seq![s]
    } else {
        seq![s.take(i)] + parts(s.skip(i + 1), c)
    }
}

pub fn to_vec(v: &[char]) -> (r: Vec<char>)
    ensures
        r@ == v@,
{
    let mut o: Vec<char> = Vec::new();
    let n: usize = v.len();
    for i in 0..n
        invariant
            n == v@.len(),
            o@ == v@.take(i as int),
    {
        o.push(v[i]);
        assert(v@.take(i as int).push(v@[i as int]) =~= v@.take(i + 1));
    }
    assert(v@.take(n as int) =~= v@);
    o
}

pub fn split(v: &[char], c: char) -> (r: Vec<Vec<char>>)
    ensures
        texts(r@) == parts(v@, c),
{
    let n: usize = v.len();
    let mut out: Vec<Vec<char>> = Vec::new();
    let mut at: usize = 0;
    assert(v@.skip(0) =~= v@);
    loop
        invariant_except_break
            at <= n,
            texts(out@) + parts(v@.skip(at as int), c) == parts(v@, c),
        invariant
            n == v@.len(),
        ensures
            texts(out@) == parts(v@, c),
        decreases n - at,
    {
        let rest = &v[at..n];
        let ghost before = out@;
        assert(rest@ =~= v@.skip(at as int));
        let i: usize = find(rest, c);
        proof {
            lemma_first_of_is(rest@, c);
        }
        let part = to_vec(&rest[0..i]);
        assert(part@ =~= rest@.take(i as int));
        out.push(part);
        assert(texts(out@) =~= texts(before).push(part@));
        if i >= rest.len() {
            assert(rest@.take(i as int) =~= rest@);
            assert(texts(out@) =~= texts(before) + seq![rest@]);
            break;
        }
        assert(rest@.skip(i + 1) =~= v@.skip(at + i + 1));
        assert(texts(out@) + parts(v@.skip(at + i + 1), c) =~= texts(before) + (seq![part@] + parts(
            rest@.skip(i + 1),
            c,
        )));
        at = at + i + 1;
    }
    out
}

/// A line without the carriage return before its end.
pub open spec fn without_cr(s: Seq<char>) -> Seq<char> {
    if s.len() > 0 && s.last() == '\r' {
        s.drop_last()
    } else {
        s
    }
}

/// The lines of a text, each ended by a newline (or a carriage return and a newline), the last
/// one perhaps not.
pub open spec fn lines_of(s: Seq<char>) -> Seq<Seq<char>>
    decreases s.len(),
{
    let i = first_of(s, '\n') as int;
    if s.len() == 0 {
        seq![]
    } else if i >= s.len() {
        seq![s]
    } else {
        seq![without_cr(s.take(i))] + lines_of(s.skip(i + 1))
    }
}

pub fn lines(v: &[char]) -> (r: Vec<Vec<char>>)
    ensures
        texts(r@) == lines_of(v@),
{
    let n: usize = v.len();
    let mut out: Vec<Vec<char>> = Vec::new();
    let mut at: usize = 0;
    assert(v@.skip(0) =~= v@);
    assert(texts(out@) =~= seq![]);
    assert(texts(out@) + lines_of(v@) =~= lines_of(v@));
    while at < n
        invariant
            n == v@.len(),
            at <= n,
            texts(out@) + lines_of(v@.skip(at as int)) == lines_of(v@),
        decreases n - at,
    {
        let rest = &v[at..n];
        let ghost before = out@;
        assert(rest@ =~= v@.skip(at as int));
        let i: usize = find(rest, '\n');
        proof {
            lemma_first_of_is(rest@, '\n');
        }
        if i >= rest.len() {
            let last = to_vec(rest);
            out.push(last);
            at = n;
            assert(texts(out@) =~= texts(before).push(last@));
            assert(lines_of(v@.skip(n as int)) =~= seq![]);
            assert(texts(out@) + seq![] =~= texts(before) + seq![rest@]);
        } else {
            let end: usize = if i > 0 && rest[i - 1] == '\r' {
                i - 1
            } else {
                i
            };
            let line = to_vec(&rest[0..end]);
            assert(line@ =~= without_cr(rest@.take(i as int)));
            out.push(line);
            assert(texts(out@) =~= texts(before).push(line@));
            assert(rest@.skip(i + 1) =~= v@.skip(at + i + 1));
            assert(texts(out@) + lines_of(v@.skip(at + i + 1)) =~= texts(before) + (seq![line@]
                + lines_of(rest@.skip(i + 1))));
            at = at + i + 1;
        }
    }
    assert(v@.skip(n as int) =~= seq![]);
    assert(texts(out@) + lines_of(v@.skip(n as int)) =~= texts(out@));
    out
}

/// The decimal digit of a number below ten.
pub open spec fn digit(d: nat) -> char {
    (48 + d) as char
}

/// A natural number in decimal, without leading zeros.
pub open spec fn decimal(n: nat) -> Seq<char>
    decreases n,
{
    if n < 10 {
        seq![digit(n)]
    } else {
        decimal(n / 10).push(digit(n % 10))
    }
}

fn digit_char(d: u8) -> (c: char)
    requires
        d < 10,
    ensures
        c == digit(d as nat),
{
    (48 + d) as char
}

fn decimal_rec(n: u64) -> (s: String)
    ensures
        s@ == decimal(n as nat),
    decreases n,
{
    if n < 10 {
        let mut s = String::new();
        s.push(digit_char(n as u8));
        assert(s@ =~= seq![digit(n as nat)]);
        s
    } else {
        let mut s = decimal_rec(n / 10);
        s.push(digit_char((n % 10) as u8));
        s
    }
}

pub fn decimal_of(n: u64) -> (s: String)
    ensures
        s@ == decimal(n as nat),
{
    decimal_rec(n)
}

/// An integer in decimal, with a minus sign where it is negative.
pub open spec fn signed_decimal(n: int) -> Seq<char> {
    if n < 0 {
        seq!['-'] + decimal((-n) as nat)
    } else {
        decimal(n as nat)
    }
}

pub fn signed_decimal_of(n: i32) -> (s: String)
    ensures
        s@ == signed_decimal(n as int),
{
    if n < 0 {
        let mut s = String::new();
        s.push('-');
        let d = decimal_of((-(n as i64)) as u64);
        s.append(d.as_str());
        assert(s@ =~= seq!['-'] + decimal((-n) as nat));
        s
    } else {
        decimal_of(n as u64)
    }
}

/// A hexadecimal digit, in capitals or not.
pub open spec fn hex_digit(d: nat, upper: bool) -> char {
    if d < 10 {
        (48 + d) as char
    } else if upper {
        (55 + d) as char
    } else {
        (87 + d) as char
    }
}

/// The last `width` hexadecimal digits of a number.
pub open spec fn hex(n: nat, width: nat, upper: bool) -> Seq<char>
    decreases width,
{
    if width == 0 {
        seq![]
    } else {
        hex(n / 16, (width - 1) as nat, upper).push(hex_digit(n % 16, upper))
    }
}

fn hex_rec(n: u64, width: usize, upper: bool) -> (s: String)
    ensures
        s@ == hex(n as nat, width as nat, upper),
    decreases width,
{
    if width == 0 {
        let s = String::new();
        assert(s@ =~= seq![]);
        s
    } else {
        let mut s = hex_rec(n / 16, width - 1, upper);
        let d: u8 = (n % 16) as u8;
        let c: char = if d < 10 {
            (48 + d) as char
        } else if upper {
            (55 + d) as char
        } else {
            (87 + d) as char
        };
        s.push(c);
        s
    }
}

pub fn hex_of(n: u64, width: usize, upper: bool) -> (s: String)
    ensures
        s@ == hex(n as nat, width as nat, upper),
{
    hex_rec(n, width, upper)
}

/// What a character is worth as a digit of a radix of ten or sixteen.
pub open spec fn digit_value(c: char, radix: nat) -> Option<nat> {
    let n = c as u32;
    if 48 <= n <= 57 {
        Some((n - 48) as nat)
    } else if radix == 16 && 97 <= n <= 102 {
        Some((n - 87) as nat)
    } else if radix == 16 && 65 <= n <= 70 {
        Some((n - 55) as nat)
    } else {
        None
    }
}

/// The number the digits write; none where there is no digit or something else.
pub open spec fn number(s: Seq<char>, radix: nat) -> Option<nat>
    decreases s.len(),
{
    if s.len() == 0 {
        None
    } else if s.len() == 1 {
        digit_value(s[0], radix)
    } else {
        match (number(s.drop_last(), radix), digit_value(s.last(), radix)) {
            (Some(n), Some(d)) => Some(n * radix + d),
            _ => None,
        }
    }
}

/// The number at most `max`, with or without a plus sign before it.
pub open spec fn unsigned(s: Seq<char>, radix: nat, max: nat) -> Option<nat> {
    let body = if s.len() > 0 && s[0] == '+' {
        s.skip(1)
    } else {
        s
    };
    match number(body, radix) {
        Some(n) if n <= max => Some(n),
        _ => None,
    }
}

/// A 32-bit integer with or without a sign.
pub open spec fn integer(s: Seq<char>) -> Option<int> {
    if s.len() > 0 && s[0] == '-' {
        match number(s.skip(1), 10) {
            Some(n) if n <= 0x8000_0000 => Some(-n),
            _ => None,
        }
    } else {
        match unsigned(s, 10, 0x7fff_ffff) {
            Some(n) => Some(n as int),
            None => None,
        }
    }
}

fn digit_of(c: char, radix: u64) -> (r: Option<u64>)
    requires
        radix == 10 || radix == 16,
    ensures
        r matches Some(d) ==> digit_value(c, radix as nat) == Some(d as nat) && d < 16,
        r is None ==> digit_value(c, radix as nat) is None,
{
    let n: u32 = c as u32;
    if 48 <= n && n <= 57 {
        Some((n - 48) as u64)
    } else if radix == 16 && 97 <= n && n <= 102 {
        Some((n - 87) as u64)
    } else if radix == 16 && 65 <= n && n <= 70 {
        Some((n - 55) as u64)
    } else {
        None
    }
}

proof fn lemma_number_bad(s: Seq<char>, radix: nat, i: int)
    requires
        0 <= i < s.len(),
        digit_value(s[i], radix) is None,
    ensures
        number(s, radix) is None,
    decreases s.len(),
{
    if s.len() > 1 && i < s.len() - 1 {
        lemma_number_bad(s.drop_last(), radix, i);
    }
}

proof fn lemma_number_grows(s: Seq<char>, radix: nat, k: int)
    requires
        0 < k <= s.len(),
        radix >= 1,
        number(s, radix) is Some,
    ensures
        number(s.take(k), radix) is Some,
        number(s.take(k), radix)->0 <= number(s, radix)->0,
    decreases s.len(),
{
    if k == s.len() {
        assert(s.take(k) =~= s);
    } else {
        let t = s.drop_last();
        lemma_number_grows(t, radix, k);
        assert(t.take(k) =~= s.take(k));
        let a = number(t, radix)->0;
        assert(a * radix >= a) by (nonlinear_arith)
            requires
                radix >= 1,
                a >= 0,
        ;
    }
}

/// The number the digits write, if it is at most `max`.
fn bounded_number(v: &[char], radix: u64, max: u64) -> (r: Option<u64>)
    requires
        radix == 10 || radix == 16,
    ensures
        r == (match number(v@, radix as nat) {
            Some(n) if n <= max => Some(n as u64),
            _ => None,
        }),
{
    let n: usize = v.len();
    if n == 0 {
        return None;
    }
    let mut acc: u64 = 0;
    let mut i: usize = 0;
    while i < n
        invariant
            n == v@.len(),
            n > 0,
            i <= n,
            radix == 10 || radix == 16,
            i == 0 ==> acc == 0,
            i > 0 ==> number(v@.take(i as int), radix as nat) == Some(acc as nat),
            acc <= max,
        decreases n - i,
    {
        let ghost t = v@.take(i + 1);
        assert(t.drop_last() =~= v@.take(i as int));
        assert(t.last() == v@[i as int]);
        match digit_of(v[i], radix) {
            None => {
                proof {
                    lemma_number_bad(v@, radix as nat, i as int);
                }
                return None;
            },
            Some(d) => {
                let wide: u128 = acc as u128 * radix as u128 + d as u128;
                assert(number(t, radix as nat) == Some(wide as nat));
                if wide > max as u128 {
                    proof {
                        if number(v@, radix as nat) is Some {
                            lemma_number_grows(v@, radix as nat, i + 1);
                        }
                    }
                    return None;
                }
                acc = wide as u64;
            },
        }
        i = i + 1;
    }
    assert(v@.take(n as int) =~= v@);
    Some(acc)
}

pub fn parse_unsigned(v: &[char], radix: u64, max: u64) -> (r: Option<u64>)
    requires
        radix == 10 || radix == 16,
    ensures
        r == (match unsigned(v@, radix as nat, max as nat) {
            Some(n) => Some(n as u64),
            None => None,
        }),
{
    if v.len() > 0 && v[0] == '+' {
        let rest = &v[1..v.len()];
        assert(rest@ =~= v@.skip(1));
        bounded_number(rest, radix, max)
    } else {
        bounded_number(v, radix, max)
    }
}

/// A number of up to 128 bits in hex, with or without a plus sign before it.
pub fn parse_hex128(v: &[char]) -> (r: Option<u128>)
    ensures
        r == (match unsigned(v@, 16, u128::MAX as nat) {
            Some(n) => Some(n as u128),
            None => None,
        }),
{
    let from: usize = if v.len() > 0 && v[0] == '+' {
        1
    } else {
        0
    };
    let n: usize = v.len();
    let ghost body = v@.skip(from as int);
    assert(from == 0 ==> body =~= v@);
    if from == n {
        return None;
    }
    let mut acc: u128 = 0;
    let mut i: usize = from;
    while i < n
        invariant
            n == v@.len(),
            from < n,
            from <= i <= n,
            body == v@.skip(from as int),
            unsigned(v@, 16, u128::MAX as nat) == (match number(body, 16) {
                Some(n) if n <= u128::MAX => Some(n),
                _ => None,
            }),
            i == from ==> acc == 0,
            i > from ==> number(body.take(i - from), 16) == Some(acc as nat),
        decreases n - i,
    {
        let ghost t = body.take(i + 1 - from);
        assert(t.drop_last() =~= body.take(i - from));
        assert(t.last() == v@[i as int]);
        match digit_of(v[i], 16) {
            None => {
                proof {
                    lemma_number_bad(body, 16, i - from);
                }
                return None;
            },
            Some(d) => {
                assert(number(t, 16) == Some((acc * 16 + d) as nat));
                if acc > (u128::MAX - d as u128) / 16 {
                    proof {
                        if number(body, 16) is Some {
                            lemma_number_grows(body, 16, i + 1 - from);
                        }
                    }
                    return None;
                }
                acc = acc * 16 + d as u128;
            },
        }
        i = i + 1;
    }
    assert(body.take(n - from) =~= body);
    Some(acc)
}

pub fn parse_integer(v: &[char]) -> (r: Option<i32>)
    ensures
        r == (match integer(v@) {
            Some(n) => Some(n as i32),
            None => None,
        }),
{
    if v.len() > 0 && v[0] == '-' {
        let rest = &v[1..v.len()];
        assert(rest@ =~= v@.skip(1));
        match bounded_number(rest, 10, 0x8000_0000) {
            Some(n) => Some((-(n as i64)) as i32),
            None => None,
        }
    } else {
        match parse_unsigned(v, 10, 0x7fff_ffff) {
            Some(n) => Some(n as i32),
            None => None,
        }
    }
}

/// The UTF-16 code units of one character: one, or a surrogate pair beyond the first plane.
pub open spec fn units(c: char) -> Seq<u16> {
    let n = c as u32 as int;
    if n < 0x10000 {
        seq![n as u16]
    } else {
        seq![(0xd800 + (n - 0x10000) / 0x400) as u16, (0xdc00 + (n - 0x10000) % 0x400) as u16]
    }
}

/// The UTF-16 code units of a text.
pub open spec fn utf16(s: Seq<char>) -> Seq<u16>
    decreases s.len(),
{
    if s.len() == 0 {
        seq![]
    } else {
        utf16(s.drop_last()) + units(s.last())
    }
}

pub fn encode_utf16(v: &[char]) -> (r: Vec<u16>)
    ensures
        r@ == utf16(v@),
{
    let mut out: Vec<u16> = Vec::new();
    let n: usize = v.len();
    for i in 0..n
        invariant
            n == v@.len(),
            out@ == utf16(v@.take(i as int)),
    {
        let ghost before = out@;
        let c: u32 = v[i] as u32;
        if c < 0x10000 {
            out.push(c as u16);
        } else {
            let m: u32 = c - 0x10000;
            out.push((0xd800 + m / 0x400) as u16);
            out.push((0xdc00 + m % 0x400) as u16);
        }
        assert(out@ =~= before + units(v@[i as int]));
        assert(v@.take(i + 1).drop_last() =~= v@.take(i as int));
    }
    assert(v@.take(n as int) =~= v@);
    out
}

proof fn lemma_utf16_front(s: Seq<char>)
    requires
        s.len() > 0,
    ensures
        utf16(s) == units(s[0]) + utf16(s.skip(1)),
    decreases s.len(),
{
    if s.len() == 1 {
        reveal_with_fuel(utf16, 2);
        assert(s.skip(1) =~= seq![]);
        assert(s.drop_last() =~= seq![]);
        assert(utf16(s) =~= units(s[0]) + utf16(s.skip(1)));
    } else {
        lemma_utf16_front(s.drop_last());
        assert(s.skip(1).drop_last() =~= s.drop_last().skip(1));
        assert(utf16(s) =~= units(s[0]) + utf16(s.skip(1)));
    }
}

/// The UTF-16 of two texts in a row.
pub proof fn lemma_utf16_cat(a: Seq<char>, b: Seq<char>)
    ensures
        utf16(a + b) == utf16(a) + utf16(b),
    decreases b.len(),
{
    if b.len() == 0 {
        assert(a + b =~= a);
        assert(utf16(a) + utf16(b) =~= utf16(a));
    } else {
        lemma_utf16_cat(a, b.drop_last());
        assert((a + b).drop_last() =~= a + b.drop_last());
        assert(utf16(a + b) =~= utf16(a) + utf16(b));
    }
}

/// One unit for each character of a text that has no others than these.
pub proof fn lemma_utf16_short(s: Seq<char>)
    requires
        forall|i: int| 0 <= i < s.len() ==> (#[trigger] s[i] as u32) < 0x10000,
    ensures
        utf16(s).len() == s.len(),
    decreases s.len(),
{
    if s.len() > 0 {
        let front = s.drop_last();
        assert forall|i: int| 0 <= i < front.len() implies (#[trigger] front[i] as u32) < 0x10000 by {
            assert(front[i] == s[i]);
        }
        lemma_utf16_short(front);
    }
}

proof fn lemma_one_spelled(c: char, rest: Seq<u16>)
    ensures
        utf16_text(units(c) + rest) == seq![c] + utf16_text(rest),
{
    let all = units(c) + rest;
    let n = c as u32 as int;
    if n < 0x10000 {
        assert(all[0] as char == c);
        assert(all.skip(1) =~= rest);
    } else {
        let m = n - 0x10000;
        assert(all[0] == 0xd800 + m / 0x400 && all[1] == 0xdc00 + m % 0x400);
        assert((0x10000 + (all[0] - 0xd800) * 0x400 + (all[1] - 0xdc00)) as char == c);
        assert(all.skip(2) =~= rest);
    }
}

/// The UTF-16 of a text spells that text.
pub proof fn law_utf16_returns(s: Seq<char>)
    ensures
        utf16_text(utf16(s)) == s,
    decreases s.len(),
{
    if s.len() > 0 {
        lemma_utf16_front(s);
        law_utf16_returns(s.skip(1));
        lemma_one_spelled(s[0], utf16(s.skip(1)));
        assert(seq![s[0]] + s.skip(1) =~= s);
    } else {
        assert(utf16(s) =~= seq![]);
        assert(utf16_text(utf16(s)) =~= s);
    }
}

/// The units with a zero after them, as Windows takes a string.
pub fn wide(s: &str) -> (r: Vec<u16>)
    ensures
        r@ == utf16(s@).push(0),
{
    let v = chars_of(s);
    let mut out = encode_utf16(v.as_slice());
    out.push(0);
    out
}

/// A number in decimal is made of digits, at least one.
pub proof fn lemma_decimal_chars(n: nat)
    ensures
        decimal(n).len() > 0,
        forall|i: int|
            0 <= i < decimal(n).len() ==> 48 <= (#[trigger] decimal(n)[i]) as u32 <= 57,
    decreases n,
{
    if n >= 10 {
        lemma_decimal_chars(n / 10);
    }
}

/// A number in decimal reads as that number.
pub proof fn lemma_decimal_number(n: nat)
    ensures
        number(decimal(n), 10) == Some(n),
    decreases n,
{
    let d = decimal(n);
    if n >= 10 {
        lemma_decimal_number(n / 10);
        lemma_decimal_chars(n / 10);
        assert(d.drop_last() =~= decimal(n / 10));
    }
}

/// Sixteen to the power of `n`.
pub open spec fn sixteens(n: nat) -> nat
    decreases n,
{
    if n == 0 {
        1
    } else {
        16 * sixteens((n - 1) as nat)
    }
}

/// A number in hex has as many digits as asked for, and reads as that number, as far as they hold it;
/// with letters of the case asked for.
pub proof fn law_hex_returns(n: nat, width: nat, upper: bool)
    requires
        width > 0,
    ensures
        hex(n, width, upper).len() == width,
        n < sixteens(width) ==> number(hex(n, width, upper), 16) == Some(n),
        forall|i: int|
            0 <= i < width ==> {
                let c = #[trigger] hex(n, width, upper)[i] as u32;
                48 <= c <= 57 || (if upper {
                    65 <= c <= 70
                } else {
                    97 <= c <= 102
                })
            },
    decreases width,
{
    let h = hex(n, width, upper);
    if width == 1 {
        reveal_with_fuel(hex, 2);
        reveal_with_fuel(sixteens, 2);
        assert(h =~= seq![hex_digit(n % 16, upper)]);
    } else {
        let w = (width - 1) as nat;
        law_hex_returns(n / 16, w, upper);
        assert(h.drop_last() =~= hex(n / 16, w, upper));
        assert forall|i: int| 0 <= i < width implies ({
            let c = #[trigger] h[i] as u32;
            48 <= c <= 57 || (if upper {
                65 <= c <= 70
            } else {
                97 <= c <= 102
            })
        }) by {
            if i < w {
                assert(h[i] == hex(n / 16, w, upper)[i]);
            }
        }
    }
}

/// What is cut off around a text is white space, all of it: what is left neither starts nor ends in
/// any, and stands in the text as it was.
pub proof fn law_trimmed(s: Seq<char>)
    ensures
        trimmed(s).len() > 0 ==> !white(trimmed(s)[0]) && !white(trimmed(s).last()),
        exists|a: int, b: int|
            0 <= a <= b <= s.len() && #[trigger] s.subrange(a, b) == trimmed(s) && (forall|i: int|
                0 <= i < s.len() && (i < a || b <= i) ==> white(#[trigger] s[i])),
{
    let f = trim_front(s);
    let a = lemma_front_cut(s);
    let b = lemma_back_cut(f);
    assert(s.subrange(a, a + b) =~= trimmed(s));
    assert forall|i: int| 0 <= i < s.len() && (i < a || a + b <= i) implies white(
        #[trigger] s[i],
    ) by {
        if i >= a {
            assert(f[i - a] == s[i]);
        }
    }
    if b > 0 {
        assert(f.len() > 0);
        assert(trimmed(s)[0] == f[0]);
    }
}

proof fn lemma_front_cut(s: Seq<char>) -> (a: int)
    ensures
        0 <= a <= s.len(),
        trim_front(s) == s.skip(a),
        forall|i: int| 0 <= i < a ==> white(#[trigger] s[i]),
        trim_front(s).len() > 0 ==> !white(trim_front(s)[0]),
    decreases s.len(),
{
    if s.len() > 0 && white(s[0]) {
        let t = s.skip(1);
        let k = lemma_front_cut(t);
        assert(t.skip(k) =~= s.skip(k + 1));
        assert forall|i: int| 0 <= i < k + 1 implies white(#[trigger] s[i]) by {
            if i > 0 {
                assert(t[i - 1] == s[i]);
            }
        }
        k + 1
    } else {
        assert(s.skip(0) =~= s);
        0
    }
}

proof fn lemma_back_cut(s: Seq<char>) -> (b: int)
    ensures
        0 <= b <= s.len(),
        trim_back(s) == s.take(b),
        forall|i: int| b <= i < s.len() ==> white(#[trigger] s[i]),
        b > 0 ==> !white(s[b - 1]),
    decreases s.len(),
{
    if s.len() > 0 && white(s.last()) {
        let t = s.drop_last();
        let k = lemma_back_cut(t);
        assert(t.take(k) =~= s.take(k));
        assert forall|i: int| k <= i < s.len() implies white(#[trigger] s[i]) by {
            if i < t.len() {
                assert(t[i] == s[i]);
            }
        }
        k
    } else {
        assert(s.take(s.len() as int) =~= s);
        s.len() as int
    }
}

/// The parts of a text, with the separator between them again, make up the text, and none of them has
/// it.
pub proof fn law_parts_make_the_text(s: Seq<char>, c: char)
    ensures
        parts(s, c).len() > 0,
        joined(parts(s, c), seq![c]) == s,
        forall|i: int| 0 <= i < parts(s, c).len() ==> !(#[trigger] parts(s, c)[i]).contains(c),
    decreases s.len(),
{
    let p = parts(s, c);
    let k = first_of(s, c) as int;
    lemma_first_of_is(s, c);
    if k < s.len() {
        let rest = s.skip(k + 1);
        law_parts_make_the_text(rest, c);
        let q = parts(rest, c);
        let head = s.take(k);
        lemma_joined_front(head, q, seq![c]);
        assert(p =~= seq![head] + q);
        assert(head + seq![c] + rest =~= s);
        assert(!head.contains(c));
        assert forall|i: int| 0 <= i < p.len() implies !(#[trigger] p[i]).contains(c) by {
            if i > 0 {
                assert(p[i] == q[i - 1]);
            }
        }
    } else {
        assert(p =~= seq![s]);
        assert(!s.contains(c));
    }
}

proof fn lemma_joined_front(a: Seq<char>, v: Seq<Seq<char>>, between: Seq<char>)
    requires
        v.len() > 0,
    ensures
        joined(seq![a] + v, between) == a + between + joined(v, between),
    decreases v.len(),
{
    let all = seq![a] + v;
    if v.len() == 1 {
        reveal_with_fuel(joined, 2);
        assert(all.drop_last() =~= seq![a]);
        assert(joined(all, between) =~= a + between + joined(v, between));
    } else {
        lemma_joined_front(a, v.drop_last(), between);
        assert(all.drop_last() =~= seq![a] + v.drop_last());
        assert(joined(all, between) =~= a + between + joined(v, between));
    }
}

/// A character of the first plane is its own unit; any other is two halves, which count by 1024 from the
/// first beyond that plane. Texts one after another are written one after the other.
pub proof fn law_units(c: char, a: Seq<char>, b: Seq<char>)
    ensures
        (c as u32) < 0x1_0000 ==> units(c) == seq![c as u32 as u16],
        c as u32 >= 0x1_0000 ==> {
            let u = units(c);
            &&& u.len() == 2
            &&& 0xd800 <= u[0] < 0xdc00
            &&& 0xdc00 <= u[1] < 0xe000
            &&& 0x1_0000 + 1024 * (u[0] - 0xd800) + (u[1] - 0xdc00) == c as u32
        },
        utf16(a + b) == utf16(a) + utf16(b),
    decreases b.len(),
{
    if b.len() == 0 {
        assert(a + b =~= a);
        assert(utf16(a) + utf16(b) =~= utf16(a));
    } else {
        law_units(c, a, b.drop_last());
        assert((a + b).drop_last() =~= a + b.drop_last());
        assert(utf16(a + b) =~= utf16(a) + utf16(b));
    }
}

/// A number in decimal reads as that number, is written with digits alone, and starts with a zero only
/// where it is zero.
pub proof fn law_decimal(n: nat)
    ensures
        number(decimal(n), 10) == Some(n),
        forall|i: int| 0 <= i < decimal(n).len() ==> 48 <= (#[trigger] decimal(n)[i]) as u32 <= 57,
        n > 0 ==> decimal(n)[0] != '0',
        n == 0 ==> decimal(n) == seq!['0'],
{
    lemma_decimal_number(n);
    lemma_decimal_chars(n);
    lemma_no_zero(n);
}

proof fn lemma_no_zero(n: nat)
    ensures
        decimal(n).len() > 0,
        n > 0 ==> decimal(n)[0] != '0',
    decreases n,
{
    if n >= 10 {
        lemma_no_zero(n / 10);
        assert(decimal(n)[0] == decimal(n / 10)[0]);
    }
}

/// What a character is worth as a digit: the ten digits what they say, and in hex the letters from ten to
/// fifteen, in either case; nothing else is one.
pub proof fn law_digits(c: char, d: nat)
    ensures
        digit_value(c, 10) == Some(d) <==> d < 10 && c as u32 == 48 + d,
        digit_value(c, 16) == Some(d) <==> (d < 10 && c as u32 == 48 + d) || (10 <= d < 16 && (c as u32 == 65
            + (d - 10) || c as u32 == 97 + (d - 10))),
{
}

/// A digit more makes a number ten times as large, or sixteen times, and adds itself; a plus sign before it
/// changes nothing, and a minus sign its sign.
pub proof fn law_numbers(s: Seq<char>, c: char, radix: nat, max: nat)
    requires
        radix == 10 || radix == 16,
    ensures
        number(s, radix) is Some && digit_value(c, radix) is Some ==> number(s.push(c), radix) == Some(
            number(s, radix)->0 * radix + digit_value(c, radix)->0,
        ),
        digit_value(c, radix) is None ==> number(s.push(c), radix) is None,
        number(seq![c], radix) == digit_value(c, radix),
        number(s, radix) is Some && number(s, radix)->0 <= max ==> unsigned(s, radix, max) == number(s, radix)
            && unsigned(seq!['+'] + s, radix, max) == number(s, radix),
        number(s, radix) is Some && number(s, radix)->0 > max ==> unsigned(s, radix, max) is None,
        number(s, 10) is Some && number(s, 10)->0 <= 0x7fff_ffff ==> integer(s) == Some(
            number(s, 10)->0 as int,
        ) && integer(seq!['-'] + s) == Some(-(number(s, 10)->0 as int)),
    decreases s.len(),
{
    assert(s.push(c).drop_last() =~= s);
    assert((seq!['+'] + s).skip(1) =~= s);
    assert((seq!['-'] + s).skip(1) =~= s);
    if number(s, radix) is Some {
        lemma_first_digit(s, radix);
    }
    if number(s, 10) is Some {
        lemma_first_digit(s, 10);
    }
    if s.len() == 0 {
        assert(s.push(c) =~= seq![c]);
    }
}

proof fn lemma_first_digit(s: Seq<char>, radix: nat)
    requires
        s.len() > 0,
        number(s, radix) is Some,
        radix == 10 || radix == 16,
    ensures
        s[0] != '+',
        s[0] != '-',
    decreases s.len(),
{
    if s.len() > 1 {
        lemma_first_digit(s.drop_last(), radix);
    }
}

/// Texts are joined with the separator between each two, and none around them.
pub proof fn law_joined(v: Seq<Seq<char>>, between: Seq<char>, x: Seq<char>)
    ensures
        joined(seq![x], between) == x,
        v.len() > 0 ==> joined(v.push(x), between) == joined(v, between) + between + x,
        joined(seq![], between).len() == 0,
{
    assert(v.push(x).drop_last() =~= v);
}

/// White space is what separates words, and no sign of ASCII that is seen.
pub proof fn law_white(c: char)
    ensures
        33 <= c as u32 <= 126 ==> !white(c),
        c == ' ' || c == '\t' || c == '\n' || c == '\r' || c == '\u{a0}' || c == '\u{3000}' ==> white(c),
        0x2000 <= c as u32 <= 0x200a ==> white(c),
        c as u32 > 0x3000 ==> !white(c),
        white(c) ==> c as u32 != 0xfeff && c as u32 != 0x200b,
{
}

/// The first of a kind of character is behind whatever has none of them.
pub proof fn lemma_first_is(a: Seq<char>, b: Seq<char>, c: char)
    requires
        forall|i: int| 0 <= i < a.len() ==> #[trigger] a[i] != c,
        b.len() == 0 || b[0] == c,
    ensures
        first_of(a + b, c) == a.len(),
    decreases a.len(),
{
    if a.len() > 0 {
        let t = a.skip(1);
        assert(a[0] != c);
        assert forall|i: int| 0 <= i < t.len() implies #[trigger] t[i] != c by {
            assert(t[i] == a[i + 1]);
        }
        lemma_first_is(t, b, c);
        assert((a + b).skip(1) =~= t + b);
    } else {
        assert(a + b =~= b);
    }
}

/// A text without the separator is one part; with one separator in it, it is what is before and what is
/// behind.
pub proof fn law_two_parts(a: Seq<char>, b: Seq<char>, c: char)
    requires
        forall|i: int| 0 <= i < a.len() ==> #[trigger] a[i] != c,
        forall|i: int| 0 <= i < b.len() ==> #[trigger] b[i] != c,
    ensures
        parts(a, c) == seq![a],
        parts(a + seq![c] + b, c) == seq![a, b],
{
    lemma_first_is(a, seq![], c);
    assert(a + seq![] =~= a);
    lemma_first_is(b, seq![], c);
    assert(b + seq![] =~= b);
    lemma_first_is(a, seq![c] + b, c);
    let s = a + seq![c] + b;
    assert(s =~= a + (seq![c] + b));
    assert(s.take(a.len() as int) =~= a);
    assert(s.skip(a.len() as int + 1) =~= b);
    assert(parts(a, c) =~= seq![a]);
    assert(parts(b, c) =~= seq![b]);
    assert(parts(s, c) =~= seq![a, b]);
}

/// Only a number below zero has a sign, and behind it stands what it is without one.
pub proof fn law_signed(n: int)
    ensures
        n >= 0 ==> signed_decimal(n) == decimal(n as nat),
        n < 0 ==> signed_decimal(n) == seq!['-'] + decimal((-n) as nat),
{
}

} // verus!
