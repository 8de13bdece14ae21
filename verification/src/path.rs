//! Paths as Windows reads them: what they start with, and how a name is put into a folder or in the
//! place of another.

use crate::text::{cat2, cat3, chars_of, same, string_of};
use vstd::prelude::*;

verus! {

pub open spec fn separator(c: char) -> bool {
    c == '\\' || c == '/'
}

/// A drive stands at `i`: a letter and a colon.
pub open spec fn drive(s: Seq<char>, i: int) -> bool {
    &&& i + 2 <= s.len()
    &&& 65 <= s[i] as u32 <= 90 || 97 <= s[i] as u32 <= 122
    &&& s[i + 1] == ':'
}

/// A path that is taken to the letter: only a backslash separates in it.
pub open spec fn verbatim(s: Seq<char>) -> bool {
    s.len() >= 4 && s[0] == '\\' && s[1] == '\\' && s[2] == '?' && s[3] == '\\'
}

/// Where the piece that starts at `i` ends: at the next separator, or with the path.
pub open spec fn piece_end(s: Seq<char>, i: int, strict: bool) -> int
    decreases s.len() - i,
{
    if i >= s.len() || s[i] == '\\' || (!strict && s[i] == '/') {
        i
    } else {
        piece_end(s, i + 1, strict)
    }
}

/// A server's name from `i` on, and the name of a share after it, where there is one: where they end.
pub open spec fn share_end(s: Seq<char>, i: int, strict: bool) -> (int, Option<int>) {
    let server = piece_end(s, i, strict);
    let share = piece_end(s, server + 1, strict);
    (
        server,
        if server < s.len() && share > server + 1 {
            Some(share)
        } else {
            None
        },
    )
}

/// How much of a path names what it is on: a drive, a share, a device.
pub open spec fn prefix_len(s: Seq<char>) -> int {
    if verbatim(s) {
        if s.len() >= 8 && s[4] == 'U' && s[5] == 'N' && s[6] == 'C' && separator(s[7]) {
            match share_end(s, 8, true) {
                (_, Some(share)) => share,
                (server, None) => server,
            }
        } else if drive(s, 4) && (s.len() == 6 || separator(s[6])) {
            6
        } else {
            piece_end(s, 4, true)
        }
    } else if s.len() >= 2 && separator(s[0]) && separator(s[1]) {
        if s.len() >= 4 && s[2] == '.' && separator(s[3]) {
            piece_end(s, 4, false)
        } else {
            match share_end(s, 2, false) {
                (server, Some(share)) => if server > 2 {
                    share
                } else {
                    0
                },
                _ => 0,
            }
        }
    } else if drive(s, 0) {
        2
    } else {
        0
    }
}

/// A path without the backslashes at its front, and with one where several stand together.
pub open spec fn squeezed(s: Seq<char>) -> Seq<char>
    decreases s.len(),
{
    if s.len() == 0 {
        seq![]
    } else {
        let t = squeezed(s.drop_last());
        if s.last() == '\\' && (t.len() == 0 || t.last() == '\\') {
            t
        } else {
            t.push(s.last())
        }
    }
}

/// A path with a backslash at its end, where there is any of it.
pub open spec fn ended(s: Seq<char>) -> Seq<char> {
    if s.len() == 0 || s.last() == '\\' {
        s
    } else {
        s.push('\\')
    }
}

/// A path that is taken to the letter as a folder: its pieces, with a backslash after each.
pub open spec fn tidied(s: Seq<char>) -> Seq<char> {
    let p = prefix_len(s);
    s.take(p) + seq!['\\'] + ended(
        squeezed(
            if p < s.len() {
                s.skip(p + 1)
            } else {
                seq![]
            },
        ),
    )
}

/// A piece of a name starts at `i` that stands for no name: an empty one, or a folder's own dots.
pub open spec fn odd_piece(name: Seq<char>, i: int) -> bool {
    let n = name.len();
    ||| i == n || name[i] == '\\'
    ||| name[i] == '.' && (i + 1 == n || name[i + 1] == '\\')
    ||| name[i] == '.' && i + 1 < n && name[i + 1] == '.' && (i + 2 == n || name[i + 2] == '\\')
}

/// A relative name, of one piece or several: each names something, and it starts on no drive.
pub open spec fn relative(name: Seq<char>) -> bool {
    &&& !drive(name, 0)
    &&& !odd_piece(name, 0)
    &&& forall|i: int|
        0 <= i < name.len() ==> #[trigger] name[i] != '/' && (name[i] == '\\' ==> !odd_piece(
            name,
            i + 1,
        ))
}

/// A relative name in a folder. A bare drive is followed by what is relative to that drive's own
/// folder. In a folder that is taken to the letter no separator is doubled.
pub open spec fn inside(folder: Seq<char>, name: Seq<char>) -> Seq<char> {
    if verbatim(folder) {
        tidied(folder) + name
    } else if folder.len() == 0 || separator(folder.last()) || (folder.len() == 2 && drive(
        folder,
        0,
    )) {
        folder + name
    } else {
        folder + "\\"@ + name
    }
}

proof fn lemma_piece_end(s: Seq<char>, i: int, strict: bool)
    requires
        0 <= i <= s.len(),
    ensures
        i <= piece_end(s, i, strict) <= s.len(),
    decreases s.len() - i,
{
    if i < s.len() {
        lemma_piece_end(s, i + 1, strict);
    }
}

fn end_of_piece(v: &Vec<char>, i: usize, strict: bool) -> (r: usize)
    requires
        i <= v@.len(),
    ensures
        r == piece_end(v@, i as int, strict),
        i <= r <= v@.len(),
{
    let n: usize = v.len();
    let mut k: usize = i;
    while k < n && v[k] != '\\' && (strict || v[k] != '/')
        invariant
            n == v@.len(),
            i <= k <= n,
            piece_end(v@, k as int, strict) == piece_end(v@, i as int, strict),
        decreases n - k,
    {
        k = k + 1;
    }
    k
}

fn end_of_share(v: &Vec<char>, i: usize, strict: bool) -> (r: (usize, Option<usize>))
    requires
        i <= v@.len(),
    ensures
        r.0 == share_end(v@, i as int, strict).0,
        r.1 is Some <==> share_end(v@, i as int, strict).1 is Some,
        r.1 matches Some(e) ==> share_end(v@, i as int, strict).1 == Some(e as int) && e <= v@.len(),
        i <= r.0 <= v@.len(),
{
    let server: usize = end_of_piece(v, i, strict);
    if server < v.len() {
        let share: usize = end_of_piece(v, server + 1, strict);
        if share > server + 1 {
            return (server, Some(share));
        }
    }
    (server, None)
}

fn is_separator(c: char) -> (r: bool)
    ensures
        r == separator(c),
{
    c == '\\' || c == '/'
}

fn has_drive(v: &Vec<char>, i: usize) -> (r: bool)
    requires
        i <= 4,
    ensures
        r == drive(v@, i as int),
{
    v.len() >= i + 2 && v[i + 1] == ':' && {
        let c: u32 = v[i] as u32;
        (65 <= c && c <= 90) || (97 <= c && c <= 122)
    }
}

fn is_verbatim(v: &Vec<char>) -> (r: bool)
    ensures
        r == verbatim(v@),
{
    v.len() >= 4 && v[0] == '\\' && v[1] == '\\' && v[2] == '?' && v[3] == '\\'
}

fn prefix_of(v: &Vec<char>) -> (r: usize)
    ensures
        r == prefix_len(v@),
        r <= v@.len(),
{
    let n: usize = v.len();
    if is_verbatim(v) {
        if n >= 8 && v[4] == 'U' && v[5] == 'N' && v[6] == 'C' && is_separator(v[7]) {
            match end_of_share(v, 8, true) {
                (_, Some(share)) => share,
                (server, None) => server,
            }
        } else if has_drive(v, 4) && (n == 6 || is_separator(v[6])) {
            6
        } else {
            end_of_piece(v, 4, true)
        }
    } else if n >= 2 && is_separator(v[0]) && is_separator(v[1]) {
        if n >= 4 && v[2] == '.' && is_separator(v[3]) {
            end_of_piece(v, 4, false)
        } else {
            match end_of_share(v, 2, false) {
                (server, Some(share)) => if server > 2 {
                    share
                } else {
                    0
                },
                _ => 0,
            }
        }
    } else if has_drive(v, 0) {
        2
    } else {
        0
    }
}

fn tidy(v: &Vec<char>) -> (r: Vec<char>)
    ensures
        r@ == tidied(v@),
{
    let n: usize = v.len();
    let p: usize = prefix_of(v);
    let mut body: Vec<char> = Vec::new();
    let from: usize = if p < n {
        p + 1
    } else {
        n
    };
    let ghost rest = if p < v@.len() {
        v@.skip(p + 1)
    } else {
        seq![]
    };
    assert(rest =~= v@.skip(from as int));
    assert(rest.take(0) =~= seq![]);
    assert(body@ =~= squeezed(rest.take(0)));
    for i in from..n
        invariant
            n == v@.len(),
            from <= n,
            rest == v@.skip(from as int),
            body@ == squeezed(rest.take(i - from)),
    {
        let ghost so_far = rest.take(i + 1 - from);
        assert(so_far.drop_last() =~= rest.take(i - from));
        assert(so_far.last() == v@[i as int]);
        let k: usize = body.len();
        if v[i] != '\\' || (k > 0 && body[k - 1] != '\\') {
            body.push(v[i]);
        }
    }
    assert(rest.take(n - from) =~= rest);
    let k: usize = body.len();
    if k > 0 && body[k - 1] != '\\' {
        body.push('\\');
    }
    let mut out: Vec<char> = Vec::new();
    for i in 0..p
        invariant
            p <= v@.len(),
            out@ == v@.take(i as int),
    {
        out.push(v[i]);
        assert(v@.take(i as int).push(v@[i as int]) =~= v@.take(i + 1));
    }
    out.push('\\');
    let ghost head = out@;
    assert(head =~= v@.take(p as int) + seq!['\\']);
    out.append(&mut body);
    out
}

fn join_chars(v: &Vec<char>, name: &str) -> (r: String)
    ensures
        r@ == inside(v@, name@),
{
    let n: usize = v.len();
    if is_verbatim(v) {
        let t = tidy(v);
        let s = string_of(t.as_slice());
        return cat2(s.as_str(), name);
    }
    let s = string_of(v.as_slice());
    if n == 0 || is_separator(v[n - 1]) || (n == 2 && has_drive(v, 0)) {
        cat2(s.as_str(), name)
    } else {
        cat3(s.as_str(), "\\", name)
    }
}

/// A path put together from a folder and a relative name in it.
pub fn join(folder: &str, name: &str) -> (r: String)
    requires
        relative(name@),
    ensures
        r@ == inside(folder@, name@),
{
    join_chars(&chars_of(folder), name)
}

/// A separator between the names of a path.
pub open spec fn separates(s: Seq<char>, c: char) -> bool {
    c == '\\' || (c == '/' && !verbatim(s))
}

/// Where the names of a path start: behind its prefix, its root, or the dot it starts with.
pub open spec fn names_from(s: Seq<char>) -> int {
    let p = prefix_len(s);
    if p < s.len() && (separator(s[p]) || (s[p] == '.' && (p + 1 == s.len() || separates(
        s,
        s[p + 1],
    )))) {
        p + 1
    } else {
        p
    }
}

/// Where the name that ends at `n` starts.
pub open spec fn name_from(s: Seq<char>, n: int) -> int
    decreases n,
{
    if n <= 0 || n <= names_from(s) || separates(s, s[n - 1]) {
        n
    } else {
        name_from(s, n - 1)
    }
}

/// How much of a path is left without the name that ends at `n`, and the separator before it.
pub open spec fn without_name(s: Seq<char>, n: int) -> int {
    let b = name_from(s, n);
    if b > names_from(s) {
        b - 1
    } else {
        b
    }
}

/// The path up to `n` ends in nothing, or in a dot that says nothing.
pub open spec fn idle_end(s: Seq<char>, n: int) -> bool {
    let b = name_from(s, n);
    b == n || (b == n - 1 && s[b] == '.' && !verbatim(s))
}

/// How much of a path up to `n` is left without what says nothing at its end.
pub open spec fn last_name_end(s: Seq<char>, n: int) -> int
    decreases n,
    via last_name_end_shrinks
{
    if n <= 0 || n <= names_from(s) || !idle_end(s, n) {
        n
    } else {
        last_name_end(s, without_name(s, n))
    }
}

#[via_fn]
proof fn last_name_end_shrinks(s: Seq<char>, n: int) {
    if n > 0 {
        lemma_name_from(s, n);
    }
}

pub proof fn lemma_prefix_len(s: Seq<char>)
    ensures
        0 <= prefix_len(s) <= s.len(),
        0 <= names_from(s) <= s.len(),
{
    if s.len() >= 8 {
        lemma_piece_end(s, 8, true);
        if piece_end(s, 8, true) < s.len() {
            lemma_piece_end(s, piece_end(s, 8, true) + 1, true);
        }
    }
    if s.len() >= 4 {
        lemma_piece_end(s, 4, true);
        lemma_piece_end(s, 4, false);
    }
    if s.len() >= 2 {
        lemma_piece_end(s, 2, false);
        if piece_end(s, 2, false) < s.len() {
            lemma_piece_end(s, piece_end(s, 2, false) + 1, false);
        }
    }
}

proof fn lemma_name_from(s: Seq<char>, n: int)
    requires
        0 <= n,
    ensures
        0 <= name_from(s, n) <= n,
        n > names_from(s) ==> name_from(s, n) >= names_from(s),
        n > names_from(s) && name_from(s, n) == n ==> without_name(s, n) == n - 1,
    decreases n,
{
    lemma_prefix_len(s);
    if n > 0 && n > names_from(s) && !separates(s, s[n - 1]) {
        lemma_name_from(s, n - 1);
    }
}

/// A path ends in the name of a file or folder.
pub open spec fn ends_in_name(s: Seq<char>) -> bool {
    let n = last_name_end(s, s.len() as int);
    let b = name_from(s, n);
    &&& n > names_from(s)
    &&& !(n - b == 2 && s[b] == '.' && s[b + 1] == '.')
    &&& !(n - b == 1 && s[b] == '.')
}

/// The folder that the name a path ends in is in.
pub open spec fn parent(s: Seq<char>) -> Seq<char> {
    s.take(last_name_end(s, without_name(s, last_name_end(s, s.len() as int))))
}

/// A path with another name in the place of its last; where it has none the name comes behind it.
pub open spec fn renamed(s: Seq<char>, name: Seq<char>) -> Seq<char> {
    if ends_in_name(s) {
        inside(parent(s), name)
    } else {
        inside(s, name)
    }
}

/// A path ends in these two names.
pub open spec fn ends_in(s: Seq<char>, first: Seq<char>, second: Seq<char>) -> bool {
    let n = last_name_end(s, s.len() as int);
    let m = last_name_end(s, without_name(s, n));
    &&& n > names_from(s)
    &&& m > names_from(s)
    &&& s.subrange(name_from(s, n), n) == second
    &&& s.subrange(name_from(s, m), m) == first
}

/// A name stands from `b` to `n` where nothing in it separates, and what is before it does.
pub proof fn lemma_name_is(s: Seq<char>, b: int, n: int)
    requires
        names_from(s) <= b <= n <= s.len(),
        b == names_from(s) || separates(s, s[b - 1]),
        forall|i: int| b <= i < n ==> !separates(s, #[trigger] s[i]),
    ensures
        name_from(s, n) == b,
        without_name(s, n) == (if b > names_from(s) {
            b - 1
        } else {
            b
        }),
    decreases n,
{
    lemma_prefix_len(s);
    if n > b {
        lemma_name_is(s, b, n - 1);
    }
}

/// What has no backslash stays behind a path as it is.
pub proof fn lemma_squeezed_cat(a: Seq<char>, b: Seq<char>)
    requires
        forall|i: int| 0 <= i < b.len() ==> #[trigger] b[i] != '\\',
    ensures
        squeezed(a + b) == squeezed(a) + b,
    decreases b.len(),
{
    if b.len() == 0 {
        assert(a + b =~= a);
        assert(squeezed(a) + b =~= squeezed(a));
    } else {
        let front = b.drop_last();
        assert forall|i: int| 0 <= i < front.len() implies #[trigger] front[i] != '\\' by {
            assert(front[i] == b[i]);
        }
        lemma_squeezed_cat(a, front);
        assert((a + b).drop_last() =~= a + front);
        assert(b[b.len() - 1] != '\\');
        assert(squeezed(a + b) =~= squeezed(a) + b);
    }
}

fn start_of_names(v: &Vec<char>) -> (r: usize)
    ensures
        r == names_from(v@),
        r <= v@.len(),
{
    let n: usize = v.len();
    let p: usize = prefix_of(v);
    let strict: bool = is_verbatim(v);
    if p < n && (is_separator(v[p]) || (v[p] == '.' && (p + 1 == n || v[p + 1] == '\\' || (v[p + 1]
        == '/' && !strict)))) {
        p + 1
    } else {
        p
    }
}

fn start_of_name(v: &Vec<char>, n: usize, from: usize, strict: bool) -> (r: usize)
    requires
        n <= v@.len(),
        from == names_from(v@),
        strict == verbatim(v@),
    ensures
        r == name_from(v@, n as int),
        r <= n,
{
    let mut k: usize = n;
    while k > from && v[k - 1] != '\\' && (strict || v[k - 1] != '/')
        invariant
            k <= n <= v@.len(),
            from == names_from(v@),
            strict == verbatim(v@),
            name_from(v@, k as int) == name_from(v@, n as int),
        decreases k,
    {
        k = k - 1;
    }
    k
}

fn cut_name(v: &Vec<char>, n: usize, from: usize, strict: bool) -> (r: usize)
    requires
        n <= v@.len(),
        from == names_from(v@),
        strict == verbatim(v@),
    ensures
        r == without_name(v@, n as int),
        r <= n,
{
    let b: usize = start_of_name(v, n, from, strict);
    if b > from {
        b - 1
    } else {
        b
    }
}

fn end_of_names(v: &Vec<char>, n: usize, from: usize, strict: bool) -> (r: usize)
    requires
        n <= v@.len(),
        from == names_from(v@),
        strict == verbatim(v@),
    ensures
        r == last_name_end(v@, n as int),
        r <= n,
{
    let mut k: usize = n;
    while k > from
        invariant
            k <= n <= v@.len(),
            from == names_from(v@),
            strict == verbatim(v@),
            last_name_end(v@, k as int) == last_name_end(v@, n as int),
        decreases k,
    {
        proof {
            lemma_name_from(v@, k as int);
        }
        let b: usize = start_of_name(v, k, from, strict);
        if !(b == k || (b == k - 1 && v[b] == '.' && !strict)) {
            return k;
        }
        k = cut_name(v, k, from, strict);
    }
    k
}

/// Whether a path ends in these two names.
pub fn ends_with(path: &str, first: &str, second: &str) -> (r: bool)
    ensures
        r == ends_in(path@, first@, second@),
{
    let v = chars_of(path);
    let from: usize = start_of_names(&v);
    let strict: bool = is_verbatim(&v);
    let n: usize = end_of_names(&v, v.len(), from, strict);
    let k: usize = cut_name(&v, n, from, strict);
    let m: usize = end_of_names(&v, k, from, strict);
    let a: usize = start_of_name(&v, m, from, strict);
    let b: usize = start_of_name(&v, n, from, strict);
    n > from && m > from && same(&v[b..n], chars_of(second).as_slice()) && same(
        &v[a..m],
        chars_of(first).as_slice(),
    )
}

/// A path with another name in the place of its last.
pub fn with_file_name(path: &str, name: &str) -> (r: String)
    requires
        relative(name@),
    ensures
        r@ == renamed(path@, name@),
{
    let v = chars_of(path);
    let from: usize = start_of_names(&v);
    let strict: bool = is_verbatim(&v);
    let n: usize = end_of_names(&v, v.len(), from, strict);
    let b: usize = start_of_name(&v, n, from, strict);
    let up: bool = n - b == 2 && v[b] == '.' && v[b + 1] == '.';
    let here: bool = n - b == 1 && v[b] == '.';
    if n > from && !up && !here {
        let k: usize = cut_name(&v, n, from, strict);
        let m: usize = end_of_names(&v, k, from, strict);
        let mut folder = v;
        folder.truncate(m);
        assert(folder@ =~= parent(path@));
        join_chars(&folder, name)
    } else {
        join_chars(&v, name)
    }
}

/// A name put into a folder comes behind it, with one separator between, and none is doubled.
pub proof fn law_name_behind_folder(folder: Seq<char>, name: Seq<char>)
    requires
        !verbatim(folder),
    ensures
        ({
            let r = inside(folder, name);
            let n = folder.len() as int;
            let open = n == 0 || folder[n - 1] == '\\' || folder[n - 1] == '/' || (n == 2 && drive(
                folder,
                0,
            ));
            &&& r.take(n) == folder
            &&& open ==> r.skip(n) == name
            &&& !open ==> r.skip(n + 1) == name && r[n] == '\\'
            &&& r.len() == n + name.len() + (if open {
                0int
            } else {
                1int
            })
        }),
{
    let n = folder.len() as int;
    let r = inside(folder, name);
    reveal_strlit("\\");
    if n == 0 || separator(folder.last()) || (n == 2 && drive(folder, 0)) {
        assert(r.take(n) =~= folder);
        assert(r.skip(n) =~= name);
    } else {
        assert(r.take(n) =~= folder);
        assert(r.skip(n + 1) =~= name);
    }
}

/// A file of a folder on a drive is renamed in that folder.
pub proof fn law_renamed_in_its_folder(folder: Seq<char>, first: Seq<char>, second: Seq<char>)
    requires
        drive(folder, 0),
        folder.len() > 3,
        folder[2] == '\\',
        !separator(folder.last()),
        folder.last() != '.',
        first.len() > 0,
        forall|i: int| 0 <= i < first.len() ==> !separator(#[trigger] first[i]),
        first != seq!['.'],
        first != seq!['.', '.'],
    ensures
        renamed(inside(folder, first), second) == inside(folder, second),
        ends_in_name(inside(folder, first)),
        parent(inside(folder, first)) == folder,
{
    let s = inside(folder, first);
    let f = folder.len() as int;
    law_name_behind_folder(folder, first);
    let n = s.len() as int;
    assert(s.take(f) == folder && s.skip(f + 1) == first);
    assert forall|i: int| 0 <= i < f implies #[trigger] s[i] == folder[i] by {
        assert(s.take(f)[i] == s[i]);
    }
    assert forall|i: int| f + 1 <= i < n implies !separates(s, #[trigger] s[i]) by {
        assert(s.skip(f + 1)[i - (f + 1)] == s[i]);
        assert(!separator(first[i - (f + 1)]));
    }
    assert(s[0] == folder[0] && s[1] == folder[1] && s[2] == folder[2]);
    assert(drive(s, 0) && !verbatim(s) && !separator(s[0]));
    assert(prefix_len(s) == 2 && names_from(s) == 3);
    assert(s[f] == '\\');
    lemma_name_is(s, f + 1, n);
    if n - f == 2 {
        assert(first =~= seq![first[0]]);
        assert(s.skip(f + 1)[0] == s[f + 1]);
    }
    if n - f == 3 {
        assert(first =~= seq![first[0], first[1]]);
        assert(s.skip(f + 1)[0] == s[f + 1] && s.skip(f + 1)[1] == s[f + 2]);
    }
    assert(!idle_end(s, n));
    assert(last_name_end(s, n) == n);
    assert(without_name(s, n) == f);
    assert(s[f - 1] == folder.last());
    lemma_name_from(s, f);
    lemma_name_from(s, f - 1);
    assert(name_from(s, f) == name_from(s, f - 1));
    assert(!idle_end(s, f));
    assert(last_name_end(s, f) == f);
}

/// A piece of a path ends at the first separator after its start.
pub proof fn law_piece(s: Seq<char>, i: int, strict: bool)
    requires
        0 <= i <= s.len(),
    ensures
        ({
            let e = piece_end(s, i, strict);
            &&& i <= e <= s.len()
            &&& e < s.len() ==> s[e] == '\\' || (s[e] == '/' && !strict)
            &&& forall|k: int| i <= k < e ==> #[trigger] s[k] != '\\' && (s[k] == '/' ==> strict)
        }),
    decreases s.len() - i,
{
    if i < s.len() && !(s[i] == '\\' || (!strict && s[i] == '/')) {
        law_piece(s, i + 1, strict);
    }
}

proof fn lemma_piece_is(s: Seq<char>, i: int, e: int, strict: bool)
    requires
        0 <= i <= e <= s.len(),
        e == s.len() || s[e] == '\\',
        forall|k: int| i <= k < e ==> !separator(#[trigger] s[k]),
    ensures
        piece_end(s, i, strict) == e,
    decreases e - i,
{
    if i < e {
        assert(!separator(s[i]));
        lemma_piece_is(s, i + 1, e, strict);
    }
}

/// What a path is on: a share by its server and its name, a drive by its letter; a path that starts with
/// neither is on nothing.
pub proof fn law_prefix(server: Seq<char>, share: Seq<char>, rest: Seq<char>, s: Seq<char>)
    requires
        server.len() > 0,
        share.len() > 0,
        server[0] != '?',
        server[0] != '.',
        forall|k: int| 0 <= k < server.len() ==> !separator(#[trigger] server[k]),
        forall|k: int| 0 <= k < share.len() ==> !separator(#[trigger] share[k]),
    ensures
        prefix_len(seq!['\\', '\\'] + server + seq!['\\'] + share + seq!['\\'] + rest) == 3 + server.len()
            + share.len(),
        s.len() >= 2 && s[1] == ':' && 65 <= s[0] as u32 <= 90 ==> prefix_len(s) == 2,
        s.len() >= 2 && s[1] == ':' && 97 <= s[0] as u32 <= 122 ==> prefix_len(s) == 2,
        s.len() > 0 && !separator(s[0]) && (s.len() < 2 || s[1] != ':') ==> prefix_len(s) == 0,
        s.len() > 6 && verbatim(s) && drive(s, 4) && s[6] == '\\' ==> prefix_len(s) == 6,
{
    let p = seq!['\\', '\\'] + server + seq!['\\'] + share + seq!['\\'] + rest;
    let a = 2 + server.len() as int;
    let b = a + 1 + share.len() as int;
    assert(p[0] == '\\' && p[1] == '\\' && p[2] == server[0]);
    assert(p[a] == '\\' && p[b] == '\\');
    assert forall|k: int| 2 <= k < a implies !separator(#[trigger] p[k]) by {
        assert(p[k] == server[k - 2]);
    }
    assert forall|k: int| a + 1 <= k < b implies !separator(#[trigger] p[k]) by {
        assert(p[k] == share[k - a - 1]);
    }
    lemma_piece_is(p, 2, a, false);
    lemma_piece_is(p, a + 1, b, false);
}

/// In a path that is taken to the letter no backslash is doubled, and none leads; a path in which none is
/// or does stays as it is.
pub proof fn law_squeezed(s: Seq<char>)
    ensures
        ({
            let q = squeezed(s);
            &&& q.len() <= s.len()
            &&& q.len() > 0 ==> q[0] != '\\'
            &&& forall|i: int| 0 < i < q.len() ==> !(#[trigger] q[i] == '\\' && q[i - 1] == '\\')
            &&& (s.len() == 0 || s[0] != '\\') && (forall|i: int|
                0 < i < s.len() ==> !(#[trigger] s[i] == '\\' && s[i - 1] == '\\')) ==> q == s
        }),
    decreases s.len(),
{
    if s.len() > 0 {
        let t = s.drop_last();
        law_squeezed(t);
        let (q, u) = (squeezed(s), squeezed(t));
        assert forall|i: int| 0 < i < q.len() implies !(#[trigger] q[i] == '\\' && q[i - 1] == '\\') by {
            if i < u.len() {
                assert(q[i] == u[i] && q[i - 1] == u[i - 1]);
            }
        }
        if (s[0] != '\\') && (forall|i: int|
            0 < i < s.len() ==> !(#[trigger] s[i] == '\\' && s[i - 1] == '\\')) {
            assert forall|i: int| 0 < i < t.len() implies !(#[trigger] t[i] == '\\' && t[i - 1] == '\\') by {
                assert(t[i] == s[i] && t[i - 1] == s[i - 1]);
            }
            assert(u == t);
            if s.len() > 1 {
                assert(s[s.len() - 1] == s.last() && s[s.len() - 2] == t.last());
            }
            assert(q =~= s);
        }
    }
}

/// A folder that is taken to the letter keeps what it is on, and ends in one backslash, behind which the
/// name comes.
pub proof fn law_verbatim_folder(folder: Seq<char>, name: Seq<char>)
    requires
        verbatim(folder),
    ensures
        ({
            let r = inside(folder, name);
            let p = prefix_len(folder);
            let n = r.len() - name.len();
            &&& n > p
            &&& r.skip(n) == name
            &&& r.take(p) == folder.take(p)
            &&& r[p] == '\\' && r[n - 1] == '\\'
            &&& n > p + 1 ==> r[n - 2] != '\\'
        }),
{
    lemma_prefix_len(folder);
    let p = prefix_len(folder);
    let rest = if p < folder.len() {
        folder.skip(p + 1)
    } else {
        seq![]
    };
    law_squeezed(rest);
    let q = squeezed(rest);
    let t = tidied(folder);
    let r = inside(folder, name);
    let n = t.len() as int;
    assert(r.skip(n) =~= name);
    assert(r.take(p) =~= folder.take(p));
    assert(r[p] == t[p] && t[p] == '\\');
    if q.len() > 0 {
        assert(t.last() == '\\');
        assert(r[n - 1] == t[n - 1]);
        if q.last() == '\\' {
            if q.len() > 1 {
                assert(q[q.len() - 1] == '\\');
                assert(q[q.len() - 2] != '\\');
            } else {
                assert(q[0] == q.last());
            }
            assert(t[n - 2] == ended(q)[q.len() - 2]);
        } else {
            assert(t[n - 2] == ended(q)[q.len() - 1]);
        }
        assert(r[n - 2] == t[n - 2]);
    } else {
        assert(n == p + 1);
    }
}

} // verus!
