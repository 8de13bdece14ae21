//! Explorer's thumbnail cache, read from its files without the shell.
//!
//! - The key of a file is a 64-bit hash, seeded, fed in turn with the volume's identifier, the file's
//!   reference, its extension (UTF-16) and the time it was written: a DOS date and time, followed,
//!   when not exact, by what it was rounded by.
//! - The index is a hash table: entries of 72 bytes at the end of the file, entry `key % n` first and
//!   linear probing on, an empty slot ending the search. Each holds the key and one offset per database.
//! - A database has at that offset an entry with a header of 56 bytes, an identifier, padding, and the
//!   picture as JPEG, PNG or BMP.
//! - Index and database each carry their version right behind their mark.
//!
//! The formats are undocumented; this is what Windows 11 writes, version 0x20. Anything unexpected is a miss:
//! another version, a file not on NTFS, a cloud placeholder, no entry. A hit is checked against the entry's
//! own key before it is trusted.

use crate::bytes::{
    bytes16, bytes32, bytes64, bytes_of_units, law_u16_reads_back, law_u32_reads_back,
    law_u64_reads_back, le16, le32, le64, put_all, put_u16, put_u32, put_u64, u32_at,
    u64_at, unit_bytes,
};
use crate::files::{extension, extension_of};
use crate::text::{
    cat3, chars_of, encode_utf16, law_two_parts, parse_hex128, parts, split, texts, unsigned, utf16, utf16_text,
};
use vstd::prelude::*;

verus! {

pub const SEED: u64 = 0x95E7_29BA_2C37_FD21;

pub const IDX_ENTRY: u64 = 72;

/// Databases worth a look, with their column in an index entry: 256 first (what Explorer makes for large
/// icons, and quick to decode), then the bigger ones.
pub const SIZES: [(&'static str, usize); 3] = [("256", 4), ("768", 5), ("1280", 6)];

/// The version of index and databases that is read.
pub const VERSION: u32 = 0x20;

/// Give up probing after this many occupied slots: the table is kept far from full.
pub const MAX_PROBE: u64 = 256;

/// The largest picture that is read.
pub const MAX_PICTURE: u32 = 0x0200_0000;

pub const FOLDER: &'static str = "Microsoft\\Windows\\Explorer";

pub const INDEX: &'static str = "thumbcache_idx.db";

/// A hash fed with bytes.
pub open spec fn mixed(seed: u64, b: Seq<u8>) -> u64
    decreases b.len(),
{
    if b.len() == 0 {
        seed
    } else {
        let s = mixed(seed, b.drop_last());
        s ^ (s / 4).wrapping_add(s.wrapping_mul(2080)).wrapping_add(b.last() as u64)
    }
}

pub fn mix(seed: u64, b: &[u8]) -> (r: u64)
    ensures
        r == mixed(seed, b@),
{
    let mut s: u64 = seed;
    let n: usize = b.len();
    assert(b@.take(0) =~= seq![]);
    for i in 0..n
        invariant
            n == b@.len(),
            s == mixed(seed, b@.take(i as int)),
    {
        assert(b@.take(i + 1).drop_last() =~= b@.take(i as int));
        assert(b@.take(i + 1).last() == b@[i as int]);
        s = s ^ (s / 4).wrapping_add(s.wrapping_mul(2080)).wrapping_add(b[i] as u64);
    }
    assert(b@.take(n as int) =~= b@);
    s
}

/// The extension as the hash takes it: with its dot, in UTF-16; nothing where there is none.
pub open spec fn ext_bytes(name: Seq<char>) -> Seq<u8> {
    match extension_of(name) {
        Some(e) => unit_bytes(utf16(seq!['.'] + e)),
        None => seq![],
    }
}

fn bytes_of_ext(name: &str) -> (r: Vec<u8>)
    ensures
        r@ == ext_bytes(name@),
{
    let v = chars_of(name);
    match extension(v.as_slice()) {
        None => {
            let none: Vec<u8> = Vec::new();
            assert(none@ =~= seq![]);
            none
        },
        Some(e) => {
            let mut dotted: Vec<char> = Vec::new();
            dotted.push('.');
            for i in 0..e.len()
                invariant
                    dotted@ == seq!['.'] + e@.take(i as int),
            {
                dotted.push(e[i]);
                assert(dotted@ =~= seq!['.'] + e@.take(i + 1));
            }
            assert(e@.take(e@.len() as int) =~= e@);
            let units = encode_utf16(dotted.as_slice());
            bytes_of_units(units.as_slice())
        },
    }
}

/// A number in two halves.
pub open spec fn whole(high: u32, low: u32) -> u64 {
    (high * 0x1_0000_0000 + low) as u64
}

pub fn whole_of(high: u32, low: u32) -> (r: u64)
    ensures
        r == whole(high, low),
{
    high as u64 * 0x1_0000_0000 + low as u64
}

/// The time as the shell's item keeps it: DOS date and time (rounded up to two seconds), then what the
/// rounding added, when it added any.
pub open spec fn stamp(date: u16, time: u16, rounded: u32) -> Seq<u8> {
    bytes32((date * 0x1_0000 + time) as u32) + (if rounded != 0 {
        bytes32(rounded)
    } else {
        seq![]
    })
}

/// What is known of a file: its reference in two halves, the time it was written (the low half), that time
/// as a DOS date and time, and the time those stand for (the low half).
pub struct FileFacts {
    pub index_high: u32,
    pub index_low: u32,
    pub written_low: u32,
    pub date: u16,
    pub time: u16,
    pub back_low: u32,
}

/// The key of a file in the cache.
pub open spec fn key_of(f: FileFacts, guid: Seq<u8>, name: Seq<char>) -> u64 {
    let rounded = f.back_low.wrapping_sub(f.written_low);
    mixed(
        mixed(
            mixed(mixed(SEED, guid), bytes64(whole(f.index_high, f.index_low))),
            ext_bytes(name),
        ),
        stamp(f.date, f.time, rounded),
    )
}

/// The key Explorer gives the file, as long as it has a reference: one not on NTFS has none. `guid` is
/// the volume's identifier. Of what the rounding added only the low half counts.
pub fn cache_id(f: &FileFacts, guid: &[u8], name: &str) -> (r: Option<u64>)
    ensures
        r == (if f.index_high == 0 && f.index_low == 0 {
            None
        } else {
            Some(key_of(*f, guid@, name@))
        }),
{
    let file_ref: u64 = whole_of(f.index_high, f.index_low);
    if file_ref == 0 {
        return None;
    }
    let rounded: u32 = f.back_low.wrapping_sub(f.written_low);
    let mut id: Vec<u8> = Vec::new();
    put_u64(&mut id, file_ref);
    assert(id@ =~= bytes64(file_ref));
    let ext = bytes_of_ext(name);
    let mut at: Vec<u8> = Vec::new();
    put_u32(&mut at, f.date as u32 * 0x1_0000 + f.time as u32);
    if rounded != 0 {
        put_u32(&mut at, rounded);
    }
    assert(at@ =~= stamp(f.date, f.time, rounded));
    let h: u64 = mix(SEED, guid);
    let h: u64 = mix(h, id.as_slice());
    let h: u64 = mix(h, ext.as_slice());
    Some(mix(h, at.as_slice()))
}

/// A text without its dashes.
pub open spec fn undashed(s: Seq<char>) -> Seq<char>
    decreases s.len(),
{
    if s.len() == 0 {
        s
    } else if s.last() == '-' {
        undashed(s.drop_last())
    } else {
        undashed(s.drop_last()).push(s.last())
    }
}

/// At most this many characters from the start.
pub open spec fn at_most(s: Seq<char>, n: int) -> Seq<char> {
    if s.len() <= n {
        s
    } else {
        s.take(n)
    }
}

/// The number a volume's name holds, in hex after its first brace and without its dashes:
/// `\\?\Volume{xxxxxxxx-xxxx-xxxx-xxxx-xxxxxxxxxxxx}\`.
pub open spec fn volume_number(name: Seq<char>) -> Option<nat> {
    let p = parts(name, '{');
    if p.len() < 2 {
        None
    } else {
        unsigned(undashed(at_most(p[1], 36)), 16, u128::MAX as nat)
    }
}

/// A volume's number as it lies in memory: the first three groups low byte first, the rest as written.
pub open spec fn guid_bytes(v: u128) -> Seq<u8> {
    let low = (v % 0x1_0000_0000_0000_0000) as u64;
    bytes32((v / 0x1_0000_0000_0000_0000_0000_0000) as u32) + bytes16(
        (v / 0x1_0000_0000_0000_0000_0000 % 0x1_0000) as u16,
    ) + bytes16((v / 0x1_0000_0000_0000_0000 % 0x1_0000) as u16) + bytes64(low).reverse()
}

fn bytes_of_guid(v: u128) -> (r: Vec<u8>)
    ensures
        r@ == guid_bytes(v),
        r@.len() == 16,
{
    let low: u64 = (v % 0x1_0000_0000_0000_0000) as u64;
    let mut out: Vec<u8> = Vec::new();
    put_u32(&mut out, (v / 0x1_0000_0000_0000_0000_0000_0000) as u32);
    put_u16(&mut out, (v / 0x1_0000_0000_0000_0000_0000 % 0x1_0000) as u16);
    put_u16(&mut out, (v / 0x1_0000_0000_0000_0000 % 0x1_0000) as u16);
    let ghost head = out@;
    let mut rest: Vec<u8> = Vec::new();
    put_u64(&mut rest, low);
    assert(rest@ =~= bytes64(low));
    for i in 0..8usize
        invariant
            rest@ == bytes64(low),
            rest@.len() == 8,
            out@ == head + rest@.reverse().take(i as int),
    {
        out.push(rest[7 - i]);
        assert(out@ =~= head + rest@.reverse().take(i + 1));
    }
    assert(rest@.reverse().take(8) =~= rest@.reverse());
    assert(out@ =~= guid_bytes(v));
    out
}

/// The identifier in a volume's name, given as Windows fills it in: up to the end of the buffer.
pub fn volume_guid(name: &[u16]) -> (r: Option<Vec<u8>>)
    ensures
        match volume_number(utf16_text(name@)) {
            Some(n) => r is Some && r->0@ == guid_bytes(n as u128),
            None => r is None,
        },
{
    let text = String::from_utf16_lossy(name);
    let v = chars_of(text.as_str());
    let p = split(v.as_slice(), '{');
    assert(texts(p@).len() == p@.len());
    if p.len() < 2 {
        return None;
    }
    assert(p@[1]@ == texts(p@)[1]);
    let n: usize = if p[1].len() > 36 {
        36
    } else {
        p[1].len()
    };
    let ghost piece = at_most(p@[1]@, 36);
    assert(piece =~= p@[1]@.take(n as int));
    let mut hex: Vec<char> = Vec::new();
    for i in 0..n
        invariant
            p@.len() >= 2,
            n <= p@[1]@.len(),
            piece == p@[1]@.take(n as int),
            hex@ == undashed(piece.take(i as int)),
    {
        let c: char = p[1][i];
        assert(piece.take(i + 1).drop_last() =~= piece.take(i as int));
        assert(piece.take(i + 1).last() == c);
        if c != '-' {
            hex.push(c);
        }
    }
    assert(piece.take(n as int) =~= piece);
    match parse_hex128(hex.as_slice()) {
        Some(v) => Some(bytes_of_guid(v)),
        None => None,
    }
}

/// A volume that was asked for before: its serial number and its identifier.
pub struct Volume {
    pub serial: u32,
    pub guid: Vec<u8>,
}

/// The volumes asked for so far: finding an identifier goes through the mount manager.
pub struct Volumes {
    pub known: Vec<Volume>,
}

/// The first volume of a serial number.
pub open spec fn first_volume(v: Seq<Volume>, serial: u32, i: int) -> bool {
    &&& 0 <= i < v.len()
    &&& v[i].serial == serial
    &&& forall|j: int| 0 <= j < i ==> (#[trigger] v[j]).serial != serial
}

impl Volumes {
    pub fn new() -> (r: Volumes)
        ensures
            r.known@.len() == 0,
    {
        Volumes { known: Vec::new() }
    }

    /// The identifier of a volume, where it is known.
    pub fn find(&self, serial: u32) -> (r: Option<Vec<u8>>)
        ensures
            r is None ==> forall|j: int|
                0 <= j < self.known@.len() ==> (#[trigger] self.known@[j]).serial != serial,
            r is Some ==> exists|i: int| #[trigger]
                first_volume(self.known@, serial, i) && self.known@[i].guid@ == r->0@,
    {
        for i in 0..self.known.len()
            invariant
                forall|j: int| 0 <= j < i ==> (#[trigger] self.known@[j]).serial != serial,
        {
            if self.known[i].serial == serial {
                let mut g: Vec<u8> = Vec::new();
                put_all(&mut g, self.known[i].guid.as_slice());
                assert(first_volume(self.known@, serial, i as int));
                assert(g@ =~= self.known@[i as int].guid@);
                return Some(g);
            }
        }
        None
    }

    /// A volume's name was found out: its identifier, kept for the next time.
    pub fn learn(&mut self, serial: u32, name: &[u16]) -> (r: Option<Vec<u8>>)
        ensures
            match volume_number(utf16_text(name@)) {
                Some(n) => {
                    &&& r is Some
                    &&& r->0@ == guid_bytes(n as u128)
                    &&& final(self).known@.len() == old(self).known@.len() + 1
                    &&& final(self).known@.drop_last() == old(self).known@
                    &&& final(self).known@.last().serial == serial
                    &&& final(self).known@.last().guid@ == guid_bytes(n as u128)
                },
                None => r is None && *final(self) == *old(self),
            },
    {
        match volume_guid(name) {
            Some(g) => {
                let mut copy: Vec<u8> = Vec::new();
                put_all(&mut copy, g.as_slice());
                assert(copy@ =~= g@);
                self.known.push(Volume { serial, guid: copy });
                assert(self.known@.drop_last() =~= old(self).known@);
                Some(g)
            },
            None => None,
        }
    }
}

/// A volume learnt under a serial number that was not known is found under it from then on.
pub proof fn law_volume_remembered(known: Seq<Volume>, v: Volume)
    requires
        forall|j: int| 0 <= j < known.len() ==> (#[trigger] known[j]).serial != v.serial,
    ensures
        first_volume(known.push(v), v.serial, known.len() as int),
{
}

/// The cache's files: the index, and a database for each of the sizes, where it can be opened.
pub ghost struct Files {
    pub idx: Seq<u8>,
    pub dbs: Seq<Option<Seq<u8>>>,
}

/// So many bytes of a file, where it has them.
pub open spec fn read(f: Option<Seq<u8>>, at: int, len: int) -> Option<Seq<u8>> {
    match f {
        Some(b) if 0 <= at && 0 <= len && at + len <= b.len() => Some(b.subrange(at, at + len)),
        _ => None,
    }
}

/// The mark at the start of an index (after four bytes) and of an entry.
pub open spec fn marked(b: Seq<u8>, at: int, first: u8) -> bool {
    b[at] == first && b[at + 1] == 0x4d && b[at + 2] == 0x4d && b[at + 3] == 0x4d
}

/// How many entries an index has, by its head and its length: none where it is not one, or one of another
/// version.
pub open spec fn entries(head: Seq<u8>, len: int) -> int {
    let n = le32(head, 24) as int;
    if marked(head, 4, 0x49) && le32(head, 8) == VERSION && n * IDX_ENTRY <= len {
        n
    } else {
        0
    }
}

/// The entry of a key, looked for from a slot on, when so many occupied slots were passed: none at an empty
/// slot, and none after too many.
pub open spec fn probed(idx: Seq<u8>, key: u64, n: int, slot: int, probes: int) -> Option<Seq<u8>>
    decreases MAX_PROBE - probes,
{
    match read(Some(idx), idx.len() - n * IDX_ENTRY + slot * IDX_ENTRY, IDX_ENTRY as int) {
        None => None,
        Some(e) => if le64(e, 0) == key {
            Some(e)
        } else if le64(e, 0) == 0 || probes + 1 >= MAX_PROBE || probes + 1 >= n {
            None
        } else {
            probed(idx, key, n, (slot + 1) % n, probes + 1)
        },
    }
}

/// The start of a database of the version that is read.
pub open spec fn known(db: Option<Seq<u8>>) -> bool {
    read(db, 0, 8) is Some && known_start(read(db, 0, 8)->0)
}

pub open spec fn known_start(b: Seq<u8>) -> bool {
    marked(b, 0, 0x43) && le32(b, 4) == VERSION
}

/// The picture at a place of a database, if the entry there is the one for the key.
pub open spec fn entry_picture(db: Option<Seq<u8>>, at: int, key: u64) -> Option<Seq<u8>> {
    match read(db, at, 56) {
        None => None,
        Some(h) => if fits_entry(h, key) {
            read(db, at + 56 + le32(h, 16) + le32(h, 20), le32(h, 24) as int)
        } else {
            None
        },
    }
}

/// The picture stored at a place of a database of the version that is read, if the entry there is the one
/// for the key.
pub open spec fn picture(db: Option<Seq<u8>>, at: int, key: u64) -> Option<Seq<u8>> {
    if known(db) {
        entry_picture(db, at, key)
    } else {
        None
    }
}

/// The header of an entry for the key, with a picture of a size that is read.
pub open spec fn fits_entry(h: Seq<u8>, key: u64) -> bool {
    marked(h, 0, 0x43) && le64(h, 8) == key && 0 < le32(h, 24) <= MAX_PICTURE
}

/// The offset an index entry gives for a size; none where that has no picture.
pub open spec fn offset(e: Seq<u8>, k: int) -> Option<int> {
    let at = le32(e, 16 + SIZES@[k].1 * 4);
    if at == 0 || at == u32::MAX {
        None
    } else {
        Some(at as int)
    }
}

/// The first picture of an index entry, from a size on.
pub open spec fn first_picture(e: Seq<u8>, dbs: Seq<Option<Seq<u8>>>, key: u64, k: int) -> Option<
    Seq<u8>,
>
    decreases 3 - k,
{
    if k >= 3 {
        None
    } else {
        let p = match offset(e, k) {
            Some(at) => picture(dbs[k], at, key),
            None => None,
        };
        if p is Some {
            p
        } else {
            first_picture(e, dbs, key, k + 1)
        }
    }
}

/// The cached picture of a key.
pub open spec fn cached(f: Files, key: u64) -> Option<Seq<u8>> {
    match read(Some(f.idx), 0, 28) {
        None => None,
        Some(h) => {
            let n = entries(h, f.idx.len() as int);
            if n == 0 {
                None
            } else {
                match probed(f.idx, key, n, key as int % n, 0) {
                    Some(e) => first_picture(e, f.dbs, key, 0),
                    None => None,
                }
            }
        },
    }
}

/// A database holds a picture for the key at a place.
pub open spec fn stores(db: Option<Seq<u8>>, at: int, key: u64, picture: Seq<u8>) -> bool {
    known(db) && match read(db, at, 56) {
        None => false,
        Some(h) => fits_entry(h, key) && read(
            db,
            at + 56 + le32(h, 16) + le32(h, 20),
            le32(h, 24) as int,
        ) == Some(picture),
    }
}

/// A hit is checked before it is trusted: the picture comes from a database of the version that is read, and
/// from an entry of it that names the key itself.
pub proof fn law_hit_is_checked(f: Files, key: u64)
    requires
        cached(f, key) is Some,
    ensures
        exists|k: int, at: int| 0 <= k < 3 && #[trigger] stores(f.dbs[k], at, key, cached(f, key)->0),
{
    let n = entries(f.idx.subrange(0, 28), f.idx.len() as int);
    let e = probed(f.idx, key, n, key as int % n, 0)->0;
    lemma_picture_is_checked(e, f.dbs, key, 0);
}

/// Another version is a miss, whatever else the files hold: of the index, or of every database.
pub proof fn law_other_version_misses(f: Files, key: u64)
    requires
        f.idx.len() >= 28,
        le32(f.idx.subrange(0, 28), 8) != VERSION || forall|k: int|
            0 <= k < 3 ==> !known(#[trigger] f.dbs[k]),
    ensures
        cached(f, key) is None,
{
    if cached(f, key) is Some {
        law_hit_is_checked(f, key);
        let (k, at) = choose|k: int, at: int|
            0 <= k < 3 && #[trigger] stores(f.dbs[k], at, key, cached(f, key)->0);
        assert(known(f.dbs[k]));
    }
}

proof fn lemma_picture_is_checked(e: Seq<u8>, dbs: Seq<Option<Seq<u8>>>, key: u64, k: int)
    requires
        0 <= k,
        first_picture(e, dbs, key, k) is Some,
    ensures
        exists|j: int, at: int| 0 <= j < 3 && #[trigger] stores(
            dbs[j],
            at,
            key,
            first_picture(e, dbs, key, k)->0,
        ),
    decreases 3 - k,
{
    let p = match offset(e, k) {
        Some(at) => picture(dbs[k], at, key),
        None => None,
    };
    if p is Some {
        assert(stores(dbs[k], offset(e, k)->0, key, p->0));
    } else {
        lemma_picture_is_checked(e, dbs, key, k + 1);
    }
}

/// Where a search stands.
pub enum At {
    /// The head of the index is to be read.
    Head,
    /// A slot of the table of `n` entries is to be read.
    Slot { n: u64, slot: u64, probes: u64 },
    /// The start of the database of a size is to be read.
    Start { entry: Vec<u8>, k: usize, at: u64 },
    /// The header of the entry for a size is to be read.
    Header { entry: Vec<u8>, k: usize, at: u64 },
    /// The picture is to be read.
    Picture { entry: Vec<u8>, k: usize, at: u64, len: u64 },
    /// The search is over.
    Over,
}

/// A search of the cache, `len` being the length of the index.
pub struct Search {
    pub key: u64,
    pub len: u64,
    pub at: At,
}

/// What a search asks for next.
pub enum Ask {
    /// So many bytes of the index.
    Index { at: u64, len: u64 },
    /// So many bytes of the database of a size.
    Database { k: usize, at: u64, len: u64 },
    /// The picture is found.
    Found(Vec<u8>),
    Nothing,
}

impl Search {
    pub open spec fn wf(self) -> bool {
        match self.at {
            At::Slot { n, slot, probes } => {
                &&& 0 < n <= u32::MAX
                &&& n * IDX_ENTRY <= self.len
                &&& slot < n
                &&& probes < MAX_PROBE && probes < n
            },
            At::Start { entry, k, at } | At::Header { entry, k, at } => entry@.len() == IDX_ENTRY && k
                < 3 && offset(entry@, k as int) == Some(at as int),
            At::Picture { entry, k, at, len } => entry@.len() == IDX_ENTRY && k < 3 && offset(
                entry@,
                k as int,
            ) is Some && len <= MAX_PICTURE && at <= 4 * u32::MAX,
            _ => true,
        }
    }

    /// What it asks for, where it is not over.
    pub open spec fn asks(self, a: Ask) -> bool {
        match self.at {
            At::Head => a == (Ask::Index { at: 0, len: 28 }),
            At::Slot { n, slot, .. } => a is Index && a->Index_at == self.len - n * IDX_ENTRY + slot
                * IDX_ENTRY && a->Index_len == IDX_ENTRY,
            At::Start { k, .. } => a == (Ask::Database { k, at: 0, len: 8 }),
            At::Header { k, at, .. } => a == (Ask::Database { k, at, len: 56 }),
            At::Picture { k, at, len, .. } => a == (Ask::Database { k, at, len }),
            At::Over => a is Found || a is Nothing,
        }
    }

    /// What reading that gives.
    pub open spec fn reads(self, f: Files) -> Option<Seq<u8>> {
        match self.at {
            At::Head => read(Some(f.idx), 0, 28),
            At::Slot { n, slot, .. } => read(
                Some(f.idx),
                self.len - n * IDX_ENTRY + slot * IDX_ENTRY,
                IDX_ENTRY as int,
            ),
            At::Start { k, .. } => read(f.dbs[k as int], 0, 8),
            At::Header { k, at, .. } => read(f.dbs[k as int], at as int, 56),
            At::Picture { k, at, len, .. } => read(f.dbs[k as int], at as int, len as int),
            At::Over => None,
        }
    }

    /// What it will have found in the end.
    pub open spec fn finds(self, f: Files) -> Option<Seq<u8>> {
        match self.at {
            At::Head => cached(f, self.key),
            At::Slot { n, slot, probes } => match probed(
                f.idx,
                self.key,
                n as int,
                slot as int,
                probes as int,
            ) {
                Some(e) => first_picture(e, f.dbs, self.key, 0),
                None => None,
            },
            At::Start { entry, k, .. } => first_picture(entry@, f.dbs, self.key, k as int),
            At::Header { entry, k, at } => {
                let p = entry_picture(f.dbs[k as int], at as int, self.key);
                if p is Some {
                    p
                } else {
                    first_picture(entry@, f.dbs, self.key, k + 1)
                }
            },
            At::Picture { entry, k, at, len } => {
                let p = read(f.dbs[k as int], at as int, len as int);
                if p is Some {
                    p
                } else {
                    first_picture(entry@, f.dbs, self.key, k + 1)
                }
            },
            At::Over => None,
        }
    }
}

/// Start looking for the cached picture of a key, the index being so long: the search, and what it asks
/// for first.
pub fn lookup(key: u64, len: u64) -> (r: (Search, Ask))
    ensures
        r.0.wf(),
        r.0.key == key && r.0.len == len,
        r.0.asks(r.1),
        r.1 == (Ask::Index { at: 0, len: 28 }),
        forall|f: Files| #[trigger] r.0.finds(f) == cached(f, key),
{
    (Search { key, len, at: At::Head }, Ask::Index { at: 0, len: 28 })
}

fn is_marked(b: &Vec<u8>, at: usize, first: u8) -> (r: bool)
    requires
        at + 4 <= b@.len(),
    ensures
        r == marked(b@, at as int, first),
{
    assert(b.len() <= usize::MAX);
    b[at] == first && b[at + 1] == 0x4d && b[at + 2] == 0x4d && b[at + 3] == 0x4d
}

/// The first size from `k` on that an index entry gives an offset for.
fn next_size(entry: &Vec<u8>, k: usize) -> (r: Option<(usize, u64)>)
    requires
        entry@.len() == IDX_ENTRY,
        k <= 3,
    ensures
        r is Some ==> k <= (r->0).0 < 3 && offset(entry@, (r->0).0 as int) == Some((r->0).1 as int),
        r is Some ==> forall|f: Files, key: u64| #[trigger]
            first_picture(entry@, f.dbs, key, k as int) == first_picture(
                entry@,
                f.dbs,
                key,
                (r->0).0 as int,
            ),
        r is None ==> forall|f: Files, key: u64| #[trigger]
            first_picture(entry@, f.dbs, key, k as int) is None,
{
    let mut i: usize = k;
    while i < 3
        invariant
            entry@.len() == IDX_ENTRY,
            k <= i <= 3,
            forall|f: Files, key: u64| #[trigger]
                first_picture(entry@, f.dbs, key, k as int) == first_picture(
                    entry@,
                    f.dbs,
                    key,
                    i as int,
                ),
        decreases 3 - i,
    {
        let col: usize = SIZES[i].1;
        assert(SIZES@[i as int].1 <= 6);
        let at: u32 = u32_at(entry.as_slice(), 16 + col * 4);
        if at != 0 && at != u32::MAX {
            return Some((i, at as u64));
        }
        assert(offset(entry@, i as int) is None);
        i = i + 1;
    }
    None
}

/// What was read for an ask: as many bytes as asked for, or nothing.
pub open spec fn came_of(came: Option<Vec<u8>>) -> Option<Seq<u8>> {
    match came {
        Some(b) => Some(b@),
        None => None,
    }
}

/// What an ask says of the outcome: found, not found, or what the search finds from here on.
pub open spec fn settled(a: Ask, s: Search, f: Files) -> Option<Seq<u8>> {
    match a {
        Ask::Found(b) => Some(b@),
        Ask::Nothing => None,
        _ => s.finds(f),
    }
}

impl Search {
    /// How many reads are left at most.
    pub open spec fn left(self) -> nat {
        match self.at {
            At::Head => (MAX_PROBE + 10) as nat,
            At::Slot { probes, .. } => (MAX_PROBE + 9 - probes) as nat,
            At::Start { k, .. } => (9 - 3 * k) as nat,
            At::Header { k, .. } => (8 - 3 * k) as nat,
            At::Picture { k, .. } => (7 - 3 * k) as nat,
            At::Over => 0,
        }
    }

    /// Go on with the sizes of an index entry.
    fn at_size(key: u64, len: u64, entry: Vec<u8>, k: usize) -> (r: (Search, Ask))
        requires
            entry@.len() == IDX_ENTRY,
            k <= 3,
        ensures
            r.0.wf(),
            r.0.key == key && r.0.len == len,
            r.0.asks(r.1),
            r.0.at is Over || r.0.at is Start,
            r.0.left() <= 9 - 3 * k,
            forall|f: Files| #[trigger]
                settled(r.1, r.0, f) == first_picture(entry@, f.dbs, key, k as int),
    {
        match next_size(&entry, k) {
            Some((i, at)) => (
                Search { key, len, at: At::Start { entry, k: i, at } },
                Ask::Database { k: i, at: 0, len: 8 },
            ),
            None => (Search { key, len, at: At::Over }, Ask::Nothing),
        }
    }

    /// The head of the index came.
    fn after_head(key: u64, len: u64, h: Vec<u8>) -> (r: (Search, Ask))
        requires
            h@.len() == 28,
        ensures
            r.0.wf(),
            r.0.key == key && r.0.len == len,
            r.0.asks(r.1),
            r.0.left() < MAX_PROBE + 10,
            forall|f: Files|
                f.idx.len() == len && read(Some(f.idx), 0, 28) == Some(h@) ==> #[trigger] settled(
                    r.1,
                    r.0,
                    f,
                ) == cached(f, key),
    {
        let n: u64 = u32_at(h.as_slice(), 24) as u64;
        if !is_marked(&h, 4, 0x49) || u32_at(h.as_slice(), 8) != VERSION || n == 0 || n * IDX_ENTRY > len {
            return (Search { key, len, at: At::Over }, Ask::Nothing);
        }
        let slot: u64 = key % n;
        assert(slot * IDX_ENTRY <= n * IDX_ENTRY) by (nonlinear_arith)
            requires
                slot < n,
        ;
        let at: u64 = len - n * IDX_ENTRY + slot * IDX_ENTRY;
        (
            Search { key, len, at: At::Slot { n, slot, probes: 0 } },
            Ask::Index { at, len: IDX_ENTRY },
        )
    }

    /// A slot of the table came.
    fn after_slot(key: u64, len: u64, n: u64, slot: u64, probes: u64, e: Vec<u8>) -> (r: (Search, Ask))
        requires
            e@.len() == IDX_ENTRY,
            (Search { key, len, at: At::Slot { n, slot, probes } }).wf(),
        ensures
            r.0.wf(),
            r.0.key == key && r.0.len == len,
            r.0.asks(r.1),
            r.0.left() < MAX_PROBE + 9 - probes,
            forall|f: Files|
                f.idx.len() == len && read(
                    Some(f.idx),
                    len - n * IDX_ENTRY + slot * IDX_ENTRY,
                    IDX_ENTRY as int,
                ) == Some(e@) ==> #[trigger] settled(r.1, r.0, f) == (Search {
                    key,
                    len,
                    at: At::Slot { n, slot, probes },
                }).finds(f),
    {
        let k: u64 = u64_at(e.as_slice(), 0);
        if k == key {
            return Search::at_size(key, len, e, 0);
        }
        if k == 0 || probes + 1 >= MAX_PROBE || probes + 1 >= n {
            return (Search { key, len, at: At::Over }, Ask::Nothing);
        }
        let next: u64 = (slot + 1) % n;
        assert(next * IDX_ENTRY <= n * IDX_ENTRY) by (nonlinear_arith)
            requires
                next < n,
        ;
        let at: u64 = len - n * IDX_ENTRY + next * IDX_ENTRY;
        (
            Search { key, len, at: At::Slot { n, slot: next, probes: probes + 1 } },
            Ask::Index { at, len: IDX_ENTRY },
        )
    }

    /// The start of a database came.
    fn after_start(
        key: u64,
        len: u64,
        entry: Vec<u8>,
        k: usize,
        at: u64,
        b: Vec<u8>,
    ) -> (r: (Search, Ask))
        requires
            b@.len() == 8,
            entry@.len() == IDX_ENTRY,
            k < 3,
            offset(entry@, k as int) == Some(at as int),
        ensures
            r.0.wf(),
            r.0.key == key && r.0.len == len,
            r.0.asks(r.1),
            r.0.left() < 9 - 3 * k,
            forall|f: Files|
                read(f.dbs[k as int], 0, 8) == Some(b@) ==> #[trigger] settled(r.1, r.0, f)
                    == first_picture(entry@, f.dbs, key, k as int),
    {
        if is_marked(&b, 0, 0x43) && u32_at(b.as_slice(), 4) == VERSION {
            (
                Search { key, len, at: At::Header { entry, k, at } },
                Ask::Database { k, at, len: 56 },
            )
        } else {
            Search::at_size(key, len, entry, k + 1)
        }
    }

    /// The header of an entry came.
    fn after_header(
        key: u64,
        len: u64,
        entry: Vec<u8>,
        k: usize,
        at: u64,
        h: Vec<u8>,
    ) -> (r: (Search, Ask))
        requires
            h@.len() == 56,
            entry@.len() == IDX_ENTRY,
            k < 3,
            offset(entry@, k as int) == Some(at as int),
        ensures
            r.0.wf(),
            r.0.key == key && r.0.len == len,
            r.0.asks(r.1),
            r.0.left() < 8 - 3 * k,
            forall|f: Files|
                read(f.dbs[k as int], at as int, 56) == Some(h@) ==> #[trigger] settled(r.1, r.0, f)
                    == (Search { key, len, at: At::Header { entry, k, at } }).finds(f),
    {
        let size: u32 = u32_at(h.as_slice(), 24);
        if !is_marked(&h, 0, 0x43) || u64_at(h.as_slice(), 8) != key || size == 0 || size
            > MAX_PICTURE {
            return Search::at_size(key, len, entry, k + 1);
        }
        let name: u64 = u32_at(h.as_slice(), 16) as u64;
        let pad: u64 = u32_at(h.as_slice(), 20) as u64;
        let from: u64 = at + 56 + name + pad;
        (
            Search { key, len, at: At::Picture { entry, k, at: from, len: size as u64 } },
            Ask::Database { k, at: from, len: size as u64 },
        )
    }

    /// What was asked for came, or could not be read: what to ask for next. However the bytes of the
    /// files are, as long as they are what came, the search finds what is cached in them.
    pub fn next(self, came: Option<Vec<u8>>) -> (r: (Search, Ask))
        requires
            self.wf(),
            self.at !is Over,
            came is Some ==> forall|a: Ask| #[trigger] self.asks(a) ==> came->0@.len() == (match a {
                Ask::Index { len, .. } => len as nat,
                Ask::Database { len, .. } => len as nat,
                _ => 0,
            }),
        ensures
            r.0.wf(),
            r.0.key == self.key && r.0.len == self.len,
            r.0.asks(r.1),
            r.0.left() < self.left(),
            forall|f: Files|
                f.idx.len() == self.len && self.reads(f) == came_of(came) ==> #[trigger] settled(
                    r.1,
                    r.0,
                    f,
                ) == self.finds(f),
    {
        let Search { key, len, at } = self;
        match at {
            At::Head => {
                assert(self.asks(Ask::Index { at: 0, len: 28 }));
                match came {
                    Some(h) => Search::after_head(key, len, h),
                    None => (Search { key, len, at: At::Over }, Ask::Nothing),
                }
            },
            At::Slot { n, slot, probes } => {
                assert(slot * IDX_ENTRY <= n * IDX_ENTRY) by (nonlinear_arith)
                    requires
                        slot < n,
                ;
                let ghost from = (len - n * IDX_ENTRY + slot * IDX_ENTRY) as u64;
                assert(self.asks(Ask::Index { at: from, len: IDX_ENTRY }));
                match came {
                    Some(e) => Search::after_slot(key, len, n, slot, probes, e),
                    None => (Search { key, len, at: At::Over }, Ask::Nothing),
                }
            },
            At::Start { entry, k, at } => {
                assert(self.asks(Ask::Database { k, at: 0, len: 8 }));
                match came {
                    Some(b) => Search::after_start(key, len, entry, k, at, b),
                    None => Search::at_size(key, len, entry, k + 1),
                }
            },
            At::Header { entry, k, at } => {
                assert(self.asks(Ask::Database { k, at, len: 56 }));
                match came {
                    Some(h) => Search::after_header(key, len, entry, k, at, h),
                    None => Search::at_size(key, len, entry, k + 1),
                }
            },
            At::Picture { entry, k, at, len: size } => {
                match came {
                    Some(b) => (Search { key, len, at: At::Over }, Ask::Found(b)),
                    None => Search::at_size(key, len, entry, k + 1),
                }
            },
            At::Over => (Search { key, len, at: At::Over }, Ask::Nothing),
        }
    }
}

/// What a database is called.
pub fn database(k: usize) -> (r: String)
    requires
        k < 3,
    ensures
        r@ == "thumbcache_"@ + SIZES@[k as int].0@ + ".db"@,
{
    cat3("thumbcache_", SIZES[k].0, ".db")
}

/// What the hash does with a byte: it takes in, over its own bits, a quarter of itself, 2080 times itself
/// and the byte, all but what overflows. What is fed in two pieces is fed as one.
pub proof fn law_mixing(s: u64, x: u8, a: Seq<u8>, b: Seq<u8>)
    ensures
        mixed(s, seq![x]) ^ s == (s as int / 4 + s as int * 2080 + x as int) % 0x1_0000_0000_0000_0000,
        mixed(s, a + b) == mixed(mixed(s, a), b),
    decreases b.len(),
{
    reveal_with_fuel(mixed, 2);
    assert(seq![x].drop_last() =~= seq![]);
    let t = (s / 4).wrapping_add(s.wrapping_mul(2080)).wrapping_add(x as u64);
    assert((s ^ t) ^ s == t) by (bit_vector);
    lemma_wrapped(s as int / 4, s as int * 2080, x as int);
    if b.len() == 0 {
        assert(a + b =~= a);
    } else {
        law_mixing(s, x, a, b.drop_last());
        assert((a + b).drop_last() =~= a + b.drop_last());
    }
}

proof fn lemma_wrapped(q: int, p: int, x: int)
    requires
        0 <= q < 0x1_0000_0000_0000_0000,
        0 <= p,
        0 <= x < 0x100,
    ensures
        ({
            let m = p % 0x1_0000_0000_0000_0000;
            let t = (q + m) % 0x1_0000_0000_0000_0000;
            (t + x) % 0x1_0000_0000_0000_0000 == (q + p + x) % 0x1_0000_0000_0000_0000
        }),
{
    let n: int = 0x1_0000_0000_0000_0000;
    vstd::arithmetic::div_mod::lemma_add_mod_noop_right(q, p, n);
    vstd::arithmetic::div_mod::lemma_add_mod_noop_right(x, q + p, n);
    vstd::arithmetic::div_mod::lemma_add_mod_noop_right(x, q + p % n, n);
}

/// The key of a file is the hash, from its seed, of the volume's identifier, the file's reference, its
/// extension and the time, in this order.
pub proof fn law_key(f: FileFacts, guid: Seq<u8>, name: Seq<char>)
    ensures
        key_of(f, guid, name) == mixed(
            0x95E7_29BA_2C37_FD21,
            guid + bytes64((f.index_high * 0x1_0000_0000 + f.index_low) as u64) + ext_bytes(name)
                + stamp(f.date, f.time, f.back_low.wrapping_sub(f.written_low)),
        ),
{
    let id = bytes64(whole(f.index_high, f.index_low));
    let e = ext_bytes(name);
    let t = stamp(f.date, f.time, f.back_low.wrapping_sub(f.written_low));
    law_mixing(SEED, 0, guid, id);
    law_mixing(SEED, 0, guid + id, e);
    law_mixing(SEED, 0, guid + id + e, t);
}

/// The time goes into the key as the DOS date above the DOS time, low byte first, and after it what the
/// rounding added, where it added any.
pub proof fn law_stamp(date: u16, time: u16, rounded: u32)
    ensures
        ({
            let s = stamp(date, time, rounded);
            &&& s.len() == (if rounded == 0 {
                4nat
            } else {
                8nat
            })
            &&& s[0] + s[1] * 0x100 == time
            &&& s[2] + s[3] * 0x100 == date
            &&& rounded != 0 ==> s[4] + s[5] * 0x100 + s[6] * 0x1_0000 + s[7] * 0x100_0000 == rounded
        }),
{
    let n = (date * 0x1_0000 + time) as u32;
    assert(n as int == date * 0x1_0000 + time);
    assert(n % 0x100 == time % 0x100);
    assert(n / 0x100 % 0x100 == time / 0x100);
    assert(n / 0x1_0000 == date);
}

/// A volume's identifier has its number's first three groups low byte first and the rest as written: the
/// highest byte of it first.
pub proof fn law_guid(v: u128)
    ensures
        ({
            let g = guid_bytes(v);
            let written = Seq::new(8, |i: int| g[15 - i]);
            &&& g.len() == 16
            &&& le32(g, 0) == v / 0x1_0000_0000_0000_0000_0000_0000
            &&& le16(g, 4) == v / 0x1_0000_0000_0000_0000_0000 % 0x1_0000
            &&& le16(g, 6) == v / 0x1_0000_0000_0000_0000 % 0x1_0000
            &&& le64(written, 0) == v % 0x1_0000_0000_0000_0000
        }),
{
    let g = guid_bytes(v);
    let low = (v % 0x1_0000_0000_0000_0000) as u64;
    let a = (v / 0x1_0000_0000_0000_0000_0000_0000) as u32;
    let b = (v / 0x1_0000_0000_0000_0000_0000 % 0x1_0000) as u16;
    let c = (v / 0x1_0000_0000_0000_0000 % 0x1_0000) as u16;
    let r = bytes64(low).reverse();
    assert(g =~= seq![] + bytes32(a) + (bytes16(b) + bytes16(c) + r));
    law_u32_reads_back(seq![], a, bytes16(b) + bytes16(c) + r);
    assert(g =~= bytes32(a) + bytes16(b) + (bytes16(c) + r));
    law_u16_reads_back(bytes32(a), b, bytes16(c) + r);
    assert(g =~= bytes32(a) + bytes16(b) + bytes16(c) + r);
    law_u16_reads_back(bytes32(a) + bytes16(b), c, r);
    let written = Seq::new(8, |i: int| g[15 - i]);
    assert(written =~= seq![] + bytes64(low) + seq![]);
    law_u64_reads_back(seq![], low, seq![]);
}

/// What an index gives is an entry of its table, and one for the key.
pub proof fn law_entry_is_the_keys(idx: Seq<u8>, key: u64, n: int, slot: int, probes: int)
    requires
        0 <= slot < n,
        0 <= probes < MAX_PROBE,
        n * 72 <= idx.len(),
        probed(idx, key, n, slot, probes) is Some,
    ensures
        ({
            let e = probed(idx, key, n, slot, probes)->0;
            &&& e.len() == 72
            &&& le64(e, 0) == key
            &&& exists|k: int| 0 <= k < n && e == #[trigger] row(idx, n, k)
        }),
    decreases MAX_PROBE - probes,
{
    let e = row(idx, n, slot);
    assert(slot * 72 + 72 <= n * 72) by (nonlinear_arith)
        requires
            0 <= slot < n,
    ;
    if le64(e, 0) != key {
        law_entry_is_the_keys(idx, key, n, (slot + 1) % n, probes + 1);
    }
}

/// An entry of an index: the table is at its end.
pub open spec fn row(idx: Seq<u8>, n: int, k: int) -> Seq<u8> {
    idx.subrange(idx.len() - n * 72 + k * 72, idx.len() - n * 72 + k * 72 + 72)
}

/// An entry that stands behind so many others, none of them empty, is found from where those start: the
/// search goes on slot by slot, and past the end of the table from its start.
pub proof fn law_entry_is_found(idx: Seq<u8>, key: u64, n: int, slot: int, behind: int, probes: int)
    requires
        0 <= slot < n,
        0 <= probes,
        0 <= behind,
        probes + behind < 256,
        probes + behind < n,
        n * 72 <= idx.len(),
        forall|j: int|
            0 <= j < behind ==> le64(#[trigger] row(idx, n, (slot + j) % n), 0) != 0 && le64(
                row(idx, n, (slot + j) % n),
                0,
            ) != key,
        le64(row(idx, n, (slot + behind) % n), 0) == key,
    ensures
        probed(idx, key, n, slot, probes) == Some(row(idx, n, (slot + behind) % n)),
    decreases behind,
{
    vstd::arithmetic::div_mod::lemma_small_mod(slot as nat, n as nat);
    assert(slot * 72 + 72 <= n * 72) by (nonlinear_arith)
        requires
            0 <= slot < n,
    ;
    assert((slot + 0) % n == slot);
    if behind > 0 {
        let e = row(idx, n, (slot + 0) % n);
        assert(le64(e, 0) != 0 && le64(e, 0) != key);
        let next = (slot + 1) % n;
        assert forall|j: int| 0 <= j < behind - 1 implies le64(
            #[trigger] row(idx, n, (next + j) % n),
            0,
        ) != 0 && le64(row(idx, n, (next + j) % n), 0) != key by {
            vstd::arithmetic::div_mod::lemma_add_mod_noop_right(j, slot + 1, n);
            assert((next + j) % n == (slot + (j + 1)) % n);
            assert(le64(row(idx, n, (slot + (j + 1)) % n), 0) != 0);
        }
        vstd::arithmetic::div_mod::lemma_add_mod_noop_right(behind - 1, slot + 1, n);
        assert((next + (behind - 1)) % n == (slot + behind) % n);
        law_entry_is_found(idx, key, n, next, behind - 1, probes + 1);
    }
}

/// An index is one by its mark and its version, and holds the number of entries it says, where it is long
/// enough for them.
pub proof fn law_index_head(head: Seq<u8>, len: int)
    ensures
        ({
            let n = le32(head, 24) as int;
            let ours = head[4] == 0x49 && head[5] == 0x4d && head[6] == 0x4d && head[7] == 0x4d && le32(
                head,
                8,
            ) == 32;
            &&& ours && 72 * n <= len ==> entries(head, len) == n
            &&& !ours || 72 * n > len ==> entries(head, len) == 0
        }),
{
}

/// The databases are looked at from the smallest on, each at the offset that its own column of the entry
/// gives.
pub proof fn law_smallest_first(e: Seq<u8>, dbs: Seq<Option<Seq<u8>>>, key: u64)
    ensures
        ({
            let at = |column: int|
                {
                    let o = le32(e, column);
                    if o == 0 || o == 0xffff_ffff {
                        None
                    } else {
                        Some(o as int)
                    }
                };
            let from = |k: int, column: int|
                match at(column) {
                    Some(o) => picture(dbs[k], o, key),
                    None => None,
                };
            let (a, b, c) = (from(0, 32), from(1, 36), from(2, 40));
            let r = first_picture(e, dbs, key, 0);
            &&& a is Some ==> r == a
            &&& a is None && b is Some ==> r == b
            &&& a is None && b is None ==> r == c
        }),
{
    reveal_with_fuel(first_picture, 4);
    assert(SIZES@[0].1 == 4 && SIZES@[1].1 == 5 && SIZES@[2].1 == 6);
}

/// A picture lies behind its entry's header, the identifier and the padding, as long as the header says;
/// there is none where the entry is another key's.
pub proof fn law_picture_of_an_entry(db: Seq<u8>, at: int, key: u64)
    requires
        0 <= at,
        at + 56 <= db.len(),
    ensures
        ({
            let h = db.subrange(at, at + 56);
            let from = at + 56 + le32(h, 16) + le32(h, 20);
            let size = le32(h, 24) as int;
            let p = entry_picture(Some(db), at, key);
            &&& le64(h, 8) != key || size == 0 || size > 0x200_0000 || from + size > db.len() ==> p is None
            &&& p is Some ==> p->0.len() == size && p->0 == db.subrange(from, from + size)
            &&& h[0] == 0x43 && h[1] == 0x4d && h[2] == 0x4d && h[3] == 0x4d && le64(h, 8) == key && 0 < size
                <= 0x200_0000 && from + size <= db.len() ==> p is Some
        }),
{
}

/// Dashes are left out of a text and nothing else is, nor moved.
pub proof fn law_undashed(a: Seq<char>, b: Seq<char>, c: char)
    ensures
        undashed(a + b) == undashed(a) + undashed(b),
        c != '-' ==> undashed(seq![c]) == seq![c],
        undashed(seq!['-']).len() == 0,
    decreases b.len(),
{
    reveal_with_fuel(undashed, 2);
    assert(seq![c].drop_last() =~= seq![]);
    assert(seq!['-'].drop_last() =~= seq![]);
    assert(undashed(seq![c]) =~= (if c == '-' {
        seq![]
    } else {
        seq![c]
    }));
    if b.len() == 0 {
        assert(a + b =~= a);
        assert(undashed(a) + undashed(b) =~= undashed(a));
    } else {
        law_undashed(a, b.drop_last(), c);
        assert((a + b).drop_last() =~= a + b.drop_last());
        assert(undashed(a + b) =~= undashed(a) + undashed(b));
    }
}

/// A file without an extension adds nothing to its key for that; one with an extension adds its dot and
/// its characters, two bytes for each unit.
pub proof fn law_extension_bytes(stem: Seq<char>, ext: Seq<char>)
    requires
        forall|i: int| 0 <= i < ext.len() ==> #[trigger] ext[i] != '.',
        stem.len() > 0,
        ext.len() > 0,
    ensures
        ext_bytes(stem + seq!['.'] + ext) == unit_bytes(utf16(seq!['.'] + ext)),
        ext_bytes(ext).len() == 0,
{
    crate::files::law_extension(stem, ext);
}

/// The cache gives the picture of the entry found from the key's own slot on, in the table that the head
/// of the index tells of; and nothing where that head is cut short, has no entries, or none is found.
pub proof fn law_cached(f: Files, key: u64)
    ensures
        f.idx.len() < 28 ==> cached(f, key) is None,
        f.idx.len() >= 28 ==> {
            let n = entries(f.idx.subrange(0, 28), f.idx.len() as int);
            let e = probed(f.idx, key, n, key as int % n, 0);
            &&& n == 0 ==> cached(f, key) is None
            &&& n > 0 && e is None ==> cached(f, key) is None
            &&& n > 0 && e is Some ==> cached(f, key) == first_picture(e->0, f.dbs, key, 0)
        },
{
}

/// A database is one by its mark and its version.
pub proof fn law_known(b: Seq<u8>)
    ensures
        known(Some(b)) <==> b.len() >= 8 && b[0] == 0x43 && b[1] == 0x4d && b[2] == 0x4d && b[3] == 0x4d
            && le32(b.subrange(0, 8), 4) == 32,
        !known(None),
{
    if b.len() >= 8 {
        let h = b.subrange(0, 8);
        assert(h[0] == b[0] && h[1] == b[1] && h[2] == b[2] && h[3] == b[3]);
    }
}

/// A volume's number is what stands behind the brace of its name, up to 36 characters of it, in hex and
/// without its dashes; a name without a brace has none.
pub proof fn law_volume_number(a: Seq<char>, d: Seq<char>)
    requires
        forall|i: int| 0 <= i < a.len() ==> #[trigger] a[i] != '{',
        forall|i: int| 0 <= i < d.len() ==> #[trigger] d[i] != '{',
    ensures
        volume_number(a) is None,
        d.len() >= 36 ==> volume_number(a + seq!['{'] + d) == unsigned(
            undashed(d.take(36)),
            16,
            u128::MAX as nat,
        ),
        d.len() < 36 ==> volume_number(a + seq!['{'] + d) == unsigned(undashed(d), 16, u128::MAX as nat),
{
    law_two_parts(a, d, '{');
    if d.len() == 36 {
        assert(d.take(36) =~= d);
    }
}

/// The volume found under a serial number has it, and is the first that has.
pub proof fn law_first_volume(v: Seq<Volume>, serial: u32, i: int, j: int)
    requires
        first_volume(v, serial, i),
        0 <= j < i,
    ensures
        i < v.len() && v[i].serial == serial,
        v[j].serial != serial,
{
}

} // verus!
