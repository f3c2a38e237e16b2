//! Incremental cache for unchanged-file fast paths.
//!
//! The cache remembers, per project and formatter fingerprint, hashes of
//! file contents already known to be formatted. A manifest records them as
//! sixteen-digit lowercase hex strings under `version`, `fingerprint` and
//! `hashes`; reading it back gives the same numbers.

use vstd::prelude::*;
use crate::text::{chars_of, string_of, append_str};
use crate::config::{TomlValue, toml_document_of, toml_get, toml_lookup};
use crate::config::parse_toml_document;

verus! {

/// The directory, under the cache root, that holds the manifests.
pub const INCREMENTAL_DIR_NAME: &'static str = "incremental";

/// The manifest format this library reads and writes.
pub const MANIFEST_FORMAT_VERSION: i64 = 1;

// ---------------------------------------------------------------------------
// Hex numbers
// ---------------------------------------------------------------------------

/// The lowercase hex digit for a value below 16.
pub open spec fn hex_char(d: int) -> char {
    if d < 10 {
        (d + 48) as char
    } else {
        (d + 87) as char
    }
}

/// The value of a hex digit (either case).
pub open spec fn hex_char_value(c: char) -> Option<int> {
    let n = c as int;
    if 48 <= n <= 57 {
        Some(n - 48)
    } else if 97 <= n <= 102 {
        Some(n - 87)
    } else if 65 <= n <= 70 {
        Some(n - 55)
    } else {
        None
    }
}

pub open spec fn pow16(k: nat) -> nat
    decreases k,
{
    if k == 0 {
        1
    } else {
        16 * pow16((k - 1) as nat)
    }
}

/// The last `k` hex digits of `n`, most significant first.
pub open spec fn hex_digits(n: nat, k: nat) -> Seq<char>
    decreases k,
{
    if k == 0 {
        Seq::empty()
    } else {
        hex_digits(n / 16, (k - 1) as nat).push(hex_char((n % 16) as int))
    }
}

/// A hash as sixteen lowercase hex digits, zero-padded.
pub open spec fn hex16(h: u64) -> Seq<char> {
    hex_digits(h as nat, 16)
}

/// Whether every character is a hex digit.
pub open spec fn all_hex(s: Seq<char>) -> bool {
    forall|i: int| 0 <= i < s.len() ==> (#[trigger] hex_char_value(s[i])) is Some
}

/// The number hex digits spell, most significant first.
pub open spec fn hex_number(s: Seq<char>) -> nat
    decreases s.len(),
{
    if s.len() == 0 {
        0
    } else {
        (hex_number(s.drop_last()) * 16 + hex_char_value(s.last())->Some_0) as nat
    }
}

/// What `u64::from_str_radix(s, 16)` accepts: an optional `+`, then one or
/// more hex digits of either case whose value fits in 64 bits.
pub open spec fn parse_hex(s: Seq<char>) -> Option<u64> {
    let digits = if s.len() > 0 && s[0] == '+' {
        s.drop_first()
    } else {
        s
    };
    if digits.len() > 0 && all_hex(digits) && hex_number(digits) <= u64::MAX {
        Some(hex_number(digits) as u64)
    } else {
        None
    }
}

fn hex_char_exec(d: u64) -> (c: char)
    requires
        d < 16,
    ensures
        c == hex_char(d as int),
{
    if d < 10 {
        ((d as u8) + 48) as char
    } else {
        ((d as u8) + 87) as char
    }
}

fn hex_digits_exec(n: u64, k: usize) -> (r: Vec<char>)
    ensures
        r@ == hex_digits(n as nat, k as nat),
    decreases k,
{
    if k == 0 {
        Vec::new()
    } else {
        let mut v = hex_digits_exec(n / 16, k - 1);
        v.push(hex_char_exec(n % 16));
        v
    }
}

/// A hash written as sixteen lowercase hex digits (`{:016x}`).
pub fn hash_hex(h: u64) -> (r: String)
    ensures
        r@ == hex16(h),
{
    string_of(&hex_digits_exec(h, 16))
}

fn hex_char_value_exec(c: char) -> (r: Option<u64>)
    ensures
        match r {
            Some(d) => hex_char_value(c) == Some(d as int) && d < 16,
            None => hex_char_value(c) is None,
        },
{
    if '0' <= c && c <= '9' {
        Some((c as u32 - 48) as u64)
    } else if 'a' <= c && c <= 'f' {
        Some((c as u32 - 87) as u64)
    } else if 'A' <= c && c <= 'F' {
        Some((c as u32 - 55) as u64)
    } else {
        None
    }
}

proof fn lemma_hex_number_grows(s: Seq<char>, i: int)
    requires
        all_hex(s),
        0 <= i <= s.len(),
    ensures
        hex_number(s.take(i)) <= hex_number(s),
    decreases s.len() - i,
{
    if i < s.len() {
        lemma_hex_number_grows(s, i + 1);
        assert(s.take(i + 1).drop_last() =~= s.take(i));
        assert(hex_char_value(s[i]) is Some);
    } else {
        assert(s.take(i) =~= s);
    }
}

/// Parses a hash written in hex (`u64::from_str_radix(s, 16)`).
pub fn parse_hash_hex(s: &str) -> (r: Option<u64>)
    ensures
        r == parse_hex(s@),
{
    let v = chars_of(s);
    let mut i: usize = 0;
    if v.len() > 0 && v[0] == '+' {
        i = 1;
    }
    let ghost digits = if s@.len() > 0 && s@[0] == '+' {
        s@.drop_first()
    } else {
        s@
    };
    assert(digits =~= v@.skip(i as int));
    if i == v.len() {
        return None;
    }
    let start = i;
    let mut acc: u64 = 0;
    while i < v.len()
        invariant
            start <= i <= v.len(),
            v@ == s@,
            digits == (if s@.len() > 0 && s@[0] == '+' {
                s@.drop_first()
            } else {
                s@
            }),
            start == v.len() - digits.len(),
            digits.len() > 0,
            digits == v@.skip(start as int),
            all_hex(digits.take(i - start)),
            acc as nat == hex_number(digits.take(i - start)),
        decreases v.len() - i,
    {
        let ghost pre = digits.take(i - start);
        let ghost next = digits.take(i + 1 - start);
        assert(next.drop_last() =~= pre);
        assert(next.last() == v@[i as int]);
        match hex_char_value_exec(v[i]) {
            None => {
                assert(!all_hex(digits)) by {
                    assert(hex_char_value(digits[i - start]) is None);
                }
                return None;
            },
            Some(d) => {
                assert(all_hex(next)) by {
                    assert forall|j: int| 0 <= j < next.len() implies (#[trigger] hex_char_value(
                        next[j],
                    )) is Some by {
                        if j < pre.len() {
                            assert(next[j] == pre[j]);
                        }
                    }
                }
                if acc > (u64::MAX - d) / 16 {
                    proof {
                        assert(hex_number(next) == acc * 16 + d);
                        assert(acc * 16 + d > u64::MAX) by (nonlinear_arith)
                            requires
                                acc > (u64::MAX - d) / 16,
                                d < 16,
                        ;
                        if all_hex(digits) {
                            lemma_hex_number_grows(digits, i + 1 - start);
                        }
                    }
                    return None;
                }
                assert(acc * 16 + d <= u64::MAX) by (nonlinear_arith)
                    requires
                        acc <= (u64::MAX - d) / 16,
                        d < 16,
                ;
                acc = acc * 16 + d;
            },
        }
        i += 1;
    }
    assert(digits.take(v.len() - start) =~= digits);
    Some(acc)
}

proof fn lemma_pow16_16()
    ensures
        pow16(16) == 0x1_0000_0000_0000_0000,
{
    reveal_with_fuel(pow16, 17);
}

proof fn lemma_hex_digits_value(n: nat, k: nat)
    requires
        n < pow16(k),
    ensures
        hex_digits(n, k).len() == k,
        all_hex(hex_digits(n, k)),
        hex_number(hex_digits(n, k)) == n,
    decreases k,
{
    if k == 0 {
        assert(n == 0);
    } else {
        let p = pow16((k - 1) as nat);
        assert(n / 16 < p) by (nonlinear_arith)
            requires
                n < 16 * p,
        ;
        lemma_hex_digits_value(n / 16, (k - 1) as nat);
        let d = (n % 16) as int;
        let c = hex_char(d);
        assert(hex_char_value(c) == Some(d));
        let s = hex_digits(n, k);
        assert(s.drop_last() =~= hex_digits(n / 16, (k - 1) as nat));
        assert(all_hex(s)) by {
            assert forall|j: int| 0 <= j < s.len() implies (#[trigger] hex_char_value(s[j])) is Some by {
                if j < s.len() - 1 {
                    assert(s[j] == s.drop_last()[j]);
                }
            }
        }
        assert(n == (n / 16) * 16 + n % 16) by (nonlinear_arith);
    }
}

/// Reading back a hash written in hex gives the hash.
pub proof fn lemma_hash_hex_round_trip(h: u64)
    ensures
        parse_hex(hex16(h)) == Some(h),
{
    lemma_pow16_16();
    lemma_hex_digits_value(h as nat, 16);
    assert(hex16(h)[0] != '+') by {
        assert(hex_char_value(hex16(h)[0]) is Some);
    }
}

// ---------------------------------------------------------------------------
// Sets of hashes
// ---------------------------------------------------------------------------

/// A sequence in strictly increasing order (hence without repeats).
pub open spec fn strictly_sorted(s: Seq<u64>) -> bool {
    forall|i: int, j: int| 0 <= i < j < s.len() ==> s[i] < s[j]
}

/// The hashes a sequence holds.
pub open spec fn elems(s: Seq<u64>) -> Set<u64> {
    Set::new(|x: u64| s.contains(x))
}

fn contains_hash(v: &Vec<u64>, h: u64) -> (b: bool)
    ensures
        b == elems(v@).contains(h),
{
    let mut i: usize = 0;
    while i < v.len()
        invariant
            i <= v.len(),
            forall|j: int| 0 <= j < i ==> v@[j] != h,
        decreases v.len() - i,
    {
        if v[i] == h {
            assert(v@.contains(h));
            return true;
        }
        i += 1;
    }
    false
}

/// Inserts a hash into a sorted sequence, keeping it sorted.
fn sorted_insert(v: &mut Vec<u64>, h: u64)
    requires
        strictly_sorted(old(v)@),
    ensures
        strictly_sorted(final(v)@),
        elems(final(v)@) == elems(old(v)@).insert(h),
{
    let mut i: usize = 0;
    while i < v.len() && v[i] < h
        invariant
            i <= v.len(),
            forall|j: int| 0 <= j < i ==> v@[j] < h,
        decreases v.len() - i,
    {
        i += 1;
    }
    if i < v.len() && v[i] == h {
        assert(elems(v@) =~= elems(v@).insert(h)) by {
            assert(v@.contains(h)) by {
                assert(v@[i as int] == h);
            }
        }
        return;
    }
    let ghost old_v = v@;
    v.insert(i, h);
    assert(v@ == old_v.take(i as int).push(h) + old_v.skip(i as int));
    assert(strictly_sorted(v@)) by {
        assert forall|a: int, b: int| 0 <= a < b < v@.len() implies v@[a] < v@[b] by {
            if b < i {
                assert(v@[a] == old_v[a] && v@[b] == old_v[b]);
            } else if b == i {
                assert(v@[a] == old_v[a]);
            } else if a < i {
                assert(v@[a] == old_v[a] && v@[b] == old_v[b - 1]);
                assert(old_v[b - 1] >= h);
            } else if a == i {
                assert(v@[b] == old_v[b - 1]);
                assert(old_v[i as int] > h);
                assert(old_v[i as int] <= old_v[b - 1]);
            } else {
                assert(v@[a] == old_v[a - 1] && v@[b] == old_v[b - 1]);
            }
        }
    }
    assert(elems(v@) =~= elems(old_v).insert(h)) by {
        assert forall|x: u64| #[trigger] elems(v@).contains(x) == elems(old_v).insert(h).contains(x) by {
            if v@.contains(x) {
                let k = choose|k: int| 0 <= k < v@.len() && v@[k] == x;
                if k < i {
                    assert(old_v[k] == x);
                } else if k > i {
                    assert(old_v[k - 1] == x);
                }
            }
            if old_v.contains(x) {
                let k = choose|k: int| 0 <= k < old_v.len() && old_v[k] == x;
                if k < i {
                    assert(v@[k] == x);
                } else {
                    assert(v@[k + 1] == x);
                }
            }
            if x == h {
                assert(v@[i as int] == h);
            }
        }
    }
}

// ---------------------------------------------------------------------------
// The manifest
// ---------------------------------------------------------------------------

/// The hashes among manifest items: each string that parses as hex.
pub open spec fn manifest_hashes(items: Seq<TomlValue>) -> Set<u64>
    decreases items.len(),
{
    if items.len() == 0 {
        Set::empty()
    } else {
        let rest = manifest_hashes(items.drop_last());
        match items.last() {
            TomlValue::Text(t) => match parse_hex(t@) {
                Some(h) => rest.insert(h),
                None => rest,
            },
            _ => rest,
        }
    }
}

/// What a manifest document records: its fingerprint and hashes, when it
/// has `version = 1`, a hex `fingerprint` string and a `hashes` array.
pub open spec fn manifest_of(doc: TomlValue) -> Option<(u64, Set<u64>)> {
    match (toml_lookup(doc, "version"@), toml_lookup(doc, "fingerprint"@), toml_lookup(doc, "hashes"@)) {
        (Some(TomlValue::Integer(1)), Some(TomlValue::Text(f)), Some(TomlValue::Array(items))) => {
            match parse_hex(f@) {
                Some(fp) => Some((fp, manifest_hashes(items@))),
                None => None,
            }
        },
        _ => None,
    }
}

fn collect_hashes(items: &Vec<TomlValue>) -> (r: Vec<u64>)
    ensures
        strictly_sorted(r@),
        elems(r@) == manifest_hashes(items@),
{
    let mut r: Vec<u64> = Vec::new();
    let mut i: usize = 0;
    assert(elems(r@) =~= Set::<u64>::empty());
    while i < items.len()
        invariant
            i <= items.len(),
            strictly_sorted(r@),
            elems(r@) == manifest_hashes(items@.take(i as int)),
        decreases items.len() - i,
    {
        assert(items@.take(i + 1).drop_last() =~= items@.take(i as int));
        match &items[i] {
            TomlValue::Text(t) => match parse_hash_hex(t.as_str()) {
                Some(h) => sorted_insert(&mut r, h),
                None => {},
            },
            _ => {},
        }
        i += 1;
    }
    assert(items@.take(items.len() as int) =~= items@);
    r
}

/// Whether manifest items are the hex strings of the hashes, in order.
pub open spec fn items_spell(items: Seq<TomlValue>, hashes: Seq<u64>) -> bool {
    &&& items.len() == hashes.len()
    &&& forall|i: int| 0 <= i < items.len() ==> (#[trigger] items[i] matches TomlValue::Text(t) && t@
        == hex16(hashes[i]))
}

proof fn lemma_items_read_back(items: Seq<TomlValue>, hashes: Seq<u64>)
    requires
        items_spell(items, hashes),
    ensures
        manifest_hashes(items) == elems(hashes),
    decreases items.len(),
{
    if items.len() == 0 {
        assert(elems(hashes) =~= Set::<u64>::empty());
    } else {
        let n = items.len() - 1;
        assert(items_spell(items.drop_last(), hashes.drop_last())) by {
            assert forall|i: int| 0 <= i < items.drop_last().len() implies (#[trigger] items.drop_last()[i]
                matches TomlValue::Text(t) && t@ == hex16(hashes.drop_last()[i])) by {
                assert(items.drop_last()[i] == items[i]);
            }
        }
        lemma_items_read_back(items.drop_last(), hashes.drop_last());
        assert(items[n] matches TomlValue::Text(t) && t@ == hex16(hashes[n]));
        lemma_hash_hex_round_trip(hashes[n]);
        assert(elems(hashes) =~= elems(hashes.drop_last()).insert(hashes[n])) by {
            assert forall|x: u64| #[trigger] elems(hashes).contains(x) == elems(hashes.drop_last()).insert(
                hashes[n],
            ).contains(x) by {
                if hashes.contains(x) {
                    let k = choose|k: int| 0 <= k < hashes.len() && hashes[k] == x;
                    if k < n {
                        assert(hashes.drop_last()[k] == x);
                    }
                }
                if hashes.drop_last().contains(x) {
                    let k = choose|k: int| 0 <= k < hashes.drop_last().len() && hashes.drop_last()[k] == x;
                    assert(hashes[k] == x);
                }
                if x == hashes[n] {
                    assert(hashes[n] == x);
                }
            }
        }
    }
}

/// A manifest that records `version = 1`, a fingerprint and hashes, each
/// written as sixteen hex digits (what [`IncrementalCache::flush`] hands out
/// to be written), reads back as that fingerprint and those hashes.
pub proof fn lemma_manifest_round_trip(doc: TomlValue, fingerprint: u64, hashes: Seq<u64>)
    requires
        toml_lookup(doc, "version"@) == Some(TomlValue::Integer(1)),
        toml_lookup(doc, "fingerprint"@) matches Some(TomlValue::Text(f)) && f@ == hex16(fingerprint),
        toml_lookup(doc, "hashes"@) matches Some(TomlValue::Array(items)) && items_spell(items@, hashes),
    ensures
        manifest_of(doc) == Some((fingerprint, elems(hashes))),
{
    lemma_hash_hex_round_trip(fingerprint);
    let items = toml_lookup(doc, "hashes"@)->Some_0->Array_0;
    lemma_items_read_back(items@, hashes);
}

/// Reads a manifest document (see [`manifest_of`]), its hashes in increasing
/// order.
pub fn read_manifest(doc: &TomlValue) -> (r: Option<(u64, Vec<u64>)>)
    ensures
        match manifest_of(*doc) {
            Some((fp, hs)) => r matches Some(p) && p.0 == fp && strictly_sorted(p.1@) && elems(p.1@)
                == hs,
            None => r is None,
        },
{
    let version = toml_get(doc, "version");
    let fingerprint = toml_get(doc, "fingerprint");
    let hashes = toml_get(doc, "hashes");
    match (version, fingerprint, hashes) {
        (Some(TomlValue::Integer(1)), Some(TomlValue::Text(f)), Some(TomlValue::Array(items))) => {
            match parse_hash_hex(f.as_str()) {
                Some(fp) => Some((fp, collect_hashes(items))),
                None => None,
            }
        },
        _ => None,
    }
}

/// The name of a project's manifest file: its hash in hex and `.toml`.
pub fn manifest_file_name(project_hash: u64) -> (r: String)
    ensures
        r@ == hex16(project_hash) + ".toml"@,
{
    let mut v = hex_digits_exec(project_hash, 16);
    append_str(&mut v, ".toml");
    string_of(&v)
}

// ---------------------------------------------------------------------------
// Hashing
// ---------------------------------------------------------------------------

/// The 64-bit hash that `DefaultHasher`, as made by `new`/`default`, gives
/// a byte string. The standard library documents that all hashers made that
/// way are the same (it is not seeded per process); the algorithm itself is
/// not specified and may differ between releases of std.
pub uninterp spec fn bytes_hash_of(bytes: Seq<u8>) -> u64;

/// `BuildHasher::hash_one` with `BuildHasherDefault<DefaultHasher>`.
///
/// Claimed of std: the hash is a function of the bytes alone (named
/// `bytes_hash_of`); its value is not stated.
#[verifier::external_body]
fn hash_bytes(bytes: &[u8]) -> (h: u64)
    ensures
        h == bytes_hash_of(bytes@),
{
    std::hash::BuildHasher::hash_one(
        &std::hash::BuildHasherDefault::<std::collections::hash_map::DefaultHasher>::default(),
        bytes,
    )
}

/// The hash of a text's UTF-8 bytes (used to name a project's manifest).
pub fn hash_text(value: &str) -> (h: u64)
    ensures
        h == bytes_hash_of(vstd::utf8::encode_utf8(value@)),
{
    hash_bytes(value.as_bytes())
}

// ---------------------------------------------------------------------------
// The cache
// ---------------------------------------------------------------------------

/// Incremental cache for formatting runs. Hashes read from the manifest say
/// which file contents are known to be formatted; hashes seen or produced in
/// this run are kept for the next manifest.
#[derive(Debug)]
pub struct IncrementalCache {
    manifest_path: String,
    formatter_fingerprint: u64,
    read_hashes: Vec<u64>,
    write_hashes: Vec<u64>,
}

/// What the manifest to write holds.
#[derive(Debug)]
pub struct ManifestData {
    /// The formatter fingerprint in hex.
    pub fingerprint: String,
    /// The known hashes in hex, in increasing order.
    pub hashes: Vec<String>,
}

pub open spec fn hex_views(s: Seq<u64>) -> Seq<Seq<char>> {
    s.map_values(|h: u64| hex16(h))
}

/// The hashes a manifest text makes known to a cache of fingerprint `fp`:
/// those of a valid manifest of the same fingerprint, none otherwise.
pub open spec fn manifest_known(fp: u64, text: Seq<char>) -> Set<u64> {
    match toml_document_of(text) {
        Some(doc) => match manifest_of(doc) {
            Some((f, hs)) => if f == fp {
                hs
            } else {
                Set::empty()
            },
            None => Set::empty(),
        },
        None => Set::empty(),
    }
}

/// `data` is what flushing `c` hands out: the fingerprint in hex and every
/// hash known or recorded, in increasing order, each in hex.
pub open spec fn flushed(c: IncrementalCache, data: ManifestData) -> bool {
    &&& data.fingerprint@ == hex16(c.fingerprint())
    &&& exists|s: Seq<u64>|
        strictly_sorted(s) && elems(s) == c.known().union(c.recorded())
            && #[trigger] crate::text::views(data.hashes@) == hex_views(s)
}

/// A manifest document that holds what `data` says: `version = 1`, the
/// fingerprint string and the array of hash strings.
pub open spec fn document_holds(doc: TomlValue, data: ManifestData) -> bool {
    &&& toml_lookup(doc, "version"@) == Some(TomlValue::Integer(1))
    &&& toml_lookup(doc, "fingerprint"@) matches Some(TomlValue::Text(f)) && f@ == data.fingerprint@
    &&& toml_lookup(doc, "hashes"@) matches Some(TomlValue::Array(items)) && items.len() == data.hashes.len()
        && forall|i: int| 0 <= i < items.len() ==> (#[trigger] items@[i] matches TomlValue::Text(t) && t@
        == data.hashes@[i]@)
}

impl IncrementalCache {
    #[verifier::type_invariant]
    spec fn sorted(self) -> bool {
        strictly_sorted(self.read_hashes@) && strictly_sorted(self.write_hashes@)
    }

    /// The path of the manifest file.
    pub closed spec fn path(self) -> Seq<char> {
        self.manifest_path@
    }

    pub closed spec fn fingerprint(self) -> u64 {
        self.formatter_fingerprint
    }

    /// The hashes known from the manifest.
    pub closed spec fn known(self) -> Set<u64> {
        elems(self.read_hashes@)
    }

    /// The hashes recorded in this run.
    pub closed spec fn recorded(self) -> Set<u64> {
        elems(self.write_hashes@)
    }

    /// Opens a cache from the text of its manifest file (`None` when there
    /// is none or it cannot be read): the manifest's hashes are known when
    /// it is a valid manifest of the same fingerprint, none otherwise.
    pub fn open_with_manifest(
        manifest_path: String,
        formatter_fingerprint: u64,
        manifest_text: Option<&str>,
    ) -> (r: Self)
        ensures
            r.path() == manifest_path@,
            r.fingerprint() == formatter_fingerprint,
            r.known() == match manifest_text {
                Some(t) => manifest_known(formatter_fingerprint, t@),
                None => Set::empty(),
            },
            r.recorded() == Set::<u64>::empty(),
    {
        let mut read_hashes: Vec<u64> = Vec::new();
        match manifest_text {
            Some(t) => match parse_toml_document(t) {
                Some(doc) => match read_manifest(&doc) {
                    Some((fp, hs)) => {
                        if fp == formatter_fingerprint {
                            read_hashes = hs;
                        }
                    },
                    None => {},
                },
                None => {},
            },
            None => {},
        }
        let write_hashes: Vec<u64> = Vec::new();
        assert(elems(write_hashes@) =~= Set::<u64>::empty());
        assert(elems(Seq::<u64>::empty()) =~= Set::<u64>::empty());
        IncrementalCache { manifest_path, formatter_fingerprint, read_hashes, write_hashes }
    }

    pub fn manifest_path(&self) -> (r: &str)
        ensures
            r@ == self.path(),
    {
        self.manifest_path.as_str()
    }

    /// Whether content of this hash is known to be formatted; a hit is
    /// recorded, so that the next manifest keeps it.
    pub fn is_known_hash(&mut self, hash: u64) -> (b: bool)
        ensures
            b == old(self).known().contains(hash),
            final(self).recorded() == if b {
                old(self).recorded().insert(hash)
            } else {
                old(self).recorded()
            },
            final(self).known() == old(self).known(),
            final(self).path() == old(self).path(),
            final(self).fingerprint() == old(self).fingerprint(),
    {
        proof {
            use_type_invariant(&*self);
        }
        if contains_hash(&self.read_hashes, hash) {
            self.record_hash(hash);
            true
        } else {
            false
        }
    }

    /// Records content of this hash as formatted.
    pub fn record_hash(&mut self, hash: u64)
        ensures
            final(self).recorded() == old(self).recorded().insert(hash),
            final(self).known() == old(self).known(),
            final(self).path() == old(self).path(),
            final(self).fingerprint() == old(self).fingerprint(),
    {
        proof {
            use_type_invariant(&*self);
        }
        let mut w: Vec<u64> = Vec::new();
        std::mem::swap(&mut w, &mut self.write_hashes);
        sorted_insert(&mut w, hash);
        self.write_hashes = w;
    }

    /// Whether the input bytes are already known to be formatted (the hash of
    /// the bytes is known); a hit is recorded for the next manifest.
    pub fn is_known_formatted(&mut self, _path: &str, input_bytes: &[u8]) -> (b: bool)
        ensures
            b == old(self).known().contains(bytes_hash_of(input_bytes@)),
            final(self).recorded() == if b {
                old(self).recorded().insert(bytes_hash_of(input_bytes@))
            } else {
                old(self).recorded()
            },
            final(self).known() == old(self).known(),
            final(self).path() == old(self).path(),
            final(self).fingerprint() == old(self).fingerprint(),
    {
        let h = hash_bytes(input_bytes);
        self.is_known_hash(h)
    }

    /// Records formatted output bytes for the next manifest.
    pub fn record_formatted(&mut self, _path: &str, formatted_bytes: &[u8])
        ensures
            final(self).recorded() == old(self).recorded().insert(bytes_hash_of(formatted_bytes@)),
            final(self).known() == old(self).known(),
            final(self).path() == old(self).path(),
            final(self).fingerprint() == old(self).fingerprint(),
    {
        let h = hash_bytes(formatted_bytes);
        self.record_hash(h);
    }

    /// The manifest to persist: the fingerprint, and every hash known or
    /// recorded, in increasing order, each in hex. The caller writes it to
    /// [`IncrementalCache::manifest_path`].
    pub fn flush(&self) -> (r: ManifestData)
        ensures
            flushed(*self, r),
    {
        proof {
            use_type_invariant(self);
        }
        let mut all: Vec<u64> = Vec::new();
        let mut i: usize = 0;
        assert(elems(all@) =~= Set::<u64>::empty());
        while i < self.read_hashes.len()
            invariant
                i <= self.read_hashes.len(),
                strictly_sorted(all@),
                elems(all@) == elems(self.read_hashes@.take(i as int)),
            decreases self.read_hashes.len() - i,
        {
            sorted_insert(&mut all, self.read_hashes[i]);
            assert(elems(self.read_hashes@.take(i + 1)) =~= elems(self.read_hashes@.take(i as int)).insert(
                self.read_hashes@[i as int],
            )) by {
                let a = self.read_hashes@.take(i + 1);
                let b = self.read_hashes@.take(i as int);
                assert forall|x: u64| a.contains(x) <==> (b.contains(x) || x == self.read_hashes@[i as int]) by {
                    if a.contains(x) {
                        let k = choose|k: int| 0 <= k < a.len() && a[k] == x;
                        if k < i {
                            assert(b[k] == x);
                        }
                    }
                    if b.contains(x) {
                        let k = choose|k: int| 0 <= k < b.len() && b[k] == x;
                        assert(a[k] == x);
                    }
                    if x == self.read_hashes@[i as int] {
                        assert(a[i as int] == x);
                    }
                }
            }
            i += 1;
        }
        assert(self.read_hashes@.take(self.read_hashes.len() as int) =~= self.read_hashes@);
        let mut j: usize = 0;
        while j < self.write_hashes.len()
            invariant
                j <= self.write_hashes.len(),
                strictly_sorted(all@),
                elems(all@) == elems(self.read_hashes@).union(elems(self.write_hashes@.take(j as int))),
            decreases self.write_hashes.len() - j,
        {
            sorted_insert(&mut all, self.write_hashes[j]);
            assert(elems(self.write_hashes@.take(j + 1)) =~= elems(self.write_hashes@.take(j as int)).insert(
                self.write_hashes@[j as int],
            )) by {
                let a = self.write_hashes@.take(j + 1);
                let b = self.write_hashes@.take(j as int);
                assert forall|x: u64| a.contains(x) <==> (b.contains(x) || x == self.write_hashes@[j as int]) by {
                    if a.contains(x) {
                        let k = choose|k: int| 0 <= k < a.len() && a[k] == x;
                        if k < j {
                            assert(b[k] == x);
                        }
                    }
                    if b.contains(x) {
                        let k = choose|k: int| 0 <= k < b.len() && b[k] == x;
                        assert(a[k] == x);
                    }
                    if x == self.write_hashes@[j as int] {
                        assert(a[j as int] == x);
                    }
                }
            }
            assert(elems(all@) =~= elems(self.read_hashes@).union(elems(self.write_hashes@.take(j + 1))));
            j += 1;
        }
        assert(self.write_hashes@.take(self.write_hashes.len() as int) =~= self.write_hashes@);
        let mut hashes: Vec<String> = Vec::new();
        let mut k: usize = 0;
        while k < all.len()
            invariant
                k <= all.len(),
                crate::text::views(hashes@) == hex_views(all@.take(k as int)),
            decreases all.len() - k,
        {
            let s = hash_hex(all[k]);
            let ghost before = hashes@;
            hashes.push(s);
            assert(hashes@ == before.push(s));
            assert(crate::text::views(hashes@) =~= crate::text::views(before).push(s@));
            assert(all@.take(k + 1) =~= all@.take(k as int).push(all@[k as int]));
            assert(hex_views(all@.take(k + 1)) =~= hex_views(all@.take(k as int)).push(hex16(all@[k as int])));
            k += 1;
        }
        assert(all@.take(all.len() as int) =~= all@);
        ManifestData { fingerprint: hash_hex(self.formatter_fingerprint), hashes }
    }
}

/// A manifest written from a flushed cache, read back as written, records
/// the cache's fingerprint and every hash it knew or recorded.
proof fn lemma_flushed_manifest_reads_back(c: IncrementalCache, data: ManifestData, text: Seq<char>)
    requires
        flushed(c, data),
        toml_document_of(text) matches Some(doc) && document_holds(doc, data),
    ensures
        manifest_of(toml_document_of(text)->Some_0) == Some((c.fingerprint(), c.known().union(c.recorded()))),
{
    let doc = toml_document_of(text)->Some_0;
    let s = choose|s: Seq<u64>|
        strictly_sorted(s) && elems(s) == c.known().union(c.recorded())
            && #[trigger] crate::text::views(data.hashes@) == hex_views(s);
    let items = toml_lookup(doc, "hashes"@)->Some_0->Array_0;
    let hv = crate::text::views(data.hashes@);
    assert(hv.len() == data.hashes@.len());
    assert(hex_views(s).len() == s.len());
    assert(items@.len() == s.len());
    assert(items_spell(items@, s)) by {
        assert forall|i: int| 0 <= i < items@.len() implies (#[trigger] items@[i] matches TomlValue::Text(
            t,
        ) && t@ == hex16(s[i])) by {
            assert(hv[i] == data.hashes@[i]@);
            assert(hv[i] == hex_views(s)[i]);
            assert(items@[i] matches TomlValue::Text(t) && t@ == data.hashes@[i]@);
        }
    }
    lemma_manifest_round_trip(doc, c.fingerprint(), s);
}

/// A cache of another fingerprint knows nothing from a manifest written by
/// a flushed cache (when it reads back as written): a change of formatter
/// or settings invalidates every recorded hash.
pub proof fn lemma_other_fingerprint_knows_nothing(c: IncrementalCache, data: ManifestData, text: Seq<char>, fingerprint: u64)
    requires
        flushed(c, data),
        toml_document_of(text) matches Some(doc) && document_holds(doc, data),
        fingerprint != c.fingerprint(),
    ensures
        manifest_known(fingerprint, text) == Set::<u64>::empty(),
{
    lemma_flushed_manifest_reads_back(c, data, text);
}

/// Content recorded in one run is known in the next: when the manifest text
/// written from a flushed cache reads back as a document holding what the
/// flush handed out, a cache of the same fingerprint opened from that text
/// knows exactly the hashes that were known or recorded.
pub proof fn lemma_recorded_known_after_reopen(c: IncrementalCache, data: ManifestData, text: Seq<char>)
    requires
        flushed(c, data),
        toml_document_of(text) matches Some(doc) && document_holds(doc, data),
    ensures
        manifest_known(c.fingerprint(), text) == c.known().union(c.recorded()),
{
    lemma_flushed_manifest_reads_back(c, data, text);
}

} // verus!
