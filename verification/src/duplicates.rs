//! Duplicate detection: the decisions of the three-stage funnel.
//!
//! 1. Only files of equal, non-zero size can be duplicates.
//! 2. Among those, files whose size and first-16-KB digest both match go on.
//! 3. Files whose full digests match form a duplicate set.
//!
//! Hashing the files is the caller's part (it reads them); the digests come
//! back here as `(file index, digest)` pairs.

use vstd::prelude::*;
use vstd::std_specs::hash::group_hash_axioms;

use std::collections::HashMap;

use crate::digest::{blake3_digest, PREFIX_LIMIT};
use crate::models::{wasted_spec, DuplicateGroup, FileMetadata};
use crate::order::{
    lemma_same_rank_between, lemma_same_rank_neighbour, rank_sorted, same_rank, sort_ranked, Ranked,
};
use crate::text::push_char;

verus! {

/// Candidates hashed per chunk between progress reports.
pub const CHUNK: usize = 256;

/// Three-way lexicographic comparison of byte sequences (-1, 0, 1).
pub open spec fn bytes_order(a: Seq<u8>, b: Seq<u8>) -> int
    decreases a.len(),
{
    if a.len() == 0 {
        if b.len() == 0 {
            0
        } else {
            -1
        }
    } else if b.len() == 0 {
        1
    } else if a[0] < b[0] {
        -1
    } else if a[0] > b[0] {
        1
    } else {
        bytes_order(a.drop_first(), b.drop_first())
    }
}

pub proof fn lemma_bytes_order(a: Seq<u8>, b: Seq<u8>, c: Seq<u8>)
    ensures
        bytes_order(a, b) == -bytes_order(b, a),
        -1 <= bytes_order(a, b) <= 1,
        (bytes_order(a, b) == 0) == (a == b),
        bytes_order(a, b) == -1 && bytes_order(b, c) == -1 ==> bytes_order(a, c) == -1,
    decreases a.len(),
{
    if a.len() > 0 && b.len() > 0 {
        if c.len() > 0 {
            lemma_bytes_order(a.drop_first(), b.drop_first(), c.drop_first());
        } else {
            lemma_bytes_order(a.drop_first(), b.drop_first(), c);
        }
        if a[0] == b[0] && a.drop_first() == b.drop_first() {
            assert(a =~= seq![a[0]] + a.drop_first());
            assert(b =~= seq![b[0]] + b.drop_first());
        }
    }
    if a.len() == 0 && b.len() == 0 {
        assert(a =~= b);
    }
}

/// Compares two digests lexicographically (-1, 0, 1).
fn digest_compare(a: &[u8; 32], b: &[u8; 32]) -> (r: i8)
    ensures
        r as int == bytes_order(a@, b@),
{
    let mut i: usize = 0;
    assert(a@.skip(0) =~= a@);
    assert(b@.skip(0) =~= b@);
    while i < 32
        invariant
            i <= 32,
            a@.len() == 32,
            b@.len() == 32,
            bytes_order(a@, b@) == bytes_order(a@.skip(i as int), b@.skip(i as int)),
        decreases 32 - i,
    {
        if a[i] < b[i] {
            return -1;
        }
        if a[i] > b[i] {
            return 1;
        }
        assert(a@.skip(i as int).drop_first() =~= a@.skip(i + 1));
        assert(b@.skip(i as int).drop_first() =~= b@.skip(i + 1));
        i = i + 1;
    }
    0
}

/// A hashed file as sorted for grouping: its size (or 0 when only the digest
/// counts), its digest, and its position in the list of hashes.
struct KeyEntry {
    size: u64,
    digest: [u8; 32],
    pos: usize,
}

spec fn key_before(a: KeyEntry, b: KeyEntry) -> bool {
    a.size < b.size || (a.size == b.size && bytes_order(a.digest@, b.digest@) == -1)
}

impl Ranked for KeyEntry {
    closed spec fn ranks_before(&self, other: &Self) -> bool {
        key_before(*self, *other)
    }

    proof fn lemma_rank_order(a: &Self, b: &Self, c: &Self) {
        lemma_bytes_order(a.digest@, b.digest@, c.digest@);
        lemma_bytes_order(b.digest@, c.digest@, a.digest@);
        lemma_bytes_order(c.digest@, a.digest@, b.digest@);
        lemma_bytes_order(a.digest@, c.digest@, b.digest@);
        lemma_bytes_order(b.digest@, a.digest@, c.digest@);
        lemma_bytes_order(c.digest@, b.digest@, a.digest@);
        lemma_bytes_order(a.digest@, a.digest@, a.digest@);
    }

    fn rank_against(&self, other: &Self) -> (r: i8) {
        proof {
            lemma_bytes_order(self.digest@, other.digest@, other.digest@);
        }
        if self.size < other.size {
            -1
        } else if self.size > other.size {
            1
        } else {
            digest_compare(&self.digest, &other.digest)
        }
    }
}

proof fn lemma_same_rank_is_same_key(a: KeyEntry, b: KeyEntry)
    ensures
        same_rank(a, b) == (a.size == b.size && a.digest@ == b.digest@),
{
    lemma_bytes_order(a.digest@, b.digest@, b.digest@);
}


/// Another entry of `keys` has the same size and digest as the one at `p`.
spec fn shared_at(keys: Seq<KeyEntry>, p: int) -> bool {
    exists|q: int|
        0 <= q < keys.len() && q != p && (#[trigger] keys[q]).size == keys[p].size
            && keys[q].digest@ == keys[p].digest@
}

spec fn positions_are_slots(keys: Seq<KeyEntry>) -> bool {
    forall|p: int| 0 <= p < keys.len() ==> (#[trigger] keys[p]).pos == p
}

fn same_key(a: &KeyEntry, b: &KeyEntry) -> (r: bool)
    ensures
        r == same_rank(*a, *b),
{
    proof {
        lemma_same_rank_is_same_key(*a, *b);
        lemma_bytes_order(a.digest@, b.digest@, b.digest@);
    }
    a.size == b.size && digest_compare(&a.digest, &b.digest) == 0
}

proof fn lemma_sorted_slots(sorted: Seq<KeyEntry>, orig: Seq<KeyEntry>)
    requires
        sorted.to_multiset() == orig.to_multiset(),
        positions_are_slots(orig),
    ensures
        sorted.len() == orig.len(),
        forall|t: int| 0 <= t < sorted.len() ==> 0 <= (#[trigger] sorted[t]).pos < orig.len() && orig[sorted[t].pos as int] == sorted[t],
        forall|p: int| 0 <= p < orig.len() ==> sorted.contains(#[trigger] orig[p]),
        forall|a: int, b: int| 0 <= a < sorted.len() && 0 <= b < sorted.len() && (#[trigger] sorted[a]).pos == (#[trigger] sorted[b]).pos ==> a == b,
{
    sorted.to_multiset_ensures();
    orig.to_multiset_ensures();
    assert(orig.no_duplicates()) by {
        assert forall|a: int, b: int| 0 <= a < orig.len() && 0 <= b < orig.len() && a != b implies orig[a] != orig[b] by {
            assert(orig[a].pos == a);
            assert(orig[b].pos == b);
        }
    }
    orig.lemma_multiset_has_no_duplicates();
    sorted.lemma_multiset_has_no_duplicates_conv();
    assert forall|t: int| 0 <= t < sorted.len() implies 0 <= (#[trigger] sorted[t]).pos < orig.len() && orig[sorted[t].pos as int] == sorted[t] by {
        assert(sorted.to_multiset().count(sorted[t]) > 0);
        assert(orig.contains(sorted[t]));
        let q = choose|q: int| 0 <= q < orig.len() && orig[q] == sorted[t];
        assert(orig[q].pos == q);
    }
    assert forall|p: int| 0 <= p < orig.len() implies sorted.contains(#[trigger] orig[p]) by {
        assert(orig.to_multiset().count(orig[p]) > 0);
    }
}

/// For each position `p` of `keys`: whether another entry has the same size
/// and digest. Sorting makes entries of equal key adjacent.
fn mark_shared(keys: Vec<KeyEntry>) -> (flags: Vec<bool>)
    requires
        positions_are_slots(keys@),
    ensures
        flags@.len() == keys@.len(),
        forall|p: int| 0 <= p < keys@.len() ==> flags@[p] == shared_at(keys@, p),
{
    let ghost orig = keys@;
    let n = keys.len();
    let mut sorted = keys;
    sort_ranked(&mut sorted);
    proof {
        lemma_sorted_slots(sorted@, orig);
    }
    let mut flags: Vec<bool> = Vec::new();
    let mut i: usize = 0;
    while i < n
        invariant
            i <= n,
            flags@.len() == i,
        decreases n - i,
    {
        flags.push(false);
        i = i + 1;
    }
    let mut t: usize = 0;
    while t < n
        invariant
            t <= n,
            n == sorted@.len(),
            n == orig.len(),
            flags@.len() == n,
            rank_sorted(sorted@),
            forall|u: int| 0 <= u < sorted@.len() ==> 0 <= (#[trigger] sorted@[u]).pos < orig.len() && orig[sorted@[u].pos as int] == sorted@[u],
            forall|a: int, b: int| 0 <= a < sorted@.len() && 0 <= b < sorted@.len() && (#[trigger] sorted@[a]).pos == (#[trigger] sorted@[b]).pos ==> a == b,
            forall|u: int| 0 <= u < t ==> flags@[(#[trigger] sorted@[u]).pos as int] == ((u > 0 && same_rank(sorted@[u - 1], sorted@[u])) || (u + 1 < n && same_rank(sorted@[u + 1], sorted@[u]))),
        decreases n - t,
    {
        let shared = (t > 0 && same_key(&sorted[t - 1], &sorted[t])) || (t + 1 < n && same_key(&sorted[t + 1], &sorted[t]));
        let p = sorted[t].pos;
        flags.set(p, shared);
        t = t + 1;
    }
    proof {
        assert forall|p: int| 0 <= p < orig.len() implies flags@[p] == shared_at(orig, p) by {
            let t = choose|t: int| 0 <= t < sorted@.len() && #[trigger] sorted@[t] == orig[p];
            assert(sorted@[t].pos == p) by {
                assert(orig[p].pos == p);
            }
            lemma_same_rank_neighbour(sorted@, t);
            if shared_at(orig, p) {
                let q = choose|q: int| 0 <= q < orig.len() && q != p && (#[trigger] orig[q]).size == orig[p].size && orig[q].digest@ == orig[p].digest@;
                let u = choose|u: int| 0 <= u < sorted@.len() && #[trigger] sorted@[u] == orig[q];
                assert(orig[q].pos == q);
                lemma_same_rank_is_same_key(sorted@[u], sorted@[t]);
                assert(u != t);
            }
            if exists|u: int| 0 <= u < sorted@.len() && u != t && same_rank(sorted@[u], sorted@[t]) {
                let u = choose|u: int| 0 <= u < sorted@.len() && u != t && same_rank(sorted@[u], sorted@[t]);
                let q = sorted@[u].pos as int;
                lemma_same_rank_is_same_key(sorted@[u], sorted@[t]);
                assert(orig[q] == sorted@[u]);
                assert(q != p);
                assert(orig[q].size == orig[p].size && orig[q].digest@ == orig[p].digest@);
            }
        }
    }
    flags
}


/// How many of the first `k` files have size `s`.
pub open spec fn size_count(files: Seq<FileMetadata>, s: u64, k: int) -> nat
    decreases k,
{
    if k <= 0 {
        0
    } else {
        size_count(files, s, k - 1) + if files[k - 1].size == s {
            1nat
        } else {
            0nat
        }
    }
}

/// A file can have a duplicate only if it is not empty and another file has
/// its size.
pub open spec fn is_size_candidate(files: Seq<FileMetadata>, i: int) -> bool {
    files[i].size > 0 && size_count(files, files[i].size, files.len() as int) >= 2
}

/// The indices below `k` of the size candidates, in increasing order.
pub open spec fn candidates_upto(files: Seq<FileMetadata>, k: int) -> Seq<usize>
    decreases k,
{
    if k <= 0 {
        seq![]
    } else if is_size_candidate(files, k - 1) {
        candidates_upto(files, k - 1).push((k - 1) as usize)
    } else {
        candidates_upto(files, k - 1)
    }
}

proof fn lemma_size_count_bound(files: Seq<FileMetadata>, s: u64, k: int)
    requires
        0 <= k,
    ensures
        size_count(files, s, k) <= k,
    decreases k,
{
    if k > 0 {
        lemma_size_count_bound(files, s, k - 1);
    }
}

proof fn lemma_size_count_twin(files: Seq<FileMetadata>, i: int, k: int)
    requires
        0 <= i < k <= files.len(),
    ensures
        size_count(files, files[i].size, k) >= 2 <==> exists|j: int|
            0 <= j < k && j != i && (#[trigger] files[j]).size == files[i].size,
    decreases k,
{
    let s = files[i].size;
    if k - 1 == i {
        if i > 0 {
            lemma_size_count_exists(files, s, i);
        } else {
            assert(size_count(files, s, 0) == 0);
        }
        if exists|j: int| 0 <= j < k && j != i && (#[trigger] files[j]).size == s {
            let j = choose|j: int| 0 <= j < k && j != i && (#[trigger] files[j]).size == s;
            assert(0 <= j < i && files[j].size == s);
        }
    } else {
        lemma_size_count_twin(files, i, k - 1);
        if files[k - 1].size == s {
            lemma_size_count_exists(files, s, k - 1);
            assert(size_count(files, s, k - 1) >= 1) by {
                lemma_size_count_positive(files, i, k - 1);
            }
        } else {
            if exists|j: int| 0 <= j < k && j != i && (#[trigger] files[j]).size == s {
                let j = choose|j: int| 0 <= j < k && j != i && (#[trigger] files[j]).size == s;
                assert(j < k - 1);
            }
        }
    }
}

proof fn lemma_size_count_exists(files: Seq<FileMetadata>, s: u64, k: int)
    requires
        0 <= k <= files.len(),
    ensures
        size_count(files, s, k) >= 1 <==> exists|j: int| 0 <= j < k && (#[trigger] files[j]).size == s,
    decreases k,
{
    if k > 0 {
        lemma_size_count_exists(files, s, k - 1);
        if files[k - 1].size != s {
            if exists|j: int| 0 <= j < k && (#[trigger] files[j]).size == s {
                let j = choose|j: int| 0 <= j < k && (#[trigger] files[j]).size == s;
                assert(j < k - 1);
            }
        }
    }
}

proof fn lemma_size_count_positive(files: Seq<FileMetadata>, i: int, k: int)
    requires
        0 <= i < k <= files.len(),
    ensures
        size_count(files, files[i].size, k) >= 1,
{
    lemma_size_count_exists(files, files[i].size, k);
}

/// A file is a stage-1 candidate exactly when it is not empty and some other
/// file has the same size: only same-size files can be duplicates.
pub proof fn law_size_candidate_has_twin(files: Seq<FileMetadata>, i: int)
    requires
        0 <= i < files.len(),
    ensures
        is_size_candidate(files, i) <==> files[i].size > 0 && exists|j: int|
            0 <= j < files.len() && j != i && (#[trigger] files[j]).size == files[i].size,
{
    lemma_size_count_twin(files, i, files.len() as int);
}

/// Stage 1: the indices of the files that share their (non-zero) size with
/// another file, in increasing order.
pub fn size_candidates(files: &[FileMetadata]) -> (c: Vec<usize>)
    ensures
        c@ == candidates_upto(files@, files@.len() as int),
{
    broadcast use group_hash_axioms;

    let n = files.len();
    let mut counts: HashMap<u64, usize> = HashMap::new();
    let mut i: usize = 0;
    while i < n
        invariant
            i <= n,
            n == files@.len(),
            forall|s: u64|
                #![trigger counts@.contains_key(s)]
                if counts@.contains_key(s) {
                    counts@[s] == size_count(files@, s, i as int)
                } else {
                    size_count(files@, s, i as int) == 0
                },
        decreases n - i,
    {
        let s = files[i].size;
        proof {
            lemma_size_count_bound(files@, s, i as int);
        }
        let cur: usize = match counts.get(&s) {
            Some(c) => *c,
            None => 0,
        };
        assert(cur == size_count(files@, s, i as int));
        counts.insert(s, cur + 1);
        i = i + 1;
        assert forall|t: u64| #![trigger counts@.contains_key(t)] if counts@.contains_key(t) {
            counts@[t] == size_count(files@, t, i as int)
        } else {
            size_count(files@, t, i as int) == 0
        } by {
        }
    }
    let mut out: Vec<usize> = Vec::new();
    let mut j: usize = 0;
    while j < n
        invariant
            j <= n,
            n == files@.len(),
            out@ == candidates_upto(files@, j as int),
            forall|s: u64|
                #![trigger counts@.contains_key(s)]
                if counts@.contains_key(s) {
                    counts@[s] == size_count(files@, s, n as int)
                } else {
                    size_count(files@, s, n as int) == 0
                },
        decreases n - j,
    {
        let s = files[j].size;
        let cnt: usize = match counts.get(&s) {
            Some(c) => *c,
            None => 0,
        };
        assert(cnt == size_count(files@, s, n as int));
        if s > 0 && cnt >= 2 {
            out.push(j);
        }
        j = j + 1;
    }
    out
}



/// The lower-case hex digit for a value below 16.
pub open spec fn hex_digit(v: int) -> char {
    if v < 10 {
        ((v + 48) as u8) as char
    } else {
        ((v + 87) as u8) as char
    }
}

/// Lower-case hex text of `bytes`, two digits per byte.
pub open spec fn hex_spec(bytes: Seq<u8>) -> Seq<char>
    decreases bytes.len(),
{
    if bytes.len() == 0 {
        seq![]
    } else {
        hex_spec(bytes.drop_last()) + seq![
            hex_digit(bytes.last() as int / 16),
            hex_digit(bytes.last() as int % 16),
        ]
    }
}

fn hex_char(v: u8) -> (c: char)
    requires
        v < 16,
    ensures
        c == hex_digit(v as int),
{
    if v < 10 {
        (v + 48) as char
    } else {
        (v + 87) as char
    }
}

/// Lower-case hex text of a digest.
pub fn to_hex(bytes: &[u8; 32]) -> (s: String)
    ensures
        s@ == hex_spec(bytes@),
{
    let mut s = String::new();
    let mut i: usize = 0;
    while i < 32
        invariant
            i <= 32,
            bytes@.len() == 32,
            s@ == hex_spec(bytes@.take(i as int)),
        decreases 32 - i,
    {
        let b = bytes[i];
        push_char(&mut s, hex_char(b / 16));
        push_char(&mut s, hex_char(b % 16));
        assert(bytes@.take(i + 1).drop_last() =~= bytes@.take(i as int));
        i = i + 1;
    }
    assert(bytes@.take(32) =~= bytes@);
    s
}

proof fn lemma_hex_digit_injective(a: int, b: int)
    requires
        0 <= a < 16,
        0 <= b < 16,
        hex_digit(a) == hex_digit(b),
    ensures
        a == b,
{
}

/// Different byte strings of one length have different hex text.
pub proof fn lemma_hex_injective(a: Seq<u8>, b: Seq<u8>)
    requires
        a.len() == b.len(),
        hex_spec(a) == hex_spec(b),
    ensures
        a == b,
    decreases a.len(),
{
    if a.len() > 0 {
        lemma_hex_len(a.drop_last());
        lemma_hex_len(b.drop_last());
        let ha = hex_spec(a.drop_last());
        let hb = hex_spec(b.drop_last());
        let n = ha.len() as int;
        let ta = seq![hex_digit(a.last() as int / 16), hex_digit(a.last() as int % 16)];
        let tb = seq![hex_digit(b.last() as int / 16), hex_digit(b.last() as int % 16)];
        assert(hex_spec(a) == ha + ta);
        assert(hex_spec(b) == hb + tb);
        assert(hex_spec(a)[n] == hex_spec(b)[n]);
        assert(hex_spec(a)[n + 1] == hex_spec(b)[n + 1]);
        assert((ha + ta)[n] == ta[0]);
        assert((hb + tb)[n] == tb[0]);
        assert((ha + ta)[n + 1] == ta[1]);
        assert((hb + tb)[n + 1] == tb[1]);
        lemma_hex_digit_injective(a.last() as int / 16, b.last() as int / 16);
        lemma_hex_digit_injective(a.last() as int % 16, b.last() as int % 16);
        assert(hex_spec(a).take(n) =~= ha);
        assert(hex_spec(b).take(n) =~= hb);
        lemma_hex_injective(a.drop_last(), b.drop_last());
        assert(a =~= a.drop_last().push(a.last()));
        assert(b =~= b.drop_last().push(b.last()));
    } else {
        assert(a =~= b);
    }
}

pub proof fn lemma_hex_len(a: Seq<u8>)
    ensures
        hex_spec(a).len() == 2 * a.len(),
    decreases a.len(),
{
    if a.len() > 0 {
        lemma_hex_len(a.drop_last());
    }
}


/// Every hashed file index points into `files`.
pub open spec fn hashes_valid(files: Seq<FileMetadata>, hashes: Seq<(usize, [u8; 32])>) -> bool {
    forall|p: int| 0 <= p < hashes.len() ==> (#[trigger] hashes[p]).0 < files.len()
}

/// Another hashed file has the same size and the same prefix digest as the one
/// at position `p`.
pub open spec fn prefix_shared(
    files: Seq<FileMetadata>,
    hashes: Seq<(usize, [u8; 32])>,
    p: int,
) -> bool {
    exists|q: int|
        0 <= q < hashes.len() && q != p && files[(#[trigger] hashes[q]).0 as int].size
            == files[hashes[p].0 as int].size && hashes[q].1@ == hashes[p].1@
}

/// The file indices at positions below `k` whose (size, prefix digest) is shared.
pub open spec fn confirm_upto(
    files: Seq<FileMetadata>,
    hashes: Seq<(usize, [u8; 32])>,
    k: int,
) -> Seq<usize>
    decreases k,
{
    if k <= 0 {
        seq![]
    } else if prefix_shared(files, hashes, k - 1) {
        confirm_upto(files, hashes, k - 1).push(hashes[k - 1].0)
    } else {
        confirm_upto(files, hashes, k - 1)
    }
}

/// Stage 2: from the prefix digests of the candidates, the files whose size
/// and prefix digest both match another file's, in the order of `hashes`.
pub fn prefix_matches(files: &[FileMetadata], hashes: &[(usize, [u8; 32])]) -> (confirm: Vec<usize>)
    requires
        hashes_valid(files@, hashes@),
    ensures
        confirm@ == confirm_upto(files@, hashes@, hashes@.len() as int),
{
    let n = hashes.len();
    let mut keys: Vec<KeyEntry> = Vec::new();
    let mut i: usize = 0;
    while i < n
        invariant
            i <= n,
            n == hashes@.len(),
            hashes_valid(files@, hashes@),
            keys@.len() == i,
            forall|p: int|
                0 <= p < i ==> (#[trigger] keys@[p]).pos == p && keys@[p].size == files@[hashes@[p].0 as int].size
                    && keys@[p].digest == hashes@[p].1,
        decreases n - i,
    {
        let (idx, digest) = hashes[i];
        keys.push(KeyEntry { size: files[idx].size, digest, pos: i });
        i = i + 1;
    }
    let ghost ks = keys@;
    let flags = mark_shared(keys);
    let mut out: Vec<usize> = Vec::new();
    let mut j: usize = 0;
    while j < n
        invariant
            j <= n,
            n == hashes@.len(),
            flags@.len() == n,
            ks.len() == n,
            forall|p: int| 0 <= p < n ==> flags@[p] == shared_at(ks, p),
            forall|p: int|
                0 <= p < n ==> (#[trigger] ks[p]).pos == p && ks[p].size == files@[hashes@[p].0 as int].size
                    && ks[p].digest == hashes@[p].1,
            out@ == confirm_upto(files@, hashes@, j as int),
        decreases n - j,
    {
        assert(flags@[j as int] == prefix_shared(files@, hashes@, j as int)) by {
            if shared_at(ks, j as int) {
                let q = choose|q: int| 0 <= q < ks.len() && q != j && (#[trigger] ks[q]).size == ks[j as int].size
                    && ks[q].digest@ == ks[j as int].digest@;
                assert(hashes@[q].1@ == hashes@[j as int].1@);
            }
            if prefix_shared(files@, hashes@, j as int) {
                let q = choose|q: int| 0 <= q < hashes@.len() && q != j && files@[(#[trigger] hashes@[q]).0 as int].size
                    == files@[hashes@[j as int].0 as int].size && hashes@[q].1@ == hashes@[j as int].1@;
                assert(ks[q].size == ks[j as int].size);
            }
        }
        if flags[j] {
            out.push(hashes[j].0);
        }
        j = j + 1;
    }
    out
}


/// Another hashed file has the same full digest as the one at position `p`.
pub open spec fn digest_shared(hashes: Seq<(usize, [u8; 32])>, p: int) -> bool {
    exists|q: int| 0 <= q < hashes.len() && q != p && (#[trigger] hashes[q]).1@ == hashes[p].1@
}

/// `pos` lists, once each, every position whose digest is `d`; there are at
/// least two.
pub open spec fn positions_of(pos: Seq<int>, hashes: Seq<(usize, [u8; 32])>, d: Seq<u8>) -> bool {
    &&& pos.len() >= 2
    &&& pos.no_duplicates()
    &&& forall|j: int|
        0 <= j < pos.len() ==> 0 <= #[trigger] pos[j] < hashes.len() && hashes[pos[j]].1@ == d
    &&& forall|p: int| 0 <= p < hashes.len() && (#[trigger] hashes[p]).1@ == d ==> pos.contains(p)
}

/// `g` is the duplicate set made of the hashed files at positions `pos`.
pub open spec fn group_of(
    g: DuplicateGroup,
    files: Seq<FileMetadata>,
    hashes: Seq<(usize, [u8; 32])>,
    pos: Seq<int>,
) -> bool {
    &&& positions_of(pos, hashes, hashes[pos[0]].1@)
    &&& g.members@ == pos.map_values(|p: int| hashes[p].0)
    &&& g.hash@ == hex_spec(hashes[pos[0]].1@)
    &&& g.size == files[g.members@[0] as int].size
}

/// `g` is the duplicate set of one full digest: all files with that digest,
/// its hex text, and their size.
pub open spec fn is_dup_group(
    g: DuplicateGroup,
    files: Seq<FileMetadata>,
    hashes: Seq<(usize, [u8; 32])>,
) -> bool {
    exists|pos: Seq<int>| #[trigger] group_of(g, files, hashes, pos)
}

/// Some group carries the hex text `h`.
pub open spec fn has_group(groups: Seq<DuplicateGroup>, h: Seq<char>) -> bool {
    exists|i: int| 0 <= i < groups.len() && (#[trigger] groups[i]).hash@ == h
}

impl Ranked for DuplicateGroup {
    open spec fn ranks_before(&self, other: &Self) -> bool {
        wasted_spec(self.size, self.members@.len()) > wasted_spec(other.size, other.members@.len())
    }

    proof fn lemma_rank_order(a: &Self, b: &Self, c: &Self) {
    }

    fn rank_against(&self, other: &Self) -> (r: i8) {
        let a = self.wasted();
        let b = other.wasted();
        if a > b {
            -1
        } else if a < b {
            1
        } else {
            0
        }
    }
}

spec fn key_slots(ks: Seq<KeyEntry>, hashes: Seq<(usize, [u8; 32])>) -> bool {
    &&& ks.len() == hashes.len()
    &&& forall|p: int|
        0 <= p < ks.len() ==> (#[trigger] ks[p]).pos == p && ks[p].size == 0 && ks[p].digest
            == hashes[p].1
}

/// The group of the run `[i, j)` of sorted entries.
fn run_group(
    files: &[FileMetadata],
    hashes: &[(usize, [u8; 32])],
    sorted: &Vec<KeyEntry>,
    i: usize,
    j: usize,
    Ghost(ks): Ghost<Seq<KeyEntry>>,
) -> (g: DuplicateGroup)
    requires
        hashes_valid(files@, hashes@),
        key_slots(ks, hashes@),
        sorted@.len() == ks.len(),
        rank_sorted(sorted@),
        forall|u: int| 0 <= u < sorted@.len() ==> 0 <= (#[trigger] sorted@[u]).pos < ks.len() && ks[sorted@[u].pos as int] == sorted@[u],
        forall|a: int, b: int| 0 <= a < sorted@.len() && 0 <= b < sorted@.len() && (#[trigger] sorted@[a]).pos == (#[trigger] sorted@[b]).pos ==> a == b,
        forall|p: int| 0 <= p < ks.len() ==> sorted@.contains(#[trigger] ks[p]),
        i + 2 <= j <= sorted@.len(),
        i == 0 || !same_rank(sorted@[i - 1], sorted@[i as int]),
        j == sorted@.len() || !same_rank(sorted@[j as int], sorted@[i as int]),
        forall|t: int| i <= t < j ==> same_rank(#[trigger] sorted@[t], sorted@[i as int]),
    ensures
        group_of(g, files@, hashes@, Seq::new((j - i) as nat, |t: int| sorted@[i + t].pos as int)),
        g.hash@ == hex_spec(sorted@[i as int].digest@),
{
    let ghost pos = Seq::new((j - i) as nat, |t: int| sorted@[i + t].pos as int);
    let ghost d = sorted@[i as int].digest@;
    let mut members: Vec<usize> = Vec::new();
    let mut t = i;
    while t < j
        invariant
            i <= t <= j,
            j <= sorted@.len(),
            hashes_valid(files@, hashes@),
            key_slots(ks, hashes@),
            forall|u: int| 0 <= u < sorted@.len() ==> 0 <= (#[trigger] sorted@[u]).pos < ks.len() && ks[sorted@[u].pos as int] == sorted@[u],
            pos == Seq::new((j - i) as nat, |t: int| sorted@[i + t].pos as int),
            members@ == pos.take(t - i).map_values(|p: int| hashes@[p].0),
        decreases j - t,
    {
        let p = sorted[t].pos;
        members.push(hashes[p].0);
        assert(pos.take(t + 1 - i) =~= pos.take(t - i).push(p as int));
        assert(members@ =~= pos.take(t + 1 - i).map_values(|p: int| hashes@[p].0));
        t = t + 1;
    }
    assert(pos.take(j - i) =~= pos);
    proof {
        assert forall|u: int| 0 <= u < pos.len() implies 0 <= #[trigger] pos[u] < hashes@.len() && hashes@[pos[u]].1@ == d by {
            lemma_same_rank_is_same_key(sorted@[i + u], sorted@[i as int]);
            assert(ks[pos[u]] == sorted@[i + u]);
        }
        assert(pos.no_duplicates()) by {
            assert forall|a: int, b: int| 0 <= a < pos.len() && 0 <= b < pos.len() && a != b implies pos[a] != pos[b] by {
                assert(pos[a] == sorted@[i + a].pos);
                assert(pos[b] == sorted@[i + b].pos);
            }
        }
        assert forall|p: int| 0 <= p < hashes@.len() && (#[trigger] hashes@[p]).1@ == d implies pos.contains(p) by {
            assert(sorted@.contains(ks[p]));
            let tp = choose|tp: int| 0 <= tp < sorted@.len() && sorted@[tp] == ks[p];
            assert(ks[p].pos == p);
            lemma_same_rank_is_same_key(sorted@[tp], sorted@[i as int]);
            assert(same_rank(sorted@[tp], sorted@[i as int]));
            if tp < i {
                if tp < i - 1 {
                    lemma_same_rank_between(sorted@, tp, i - 1, i as int);
                }
                assert(false);
            }
            if tp >= j {
                if tp > j {
                    lemma_same_rank_between(sorted@, i as int, j as int, tp);
                }
                lemma_same_rank_is_same_key(sorted@[j as int], sorted@[i as int]);
                lemma_same_rank_is_same_key(sorted@[i as int], sorted@[j as int]);
                assert(false);
            }
            assert(pos[tp - i] == p);
        }
        assert(pos[0] == sorted@[i as int].pos);
        assert(hashes@[pos[0]].1@ == d);
    }
    let first = members[0];
    let g = DuplicateGroup { size: files[first].size, hash: to_hex(&sorted[i].digest), members };
    g
}


/// What stage 3 promises of its groups: each is the set of one shared
/// digest, no two share a digest, every shared digest has its group, and the
/// sets come largest reclaimable size first.
pub open spec fn groups_spec(
    groups: Seq<DuplicateGroup>,
    files: Seq<FileMetadata>,
    hashes: Seq<(usize, [u8; 32])>,
) -> bool {
    &&& forall|i: int| 0 <= i < groups.len() ==> is_dup_group(#[trigger] groups[i], files, hashes)
    &&& forall|i: int, j: int|
        0 <= i < groups.len() && 0 <= j < groups.len() && i != j ==> (#[trigger] groups[i]).hash@
            != (#[trigger] groups[j]).hash@
    &&& forall|p: int|
        0 <= p < hashes.len() && digest_shared(hashes, p) ==> has_group(
            groups,
            hex_spec((#[trigger] hashes[p]).1@),
        )
}

proof fn lemma_sorted_dup_groups(
    sg: Seq<DuplicateGroup>,
    gs: Seq<DuplicateGroup>,
    files: Seq<FileMetadata>,
    hashes: Seq<(usize, [u8; 32])>,
)
    requires
        groups_spec(gs, files, hashes),
        sg.to_multiset() == gs.to_multiset(),
    ensures
        groups_spec(sg, files, hashes),
{
    sg.to_multiset_ensures();
    gs.to_multiset_ensures();
    assert forall|i: int| 0 <= i < sg.len() implies gs.contains(#[trigger] sg[i]) by {
        assert(sg.to_multiset().count(sg[i]) > 0);
    }
    assert(gs.no_duplicates()) by {
        assert forall|a: int, b: int| 0 <= a < gs.len() && 0 <= b < gs.len() && a != b implies gs[a]
            != gs[b] by {
            assert(gs[a].hash@ != gs[b].hash@);
        }
    }
    gs.lemma_multiset_has_no_duplicates();
    sg.lemma_multiset_has_no_duplicates_conv();
    assert forall|i: int| 0 <= i < sg.len() implies is_dup_group(#[trigger] sg[i], files, hashes) by {
        assert(gs.contains(sg[i]));
    }
    assert forall|i: int, j: int|
        0 <= i < sg.len() && 0 <= j < sg.len() && i != j implies (#[trigger] sg[i]).hash@
            != (#[trigger] sg[j]).hash@ by {
        assert(gs.contains(sg[i]));
        assert(gs.contains(sg[j]));
        let a = choose|a: int| 0 <= a < gs.len() && gs[a] == sg[i];
        let b = choose|b: int| 0 <= b < gs.len() && gs[b] == sg[j];
        if sg[i].hash@ == sg[j].hash@ {
            assert(a == b);
        }
    }
    assert forall|p: int|
        0 <= p < hashes.len() && digest_shared(hashes, p) implies has_group(
            sg,
            hex_spec((#[trigger] hashes[p]).1@),
        ) by {
        let i = choose|i: int| 0 <= i < gs.len() && (#[trigger] gs[i]).hash@ == hex_spec(hashes[p].1@);
        assert(gs.to_multiset().count(gs[i]) > 0);
        assert(sg.contains(gs[i]));
        let k = choose|k: int| 0 <= k < sg.len() && sg[k] == gs[i];
        assert(sg[k].hash@ == hex_spec(hashes[p].1@));
    }
}

/// Groups in rank order come largest reclaimable space first: an earlier
/// group never frees less than a later one by deleting all but one copy.
pub proof fn law_groups_by_waste(groups: Seq<DuplicateGroup>)
    requires
        rank_sorted(groups),
    ensures
        forall|i: int, j: int|
            0 <= i < j < groups.len() ==> wasted_spec(
                #[trigger] groups[i].size,
                groups[i].members@.len(),
            ) >= wasted_spec(#[trigger] groups[j].size, groups[j].members@.len()),
{
    assert forall|i: int, j: int| 0 <= i < j < groups.len() implies wasted_spec(
        #[trigger] groups[i].size,
        groups[i].members@.len(),
    ) >= wasted_spec(#[trigger] groups[j].size, groups[j].members@.len()) by {
        assert(!groups[j].ranks_before(&groups[i]));
    }
}

/// Stage 3: from the full digests of the remaining files, the duplicate sets
/// (files whose full digests match), largest reclaimable size first.
pub fn full_groups(files: &[FileMetadata], hashes: &[(usize, [u8; 32])]) -> (groups: Vec<
    DuplicateGroup,
>)
    requires
        hashes_valid(files@, hashes@),
    ensures
        groups_spec(groups@, files@, hashes@),
        rank_sorted(groups@),
        forall|i: int, j: int|
            0 <= i < j < groups@.len() ==> wasted_spec(
                #[trigger] groups@[i].size,
                groups@[i].members@.len(),
            ) >= wasted_spec(#[trigger] groups@[j].size, groups@[j].members@.len()),
        forall|g: int, m: int|
            0 <= g < groups@.len() && 0 <= m < groups@[g].members@.len() ==> (
            #[trigger] groups@[g].members@[m]) < files@.len(),
{
    let n = hashes.len();
    let mut keys: Vec<KeyEntry> = Vec::new();
    let mut k: usize = 0;
    while k < n
        invariant
            k <= n,
            n == hashes@.len(),
            keys@.len() == k,
            forall|p: int|
                0 <= p < k ==> (#[trigger] keys@[p]).pos == p && keys@[p].size == 0 && keys@[p].digest
                    == hashes@[p].1,
        decreases n - k,
    {
        keys.push(KeyEntry { size: 0, digest: hashes[k].1, pos: k });
        k = k + 1;
    }
    let ghost ks = keys@;
    assert(key_slots(ks, hashes@));
    let mut sorted = keys;
    sort_ranked(&mut sorted);
    proof {
        lemma_sorted_slots(sorted@, ks);
    }
    let mut groups: Vec<DuplicateGroup> = Vec::new();
    let ghost mut starts: Seq<int> = seq![];
    let mut i: usize = 0;
    while i < n
        invariant
            i <= n,
            n == sorted@.len(),
            n == hashes@.len(),
            hashes_valid(files@, hashes@),
            key_slots(ks, hashes@),
            rank_sorted(sorted@),
            forall|u: int| 0 <= u < sorted@.len() ==> 0 <= (#[trigger] sorted@[u]).pos < ks.len() && ks[sorted@[u].pos as int] == sorted@[u],
            forall|a: int, b: int| 0 <= a < sorted@.len() && 0 <= b < sorted@.len() && (#[trigger] sorted@[a]).pos == (#[trigger] sorted@[b]).pos ==> a == b,
            forall|p: int| 0 <= p < ks.len() ==> sorted@.contains(#[trigger] ks[p]),
            i == 0 || i == n || !same_rank(sorted@[i - 1], sorted@[i as int]),
            starts.len() == groups@.len(),
            forall|g: int| 0 <= g < groups@.len() ==> is_dup_group(#[trigger] groups@[g], files@, hashes@),
            forall|g: int| 0 <= g < groups@.len() ==> 0 <= #[trigger] starts[g] < i && groups@[g].hash@ == hex_spec(sorted@[starts[g]].digest@),
            forall|g: int, t: int| 0 <= g < groups@.len() && i <= t < n ==> !same_rank(#[trigger] sorted@[t], sorted@[#[trigger] starts[g]]),
            forall|a: int, b: int| 0 <= a < groups@.len() && 0 <= b < groups@.len() && a != b ==> (#[trigger] groups@[a]).hash@ != (#[trigger] groups@[b]).hash@,
            forall|t: int| 0 <= t < i && (exists|u: int| 0 <= u < sorted@.len() && u != t && same_rank(sorted@[u], #[trigger] sorted@[t])) ==> has_group(groups@, hex_spec(sorted@[t].digest@)),
        decreases n - i,
    {
        let mut j = i + 1;
        proof {
            lemma_same_rank_is_same_key(sorted@[i as int], sorted@[i as int]);
        }
        while j < n && same_key(&sorted[j], &sorted[i])
            invariant
                i < j <= n,
                n == sorted@.len(),
                forall|t: int| i <= t < j ==> same_rank(#[trigger] sorted@[t], sorted@[i as int]),
            decreases n - j,
        {
            j = j + 1;
        }
        assert(j == n || !same_rank(sorted@[j as int], sorted@[i as int]));
        proof {
            if j < n {
                lemma_same_rank_is_same_key(sorted@[j - 1], sorted@[i as int]);
                lemma_same_rank_is_same_key(sorted@[j as int], sorted@[i as int]);
                lemma_same_rank_is_same_key(sorted@[j - 1], sorted@[j as int]);
            }
        }
        let ghost old_groups = groups@;
        let ghost old_starts = starts;
        if j - i >= 2 {
            let g = run_group(files, hashes, &sorted, i, j, Ghost(ks));
            proof {
                let pos = Seq::new((j - i) as nat, |t: int| sorted@[i + t].pos as int);
                assert(group_of(g, files@, hashes@, pos));
                lemma_hex_len(sorted@[i as int].digest@);
                assert forall|a: int| 0 <= a < old_groups.len() implies old_groups[a].hash@ != g.hash@ by {
                    let sa = old_starts[a];
                    assert(!same_rank(sorted@[i as int], sorted@[sa]));
                    lemma_same_rank_is_same_key(sorted@[i as int], sorted@[sa]);
                    if old_groups[a].hash@ == g.hash@ {
                        lemma_hex_injective(sorted@[sa].digest@, sorted@[i as int].digest@);
                    }
                }
            }
            groups.push(g);
            proof {
                starts = starts.push(i as int);
            }
        }
        proof {
            assert forall|g: int, t: int| 0 <= g < groups@.len() && j <= t < n implies !same_rank(#[trigger] sorted@[t], sorted@[#[trigger] starts[g]]) by {
                if g == old_groups.len() {
                    if same_rank(sorted@[t], sorted@[i as int]) {
                        if t > j {
                            lemma_same_rank_between(sorted@, i as int, j as int, t);
                        }
                        lemma_same_rank_is_same_key(sorted@[t], sorted@[i as int]);
                        lemma_same_rank_is_same_key(sorted@[i as int], sorted@[t]);
                        lemma_same_rank_is_same_key(sorted@[j as int], sorted@[i as int]);
                        lemma_same_rank_is_same_key(sorted@[i as int], sorted@[j as int]);
                    }
                }
            }
            assert forall|t: int| 0 <= t < j && (exists|u: int| 0 <= u < sorted@.len() && u != t && same_rank(sorted@[u], #[trigger] sorted@[t])) implies has_group(groups@, hex_spec(sorted@[t].digest@)) by {
                if t < i {
                    let q = choose|q: int| 0 <= q < old_groups.len() && (#[trigger] old_groups[q]).hash@ == hex_spec(sorted@[t].digest@);
                    assert(groups@[q] == old_groups[q]);
                } else {
                    lemma_same_rank_neighbour(sorted@, t);
                    lemma_same_rank_is_same_key(sorted@[t], sorted@[i as int]);
                    if j - i < 2 {
                        assert(t == i);
                        if t > 0 && same_rank(sorted@[t - 1], sorted@[t]) {
                            assert(false);
                        }
                        if t + 1 < n && same_rank(sorted@[t + 1], sorted@[t]) {
                            assert(t + 1 == j);
                            lemma_same_rank_is_same_key(sorted@[j as int], sorted@[i as int]);
                            lemma_same_rank_is_same_key(sorted@[t + 1], sorted@[t]);
                            assert(false);
                        }
                    } else {
                        let last = groups@.len() - 1;
                        assert(groups@[last].hash@ == hex_spec(sorted@[i as int].digest@));
                    }
                }
            }
        }
        i = j;
    }
    proof {
        assert forall|p: int|
            0 <= p < hashes@.len() && digest_shared(hashes@, p) implies has_group(
                groups@,
                hex_spec((#[trigger] hashes@[p]).1@),
            ) by {
            assert(sorted@.contains(ks[p]));
            let t = choose|t: int| 0 <= t < sorted@.len() && sorted@[t] == ks[p];
            let q = choose|q: int| 0 <= q < hashes@.len() && q != p && (#[trigger] hashes@[q]).1@ == hashes@[p].1@;
            assert(sorted@.contains(ks[q]));
            let u = choose|u: int| 0 <= u < sorted@.len() && sorted@[u] == ks[q];
            assert(ks[p].pos == p);
            assert(ks[q].pos == q);
            lemma_same_rank_is_same_key(sorted@[u], sorted@[t]);
            assert(u != t);
            assert(same_rank(sorted@[u], sorted@[t]));
        }
    }
    let ghost gs = groups@;
    sort_ranked(&mut groups);
    proof {
        lemma_sorted_dup_groups(groups@, gs, files@, hashes@);
        law_groups_by_waste(groups@);
        assert forall|g: int, m: int|
            0 <= g < groups@.len() && 0 <= m < groups@[g].members@.len() implies (
            #[trigger] groups@[g].members@[m]) < files@.len() by {
            assert(is_dup_group(groups@[g], files@, hashes@));
            let pos = choose|pos: Seq<int>| #[trigger] group_of(groups@[g], files@, hashes@, pos);
            assert(groups@[g].members@[m] == hashes@[pos[m]].0);
        }
    }
    groups
}

/// The prefix digest of a content: blake3 of its first `PREFIX_LIMIT` bytes.
pub open spec fn prefix_digest(content: Seq<u8>) -> Seq<u8> {
    blake3_digest(
        if content.len() <= PREFIX_LIMIT {
            content
        } else {
            content.take(PREFIX_LIMIT as int)
        },
    )
}

/// `hashes` digests, in order, the files listed in `items`, each with
/// `digest` of its content.
pub open spec fn digests_of(
    hashes: Seq<(usize, [u8; 32])>,
    items: Seq<usize>,
    contents: Seq<Seq<u8>>,
    full: bool,
) -> bool {
    &&& hashes.len() == items.len()
    &&& forall|k: int|
        0 <= k < hashes.len() ==> (#[trigger] hashes[k]).0 == items[k] && hashes[k].1@ == (if full {
            blake3_digest(contents[items[k] as int])
        } else {
            prefix_digest(contents[items[k] as int])
        })
}

proof fn lemma_candidates_contains(files: Seq<FileMetadata>, k: int, x: usize)
    requires
        0 <= k <= files.len(),
        x < k,
        is_size_candidate(files, x as int),
    ensures
        candidates_upto(files, k).contains(x),
    decreases k,
{
    if x < k - 1 {
        lemma_candidates_contains(files, k - 1, x);
        let c = candidates_upto(files, k - 1);
        let i = choose|i: int| 0 <= i < c.len() && c[i] == x;
        assert(candidates_upto(files, k)[i] == x);
    } else {
        let c = candidates_upto(files, k);
        assert(c[c.len() - 1] == x);
    }
}

proof fn lemma_confirm_contains(
    files: Seq<FileMetadata>,
    hashes: Seq<(usize, [u8; 32])>,
    k: int,
    p: int,
)
    requires
        0 <= p < k <= hashes.len(),
        prefix_shared(files, hashes, p),
    ensures
        confirm_upto(files, hashes, k).contains(hashes[p].0),
    decreases k,
{
    if p < k - 1 {
        lemma_confirm_contains(files, hashes, k - 1, p);
        let c = confirm_upto(files, hashes, k - 1);
        let i = choose|i: int| 0 <= i < c.len() && c[i] == hashes[p].0;
        assert(confirm_upto(files, hashes, k)[i] == hashes[p].0);
    } else {
        let c = confirm_upto(files, hashes, k);
        assert(c[c.len() - 1] == hashes[p].0);
    }
}

/// The duplicate funnel run end to end on files whose contents are
/// `contents` (each file's size is its content's length), with every file
/// read successfully: stage 1 gives `cands`, their prefix digests `ph` give
/// `confirm` in stage 2, and their full digests `fh` give `groups` in
/// stage 3. Then two different non-empty files with the same content end up
/// in one group, and the members of a group all have the same full digest.
pub proof fn law_funnel_groups_equal_contents(
    files: Seq<FileMetadata>,
    contents: Seq<Seq<u8>>,
    cands: Seq<usize>,
    ph: Seq<(usize, [u8; 32])>,
    confirm: Seq<usize>,
    fh: Seq<(usize, [u8; 32])>,
    groups: Seq<DuplicateGroup>,
    i: usize,
    j: usize,
)
    requires
        contents.len() == files.len(),
        forall|f: int| 0 <= f < files.len() ==> (#[trigger] files[f]).size == contents[f].len(),
        cands == candidates_upto(files, files.len() as int),
        digests_of(ph, cands, contents, false),
        confirm == confirm_upto(files, ph, ph.len() as int),
        digests_of(fh, confirm, contents, true),
        groups_spec(groups, files, fh),
    ensures
        i < files.len() && j < files.len() && i != j && contents[i as int] == contents[j as int]
            && contents[i as int].len() > 0 ==> exists|g: int|
            0 <= g < groups.len() && (#[trigger] groups[g]).members@.contains(i)
                && groups[g].members@.contains(j),
        forall|g: int, a: int, b: int|
            0 <= g < groups.len() && 0 <= a < groups[g].members@.len() && 0 <= b
                < groups[g].members@.len() ==> blake3_digest(
                contents[(#[trigger] groups[g].members@[a]) as int],
            ) == blake3_digest(contents[(#[trigger] groups[g].members@[b]) as int]),
{
    assert forall|g: int, a: int, b: int|
        0 <= g < groups.len() && 0 <= a < groups[g].members@.len() && 0 <= b
            < groups[g].members@.len() implies blake3_digest(
            contents[(#[trigger] groups[g].members@[a]) as int],
        ) == blake3_digest(contents[(#[trigger] groups[g].members@[b]) as int]) by {
        assert(is_dup_group(groups[g], files, fh));
        let pos = choose|pos: Seq<int>| #[trigger] group_of(groups[g], files, fh, pos);
        assert(groups[g].members@[a] == fh[pos[a]].0);
        assert(groups[g].members@[b] == fh[pos[b]].0);
        assert(fh[pos[a]].1@ == fh[pos[0]].1@);
        assert(fh[pos[b]].1@ == fh[pos[0]].1@);
    }
    if i < files.len() && j < files.len() && i != j && contents[i as int] == contents[j as int]
        && contents[i as int].len() > 0 {
        let n = files.len() as int;
        // Stage 1: both files share a non-zero size.
        law_size_candidate_has_twin(files, i as int);
        law_size_candidate_has_twin(files, j as int);
        assert(files[j as int].size == files[i as int].size);
        lemma_candidates_contains(files, n, i);
        lemma_candidates_contains(files, n, j);
        let pi = choose|pi: int| 0 <= pi < cands.len() && cands[pi] == i;
        let pj = choose|pj: int| 0 <= pj < cands.len() && cands[pj] == j;
        // Stage 2: same size and same prefix digest.
        assert(ph[pi].0 == i && ph[pj].0 == j);
        assert(ph[pi].1@ == ph[pj].1@);
        assert(prefix_shared(files, ph, pi));
        assert(prefix_shared(files, ph, pj));
        lemma_confirm_contains(files, ph, ph.len() as int, pi);
        lemma_confirm_contains(files, ph, ph.len() as int, pj);
        let qi = choose|qi: int| 0 <= qi < confirm.len() && confirm[qi] == i;
        let qj = choose|qj: int| 0 <= qj < confirm.len() && confirm[qj] == j;
        // Stage 3: same full digest, so a group holds both.
        assert(fh[qi].0 == i && fh[qj].0 == j);
        let d = fh[qi].1@;
        assert(fh[qj].1@ == d);
        assert(digest_shared(fh, qi));
        assert(has_group(groups, hex_spec(fh[qi].1@)));
        let g = choose|g: int| 0 <= g < groups.len() && (#[trigger] groups[g]).hash@ == hex_spec(d);
        assert(is_dup_group(groups[g], files, fh));
        let pos = choose|pos: Seq<int>| #[trigger] group_of(groups[g], files, fh, pos);
        let d0 = fh[pos[0]].1@;
        lemma_hex_injective(d0, d);
        assert(pos.contains(qi));
        assert(pos.contains(qj));
        let ai = choose|a: int| 0 <= a < pos.len() && pos[a] == qi;
        let aj = choose|a: int| 0 <= a < pos.len() && pos[a] == qj;
        assert(groups[g].members@[ai] == i);
        assert(groups[g].members@[aj] == j);
        assert(groups[g].members@.contains(i));
        assert(groups[g].members@.contains(j));
    }
}

} // verus!
