//! Filtering and sorting over the scanned file list.
//!
//! The file list is never changed; these functions produce and order lists of
//! indices into it, which the table shows.

use std::cmp::Ordering;

use rayon::iter::{IndexedParallelIterator, IntoParallelRefIterator, ParallelIterator};
use rayon::slice::ParallelSliceMut;
use vstd::prelude::*;

use crate::clock::{age_cutoff, age_cutoff_spec, unix_now_nanos};
use crate::models::{category_of, Category, FileMetadata, FilterState, SortKey};
use crate::text::{chars_of, lex_compare, lex_order, lowercase, to_lowercase};
use crate::winpath::{display_name_spec, file_name_spec, parse_spec};

verus! {

/// Whether `f` passes the size, category and age parts of `filter`, where
/// `cutoff` is the age limit (files must be modified strictly before it).
pub open spec fn matches_spec(f: FileMetadata, filter: FilterState, cutoff: Option<i128>) -> bool {
    &&& f.size >= filter.min_size
    &&& match filter.category {
        Some(c) => category_of(f.extension@) == c,
        None => true,
    }
    &&& match cutoff {
        Some(t) => match f.modified {
            Some(m) => m < t,
            None => false,
        },
        None => true,
    }
}

/// The indices below `k` of files that pass the filter, in increasing order.
pub open spec fn matching(
    files: Seq<FileMetadata>,
    filter: FilterState,
    cutoff: Option<i128>,
    k: int,
) -> Seq<usize>
    decreases k,
{
    if k <= 0 {
        seq![]
    } else {
        let prev = matching(files, filter, cutoff, k - 1);
        if matches_spec(files[k - 1], filter, cutoff) {
            prev.push((k - 1) as usize)
        } else {
            prev
        }
    }
}

/// The age limit that `filter` sets at time `now` (nanoseconds since the epoch).
pub open spec fn cutoff_of(filter: FilterState, now: i128) -> Option<i128> {
    match filter.min_age_days {
        Some(d) => Some(age_cutoff_spec(now, d)),
        None => None,
    }
}

/// The sort key of the name column: the lower-cased file name.
pub open spec fn name_key(f: FileMetadata) -> Seq<char> {
    lowercase(display_name_spec(f.path@))
}

pub open spec fn opt_time_order(a: Option<i128>, b: Option<i128>) -> int {
    match (a, b) {
        (None, None) => 0,
        (None, Some(_)) => -1,
        (Some(_), None) => 1,
        (Some(x), Some(y)) => if x < y {
            -1
        } else if x > y {
            1
        } else {
            0
        },
    }
}

/// Three-way comparison (-1, 0, 1) of two files by a column.
pub open spec fn key_order(a: FileMetadata, b: FileMetadata, key: SortKey) -> int {
    match key {
        SortKey::Size => if a.size < b.size {
            -1
        } else if a.size > b.size {
            1
        } else {
            0
        },
        SortKey::Name => lex_order(name_key(a), name_key(b)),
        SortKey::Modified => opt_time_order(a.modified, b.modified),
    }
}

proof fn lemma_lex_order_reflexive(a: Seq<char>)
    ensures
        lex_order(a, a) == 0,
    decreases a.len(),
{
    if a.len() > 0 {
        lemma_lex_order_reflexive(a.drop_first());
    }
}

/// The name column compares files by their file names alone (lower-cased):
/// the folders they sit in play no part, so two files with the same name
/// compare equal, and replacing a file by another with the same name leaves
/// every comparison as it was.
pub proof fn law_name_order_by_file_name(a: FileMetadata, a2: FileMetadata, b: FileMetadata)
    ensures
        file_name_spec(parse_spec(a.path@)) is Some && file_name_spec(parse_spec(a.path@))
            == file_name_spec(parse_spec(a2.path@)) ==> key_order(a, a2, SortKey::Name) == 0
            && key_order(a, b, SortKey::Name) == key_order(a2, b, SortKey::Name),
{
    if file_name_spec(parse_spec(a.path@)) is Some && file_name_spec(parse_spec(a.path@))
        == file_name_spec(parse_spec(a2.path@)) {
        assert(name_key(a) == name_key(a2));
        lemma_lex_order_reflexive(name_key(a));
    }
}

/// The size column orders by size, and the modified column by time, with
/// files of unknown time before all others.
pub proof fn law_size_and_time_order(a: FileMetadata, b: FileMetadata)
    ensures
        (key_order(a, b, SortKey::Size) < 0) == (a.size < b.size),
        (key_order(a, b, SortKey::Size) == 0) == (a.size == b.size),
        a.modified is None && b.modified is Some ==> key_order(a, b, SortKey::Modified) < 0,
        a.modified is Some && b.modified is Some ==> ((key_order(a, b, SortKey::Modified) < 0)
            == (a.modified->Some_0 < b.modified->Some_0)),
        a.modified == b.modified ==> key_order(a, b, SortKey::Modified) == 0,
{
}

/// A file passes the filter exactly when it is at least the minimum size, of
/// the chosen category (if any), and, with an age limit, modified strictly
/// before the cutoff.
pub proof fn law_filter_conditions(f: FileMetadata, filter: FilterState, cutoff: Option<i128>)
    ensures
        f.size < filter.min_size ==> !matches_spec(f, filter, cutoff),
        filter.category matches Some(c) && category_of(f.extension@) != c ==> !matches_spec(
            f,
            filter,
            cutoff,
        ),
        cutoff is Some && f.modified is None ==> !matches_spec(f, filter, cutoff),
        cutoff matches Some(t) && f.modified matches Some(m) && m >= t ==> !matches_spec(
            f,
            filter,
            cutoff,
        ),
        f.size >= filter.min_size && filter.category is None && cutoff is None ==> matches_spec(
            f,
            filter,
            cutoff,
        ),
{
}

/// Whether file index `a` comes strictly before `b` in the given column and direction.
pub open spec fn index_before(
    files: Seq<FileMetadata>,
    key: SortKey,
    ascending: bool,
    a: usize,
    b: usize,
) -> bool {
    if ascending {
        key_order(files[a as int], files[b as int], key) == -1
    } else {
        key_order(files[a as int], files[b as int], key) == 1
    }
}

/// `s` is ordered: no element comes strictly before an earlier one.
pub open spec fn sorted_by(
    s: Seq<usize>,
    files: Seq<FileMetadata>,
    key: SortKey,
    ascending: bool,
) -> bool {
    forall|i: int, j: int|
        0 <= i < j < s.len() ==> !index_before(files, key, ascending, #[trigger] s[j], #[trigger] s[i])
}

/// Every index in `s` points into `files`.
pub open spec fn indices_valid(s: Seq<usize>, files: Seq<FileMetadata>) -> bool {
    forall|i: int| 0 <= i < s.len() ==> #[trigger] s[i] < files.len()
}

/// `p` holds the indices of `m`, largest file first.
pub open spec fn is_size_ranking(p: Seq<usize>, m: Seq<usize>, files: Seq<FileMetadata>) -> bool {
    p.to_multiset() == m.to_multiset() && sorted_by(p, files, SortKey::Size, false)
}

pub open spec fn min_len(n: usize, len: int) -> int {
    if (n as int) < len {
        n as int
    } else {
        len
    }
}

/// What `apply` returns at time `now`: the matching indices in order, or, with
/// `top_n`, the first `n` of them once ranked largest first.
pub open spec fn apply_result(
    files: Seq<FileMetadata>,
    filter: FilterState,
    now: i128,
    r: Seq<usize>,
) -> bool {
    let m = matching(files, filter, cutoff_of(filter, now), files.len() as int);
    match filter.top_n {
        None => r == m,
        Some(n) => exists|p: Seq<usize>|
            is_size_ranking(p, m, files) && r == #[trigger] p.take(min_len(n, m.len() as int)),
    }
}

/// Day counts for which the age filter's arithmetic stays in range.
pub open spec fn age_in_range(filter: FilterState) -> bool {
    match filter.min_age_days {
        Some(d) => d * 86400 <= u64::MAX,
        None => true,
    }
}

pub proof fn lemma_matching_props(
    files: Seq<FileMetadata>,
    filter: FilterState,
    cutoff: Option<i128>,
    k: int,
)
    requires
        0 <= k <= files.len(),
        files.len() <= usize::MAX,
    ensures
        forall|i: int|
            0 <= i < matching(files, filter, cutoff, k).len() ==> #[trigger] matching(
                files,
                filter,
                cutoff,
                k,
            )[i] < k,
        forall|i: int, j: int|
            0 <= i < j < matching(files, filter, cutoff, k).len() ==> #[trigger] matching(
                files,
                filter,
                cutoff,
                k,
            )[i] < #[trigger] matching(files, filter, cutoff, k)[j],
        forall|x: usize|
            matching(files, filter, cutoff, k).contains(x) <==> (x < k && matches_spec(
                files[x as int],
                filter,
                cutoff,
            )),
    decreases k,
{
    if k > 0 {
        lemma_matching_props(files, filter, cutoff, k - 1);
        let prev = matching(files, filter, cutoff, k - 1);
        let cur = matching(files, filter, cutoff, k);
        assert forall|x: usize| cur.contains(x) <==> (x < k && matches_spec(
            files[x as int],
            filter,
            cutoff,
        )) by {
            if cur.contains(x) {
                let i = choose|i: int| 0 <= i < cur.len() && cur[i] == x;
                if i < prev.len() {
                    assert(prev.contains(x));
                }
            }
            if x < k && matches_spec(files[x as int], filter, cutoff) {
                if x < k - 1 {
                    assert(prev.contains(x));
                    let i = choose|i: int| 0 <= i < prev.len() && prev[i] == x;
                    assert(cur[i] == x);
                } else {
                    assert(cur[cur.len() - 1] == x);
                }
            }
        }
    }
}

/// Whether one file passes the filter with the given age limit.
pub fn file_matches(f: &FileMetadata, filter: &FilterState, cutoff: Option<i128>) -> (r: bool)
    ensures
        r == matches_spec(*f, *filter, cutoff),
{
    if f.size < filter.min_size {
        return false;
    }
    match filter.category {
        Some(c) => {
            if f.category() != c {
                return false;
            }
        },
        None => {},
    }
    match cutoff {
        Some(t) => match f.modified {
            Some(m) => m < t,
            None => false,
        },
        None => true,
    }
}

/// rayon's parallel filter over the file list (`par_iter().enumerate().filter(..)
/// .map(..).collect()`): the indices of the files for which `file_matches`
/// holds, in increasing order (rayon's collect into a `Vec` keeps the order).
#[verifier::external_body]
fn par_matching(files: &[FileMetadata], filter: &FilterState, cutoff: Option<i128>) -> (r: Vec<
    usize,
>)
    ensures
        r@ == matching(files@, *filter, cutoff, files@.len() as int),
{
    files.par_iter().enumerate().filter(|(_, f)| file_matches(f, filter, cutoff)).map(
        |(i, _)| i,
    ).collect()
}

/// Three-way comparison of two files by a column (-1, 0, 1).
pub fn key_compare(a: &FileMetadata, b: &FileMetadata, key: SortKey) -> (r: i8)
    ensures
        r as int == key_order(*a, *b, key),
{
    match key {
        SortKey::Size => {
            if a.size < b.size {
                -1
            } else if a.size > b.size {
                1
            } else {
                0
            }
        },
        SortKey::Name => {
            let na = to_lowercase(a.name().as_str());
            let nb = to_lowercase(b.name().as_str());
            let ca = chars_of(na.as_str());
            let cb = chars_of(nb.as_str());
            lex_compare(ca.as_slice(), cb.as_slice())
        },
        SortKey::Modified => match (a.modified, b.modified) {
            (None, None) => 0,
            (None, Some(_)) => -1,
            (Some(_), None) => 1,
            (Some(x), Some(y)) => {
                if x < y {
                    -1
                } else if x > y {
                    1
                } else {
                    0
                }
            },
        },
    }
}

pub proof fn lemma_key_order_antisymmetric(a: FileMetadata, b: FileMetadata, key: SortKey)
    ensures
        key_order(a, b, key) == -key_order(b, a, key),
        -1 <= key_order(a, b, key) <= 1,
{
    crate::text::lemma_lex_order_antisymmetric(name_key(a), name_key(b));
}

pub proof fn lemma_index_order_antisymmetric(files: Seq<FileMetadata>, a: usize, b: usize, key: SortKey)
    ensures
        key_order(files[a as int], files[b as int], key) == -key_order(files[b as int], files[a as int], key),
        -1 <= key_order(files[a as int], files[b as int], key) <= 1,
{
    lemma_key_order_antisymmetric(files[a as int], files[b as int], key);
}

/// How two file indices compare in the given column and direction.
pub fn compare_indices(
    files: &[FileMetadata],
    a: usize,
    b: usize,
    key: SortKey,
    ascending: bool,
) -> (o: Ordering)
    requires
        a < files@.len(),
        b < files@.len(),
    ensures
        (o is Less) == index_before(files@, key, ascending, a, b),
        (o is Greater) == index_before(files@, key, ascending, b, a),
{
    proof {
        lemma_index_order_antisymmetric(files@, a, b, key);
    }
    let c = key_compare(&files[a], &files[b], key);
    let before = if ascending {
        c == -1
    } else {
        c == 1
    };
    let after = if ascending {
        c == 1
    } else {
        c == -1
    };
    if before {
        Ordering::Less
    } else if after {
        Ordering::Greater
    } else {
        Ordering::Equal
    }
}

/// rayon's `par_sort_unstable_by` on the index list with `compare_indices` as
/// the comparator: afterwards the list holds the same indices, ordered by the
/// column. The comparator is a total order (a three-way comparison of integer
/// or lexicographic keys), which is what rayon's documentation asks of it.
#[verifier::external_body]
fn par_sort_indices(indices: &mut [usize], files: &[FileMetadata], key: SortKey, ascending: bool)
    requires
        indices_valid(old(indices)@, files@),
    ensures
        final(indices)@.to_multiset() == old(indices)@.to_multiset(),
        sorted_by(final(indices)@, files@, key, ascending),
{
    indices.par_sort_unstable_by(|&a, &b| compare_indices(files, a, b, key, ascending));
}

/// Sort `indices` in place by the given column and direction.
pub fn sort(indices: &mut [usize], files: &[FileMetadata], key: SortKey, ascending: bool)
    requires
        indices_valid(old(indices)@, files@),
    ensures
        final(indices)@.to_multiset() == old(indices)@.to_multiset(),
        sorted_by(final(indices)@, files@, key, ascending),
{
    par_sort_indices(indices, files, key, ascending);
}

/// The indices of files matching `filter` at time `now` (nanoseconds since the
/// epoch), honoring an optional `top_n`.
pub fn apply_at(files: &[FileMetadata], filter: &FilterState, now: i128) -> (r: Vec<usize>)
    requires
        age_in_range(*filter),
    ensures
        apply_result(files@, *filter, now, r@),
        indices_valid(r@, files@),
{
    let cutoff = match filter.min_age_days {
        Some(days) => Some(age_cutoff(now, days)),
        None => None,
    };
    let mut indices = par_matching(files, filter, cutoff);
    let ghost m = indices@;
    let total = files.len();
    proof {
        assert(files@.len() == total);
        lemma_matching_props(files@, *filter, cutoff, files@.len() as int);
    }
    match filter.top_n {
        Some(n) => {
            // Largest first, then keep N.
            sort(indices.as_mut_slice(), files, SortKey::Size, false);
            let ghost p = indices@;
            proof {
                broadcast use vstd::seq_lib::group_to_multiset_ensures;

                assert(p.len() == p.to_multiset().len());
                assert(m.len() == m.to_multiset().len());
            }
            indices.truncate(n);
            assert(indices@ =~= p.take(min_len(n, m.len() as int)));
            assert(is_size_ranking(p, m, files@));
            assert(indices_valid(p, files@)) by {
                assert forall|i: int| 0 <= i < p.len() implies #[trigger] p[i] < files@.len() by {
                    assert(p.to_multiset().count(p[i]) > 0);
                    assert(m.contains(p[i]));
                }
            }
        },
        None => {},
    }
    indices
}

/// The indices of files matching `filter` now, honoring an optional `top_n`.
/// The current time is read from the system clock.
pub fn apply(files: &[FileMetadata], filter: &FilterState) -> (r: Vec<usize>)
    requires
        age_in_range(*filter),
    ensures
        exists|now: i128| apply_result(files@, *filter, now, r@),
        indices_valid(r@, files@),
{
    let now = unix_now_nanos();
    apply_at(files, filter, now)
}

/// Without `top_n`, what `apply` returns lists each file that passes the filter
/// exactly once, in increasing index order, and nothing else.
pub proof fn law_apply_lists_matches(
    files: Seq<FileMetadata>,
    filter: FilterState,
    now: i128,
    r: Seq<usize>,
)
    requires
        files.len() <= usize::MAX,
        filter.top_n is None,
        apply_result(files, filter, now, r),
    ensures
        forall|x: usize|
            r.contains(x) <==> (x < files.len() && matches_spec(
                files[x as int],
                filter,
                cutoff_of(filter, now),
            )),
        forall|i: int, j: int| 0 <= i < j < r.len() ==> #[trigger] r[i] < #[trigger] r[j],
{
    lemma_matching_props(files, filter, cutoff_of(filter, now), files.len() as int);
}

/// With `top_n = Some(n)`, what `apply` returns holds `n` matching files (or
/// all of them, if fewer match), none twice, and no matching file left out is
/// larger than any file kept.
pub proof fn law_apply_top_n(
    files: Seq<FileMetadata>,
    filter: FilterState,
    now: i128,
    r: Seq<usize>,
)
    requires
        files.len() <= usize::MAX,
        filter.top_n is Some,
        apply_result(files, filter, now, r),
    ensures
        ({
            let m = matching(files, filter, cutoff_of(filter, now), files.len() as int);
            &&& r.len() == min_len(filter.top_n->Some_0, m.len() as int)
            &&& forall|i: int| 0 <= i < r.len() ==> m.contains(#[trigger] r[i])
            &&& forall|i: int, j: int| 0 <= i < j < r.len() ==> #[trigger] r[i] != #[trigger] r[j]
            &&& forall|x: usize, i: int|
                #![trigger m.contains(x), r[i]]
                m.contains(x) && !r.contains(x) && 0 <= i < r.len() ==> files[x as int].size
                    <= files[r[i] as int].size
        }),
{
    broadcast use vstd::seq_lib::group_to_multiset_ensures;

    let cutoff = cutoff_of(filter, now);
    let m = matching(files, filter, cutoff, files.len() as int);
    let n = filter.top_n->Some_0;
    let k = min_len(n, m.len() as int);
    lemma_matching_props(files, filter, cutoff, files.len() as int);
    let p = choose|p: Seq<usize>| is_size_ranking(p, m, files) && r == #[trigger] p.take(k);
    assert(is_size_ranking(p, m, files) && r == p.take(k));
    assert(p.len() == m.len()) by {
        assert(p.len() == p.to_multiset().len());
        assert(m.len() == m.to_multiset().len());
    }
    // Every element of `p` is in `m` and occurs there once, so once in `p`.
    assert forall|i: int| 0 <= i < p.len() implies m.contains(#[trigger] p[i]) by {
        assert(p.to_multiset().count(p[i]) > 0);
    }
    assert(m.no_duplicates()) by {
        assert forall|i: int, j: int| 0 <= i < m.len() && 0 <= j < m.len() && i != j implies m[i]
            != m[j] by {
            if i < j {
                assert(m[i] < m[j]);
            } else {
                assert(m[j] < m[i]);
            }
        }
    }
    m.lemma_multiset_has_no_duplicates();
    p.lemma_multiset_has_no_duplicates_conv();
    assert forall|i: int, j: int| 0 <= i < j < r.len() implies #[trigger] r[i] != #[trigger] r[j] by {
        assert(r[i] == p[i] && r[j] == p[j]);
    }
    assert forall|x: usize, i: int|
        #![trigger m.contains(x), r[i]]
        m.contains(x) && !r.contains(x) && 0 <= i < r.len() implies files[x as int].size
        <= files[r[i] as int].size by {
        assert(m.to_multiset().count(x) > 0);
        assert(p.contains(x));
        let j = choose|j: int| 0 <= j < p.len() && p[j] == x;
        if j < k {
            assert(r[j] == x);
        }
        assert(r[i] == p[i]);
        assert(!index_before(files, SortKey::Size, false, p[j], p[i]));
    }
}

} // verus!
