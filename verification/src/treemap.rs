//! Folder size aggregation.
//!
//! The scanner produces a flat file list. To show a size breakdown the files
//! are aggregated into a directory tree rooted at the common ancestor of their
//! folders: each directory's size is the total of all files at or below it,
//! and its children are its immediate subdirectories, largest first.

use vstd::prelude::*;

use crate::models::FileMetadata;
use crate::order::{rank_sorted, sort_ranked, Ranked};
use crate::text::{chars_eq, chars_of, push_char};
use crate::winpath::{
    comp_ends, comp_ends_of, copy_chars, file_name_spec, parent_spec, parse_spec, render_spec, starts_with_spec, Comp,
    Part, WinPath,
};

verus! {

/// A directory in the aggregated size tree. `size` is the total of all files
/// at or below this directory; `children` are its immediate subdirectories,
/// largest first. Files held directly in this directory are not nodes of their
/// own: their bytes are `size` minus the children's combined size. `path` is
/// the directory as the first file below it writes it, and `name` its last
/// name (or the whole path, for a drive or share root).
pub struct Node {
    pub name: String,
    pub path: String,
    pub size: u64,
    pub children: Vec<Node>,
}

/// Sum of the children's sizes.
pub open spec fn children_total(c: Seq<Node>) -> int
    decreases c.len(),
{
    if c.len() == 0 {
        0
    } else {
        children_total(c.drop_last()) + c.last().size
    }
}

impl Node {
    /// Bytes stored in files directly under this directory (not in subdirectories):
    /// the size minus the children's combined size, never below zero.
    pub fn direct_size(&self) -> (d: u64)
        requires
            children_total(self.children@) <= u64::MAX,
        ensures
            d == (if children_total(self.children@) <= self.size {
                self.size - children_total(self.children@)
            } else {
                0
            }),
    {
        let mut total: u64 = 0;
        let mut i: usize = 0;
        while i < self.children.len()
            invariant
                i <= self.children.len(),
                total == children_total(self.children@.take(i as int)),
                children_total(self.children@) <= u64::MAX,
            decreases self.children.len() - i,
        {
            assert(self.children@.take(i + 1).drop_last() =~= self.children@.take(i as int));
            proof {
                lemma_children_total_prefix(self.children@, i + 1);
            }
            total = total + self.children[i].size;
            i = i + 1;
        }
        assert(self.children@.take(self.children.len() as int) =~= self.children@);
        self.size.saturating_sub(total)
    }
}

pub proof fn lemma_children_total_prefix(c: Seq<Node>, k: int)
    requires
        0 <= k <= c.len(),
    ensures
        children_total(c.take(k)) <= children_total(c),
    decreases c.len() - k,
{
    if k < c.len() {
        lemma_children_total_prefix(c, k + 1);
        assert(c.take(k + 1).drop_last() =~= c.take(k));
    } else {
        assert(c.take(k) =~= c);
    }
}

impl Ranked for Node {
    open spec fn ranks_before(&self, other: &Self) -> bool {
        self.size > other.size
    }

    proof fn lemma_rank_order(a: &Self, b: &Self, c: &Self) {
    }

    fn rank_against(&self, other: &Self) -> (r: i8) {
        if self.size > other.size {
            -1
        } else if self.size < other.size {
            1
        } else {
            0
        }
    }
}

/// A file credited to the tree: the names of its folder below the root, its
/// size, its path as written, and where each component of that path ends.
pub type EntryV = (Seq<Seq<char>>, u64, Seq<char>, Seq<int>);

/// The text, as the file's path writes it, of the first `k` components of
/// the file's path.
pub open spec fn text_at(e: EntryV, k: int) -> Option<Seq<char>> {
    if 0 < k <= e.3.len() && 0 <= e.3[k - 1] <= e.2.len() {
        Some(e.2.take(e.3[k - 1]))
    } else {
        None
    }
}

/// The path of directory `dir` below `root` as written in the first file at
/// or below it (written from its components should no file hold it).
pub open spec fn node_path(es: Seq<EntryV>, root: Seq<Comp>, dir: Seq<Seq<char>>) -> Seq<char> {
    path_from(keep_under(es, dir), dir_comps(root, dir))
}

/// The path with components `c` as written in the first of the entries `s`.
pub open spec fn path_from(s: Seq<EntryV>, c: Seq<Comp>) -> Seq<char> {
    if s.len() > 0 && text_at(s[0], c.len() as int) is Some {
        text_at(s[0], c.len() as int)->Some_0
    } else {
        render_spec(c)
    }
}

/// A directory's display name: its last name, or else its whole path text.
pub open spec fn node_name(c: Seq<Comp>, path: Seq<char>) -> Seq<char> {
    match file_name_spec(c) {
        Some(n) => n,
        None => path,
    }
}

/// Whether `d` is a leading part of `r`.
pub open spec fn is_prefix(d: Seq<Seq<char>>, r: Seq<Seq<char>>) -> bool {
    d.len() <= r.len() && r.take(d.len() as int) == d
}

/// The entries whose folder is `dir` or lies below it, in order.
pub open spec fn keep_under(es: Seq<EntryV>, dir: Seq<Seq<char>>) -> Seq<EntryV>
    decreases es.len(),
{
    if es.len() == 0 {
        seq![]
    } else {
        let prev = keep_under(es.drop_last(), dir);
        if is_prefix(dir, es.last().0) {
            prev.push(es.last())
        } else {
            prev
        }
    }
}

/// The entries whose folder has name `c` at position `depth`, in order.
pub open spec fn with_name_at(es: Seq<EntryV>, depth: int, c: Seq<char>) -> Seq<EntryV>
    decreases es.len(),
{
    if es.len() == 0 {
        seq![]
    } else {
        let prev = with_name_at(es.drop_last(), depth, c);
        if es.last().0.len() > depth && es.last().0[depth] == c {
            prev.push(es.last())
        } else {
            prev
        }
    }
}

/// Total size of the entries.
pub open spec fn sum_sizes(es: Seq<EntryV>) -> int
    decreases es.len(),
{
    if es.len() == 0 {
        0
    } else {
        sum_sizes(es.drop_last()) + es.last().1
    }
}

/// The distinct names at position `depth`, in order of first appearance.
pub open spec fn names_from(es: Seq<EntryV>, depth: int) -> Seq<Seq<char>>
    decreases es.len(),
{
    if es.len() == 0 {
        seq![]
    } else {
        let prev = names_from(es.drop_last(), depth);
        let r = es.last().0;
        if r.len() > depth && !prev.contains(r[depth]) {
            prev.push(r[depth])
        } else {
            prev
        }
    }
}

/// The names of the immediate subdirectories of `dir` that hold files.
pub open spec fn next_names(es: Seq<EntryV>, dir: Seq<Seq<char>>) -> Seq<Seq<char>> {
    names_from(keep_under(es, dir), dir.len() as int)
}

pub open spec fn name_comps(dir: Seq<Seq<char>>) -> Seq<Comp> {
    dir.map_values(|n: Seq<char>| Comp::Name(n))
}

/// The components of the directory `dir` below `root`.
pub open spec fn dir_comps(root: Seq<Comp>, dir: Seq<Seq<char>>) -> Seq<Comp> {
    root + name_comps(dir)
}

/// `n` is the tree of directory `dir` below `root`, aggregated from `es`.
/// `order` lists the names of `names`, each exactly once, in some order.
pub open spec fn is_reordering(order: Seq<Seq<char>>, names: Seq<Seq<char>>) -> bool {
    &&& order.len() == names.len()
    &&& order.no_duplicates()
    &&& forall|i: int| 0 <= i < order.len() ==> names.contains(#[trigger] order[i])
}

/// `n` is the tree of directory `dir` below `root`, aggregated from `es`: its
/// path and name, its size (all entries at or below it), and one child per
/// subdirectory that holds entries, largest first.
pub open spec fn node_ok(n: Node, es: Seq<EntryV>, root: Seq<Comp>, dir: Seq<Seq<char>>) -> bool
    decreases n,
{
    &&& n.path@ == node_path(es, root, dir)
    &&& n.name@ == node_name(dir_comps(root, dir), node_path(es, root, dir))
    &&& n.size == sum_sizes(keep_under(es, dir))
    &&& rank_sorted(n.children@)
    &&& exists|order: Seq<Seq<char>>|
        #[trigger] is_reordering(order, next_names(es, dir)) && order.len() == n.children@.len()
            && forall|i: int|
            0 <= i < n.children@.len() ==> node_ok(n.children@[i], es, root, dir.push(order[i]))
}

pub proof fn lemma_prefix_push(dir: Seq<Seq<char>>, c: Seq<char>, r: Seq<Seq<char>>)
    ensures
        is_prefix(dir.push(c), r) <==> (is_prefix(dir, r) && r.len() > dir.len() && r[dir.len() as int] == c),
{
    let d = dir.len() as int;
    if is_prefix(dir.push(c), r) {
        assert(r.take(d) =~= r.take(d + 1).take(d));
        assert(dir.push(c).take(d) =~= dir);
        assert(r.take(d + 1)[d] == r[d]);
    }
    if is_prefix(dir, r) && r.len() > d && r[d] == c {
        assert(r.take(d + 1) =~= r.take(d).push(r[d]));
    }
}

pub proof fn lemma_with_name_of_keep(es: Seq<EntryV>, dir: Seq<Seq<char>>, c: Seq<char>)
    ensures
        with_name_at(keep_under(es, dir), dir.len() as int, c) == keep_under(es, dir.push(c)),
    decreases es.len(),
{
    if es.len() > 0 {
        lemma_with_name_of_keep(es.drop_last(), dir, c);
        let e = es.last();
        let d = dir.len() as int;
        let k = keep_under(es, dir);
        let pk = keep_under(es.drop_last(), dir);
        let kc = keep_under(es, dir.push(c));
        let pkc = keep_under(es.drop_last(), dir.push(c));
        lemma_prefix_push(dir, c, e.0);
        if is_prefix(dir, e.0) {
            assert(k == pk.push(e));
            assert(k.drop_last() =~= pk);
            assert(k.last() == e);
            if e.0.len() > d && e.0[d] == c {
                assert(with_name_at(k, d, c) == with_name_at(pk, d, c).push(e));
                assert(kc == pkc.push(e));
            } else {
                assert(with_name_at(k, d, c) == with_name_at(pk, d, c));
                assert(kc == pkc);
            }
        } else {
            assert(k == pk);
            assert(kc == pkc);
        }
    }
}

pub proof fn lemma_with_name_facts(s: Seq<EntryV>, d: int, c: Seq<char>)
    ensures
        sum_sizes(with_name_at(s, d, c)) <= sum_sizes(s),
        forall|i: int|
            0 <= i < with_name_at(s, d, c).len() ==> s.contains(#[trigger] with_name_at(s, d, c)[i])
                && with_name_at(s, d, c)[i].0.len() > d && with_name_at(s, d, c)[i].0[d] == c,
        !names_from(s, d).contains(c) ==> with_name_at(s, d, c) == Seq::<EntryV>::empty(),
    decreases s.len(),
{
    if s.len() > 0 {
        lemma_with_name_facts(s.drop_last(), d, c);
        let w = with_name_at(s, d, c);
        let pw = with_name_at(s.drop_last(), d, c);
        if w.len() > pw.len() {
            assert(w.drop_last() =~= pw);
        }
        assert forall|i: int| 0 <= i < w.len() implies s.contains(#[trigger] w[i]) && w[i].0.len()
            > d && w[i].0[d] == c by {
            if i < pw.len() {
                assert(s.drop_last().contains(pw[i]));
                let j = choose|j: int| 0 <= j < s.drop_last().len() && s.drop_last()[j] == pw[i];
                assert(s[j] == w[i]);
            } else {
                assert(s[s.len() - 1] == w[i]);
            }
        }
        if !names_from(s, d).contains(c) {
            let prev = names_from(s.drop_last(), d);
            let r = s.last().0;
            if r.len() > d && r[d] == c {
                if prev.contains(c) {
                } else {
                    assert(names_from(s, d) == prev.push(c));
                    assert(names_from(s, d)[prev.len() as int] == c);
                }
            }
            assert(!prev.contains(c) ==> true);
            if prev.contains(c) {
                let j = choose|j: int| 0 <= j < prev.len() && prev[j] == c;
                assert(names_from(s, d)[j] == c);
            }
        }
    }
}

pub proof fn lemma_names_distinct(s: Seq<EntryV>, d: int)
    ensures
        forall|i: int, j: int|
            0 <= i < j < names_from(s, d).len() ==> names_from(s, d)[i] != names_from(s, d)[j],
    decreases s.len(),
{
    if s.len() > 0 {
        lemma_names_distinct(s.drop_last(), d);
        let prev = names_from(s.drop_last(), d);
        let cur = names_from(s, d);
        assert forall|i: int, j: int| 0 <= i < j < cur.len() implies cur[i] != cur[j] by {
            if j == prev.len() as int {
                assert(cur[j] == s.last().0[d]);
                assert(!prev.contains(cur[j]));
                assert(cur[i] == prev[i]);
            }
        }
    }
}


/// A file credited to the tree, as built: its folder's names below the root, and its size.
struct Entry {
    rel: Vec<Vec<char>>,
    size: u64,
    text: Vec<char>,
    ends: Vec<usize>,
}

spec fn entry_view(e: Entry) -> EntryV {
    (e.rel.deep_view(), e.size, e.text@, e.ends@.map_values(|x: usize| x as int))
}

spec fn entries_view(v: Seq<Entry>) -> Seq<EntryV> {
    v.map_values(|e: Entry| entry_view(e))
}

/// The entries that share one name at the current depth.
struct Group {
    name: Vec<char>,
    size: u64,
    items: Vec<Entry>,
}

impl Ranked for Group {
    closed spec fn ranks_before(&self, other: &Self) -> bool {
        self.size > other.size
    }

    proof fn lemma_rank_order(a: &Self, b: &Self, c: &Self) {
    }

    fn rank_against(&self, other: &Self) -> (r: i8) {
        if self.size > other.size {
            -1
        } else if self.size < other.size {
            1
        } else {
            0
        }
    }
}

pub proof fn lemma_sum_prefix(s: Seq<EntryV>, k: int)
    requires
        0 <= k <= s.len(),
    ensures
        sum_sizes(s.take(k)) <= sum_sizes(s),
    decreases s.len() - k,
{
    if k < s.len() {
        lemma_sum_prefix(s, k + 1);
        assert(s.take(k + 1).drop_last() =~= s.take(k));
    } else {
        assert(s.take(k) =~= s);
    }
}

fn find_group(groups: &Vec<Group>, name: &Vec<char>) -> (r: Option<usize>)
    ensures
        match r {
            Some(g) => g < groups@.len() && groups@[g as int].name@ == name@,
            None => forall|g: int| 0 <= g < groups@.len() ==> groups@[g].name@ != name@,
        },
{
    let mut g: usize = 0;
    while g < groups.len()
        invariant
            g <= groups@.len(),
            forall|h: int| 0 <= h < g ==> groups@[h].name@ != name@,
        decreases groups.len() - g,
    {
        if chars_eq(groups[g].name.as_slice(), name.as_slice()) {
            return Some(g);
        }
        g = g + 1;
    }
    None
}

fn name_at(rel: &Vec<Vec<char>>, depth: usize) -> (c: Vec<char>)
    requires
        depth < rel@.len(),
    ensures
        c@ == rel.deep_view()[depth as int],
{
    copy_chars(&rel[depth])
}


spec fn group_ok(grp: Group, s: Seq<EntryV>, depth: int) -> bool {
    &&& entries_view(grp.items@) == with_name_at(s, depth, grp.name@)
    &&& grp.size == sum_sizes(with_name_at(s, depth, grp.name@))
    &&& grp.items@.len() > 0
}

spec fn groups_ok(groups: Seq<Group>, s: Seq<EntryV>, depth: int) -> bool {
    &&& groups.len() == names_from(s, depth).len()
    &&& forall|g: int|
        0 <= g < groups.len() ==> (#[trigger] groups[g]).name@ == names_from(s, depth)[g]
            && group_ok(groups[g], s, depth)
}

/// Splits `mine` into groups by the name at position `depth`, in order of
/// first appearance, with each group's total size; entries whose folder is no
/// deeper than `depth` are dropped.
fn group_by_name(mine: Vec<Entry>, depth: usize) -> (groups: Vec<Group>)
    requires
        sum_sizes(entries_view(mine@)) <= u64::MAX,
    ensures
        groups_ok(groups@, entries_view(mine@), depth as int),
{
    let ghost ms = entries_view(mine@);
    let mut groups: Vec<Group> = Vec::new();
    let ghost d = depth as int;
    for e in it: mine.into_iter()
        invariant
            entries_view(it.seq()) == ms,
            d == depth as int,
            sum_sizes(ms) <= u64::MAX,
            groups_ok(groups@, ms.take(it.index() as int), d),
    {
        let ghost k = it.index() as int;
        let ghost ev = entry_view(e);
        let ghost pre = ms.take(k);
        let ghost post = ms.take(k + 1);
        assert(ms[k] == ev);
        assert(post.drop_last() =~= pre);
        assert(post.last() == ev);
        proof {
            lemma_names_distinct(pre, d);
            lemma_sum_prefix(ms, k + 1);
        }
        if depth < e.rel.len() {
            let c = name_at(&e.rel, depth);
            let ghost cv = c@;
            proof {
                lemma_with_name_facts(post, d, cv);
            }
            assert(with_name_at(post, d, cv) == with_name_at(pre, d, cv).push(ev));
            assert(with_name_at(post, d, cv).drop_last() =~= with_name_at(pre, d, cv));
            let esize = e.size;
            match find_group(&groups, &c) {
                Some(g) => {
                    assert(names_from(pre, d).contains(cv)) by {
                        assert(names_from(pre, d)[g as int] == cv);
                    }
                    assert(names_from(post, d) == names_from(pre, d));
                    let ghost old_groups = groups@;
                    let new_size = groups[g].size + esize;
                    groups[g].size = new_size;
                    groups[g].items.push(e);
                    assert forall|h: int| 0 <= h < groups@.len() implies (#[trigger] groups@[h]).name@
                        == names_from(post, d)[h] && group_ok(groups@[h], post, d) by {
                        if h == g as int {
                            assert(entries_view(groups@[h].items@) =~= entries_view(
                                old_groups[h].items@,
                            ).push(ev));
                        } else {
                            assert(groups@[h] == old_groups[h]);
                            assert(names_from(pre, d)[h] != names_from(pre, d)[g as int]);
                        }
                    }
                },
                None => {
                    assert(!names_from(pre, d).contains(cv)) by {
                        if names_from(pre, d).contains(cv) {
                            let h = choose|h: int|
                                0 <= h < names_from(pre, d).len() && names_from(pre, d)[h] == cv;
                            assert(groups@[h].name@ == cv);
                        }
                    }
                    proof {
                        lemma_with_name_facts(pre, d, cv);
                    }
                    assert(names_from(post, d) == names_from(pre, d).push(cv));
                    let ghost old_groups = groups@;
                    let mut items: Vec<Entry> = Vec::new();
                    items.push(e);
                    groups.push(Group { name: c, size: esize, items });
                    assert forall|h: int| 0 <= h < groups@.len() implies (#[trigger] groups@[h]).name@
                        == names_from(post, d)[h] && group_ok(groups@[h], post, d) by {
                        if h < old_groups.len() {
                            assert(groups@[h] == old_groups[h]);
                            assert(names_from(pre, d)[h] != cv);
                        } else {
                            assert(entries_view(groups@[h].items@) =~= seq![ev]);
                            assert(with_name_at(pre, d, cv) =~= Seq::<EntryV>::empty());
                            assert(with_name_at(post, d, cv) =~= seq![ev]);
                        }
                    }
                },
            }
        } else {
            assert(names_from(post, d) == names_from(pre, d));
            assert forall|h: int| 0 <= h < groups@.len() implies with_name_at(post, d, groups@[h].name@)
                == with_name_at(pre, d, groups@[h].name@) by {}
        }
    }
    assert(ms.take(ms.len() as int) =~= ms);
    groups
}

fn sum_entries(mine: &Vec<Entry>) -> (total: u64)
    requires
        sum_sizes(entries_view(mine@)) <= u64::MAX,
    ensures
        total == sum_sizes(entries_view(mine@)),
{
    let ghost ms = entries_view(mine@);
    let mut total: u64 = 0;
    let mut i: usize = 0;
    while i < mine.len()
        invariant
            i <= mine@.len(),
            ms == entries_view(mine@),
            total == sum_sizes(ms.take(i as int)),
            sum_sizes(ms) <= u64::MAX,
        decreases mine.len() - i,
    {
        proof {
            lemma_sum_prefix(ms, i + 1);
            assert(ms.take(i + 1).drop_last() =~= ms.take(i as int));
        }
        total = total + mine[i].size;
        i = i + 1;
    }
    assert(ms.take(mine@.len() as int) =~= ms);
    total
}

/// The display name of a directory: its last name, or its whole text.
fn dir_display(wp: &WinPath, path: &String) -> (s: String)
    ensures
        s@ == node_name(wp@, path@),
{
    match wp.file_name() {
        Some(v) => crate::text::string_of(v.as_slice()),
        None => path.clone(),
    }
}

/// The path of the directory `wp` as written in the first of `mine`.
fn dir_path(mine: &Vec<Entry>, wp: &WinPath) -> (s: String)
    ensures
        s@ == path_from(entries_view(mine@), wp@),
{
    let k = wp.len();
    if mine.len() > 0 {
        let e = &mine[0];
        assert(entries_view(mine@)[0] == entry_view(mine@[0]));
        if 0 < k && k <= e.ends.len() && e.ends[k - 1] <= e.text.len() {
            let end = e.ends[k - 1];
            let mut s = String::new();
            let mut j: usize = 0;
            while j < end
                invariant
                    j <= end <= e.text@.len(),
                    s@ == e.text@.take(j as int),
                decreases end - j,
            {
                push_char(&mut s, e.text[j]);
                assert(e.text@.take(j + 1) =~= e.text@.take(j as int).push(e.text@[j as int]));
                j = j + 1;
            }
            return s;
        }
    }
    wp.render()
}

proof fn lemma_dir_comps_push(root: Seq<Comp>, dir: Seq<Seq<char>>, c: Seq<char>)
    ensures
        dir_comps(root, dir.push(c)) == dir_comps(root, dir).push(Comp::Name(c)),
{
    assert(name_comps(dir.push(c)) =~= name_comps(dir).push(Comp::Name(c)));
    assert(dir_comps(root, dir.push(c)) =~= dir_comps(root, dir).push(Comp::Name(c)));
}

proof fn lemma_sorted_groups(sg: Seq<Group>, gs: Seq<Group>, ms: Seq<EntryV>, d: int)
    requires
        groups_ok(gs, ms, d),
        sg.to_multiset() == gs.to_multiset(),
    ensures
        sg.len() == gs.len(),
        forall|i: int|
            0 <= i < sg.len() ==> group_ok(#[trigger] sg[i], ms, d) && names_from(ms, d).contains(
                sg[i].name@,
            ),
        forall|i: int, j: int|
            0 <= i < sg.len() && 0 <= j < sg.len() && i != j ==> (#[trigger] sg[i]).name@
                != (#[trigger] sg[j]).name@,
{
    let names = names_from(ms, d);
    lemma_names_distinct(ms, d);
    sg.to_multiset_ensures();
    gs.to_multiset_ensures();
    assert forall|i: int| 0 <= i < sg.len() implies exists|a: int| 0 <= a < gs.len() && gs[a] == #[trigger] sg[i] by {
        assert(sg.to_multiset().count(sg[i]) > 0);
        assert(gs.contains(sg[i]));
    }
    assert forall|i: int| 0 <= i < sg.len() implies group_ok(#[trigger] sg[i], ms, d)
        && names.contains(sg[i].name@) by {
        let a = choose|a: int| 0 <= a < gs.len() && gs[a] == sg[i];
        assert(gs[a].name@ == names[a]);
    }
    assert(gs.no_duplicates()) by {
        assert forall|a: int, b: int| 0 <= a < gs.len() && 0 <= b < gs.len() && a != b implies gs[a]
            != gs[b] by {
            assert(gs[a].name@ == names[a]);
            assert(gs[b].name@ == names[b]);
        }
    }
    gs.lemma_multiset_has_no_duplicates();
    sg.lemma_multiset_has_no_duplicates_conv();
    assert forall|i: int, j: int|
        0 <= i < sg.len() && 0 <= j < sg.len() && i != j implies (#[trigger] sg[i]).name@
            != (#[trigger] sg[j]).name@ by {
        let a = choose|a: int| 0 <= a < gs.len() && gs[a] == sg[i];
        let b = choose|b: int| 0 <= b < gs.len() && gs[b] == sg[j];
        assert(gs[a].name@ == names[a]);
        assert(gs[b].name@ == names[b]);
        if sg[i].name@ == sg[j].name@ {
            assert(a == b);
            assert(sg[i] == sg[j]);
        }
    }
}

/// Builds the tree of directory `dir` (at `depth` below `root`) from the
/// entries at or below it.
fn build_node(
    mine: Vec<Entry>,
    depth: usize,
    bound: usize,
    wp: &WinPath,
    Ghost(es): Ghost<Seq<EntryV>>,
    Ghost(root): Ghost<Seq<Comp>>,
    Ghost(dir): Ghost<Seq<Seq<char>>>,
) -> (n: Node)
    requires
        entries_view(mine@) == keep_under(es, dir),
        dir.len() == depth,
        depth <= bound,
        wp@ == dir_comps(root, dir),
        forall|i: int| 0 <= i < mine@.len() ==> (#[trigger] mine@[i]).rel@.len() <= bound,
        sum_sizes(keep_under(es, dir)) <= u64::MAX,
    ensures
        node_ok(n, es, root, dir),
    decreases bound - depth,
{
    let ghost ms = entries_view(mine@);
    let size = sum_entries(&mine);
    let path = dir_path(&mine, wp);
    let ghost d = depth as int;
    let ghost mine_seq = mine@;
    let mut groups = group_by_name(mine, depth);
    let ghost gs = groups@;
    let ghost names = names_from(ms, d);
    assert(names == next_names(es, dir));
    sort_ranked(&mut groups);
    let ghost sg = groups@;
    proof {
        lemma_sorted_groups(sg, gs, ms, d);
    }
    let mut children: Vec<Node> = Vec::new();
    for grp in it: groups.into_iter()
        invariant
            it.seq() == sg,
            sg.len() == names.len(),
            forall|i: int|
                0 <= i < sg.len() ==> group_ok(#[trigger] sg[i], ms, d) && names.contains(
                    sg[i].name@,
                ),
            names == next_names(es, dir),
            ms == keep_under(es, dir),
            ms == entries_view(mine_seq),
            forall|i: int| 0 <= i < mine_seq.len() ==> (#[trigger] mine_seq[i]).rel@.len() <= bound,
            sum_sizes(ms) <= u64::MAX,
            d == depth as int,
            dir.len() == depth,
            depth <= bound,
            wp@ == dir_comps(root, dir),
            children@.len() == it.index(),
            forall|j: int|
                0 <= j < children@.len() ==> node_ok(
                    #[trigger] children@[j],
                    es,
                    root,
                    dir.push(sg[j].name@),
                ) && children@[j].size == sg[j].size,
    {
        let ghost j = it.index() as int;
        assert(sg[j] == grp);
        assert(group_ok(grp, ms, d));
        let Group { name, size: _, items } = grp;
        let ghost cv = name@;
        proof {
            lemma_with_name_of_keep(es, dir, cv);
            lemma_with_name_facts(ms, d, cv);
            lemma_dir_comps_push(root, dir, cv);
        }
        let ghost iv = entries_view(items@);
        assert(iv == keep_under(es, dir.push(cv)));
        assert forall|i: int| 0 <= i < items@.len() implies (#[trigger] items@[i]).rel@.len()
            <= bound && items@[i].rel@.len() > depth by {
            assert(iv[i] == entry_view(items@[i]));
            assert(ms.contains(iv[i]));
            let k = choose|k: int| 0 <= k < ms.len() && ms[k] == iv[i];
            assert(ms[k] == entry_view(mine_seq[k]));
        }
        assert(items@[0].rel@.len() > depth);
        let mut child_path = wp.take(wp.len());
        assert(child_path@ =~= wp@);
        child_path.parts.push(Part::Name(name));
        assert(child_path@ =~= wp@.push(Comp::Name(cv)));
        let child = build_node(
            items,
            depth + 1,
            bound,
            &child_path,
            Ghost(es),
            Ghost(root),
            Ghost(dir.push(cv)),
        );
        children.push(child);
    }
    let name = dir_display(wp, &path);
    let n = Node { name, path, size, children };
    let ghost order = sg.map_values(|g: Group| g.name@);
    assert(is_reordering(order, next_names(es, dir))) by {
        assert forall|i: int, j: int|
            0 <= i < order.len() && 0 <= j < order.len() && i != j implies order[i] != order[j] by {
            assert(order[i] == sg[i].name@);
            assert(order[j] == sg[j].name@);
        }
        assert forall|i: int| 0 <= i < order.len() implies names.contains(#[trigger] order[i]) by {
            assert(group_ok(sg[i], ms, d));
        }
    }
    assert(forall|i: int|
        0 <= i < n.children@.len() ==> node_ok(n.children@[i], es, root, dir.push(order[i])));
    assert(rank_sorted(n.children@)) by {
        assert forall|i: int, j: int| 0 <= i < j < n.children@.len() implies !n.children@[j].ranks_before(
            &n.children@[i],
        ) by {
            assert(!sg[j].ranks_before(&sg[i]));
        }
    }
    n
}


/// The entries whose folder is exactly `dir`.
pub open spec fn entries_in(es: Seq<EntryV>, dir: Seq<Seq<char>>) -> Seq<EntryV>
    decreases es.len(),
{
    if es.len() == 0 {
        seq![]
    } else {
        let prev = entries_in(es.drop_last(), dir);
        if es.last().0 == dir {
            prev.push(es.last())
        } else {
            prev
        }
    }
}

/// The entries whose folder is no deeper than `d`.
spec fn shallow(s: Seq<EntryV>, d: int) -> Seq<EntryV>
    decreases s.len(),
{
    if s.len() == 0 {
        seq![]
    } else {
        let prev = shallow(s.drop_last(), d);
        if s.last().0.len() <= d {
            prev.push(s.last())
        } else {
            prev
        }
    }
}

/// For each name in `names`, the total size of the entries with that name at
/// position `d`, added up.
spec fn name_sum(s: Seq<EntryV>, d: int, names: Seq<Seq<char>>) -> int
    decreases names.len(),
{
    if names.len() == 0 {
        0
    } else {
        name_sum(s, d, names.drop_last()) + sum_sizes(with_name_at(s, d, names.last()))
    }
}

proof fn lemma_sum_push(x: Seq<EntryV>, e: EntryV)
    ensures
        sum_sizes(x.push(e)) == sum_sizes(x) + e.1,
{
    assert(x.push(e).drop_last() =~= x);
}

proof fn lemma_name_sum_push_entry(s: Seq<EntryV>, e: EntryV, d: int, names: Seq<Seq<char>>)
    requires
        names.no_duplicates(),
    ensures
        name_sum(s.push(e), d, names) == name_sum(s, d, names) + (if e.0.len() > d && names.contains(
            e.0[d],
        ) {
            e.1 as int
        } else {
            0
        }),
    decreases names.len(),
{
    if names.len() > 0 {
        let n0 = names.drop_last();
        let c = names.last();
        assert(n0.no_duplicates());
        lemma_name_sum_push_entry(s, e, d, n0);
        assert(s.push(e).drop_last() =~= s);
        let w = with_name_at(s, d, c);
        if e.0.len() > d && e.0[d] == c {
            lemma_sum_push(w, e);
            assert(!n0.contains(c)) by {
                if n0.contains(c) {
                    let k = choose|k: int| 0 <= k < n0.len() && n0[k] == c;
                    assert(names[k] == names[names.len() - 1]);
                }
            }
            assert(names.contains(c)) by {
                assert(names[names.len() - 1] == c);
            }
        } else {
            if e.0.len() > d {
                assert(names.contains(e.0[d]) <==> n0.contains(e.0[d])) by {
                    if names.contains(e.0[d]) {
                        let k = choose|k: int| 0 <= k < names.len() && names[k] == e.0[d];
                        assert(k < names.len() - 1);
                        assert(n0[k] == e.0[d]);
                    }
                    if n0.contains(e.0[d]) {
                        let k = choose|k: int| 0 <= k < n0.len() && n0[k] == e.0[d];
                        assert(names[k] == e.0[d]);
                    }
                }
            }
        }
    }
}

proof fn lemma_names_no_duplicates(s: Seq<EntryV>, d: int)
    ensures
        names_from(s, d).no_duplicates(),
{
    lemma_names_distinct(s, d);
    let n = names_from(s, d);
    assert forall|i: int, j: int| 0 <= i < n.len() && 0 <= j < n.len() && i != j implies n[i]
        != n[j] by {
        if i > j {
            assert(n[j] != n[i]);
        }
    }
}

/// The entries' total is that of the shallow ones plus, name by name, that of
/// the deeper ones.
proof fn lemma_decompose(s: Seq<EntryV>, d: int)
    ensures
        sum_sizes(s) == sum_sizes(shallow(s, d)) + name_sum(s, d, names_from(s, d)),
    decreases s.len(),
{
    if s.len() > 0 {
        let s0 = s.drop_last();
        let e = s.last();
        assert(s =~= s0.push(e));
        lemma_decompose(s0, d);
        let n0 = names_from(s0, d);
        lemma_names_no_duplicates(s0, d);
        lemma_name_sum_push_entry(s0, e, d, n0);
        if e.0.len() <= d {
            lemma_sum_push(shallow(s0, d), e);
        } else if n0.contains(e.0[d]) {
        } else {
            let c = e.0[d];
            lemma_with_name_facts(s0, d, c);
            lemma_with_name_facts(s, d, c);
            assert(with_name_at(s, d, c) == with_name_at(s0, d, c).push(e));
            lemma_sum_push(with_name_at(s0, d, c), e);
            assert(names_from(s, d).drop_last() =~= n0);
        }
    }
}

proof fn lemma_name_sum_remove(s: Seq<EntryV>, d: int, names: Seq<Seq<char>>, j: int)
    requires
        0 <= j < names.len(),
    ensures
        name_sum(s, d, names) == name_sum(s, d, names.remove(j)) + sum_sizes(
            with_name_at(s, d, names[j]),
        ),
    decreases names.len(),
{
    if j < names.len() - 1 {
        let n0 = names.drop_last();
        lemma_name_sum_remove(s, d, n0, j);
        assert(names.remove(j).drop_last() =~= n0.remove(j));
        assert(names.remove(j).last() == names.last());
    } else {
        assert(names.remove(j) =~= names.drop_last());
    }
}

proof fn lemma_name_sum_perm(
    s: Seq<EntryV>,
    d: int,
    order: Seq<Seq<char>>,
    names: Seq<Seq<char>>,
)
    requires
        order.len() == names.len(),
        order.no_duplicates(),
        names.no_duplicates(),
        forall|i: int| 0 <= i < order.len() ==> names.contains(#[trigger] order[i]),
    ensures
        name_sum(s, d, order) == name_sum(s, d, names),
    decreases order.len(),
{
    if order.len() > 0 {
        let y = order.last();
        assert(names.contains(order[order.len() - 1]));
        let j = choose|j: int| 0 <= j < names.len() && names[j] == y;
        let o0 = order.drop_last();
        let n0 = names.remove(j);
        assert forall|a: int, b: int| 0 <= a < n0.len() && 0 <= b < n0.len() && a != b implies n0[a]
            != n0[b] by {
            let a1 = if a < j { a } else { a + 1 };
            let b1 = if b < j { b } else { b + 1 };
            assert(n0[a] == names[a1] && n0[b] == names[b1]);
        }
        assert forall|i: int| 0 <= i < o0.len() implies n0.contains(#[trigger] o0[i]) by {
            assert(names.contains(order[i]));
            let k = choose|k: int| 0 <= k < names.len() && names[k] == order[i];
            assert(order[i] != order[order.len() - 1]);
            assert(k != j);
            if k < j {
                assert(n0[k] == o0[i]);
            } else {
                assert(n0[k - 1] == o0[i]);
            }
        }
        assert(o0.no_duplicates()) by {
            assert forall|a: int, b: int| 0 <= a < o0.len() && 0 <= b < o0.len() && a != b implies o0[a]
                != o0[b] by {
                assert(o0[a] == order[a] && o0[b] == order[b]);
            }
        }
        lemma_name_sum_perm(s, d, o0, n0);
        lemma_name_sum_remove(s, d, names, j);
    }
}

proof fn lemma_shallow_of_keep(es: Seq<EntryV>, dir: Seq<Seq<char>>)
    ensures
        shallow(keep_under(es, dir), dir.len() as int) == entries_in(es, dir),
    decreases es.len(),
{
    if es.len() > 0 {
        let e = es.last();
        let d = dir.len() as int;
        lemma_shallow_of_keep(es.drop_last(), dir);
        let k0 = keep_under(es.drop_last(), dir);
        if is_prefix(dir, e.0) {
            assert(keep_under(es, dir).drop_last() =~= k0);
            if e.0.len() <= d {
                assert(e.0 =~= e.0.take(d));
            }
        } else {
            if e.0 == dir {
                assert(e.0.take(d) =~= e.0);
            }
        }
    }
}

proof fn lemma_children_name_sum(c: Seq<Node>, s: Seq<EntryV>, d: int, order: Seq<Seq<char>>)
    requires
        c.len() == order.len(),
        forall|i: int| 0 <= i < c.len() ==> (#[trigger] c[i]).size == sum_sizes(with_name_at(s, d, order[i])),
    ensures
        children_total(c) == name_sum(s, d, order),
    decreases c.len(),
{
    if c.len() > 0 {
        lemma_children_name_sum(c.drop_last(), s, d, order.drop_last());
        assert(c[c.len() - 1].size == sum_sizes(with_name_at(s, d, order[order.len() - 1])));
    }
}

/// A directory's size is the bytes of the files directly in it plus the sizes
/// of its subdirectories; so the children's sizes never add up to more than
/// the directory's, and `direct_size` is exactly the bytes of its own files.
pub proof fn law_node_size_splits(n: Node, es: Seq<EntryV>, root: Seq<Comp>, dir: Seq<Seq<char>>)
    requires
        node_ok(n, es, root, dir),
    ensures
        n.size == sum_sizes(entries_in(es, dir)) + children_total(n.children@),
        children_total(n.children@) <= n.size,
{
    reveal_with_fuel(node_ok, 2);
    let s = keep_under(es, dir);
    let d = dir.len() as int;
    let names = next_names(es, dir);
    let order = choose|order: Seq<Seq<char>>|
        #[trigger] is_reordering(order, names) && order.len() == n.children@.len()
            && forall|i: int|
            0 <= i < n.children@.len() ==> node_ok(n.children@[i], es, root, dir.push(order[i]));
    lemma_decompose(s, d);
    lemma_shallow_of_keep(es, dir);
    lemma_names_no_duplicates(s, d);
    lemma_name_sum_perm(s, d, order, names);
    assert forall|i: int| 0 <= i < n.children@.len() implies (#[trigger] n.children@[i]).size
        == sum_sizes(with_name_at(s, d, order[i])) by {
        assert(node_ok(n.children@[i], es, root, dir.push(order[i])));
        lemma_with_name_of_keep(es, dir, order[i]);
    }
    lemma_children_name_sum(n.children@, s, d, order);
    lemma_sum_nonneg(entries_in(es, dir));
}

proof fn lemma_sum_nonneg(s: Seq<EntryV>)
    ensures
        sum_sizes(s) >= 0,
    decreases s.len(),
{
    if s.len() > 0 {
        lemma_sum_nonneg(s.drop_last());
    }
}

/// The folder of a file: the parent of its path.
pub open spec fn file_parent(f: FileMetadata) -> Option<Seq<Comp>> {
    parent_spec(parse_spec(f.path@))
}

/// `root` with trailing names removed until it is a prefix of `p`, or until
/// nothing more can be removed.
pub open spec fn shrink(root: Seq<Comp>, p: Seq<Comp>) -> Seq<Comp>
    decreases root.len(),
{
    if starts_with_spec(p, root) {
        root
    } else if root.len() > 0 && root.last() is Name {
        shrink(root.drop_last(), p)
    } else {
        root
    }
}

/// The common root of the folders of the first `k` files: the first folder,
/// shrunk in turn towards each later one (`None` when no file has a folder).
pub open spec fn root_upto(files: Seq<FileMetadata>, k: int) -> Option<Seq<Comp>>
    decreases k,
{
    if k <= 0 {
        None
    } else {
        let prev = root_upto(files, k - 1);
        match file_parent(files[k - 1]) {
            None => prev,
            Some(p) => match prev {
                None => Some(p),
                Some(r) => Some(shrink(r, p)),
            },
        }
    }
}

/// Walking up from `p` one name at a time reaches `r`.
pub open spec fn reaches(r: Seq<Comp>, p: Seq<Comp>) -> bool {
    &&& starts_with_spec(p, r)
    &&& forall|i: int| r.len() <= i < p.len() ==> (#[trigger] p[i]) is Name
}

/// The names of `p` below `r`.
pub open spec fn rel_of(p: Seq<Comp>, r: Seq<Comp>) -> Seq<Seq<char>> {
    Seq::new((p.len() - r.len()) as nat, |i: int| p[r.len() + i]->Name_0)
}

/// The files among the first `k` whose folder lies at or below `r`, as
/// entries: their folder's names below `r`, and their size.
pub open spec fn entries_upto(files: Seq<FileMetadata>, r: Seq<Comp>, k: int) -> Seq<EntryV>
    decreases k,
{
    if k <= 0 {
        seq![]
    } else {
        let prev = entries_upto(files, r, k - 1);
        match file_parent(files[k - 1]) {
            Some(p) => if reaches(r, p) {
                prev.push(
                    (
                        rel_of(p, r),
                        files[k - 1].size,
                        files[k - 1].path@,
                        comp_ends(files[k - 1].path@),
                    ),
                )
            } else {
                prev
            },
            None => prev,
        }
    }
}

fn file_parent_exec(f: &FileMetadata) -> (r: Option<WinPath>)
    ensures
        match r {
            Some(q) => file_parent(*f) == Some(q@),
            None => file_parent(*f) is None,
        },
{
    let p = WinPath::parse(f.path.as_str());
    p.parent()
}

/// The longest directory prefix shared by the folders of all files (`None`
/// for a list where no file has a folder).
fn common_root(files: &[FileMetadata]) -> (r: Option<WinPath>)
    ensures
        match r {
            Some(q) => root_upto(files@, files@.len() as int) == Some(q@),
            None => root_upto(files@, files@.len() as int) is None,
        },
{
    let mut root: Option<WinPath> = None;
    let mut i: usize = 0;
    while i < files.len()
        invariant
            i <= files@.len(),
            match root {
                Some(q) => root_upto(files@, i as int) == Some(q@),
                None => root_upto(files@, i as int) is None,
            },
        decreases files.len() - i,
    {
        match file_parent_exec(&files[i]) {
            None => {},
            Some(p) => {
                match root {
                    None => {
                        root = Some(p);
                    },
                    Some(mut r) => {
                        let ghost r0 = r@;
                        while !p.starts_with(&r)
                            invariant
                                shrink(r@, p@) == shrink(r0, p@),
                            ensures
                                r@ == shrink(r0, p@),
                            decreases r@.len(),
                        {
                            let ghost before = r@;
                            if !r.pop() {
                                break;
                            }
                        }
                        root = Some(r);
                    },
                }
            },
        }
        i = i + 1;
    }
    root
}


fn reaches_exec(r: &WinPath, p: &WinPath) -> (b: bool)
    ensures
        b == reaches(r@, p@),
{
    if !p.starts_with(r) {
        return false;
    }
    let mut i = r.len();
    while i < p.len()
        invariant
            r@.len() <= i <= p@.len(),
            forall|k: int| r@.len() <= k < i ==> (#[trigger] p@[k]) is Name,
        decreases p@.len() - i,
    {
        match &p.parts[i] {
            Part::Name(_) => {},
            _ => {
                assert(!(p@[i as int] is Name));
                return false;
            },
        }
        i = i + 1;
    }
    true
}

fn rel_names(r: &WinPath, p: &WinPath) -> (v: Vec<Vec<char>>)
    requires
        reaches(r@, p@),
    ensures
        v.deep_view() == rel_of(p@, r@),
{
    let mut v: Vec<Vec<char>> = Vec::new();
    let mut i = r.len();
    let ghost base = r@.len() as int;
    while i < p.len()
        invariant
            base == r@.len(),
            base <= i <= p@.len(),
            reaches(r@, p@),
            v.deep_view() =~= rel_of(p@, r@).take(i - base),
        decreases p@.len() - i,
    {
        assert(p@[i as int] is Name);
        match &p.parts[i] {
            Part::Name(n) => {
                let ghost before = v.deep_view();
                assert(p.parts@[i as int] == Part::Name(*n));
                assert(p@[i as int] == Comp::Name(n@));
                let nc = copy_chars(n);
                assert(nc.deep_view() =~= nc@);
                v.push(nc);
                assert(v.deep_view() =~= before.push(p@[i as int]->Name_0));
                assert(rel_of(p@, r@).take(i + 1 - base) =~= rel_of(p@, r@).take(i - base).push(
                    p@[i as int]->Name_0,
                ));
            },
            _ => {},
        }
        i = i + 1;
    }
    assert(rel_of(p@, r@).take(p@.len() - base) =~= rel_of(p@, r@));
    v
}

pub proof fn lemma_keep_under_empty(es: Seq<EntryV>)
    ensures
        keep_under(es, seq![]) == es,
    decreases es.len(),
{
    if es.len() > 0 {
        lemma_keep_under_empty(es.drop_last());
        assert(es.last().0.take(0) =~= Seq::<Seq<char>>::empty());
        assert(es.drop_last().push(es.last()) =~= es);
    }
}

/// The entries of the files whose folder lies at or below `root`, and a
/// bound on how deep their folders go below it.
fn credited(files: &[FileMetadata], root: &WinPath) -> (r: (Vec<Entry>, usize))
    ensures
        entries_view(r.0@) == entries_upto(files@, root@, files@.len() as int),
        forall|k: int| 0 <= k < r.0@.len() ==> (#[trigger] r.0@[k]).rel@.len() <= r.1,
{
    let ghost rv = root@;
    let mut entries: Vec<Entry> = Vec::new();
    let mut bound: usize = 0;
    let mut i: usize = 0;
    while i < files.len()
        invariant
            i <= files@.len(),
            rv == root@,
            entries_view(entries@) == entries_upto(files@, rv, i as int),
            forall|k: int| 0 <= k < entries@.len() ==> (#[trigger] entries@[k]).rel@.len() <= bound,
        decreases files.len() - i,
    {
        let ghost before = entries_view(entries@);
        match file_parent_exec(&files[i]) {
            Some(p) => {
                if reaches_exec(root, &p) {
                    let rel = rel_names(root, &p);
                    if rel.len() > bound {
                        bound = rel.len();
                    }
                    let text = chars_of(files[i].path.as_str());
                    let ends = comp_ends_of(&text);
                    let e = Entry { rel, size: files[i].size, text, ends };
                    entries.push(e);
                    assert(entries_view(entries@) =~= before.push(entry_view(e)));
                    assert(entries_view(entries@).drop_last() =~= before);
                }
            },
            None => {},
        }
        i = i + 1;
    }
    (entries, bound)
}

/// The total size the tree of `files` adds up: that of the files whose
/// folder lies at or below the common root.
pub open spec fn tree_total(files: Seq<FileMetadata>) -> int {
    match root_upto(files, files.len() as int) {
        Some(r) => sum_sizes(entries_upto(files, r, files.len() as int)),
        None => 0,
    }
}

/// Whether the sizes `build` adds up fit in 64 bits.
pub fn tree_fits(files: &[FileMetadata]) -> (b: bool)
    ensures
        b == (tree_total(files@) <= u64::MAX),
{
    let root = match common_root(files) {
        None => {
            return true;
        },
        Some(r) => r,
    };
    let (entries, _) = credited(files, &root);
    let ghost es = entries_view(entries@);
    assert(tree_total(files@) == sum_sizes(es));
    let mut total: u64 = 0;
    let mut i: usize = 0;
    while i < entries.len()
        invariant
            i <= entries@.len(),
            es == entries_view(entries@),
            tree_total(files@) == sum_sizes(es),
            total == sum_sizes(es.take(i as int)),
        decreases entries.len() - i,
    {
        assert(es.take(i + 1).drop_last() =~= es.take(i as int));
        assert(es[i as int] == entry_view(entries@[i as int]));
        match total.checked_add(entries[i].size) {
            Some(t) => {
                total = t;
            },
            None => {
                proof {
                    lemma_sum_prefix(es, i + 1);
                    assert(es.take(i + 1).last() == es[i as int]);
                    assert(sum_sizes(es.take(i + 1)) == total + entries@[i as int].size);
                    assert(tree_total(files@) == sum_sizes(es));
                }
                return false;
            },
        }
        i = i + 1;
    }
    assert(es.take(entries@.len() as int) =~= es);
    assert(tree_total(files@) == sum_sizes(es));
    true
}

/// Build the directory tree rooted at the common ancestor of every scanned
/// file's folder. Returns `None` when no file has a folder (an empty list).
pub fn build(files: &[FileMetadata]) -> (r: Option<Node>)
    requires
        tree_total(files@) <= u64::MAX,
    ensures
        match r {
            None => root_upto(files@, files@.len() as int) is None,
            Some(n) => root_upto(files@, files@.len() as int) is Some && node_ok(
                n,
                entries_upto(
                    files@,
                    root_upto(files@, files@.len() as int)->Some_0,
                    files@.len() as int,
                ),
                root_upto(files@, files@.len() as int)->Some_0,
                seq![],
            ),
        },
{
    let root = match common_root(files) {
        None => {
            return None;
        },
        Some(r) => r,
    };
    let ghost rv = root@;
    let (entries, bound) = credited(files, &root);
    let ghost es = entries_view(entries@);
    proof {
        lemma_keep_under_empty(es);
        assert(name_comps(seq![]) =~= Seq::<Comp>::empty());
        assert(dir_comps(rv, seq![]) =~= rv);
    }
    let ghost top: Seq<Seq<char>> = seq![];
    let n = build_node(entries, 0, bound, &root, Ghost(es), Ghost(rv), Ghost(top));
    Some(n)
}

} // verus!
