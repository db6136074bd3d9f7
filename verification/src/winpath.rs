//! Windows path syntax: splitting a path string into components, and the
//! component-wise operations the analyzer needs (file name, parent, prefix
//! test, rendering back to text).
//!
//! A path is an optional prefix, an optional root separator and a list of
//! names. The prefix is a drive (`C:`, compared without regard to case and kept
//! upper-case) or one of the long forms: `\\server\share`, `\\.\device`,
//! `\\?\name`, `\\?\C:` and `\\?\UNC\server\share`, kept as written. Both
//! `\` and `/` separate components, except in verbatim (`\\?\`) paths, where
//! only `\` does. Empty segments are dropped, and so are `.` segments, except in
//! verbatim paths and at the very start of a path without a root; `..` is kept
//! as a name.

use vstd::prelude::*;

use crate::text::{chars_eq, chars_of, push_char, string_of, to_upper_ascii, upper_ascii};

verus! {

/// One component of a parsed path, as a mathematical value.
pub enum Comp {
    Drive(char),
    Prefix(Seq<char>),
    Root,
    Name(Seq<char>),
}

/// One component of a parsed path.
pub enum Part {
    /// A drive prefix such as `C:`, with the letter upper-cased.
    Drive(char),
    /// A long prefix such as `\\server\share`, as written.
    Prefix(Vec<char>),
    /// The root separator following the prefix.
    Root,
    /// A named component (`..` included).
    Name(Vec<char>),
}

pub open spec fn part_view(p: Part) -> Comp {
    match p {
        Part::Drive(c) => Comp::Drive(c),
        Part::Prefix(v) => Comp::Prefix(v@),
        Part::Root => Comp::Root,
        Part::Name(v) => Comp::Name(v@),
    }
}

/// A parsed path: its components in order.
pub struct WinPath {
    pub parts: Vec<Part>,
}

impl View for WinPath {
    type V = Seq<Comp>;

    open spec fn view(&self) -> Seq<Comp> {
        self.parts@.map_values(|p: Part| part_view(p))
    }
}

/// A separator: `\`, and `/` as well outside verbatim paths.
pub open spec fn is_sep_in(c: char, verbatim: bool) -> bool {
    c == '\\' || (!verbatim && c == '/')
}

pub open spec fn is_sep(c: char) -> bool {
    is_sep_in(c, false)
}

pub open spec fn starts_with_text(s: Seq<char>, t: Seq<char>) -> bool {
    t.len() <= s.len() && s.take(t.len() as int) == t
}

/// The position of the first separator at or after `i`, or the end of `s`.
pub open spec fn next_sep(s: Seq<char>, i: int, verbatim: bool) -> int
    decreases s.len() - i,
{
    if i >= s.len() {
        s.len() as int
    } else if is_sep_in(s[i], verbatim) {
        i
    } else {
        next_sep(s, i + 1, verbatim)
    }
}

/// The length of `server\share` starting at `i` (of `server` alone when no
/// share follows).
pub open spec fn pair_len(s: Seq<char>, i: int, verbatim: bool) -> int {
    let a = next_sep(s, i, verbatim);
    if a >= s.len() {
        a - i
    } else {
        let b = next_sep(s, a + 1, verbatim);
        if b == a + 1 {
            a - i
        } else {
            b - i
        }
    }
}

/// Whether `s` starts with `\\?\`.
pub open spec fn is_verbatim(s: Seq<char>) -> bool {
    starts_with_text(s, seq!['\\', '\\', '?', '\\'])
}

/// A `\\server\share` prefix needs both parts non-empty.
pub open spec fn unc_ok(s: Seq<char>) -> bool {
    let a = next_sep(s, 2, false);
    a > 2 && a < s.len() && next_sep(s, a + 1, false) > a + 1
}

/// The length of a long prefix at the start of `s` (0 when there is none).
pub open spec fn long_prefix_len(s: Seq<char>) -> int {
    if is_verbatim(s) {
        if starts_with_text(s.subrange(4, s.len() as int), seq!['U', 'N', 'C', '\\']) {
            8 + pair_len(s, 8, true)
        } else {
            next_sep(s, 4, true)
        }
    } else if starts_with_text(s, seq!['\\', '\\', '.', '\\']) {
        next_sep(s, 4, false)
    } else if starts_with_text(s, seq!['\\', '\\']) && unc_ok(s) {
        2 + pair_len(s, 2, false)
    } else {
        0
    }
}

pub open spec fn is_ascii_alpha(c: char) -> bool {
    ('a' <= c && c <= 'z') || ('A' <= c && c <= 'Z')
}

pub open spec fn has_drive(s: Seq<char>) -> bool {
    s.len() >= 2 && is_ascii_alpha(s[0]) && s[1] == ':'
}

/// A segment becomes a component unless it is empty, or `.` outside a
/// verbatim path and not the first segment of a path without a root.
pub open spec fn kept(seg: Seq<char>, verbatim: bool, first: bool) -> bool {
    seg.len() > 0 && (seg != seq!['.'] || verbatim || first)
}

pub open spec fn emit(seg: Seq<char>, verbatim: bool, first: bool) -> Seq<Comp> {
    if kept(seg, verbatim, first) {
        seq![Comp::Name(seg)]
    } else {
        seq![]
    }
}

/// The name components of `s`, where `cur` is the segment read so far and
/// `first` whether it is the first segment of a path without a root.
pub open spec fn segs(s: Seq<char>, cur: Seq<char>, verbatim: bool, first: bool) -> Seq<Comp>
    decreases s.len(),
{
    if s.len() == 0 {
        emit(cur, verbatim, first)
    } else if is_sep_in(s[0], verbatim) {
        emit(cur, verbatim, first) + segs(s.drop_first(), seq![], verbatim, false)
    } else {
        segs(s.drop_first(), cur.push(s[0]), verbatim, first)
    }
}

pub open spec fn prefix_len(s: Seq<char>) -> int {
    if long_prefix_len(s) > 0 {
        long_prefix_len(s)
    } else if has_drive(s) {
        2
    } else {
        0
    }
}

/// Whether a root separator follows the prefix.
pub open spec fn rooted(s: Seq<char>) -> bool {
    s.len() > prefix_len(s) && is_sep_in(s[prefix_len(s)], is_verbatim(s))
}

/// The components of the path text `s`.
pub open spec fn parse_spec(s: Seq<char>) -> Seq<Comp> {
    let p = prefix_len(s);
    let head: Seq<Comp> = if long_prefix_len(s) > 0 {
        seq![Comp::Prefix(s.take(p))]
    } else if has_drive(s) {
        seq![Comp::Drive(upper_ascii(s[0]))]
    } else {
        seq![]
    };
    let root: Seq<Comp> = if rooted(s) {
        seq![Comp::Root]
    } else {
        seq![]
    };
    head + root + segs(s.subrange(p, s.len() as int), seq![], is_verbatim(s), !rooted(s))
}

/// Where each kept segment from position `i` on ends in `s` (`cur` is the
/// segment read so far, `first` as in `segs`).
pub open spec fn seg_ends(s: Seq<char>, i: int, cur: Seq<char>, verbatim: bool, first: bool) -> Seq<
    int,
>
    decreases s.len() - i,
{
    if i >= s.len() {
        if kept(cur, verbatim, first) {
            seq![s.len() as int]
        } else {
            seq![]
        }
    } else if is_sep_in(s[i], verbatim) {
        (if kept(cur, verbatim, first) {
            seq![i]
        } else {
            seq![]
        }) + seg_ends(s, i + 1, seq![], verbatim, false)
    } else {
        seg_ends(s, i + 1, cur.push(s[i]), verbatim, first)
    }
}

/// Where each component of `parse_spec(s)` ends in the text `s`: the text of
/// the first `k` components, as written, is `s.take(comp_ends(s)[k - 1])`.
pub open spec fn comp_ends(s: Seq<char>) -> Seq<int> {
    let p = prefix_len(s);
    let head: Seq<int> = if p > 0 {
        seq![p]
    } else {
        seq![]
    };
    let root: Seq<int> = if rooted(s) {
        seq![p + 1]
    } else {
        seq![]
    };
    head + root + seg_ends(s, p, seq![], is_verbatim(s), !rooted(s))
}

/// The last component, when it is a name other than `.` and `..`.
pub open spec fn file_name_spec(c: Seq<Comp>) -> Option<Seq<char>> {
    if c.len() > 0 && c.last() is Name && c.last()->Name_0 != seq!['.', '.'] && c.last()->Name_0
        != seq!['.'] {
        Some(c.last()->Name_0)
    } else {
        None
    }
}

/// The path without its last component, when that component is a name.
pub open spec fn parent_spec(c: Seq<Comp>) -> Option<Seq<Comp>> {
    if c.len() > 0 && c.last() is Name {
        Some(c.drop_last())
    } else {
        None
    }
}

/// Component-wise prefix test.
pub open spec fn starts_with_spec(p: Seq<Comp>, base: Seq<Comp>) -> bool {
    base.len() <= p.len() && p.take(base.len() as int) == base
}

/// A path starts with its parent, which is one component shorter; every path
/// starts with itself, and starting-with is transitive.
pub proof fn law_parent_is_prefix(p: Seq<Comp>, q: Seq<Comp>, r: Seq<Comp>)
    ensures
        parent_spec(p) matches Some(par) ==> starts_with_spec(p, par) && par.len() + 1 == p.len(),
        starts_with_spec(p, p),
        starts_with_spec(p, q) && starts_with_spec(q, r) ==> starts_with_spec(p, r),
{
    assert(p.take(p.len() as int) =~= p);
    if let Some(par) = parent_spec(p) {
        assert(p.take(par.len() as int) =~= par);
    }
    if starts_with_spec(p, q) && starts_with_spec(q, r) {
        assert(p.take(r.len() as int) =~= q.take(r.len() as int));
    }
}

/// The text of one component as it is written after the previous ones.
pub open spec fn join_names(c: Seq<Comp>) -> Seq<char>
    decreases c.len(),
{
    if c.len() == 0 {
        seq![]
    } else {
        let prev = c.drop_last();
        let piece: Seq<char> = match c.last() {
            Comp::Drive(d) => seq![d, ':'],
            Comp::Prefix(t) => t,
            Comp::Root => seq!['\\'],
            Comp::Name(n) => if prev.len() > 0 && prev.last() is Name {
                seq!['\\'] + n
            } else {
                n
            },
        };
        join_names(prev) + piece
    }
}

/// How a path is written back as text: `\` between names, none after a drive
/// or the root.
pub open spec fn render_spec(c: Seq<Comp>) -> Seq<char> {
    join_names(c)
}

/// The display name of a path: its file name, or the whole text when it has
/// none (such as `C:\`).
pub open spec fn display_name_spec(s: Seq<char>) -> Seq<char> {
    match file_name_spec(parse_spec(s)) {
        Some(n) => n,
        None => s,
    }
}

fn is_alpha_char(c: char) -> (r: bool)
    ensures
        r == is_ascii_alpha(c),
{
    ('a' <= c && c <= 'z') || ('A' <= c && c <= 'Z')
}

fn is_sep_char_in(c: char, verbatim: bool) -> (r: bool)
    ensures
        r == is_sep_in(c, verbatim),
{
    c == '\\' || (!verbatim && c == '/')
}

fn is_kept(seg: &Vec<char>, verbatim: bool, first: bool) -> (r: bool)
    ensures
        r == kept(seg@, verbatim, first),
{
    if seg.len() == 0 {
        false
    } else if seg.len() == 1 && seg[0] == '.' {
        assert(seg@ =~= seq!['.']);
        verbatim || first
    } else {
        assert(seg.len() != 1 ==> seg@ != seq!['.']);
        true
    }
}

proof fn lemma_segs_step(s: Seq<char>, i: int, cur: Seq<char>, verbatim: bool, first: bool)
    requires
        0 <= i < s.len(),
    ensures
        segs(s.subrange(i, s.len() as int), cur, verbatim, first) == (if is_sep_in(s[i], verbatim) {
            emit(cur, verbatim, first) + segs(s.subrange(i + 1, s.len() as int), seq![], verbatim, false)
        } else {
            segs(s.subrange(i + 1, s.len() as int), cur.push(s[i]), verbatim, first)
        }),
{
    assert(s.subrange(i, s.len() as int).drop_first() =~= s.subrange(i + 1, s.len() as int));
}

proof fn lemma_next_sep_skip(s: Seq<char>, i: int, j: int, verbatim: bool)
    requires
        i <= j <= s.len(),
        forall|k: int| i <= k < j ==> !is_sep_in(#[trigger] s[k], verbatim),
    ensures
        next_sep(s, i, verbatim) == next_sep(s, j, verbatim),
    decreases j - i,
{
    if i < j {
        lemma_next_sep_skip(s, i + 1, j, verbatim);
    }
}

/// The position of the first separator at or after `i`, or the end.
fn next_sep_at(cs: &Vec<char>, i: usize, verbatim: bool) -> (r: usize)
    requires
        i <= cs@.len(),
    ensures
        r as int == next_sep(cs@, i as int, verbatim),
        i <= r <= cs@.len(),
{
    let mut j = i;
    while j < cs.len() && !is_sep_char_in(cs[j], verbatim)
        invariant
            i <= j <= cs@.len(),
            forall|k: int| i <= k < j ==> !is_sep_in(#[trigger] cs@[k], verbatim),
        decreases cs.len() - j,
    {
        j = j + 1;
    }
    proof {
        lemma_next_sep_skip(cs@, i as int, j as int, verbatim);
    }
    j
}

/// The length of `server\share` starting at `i`.
fn pair_len_at(cs: &Vec<char>, i: usize, verbatim: bool) -> (r: usize)
    requires
        i <= cs@.len(),
    ensures
        r as int == pair_len(cs@, i as int, verbatim),
        i + r <= cs@.len(),
{
    let a = next_sep_at(cs, i, verbatim);
    if a >= cs.len() {
        a - i
    } else {
        let b = next_sep_at(cs, a + 1, verbatim);
        if b == a + 1 {
            a - i
        } else {
            b - i
        }
    }
}

/// The length of the long prefix at the start of `cs` (0 when there is none).
fn long_prefix_at(cs: &Vec<char>) -> (r: usize)
    ensures
        r as int == long_prefix_len(cs@),
        r <= cs@.len(),
{
    let n = cs.len();
    let verbatim = n >= 4 && cs[0] == '\\' && cs[1] == '\\' && cs[2] == '?' && cs[3] == '\\';
    proof {
        if n >= 4 {
            if cs@.take(4) =~= seq!['\\', '\\', '?', '\\'] {
                assert(cs@[0] == '\\' && cs@[1] == '\\' && cs@[2] == '?' && cs@[3] == '\\');
            }
            if cs@[0] == '\\' && cs@[1] == '\\' && cs@[2] == '?' && cs@[3] == '\\' {
                assert(cs@.take(4) =~= seq!['\\', '\\', '?', '\\']);
            }
        }
    }
    assert(verbatim == is_verbatim(cs@));
    if verbatim {
        let unc = n >= 8 && cs[4] == 'U' && cs[5] == 'N' && cs[6] == 'C' && cs[7] == '\\';
        proof {
            let rest = cs@.subrange(4, n as int);
            if n >= 8 {
                if rest.take(4) =~= seq!['U', 'N', 'C', '\\'] {
                    assert(rest[0] == cs@[4] && rest[1] == cs@[5] && rest[2] == cs@[6] && rest[3]
                        == cs@[7]);
                }
                if unc {
                    assert(rest.take(4) =~= seq!['U', 'N', 'C', '\\']);
                }
            }
            assert(unc == starts_with_text(rest, seq!['U', 'N', 'C', '\\']));
        }
        if unc {
            8 + pair_len_at(cs, 8, true)
        } else {
            next_sep_at(cs, 4, true)
        }
    } else {
        let device = n >= 4 && cs[0] == '\\' && cs[1] == '\\' && cs[2] == '.' && cs[3] == '\\';
        proof {
            if n >= 4 {
                if cs@.take(4) =~= seq!['\\', '\\', '.', '\\'] {
                    assert(cs@[2] == '.' && cs@[3] == '\\');
                }
                if device {
                    assert(cs@.take(4) =~= seq!['\\', '\\', '.', '\\']);
                }
            }
            assert(device == starts_with_text(cs@, seq!['\\', '\\', '.', '\\']));
        }
        if device {
            return next_sep_at(cs, 4, false);
        }
        let two = n >= 2 && cs[0] == '\\' && cs[1] == '\\';
        proof {
            if n >= 2 {
                if cs@.take(2) =~= seq!['\\', '\\'] {
                    assert(cs@[0] == '\\' && cs@[1] == '\\');
                }
                if two {
                    assert(cs@.take(2) =~= seq!['\\', '\\']);
                }
            }
            assert(two == starts_with_text(cs@, seq!['\\', '\\']));
        }
        if !two {
            return 0;
        }
        let a = next_sep_at(cs, 2, false);
        if a > 2 && a < n {
            let b = next_sep_at(cs, a + 1, false);
            if b > a + 1 {
                return 2 + pair_len_at(cs, 2, false);
            }
        }
        0
    }
}

/// Where each component of the path text `cs` ends (see `comp_ends`).
pub fn comp_ends_of(cs: &Vec<char>) -> (r: Vec<usize>)
    ensures
        r@.map_values(|x: usize| x as int) == comp_ends(cs@),
{
    let n = cs.len();
    let long = long_prefix_at(cs);
    let verbatim = n >= 4 && cs[0] == '\\' && cs[1] == '\\' && cs[2] == '?' && cs[3] == '\\';
    proof {
        if n >= 4 {
            if cs@.take(4) =~= seq!['\\', '\\', '?', '\\'] {
                assert(cs@[0] == '\\' && cs@[1] == '\\' && cs@[2] == '?' && cs@[3] == '\\');
            }
            if verbatim {
                assert(cs@.take(4) =~= seq!['\\', '\\', '?', '\\']);
            }
        }
    }
    assert(verbatim == is_verbatim(cs@));
    let drive = n >= 2 && is_alpha_char(cs[0]) && cs[1] == ':';
    let start: usize = if long > 0 {
        long
    } else if drive {
        2
    } else {
        0
    };
    assert(start as int == prefix_len(cs@));
    let mut ends: Vec<usize> = Vec::new();
    if start > 0 {
        ends.push(start);
    }
    let has_root = n > start && is_sep_char_in(cs[start], verbatim);
    assert(has_root == rooted(cs@));
    if has_root {
        ends.push(start + 1);
    }
    let ghost head = ends@.map_values(|x: usize| x as int);
    let ghost whole = seg_ends(cs@, start as int, seq![], verbatim, !has_root);
    assert(head =~= (if start > 0 {
        seq![start as int]
    } else {
        seq![]
    }) + (if has_root {
        seq![start + 1]
    } else {
        Seq::<int>::empty()
    }));
    let mut cur: Vec<char> = Vec::new();
    let mut first = !has_root;
    let mut i: usize = start;
    assert(ends@.map_values(|x: usize| x as int) =~= head + seq![]);
    while i < n
        invariant
            start <= i <= n,
            n == cs.len(),
            ends@.map_values(|x: usize| x as int) + seg_ends(cs@, i as int, cur@, verbatim, first)
                == head + whole,
        decreases n - i,
    {
        let ghost before = ends@.map_values(|x: usize| x as int);
        if is_sep_char_in(cs[i], verbatim) {
            if is_kept(&cur, verbatim, first) {
                ends.push(i);
                assert(ends@.map_values(|x: usize| x as int) =~= before + seq![i as int]);
            }
            cur = Vec::new();
            first = false;
        } else {
            cur.push(cs[i]);
        }
        i = i + 1;
        proof {
            let after = ends@.map_values(|x: usize| x as int);
            assert(after + seg_ends(cs@, i as int, cur@, verbatim, first) =~= head + whole);
        }
    }
    let ghost before = ends@.map_values(|x: usize| x as int);
    if is_kept(&cur, verbatim, first) {
        ends.push(n);
        assert(ends@.map_values(|x: usize| x as int) =~= before + seq![n as int]);
    }
    assert(ends@.map_values(|x: usize| x as int) =~= head + whole);
    ends
}

impl WinPath {
    /// Parses path text into its components.
    pub fn parse(s: &str) -> (p: WinPath)
        ensures
            p@ == parse_spec(s@),
    {
        let cs = chars_of(s);
        Self::parse_chars(&cs)
    }

    /// Parses path text, given as characters, into its components.
    pub fn parse_chars(cs: &Vec<char>) -> (p: WinPath)
        ensures
            p@ == parse_spec(cs@),
    {
        let n = cs.len();
        let long = long_prefix_at(cs);
        let verbatim = n >= 4 && cs[0] == '\\' && cs[1] == '\\' && cs[2] == '?' && cs[3] == '\\';
        proof {
            if n >= 4 {
                if cs@.take(4) =~= seq!['\\', '\\', '?', '\\'] {
                    assert(cs@[0] == '\\' && cs@[1] == '\\' && cs@[2] == '?' && cs@[3] == '\\');
                }
                if verbatim {
                    assert(cs@.take(4) =~= seq!['\\', '\\', '?', '\\']);
                }
            }
        }
        assert(verbatim == is_verbatim(cs@));
        let drive = n >= 2 && is_alpha_char(cs[0]) && cs[1] == ':';
        let start: usize = if long > 0 {
            long
        } else if drive {
            2
        } else {
            0
        };
        assert(start as int == prefix_len(cs@));
        let mut parts: Vec<Part> = Vec::new();
        if long > 0 {
            let mut pre: Vec<char> = Vec::new();
            let mut k: usize = 0;
            while k < long
                invariant
                    k <= long <= cs@.len(),
                    pre@ == cs@.take(k as int),
                decreases long - k,
            {
                pre.push(cs[k]);
                assert(cs@.take(k + 1) =~= cs@.take(k as int).push(cs@[k as int]));
                k = k + 1;
            }
            parts.push(Part::Prefix(pre));
        } else if drive {
            parts.push(Part::Drive(to_upper_ascii(cs[0])));
        }
        let has_root = n > start && is_sep_char_in(cs[start], verbatim);
        assert(has_root == rooted(cs@));
        if has_root {
            parts.push(Part::Root);
        }
        let ghost head = parts@.map_values(|p: Part| part_view(p));
        let ghost whole = segs(cs@.subrange(start as int, n as int), seq![], verbatim, !has_root);
        let mut cur: Vec<char> = Vec::new();
        let mut first = !has_root;
        let mut i: usize = start;
        assert(parts@.map_values(|p: Part| part_view(p)) =~= head + seq![]);
        while i < n
            invariant
                start <= i <= n,
                n == cs.len(),
                parts@.map_values(|p: Part| part_view(p)) + segs(
                    cs@.subrange(i as int, n as int),
                    cur@,
                    verbatim,
                    first,
                ) == head + whole,
            decreases n - i,
        {
            proof {
                lemma_segs_step(cs@, i as int, cur@, verbatim, first);
            }
            let ghost before = parts@.map_values(|p: Part| part_view(p));
            if is_sep_char_in(cs[i], verbatim) {
                if is_kept(&cur, verbatim, first) {
                    let ghost cv = cur@;
                    parts.push(Part::Name(cur));
                    assert(parts@.map_values(|p: Part| part_view(p)) =~= before + seq![
                        Comp::Name(cv),
                    ]);
                    assert(emit(cv, verbatim, first) == seq![Comp::Name(cv)]);
                } else {
                    assert(emit(cur@, verbatim, first) =~= seq![]);
                }
                cur = Vec::new();
                first = false;
            } else {
                cur.push(cs[i]);
            }
            i = i + 1;
            proof {
                let after = parts@.map_values(|p: Part| part_view(p));
                assert(after + segs(cs@.subrange(i as int, n as int), cur@, verbatim, first)
                    =~= head + whole);
            }
        }
        let ghost before = parts@.map_values(|p: Part| part_view(p));
        assert(cs@.subrange(n as int, n as int) =~= seq![]);
        if is_kept(&cur, verbatim, first) {
            let ghost cv = cur@;
            parts.push(Part::Name(cur));
            assert(parts@.map_values(|p: Part| part_view(p)) =~= before + seq![Comp::Name(cv)]);
        } else {
            assert(emit(cur@, verbatim, first) =~= seq![]);
        }
        let p = WinPath { parts };
        assert(p@ =~= head + whole);
        p
    }
}


/// A copy of a character vector.
pub fn copy_chars(v: &Vec<char>) -> (r: Vec<char>)
    ensures
        r@ == v@,
{
    let r = v.clone();
    assert(r@ =~= v@);
    r
}

fn copy_part(p: &Part) -> (r: Part)
    ensures
        part_view(r) == part_view(*p),
{
    match p {
        Part::Drive(c) => Part::Drive(*c),
        Part::Prefix(v) => Part::Prefix(copy_chars(v)),
        Part::Root => Part::Root,
        Part::Name(v) => Part::Name(copy_chars(v)),
    }
}

fn part_eq(a: &Part, b: &Part) -> (r: bool)
    ensures
        r == (part_view(*a) == part_view(*b)),
{
    match (a, b) {
        (Part::Drive(x), Part::Drive(y)) => *x == *y,
        (Part::Prefix(x), Part::Prefix(y)) => chars_eq(x.as_slice(), y.as_slice()),
        (Part::Root, Part::Root) => true,
        (Part::Name(x), Part::Name(y)) => chars_eq(x.as_slice(), y.as_slice()),
        _ => false,
    }
}

impl WinPath {
    /// The first `k` components.
    pub fn take(&self, k: usize) -> (r: WinPath)
        requires
            k <= self@.len(),
        ensures
            r@ == self@.take(k as int),
    {
        let mut parts: Vec<Part> = Vec::new();
        let mut i: usize = 0;
        while i < k
            invariant
                i <= k,
                k <= self.parts.len(),
                parts@.map_values(|p: Part| part_view(p)) == self@.take(i as int),
            decreases k - i,
        {
            let ghost before = parts@.map_values(|p: Part| part_view(p));
            parts.push(copy_part(&self.parts[i]));
            assert(parts@.map_values(|p: Part| part_view(p)) =~= before.push(self@[i as int]));
            assert(self@.take(i + 1) =~= self@.take(i as int).push(self@[i as int]));
            i = i + 1;
        }
        WinPath { parts }
    }

    /// Number of components.
    pub fn len(&self) -> (n: usize)
        ensures
            n == self@.len(),
    {
        self.parts.len()
    }

    /// Whether the last component is a name (so the path has a parent).
    pub fn has_parent(&self) -> (r: bool)
        ensures
            r == (parent_spec(self@) is Some),
    {
        let n = self.parts.len();
        if n == 0 {
            false
        } else {
            match &self.parts[n - 1] {
                Part::Name(_) => true,
                _ => false,
            }
        }
    }

    /// The parent directory, if any (`Path::parent`).
    pub fn parent(&self) -> (r: Option<WinPath>)
        ensures
            match r {
                Some(q) => parent_spec(self@) == Some(q@),
                None => parent_spec(self@) is None,
            },
    {
        if self.has_parent() {
            let q = self.take(self.parts.len() - 1);
            assert(q@ =~= self@.drop_last());
            Some(q)
        } else {
            None
        }
    }

    /// Removes the last component when it is a name (`PathBuf::pop`); returns
    /// whether it did.
    pub fn pop(&mut self) -> (r: bool)
        ensures
            r == (parent_spec(old(self)@) is Some),
            r ==> final(self)@ == old(self)@.drop_last(),
            !r ==> final(self)@ == old(self)@,
    {
        if self.has_parent() {
            let ghost before = self@;
            self.parts.pop();
            assert(self@ =~= before.drop_last());
            true
        } else {
            false
        }
    }

    /// Component-wise equality.
    pub fn same_as(&self, other: &WinPath) -> (r: bool)
        ensures
            r == (self@ == other@),
    {
        if self.parts.len() != other.parts.len() {
            assert(self@.len() != other@.len());
            return false;
        }
        let mut i: usize = 0;
        while i < self.parts.len()
            invariant
                i <= self.parts.len(),
                self.parts.len() == other.parts.len(),
                forall|k: int| 0 <= k < i ==> self@[k] == other@[k],
            decreases self.parts.len() - i,
        {
            if !part_eq(&self.parts[i], &other.parts[i]) {
                assert(self@[i as int] != other@[i as int]);
                return false;
            }
            i = i + 1;
        }
        assert(self@ =~= other@);
        true
    }

    /// Whether `base`'s components are a prefix of this path's (`Path::starts_with`).
    pub fn starts_with(&self, base: &WinPath) -> (r: bool)
        ensures
            r == starts_with_spec(self@, base@),
    {
        if base.parts.len() > self.parts.len() {
            return false;
        }
        let mut i: usize = 0;
        while i < base.parts.len()
            invariant
                i <= base.parts.len(),
                base.parts.len() <= self.parts.len(),
                forall|k: int| 0 <= k < i ==> self@[k] == base@[k],
            decreases base.parts.len() - i,
        {
            if !part_eq(&self.parts[i], &base.parts[i]) {
                assert(self@.take(base@.len() as int)[i as int] != base@[i as int]);
                return false;
            }
            i = i + 1;
        }
        assert(self@.take(base@.len() as int) =~= base@);
        true
    }

    /// The last name, unless the path ends otherwise or with `..`.
    pub fn file_name(&self) -> (r: Option<Vec<char>>)
        ensures
            match r {
                Some(v) => file_name_spec(self@) == Some(v@),
                None => file_name_spec(self@) is None,
            },
    {
        let n = self.parts.len();
        if n == 0 {
            return None;
        }
        match &self.parts[n - 1] {
            Part::Name(v) => {
                let dots = v.len() == 2 && v[0] == '.' && v[1] == '.';
                let dot = v.len() == 1 && v[0] == '.';
                if dots {
                    assert(v@ =~= seq!['.', '.']);
                    None
                } else if dot {
                    assert(v@ =~= seq!['.']);
                    None
                } else {
                    assert(v@ != seq!['.', '.']);
                    assert(v@ != seq!['.']);
                    Some(copy_chars(v))
                }
            },
            _ => None,
        }
    }

    /// The path written as text.
    pub fn render(&self) -> (s: String)
        ensures
            s@ == render_spec(self@),
    {
        let mut s = String::new();
        let mut i: usize = 0;
        while i < self.parts.len()
            invariant
                i <= self.parts.len(),
                s@ == join_names(self@.take(i as int)),
            decreases self.parts.len() - i,
        {
            let ghost pre = self@.take(i as int);
            let ghost next = self@.take(i + 1);
            assert(next.drop_last() =~= pre);
            match &self.parts[i] {
                Part::Drive(d) => {
                    push_char(&mut s, *d);
                    push_char(&mut s, ':');
                    assert(s@ =~= join_names(pre) + seq![*d, ':']);
                },
                Part::Prefix(v) => {
                    let ghost s0 = s@;
                    let mut j: usize = 0;
                    while j < v.len()
                        invariant
                            j <= v.len(),
                            s@ == s0 + v@.take(j as int),
                        decreases v.len() - j,
                    {
                        push_char(&mut s, v[j]);
                        assert(v@.take(j + 1) =~= v@.take(j as int).push(v@[j as int]));
                        j = j + 1;
                    }
                    assert(v@.take(v.len() as int) =~= v@);
                },
                Part::Root => {
                    push_char(&mut s, '\\');
                },
                Part::Name(v) => {
                    let after_name = i > 0 && match &self.parts[i - 1] {
                        Part::Name(_) => true,
                        _ => false,
                    };
                    let ghost s0 = s@;
                    if after_name {
                        push_char(&mut s, '\\');
                    }
                    let ghost s1 = s@;
                    let mut j: usize = 0;
                    while j < v.len()
                        invariant
                            j <= v.len(),
                            s@ == s1 + v@.take(j as int),
                        decreases v.len() - j,
                    {
                        push_char(&mut s, v[j]);
                        assert(v@.take(j + 1) =~= v@.take(j as int).push(v@[j as int]));
                        j = j + 1;
                    }
                    assert(v@.take(v.len() as int) =~= v@);
                    if after_name {
                        assert(s@ =~= s0 + (seq!['\\'] + v@));
                    }
                },
            }
            i = i + 1;
        }
        assert(self@.take(self.parts.len() as int) =~= self@);
        s
    }
}

/// The display name of a path: its file name, or the whole text when it has
/// none (as for `C:\`).
pub fn display_name(s: &str) -> (r: String)
    ensures
        r@ == display_name_spec(s@),
{
    let p = WinPath::parse(s);
    match p.file_name() {
        Some(v) => string_of(v.as_slice()),
        None => {
            let cs = chars_of(s);
            string_of(cs.as_slice())
        },
    }
}

} // verus!
