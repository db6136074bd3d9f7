//! Known Windows temp/cache folders, and the safety check that keeps cleanup
//! away from critical system locations.
//!
//! The folder locations come from environment variables; reading those and
//! checking which folders exist is the caller's part. Here the candidate paths
//! are derived from the variables' values, and paths are tested against the
//! protected roots.

use vstd::prelude::*;

use crate::models::FileMetadata;
use crate::text::{chars_of, lowercase, push_char, to_lowercase};
use crate::winpath::{has_drive, is_sep};

verus! {

/// A known temp/cache folder.
pub struct TempFolder {
    pub name: &'static str,
    pub path: String,
    pub description: &'static str,
}

/// `PathBuf::push` of a single relative name onto `base` (Windows rules): no
/// separator is added when `base` is empty, already ends in a separator, or is
/// a bare drive prefix such as `C:`.
pub open spec fn join_spec(base: Seq<char>, name: Seq<char>) -> Seq<char> {
    if base.len() == 0 {
        name
    } else if is_sep(base.last()) || (base.len() == 2 && has_drive(base)) {
        base + name
    } else {
        base + seq!['\\'] + name
    }
}

fn push_str(s: &mut String, t: &str)
    ensures
        final(s)@ == old(s)@ + t@,
{
    let cs = chars_of(t);
    let mut i: usize = 0;
    while i < cs.len()
        invariant
            i <= cs@.len(),
            cs@ == t@,
            s@ == old(s)@ + cs@.take(i as int),
        decreases cs.len() - i,
    {
        push_char(s, cs[i]);
        assert(cs@.take(i + 1) =~= cs@.take(i as int).push(cs@[i as int]));
        i = i + 1;
    }
    assert(cs@.take(cs@.len() as int) =~= cs@);
}

/// `base` joined with the relative name `name`, as `PathBuf::push` does.
pub fn join(base: &str, name: &str) -> (r: String)
    ensures
        r@ == join_spec(base@, name@),
{
    let b = chars_of(base);
    let mut r = String::new();
    push_str(&mut r, base);
    let n = b.len();
    if n > 0 {
        let last = b[n - 1];
        let drive_only = n == 2 && (('a' <= b[0] && b[0] <= 'z') || ('A' <= b[0] && b[0] <= 'Z'))
            && b[1] == ':';
        if !(last == '\\' || last == '/') && !drive_only {
            push_char(&mut r, '\\');
        }
    }
    push_str(&mut r, name);
    assert(r@ =~= join_spec(base@, name@));
    r
}

/// A temp folder candidate as plain text: name, path, description.
pub type FolderV = (Seq<char>, Seq<char>, Seq<char>);

pub open spec fn folder_view(f: TempFolder) -> FolderV {
    (f.name@, f.path@, f.description@)
}

/// The known temp/cache folders, in order, given the values of the `TEMP`,
/// `SystemRoot` and `LOCALAPPDATA` variables (a folder whose variable is unset
/// is left out).
pub open spec fn temp_candidates_spec(
    temp: Option<Seq<char>>,
    system_root: Option<Seq<char>>,
    local_app_data: Option<Seq<char>>,
) -> Seq<FolderV> {
    let user: Seq<FolderV> = match temp {
        Some(t) => seq![
            ("User Temp"@, t, "Temporary files created by applications for the current user."@),
        ],
        None => seq![],
    };
    let system: Seq<FolderV> = match system_root {
        Some(s) => seq![
            ("System Temp"@, join_spec(s, "Temp"@), "Windows system-wide temporary files."@),
            (
                "Windows Update Cache"@,
                join_spec(join_spec(s, "SoftwareDistribution"@), "Download"@),
                "Downloaded Windows Update files that have already been installed."@,
            ),
            (
                "Windows Prefetch"@,
                join_spec(s, "Prefetch"@),
                "Application launch traces used to speed up startup."@,
            ),
        ],
        None => seq![],
    };
    let local: Seq<FolderV> = match local_app_data {
        Some(l) => seq![
            (
                "Thumbnail Cache"@,
                join_spec(join_spec(join_spec(l, "Microsoft"@), "Windows"@), "Explorer"@),
                "Cached thumbnails for images and videos."@,
            ),
            (
                "Edge Cache"@,
                join_spec(
                    join_spec(
                        join_spec(join_spec(join_spec(l, "Microsoft"@), "Edge"@), "User Data"@),
                        "Default"@,
                    ),
                    "Cache"@,
                ),
                "Cached web content from Microsoft Edge."@,
            ),
            (
                "Chrome Cache"@,
                join_spec(
                    join_spec(
                        join_spec(join_spec(join_spec(l, "Google"@), "Chrome"@), "User Data"@),
                        "Default"@,
                    ),
                    "Cache"@,
                ),
                "Cached web content from Google Chrome."@,
            ),
        ],
        None => seq![],
    };
    user + system + local
}

pub open spec fn opt_view(o: Option<&str>) -> Option<Seq<char>> {
    match o {
        Some(s) => Some(s@),
        None => None,
    }
}

fn folder(name: &'static str, path: String, description: &'static str) -> (f: TempFolder)
    ensures
        folder_view(f) == (name@, path@, description@),
{
    TempFolder { name, path, description }
}

/// The candidate temp folders for the given environment values, in the order
/// they are listed to the user; the caller keeps those that exist.
pub fn temp_folder_candidates(
    temp: Option<&str>,
    system_root: Option<&str>,
    local_app_data: Option<&str>,
) -> (v: Vec<TempFolder>)
    ensures
        v@.map_values(|f: TempFolder| folder_view(f)) == temp_candidates_spec(
            opt_view(temp),
            opt_view(system_root),
            opt_view(local_app_data),
        ),
{
    let mut v: Vec<TempFolder> = Vec::new();
    if let Some(t) = temp {
        let mut p = String::new();
        push_str(&mut p, t);
        assert(p@ =~= t@);
        v.push(
            folder(
                "User Temp",
                p,
                "Temporary files created by applications for the current user.",
            ),
        );
    }
    if let Some(s) = system_root {
        v.push(folder("System Temp", join(s, "Temp"), "Windows system-wide temporary files."));
        let sd = join(s, "SoftwareDistribution");
        v.push(
            folder(
                "Windows Update Cache",
                join(sd.as_str(), "Download"),
                "Downloaded Windows Update files that have already been installed.",
            ),
        );
        v.push(
            folder(
                "Windows Prefetch",
                join(s, "Prefetch"),
                "Application launch traces used to speed up startup.",
            ),
        );
    }
    if let Some(l) = local_app_data {
        let ms = join(l, "Microsoft");
        let win = join(ms.as_str(), "Windows");
        v.push(
            folder(
                "Thumbnail Cache",
                join(win.as_str(), "Explorer"),
                "Cached thumbnails for images and videos.",
            ),
        );
        let edge = join(ms.as_str(), "Edge");
        let edge_ud = join(edge.as_str(), "User Data");
        let edge_def = join(edge_ud.as_str(), "Default");
        v.push(
            folder(
                "Edge Cache",
                join(edge_def.as_str(), "Cache"),
                "Cached web content from Microsoft Edge.",
            ),
        );
        let g = join(l, "Google");
        let ch = join(g.as_str(), "Chrome");
        let ch_ud = join(ch.as_str(), "User Data");
        let ch_def = join(ch_ud.as_str(), "Default");
        v.push(
            folder(
                "Chrome Cache",
                join(ch_def.as_str(), "Cache"),
                "Cached web content from Google Chrome.",
            ),
        );
    }
    assert(v@.map_values(|f: TempFolder| folder_view(f)) =~= temp_candidates_spec(
        opt_view(temp),
        opt_view(system_root),
        opt_view(local_app_data),
    ));
    v
}

/// The protected roots for the given values of `SystemRoot` and of the
/// `ProgramFiles`, `ProgramFiles(x86)` and `ProgramW6432` variables.
pub open spec fn protected_roots_spec(
    system_root: Option<Seq<char>>,
    program_files: Seq<Option<Seq<char>>>,
) -> Seq<Seq<char>> {
    let win: Seq<Seq<char>> = match system_root {
        Some(s) => seq![join_spec(s, "System32"@), join_spec(s, "SysWOW64"@), join_spec(s, "WinSxS"@)],
        None => seq![],
    };
    win + program_files.filter(|o: Option<Seq<char>>| o is Some).map_values(
        |o: Option<Seq<char>>| o->Some_0,
    )
}

/// Critical locations that cleanup must never touch: `System32`, `SysWOW64`
/// and `WinSxS` under the Windows folder, and the program folders.
pub fn protected_roots_from(
    system_root: Option<&str>,
    program_files: Option<&str>,
    program_files_x86: Option<&str>,
    program_w6432: Option<&str>,
) -> (v: Vec<String>)
    ensures
        v@.map_values(|s: String| s@) == protected_roots_spec(
            opt_view(system_root),
            seq![opt_view(program_files), opt_view(program_files_x86), opt_view(program_w6432)],
        ),
{
    let mut v: Vec<String> = Vec::new();
    if let Some(s) = system_root {
        v.push(join(s, "System32"));
        v.push(join(s, "SysWOW64"));
        v.push(join(s, "WinSxS"));
    }
    let ghost win = v@.map_values(|s: String| s@);
    let ghost opts = seq![
        opt_view(program_files),
        opt_view(program_files_x86),
        opt_view(program_w6432),
    ];
    let ghost keep = |o: Option<Seq<char>>| o is Some;
    proof {
        reveal_with_fuel(Seq::filter, 4);
        assert(opts.take(0).filter(keep) =~= Seq::<Option<Seq<char>>>::empty());
    }
    if let Some(p) = program_files {
        let mut t = String::new();
        push_str(&mut t, p);
        v.push(t);
    }
    if let Some(p) = program_files_x86 {
        let mut t = String::new();
        push_str(&mut t, p);
        v.push(t);
    }
    if let Some(p) = program_w6432 {
        let mut t = String::new();
        push_str(&mut t, p);
        v.push(t);
    }
    proof {
        reveal_with_fuel(Seq::filter, 4);
        assert(opts.drop_last().drop_last().drop_last() =~= Seq::<Option<Seq<char>>>::empty());
        assert(opts.drop_last().drop_last() =~= seq![opt_view(program_files)]);
        assert(opts.drop_last() =~= seq![opt_view(program_files), opt_view(program_files_x86)]);
    }
    assert(v@.map_values(|s: String| s@) =~= protected_roots_spec(opt_view(system_root), opts));
    v
}

/// `p` is the root `r` itself or lies below it: `p` starts with `r` followed
/// by `\`, or with `r` when `r` already ends in `\` (as `C:\Temp\` does).
pub open spec fn within_root(p: Seq<char>, r: Seq<char>) -> bool {
    ||| p == r
    ||| (r.len() > 0 && r.last() == '\\' && r.len() <= p.len() && p.take(r.len() as int) == r)
    ||| (p.len() > r.len() && p.take(r.len() as int + 1) == r.push('\\'))
}

/// Whether the lower-cased path `p` lies within one of the lower-cased roots.
pub open spec fn under_any(p: Seq<char>, roots: Seq<Seq<char>>) -> bool {
    exists|i: int| 0 <= i < roots.len() && within_root(p, #[trigger] roots[i])
}

/// A path lies in the protected area exactly when it lies within one of the
/// roots, whichever position that root has in the list: adding a root never
/// unprotects a path, and the order of the roots does not matter.
pub proof fn law_any_root_protects(p: Seq<char>, roots: Seq<Seq<char>>, i: int, extra: Seq<char>)
    ensures
        0 <= i < roots.len() && within_root(p, roots[i]) ==> under_any(p, roots),
        under_any(p, roots) ==> exists|k: int| 0 <= k < roots.len() && within_root(p, #[trigger] roots[k]),
        under_any(p, roots) ==> under_any(p, roots.push(extra)) && under_any(p, seq![extra] + roots),
        within_root(p, extra) ==> under_any(p, roots.push(extra)) && under_any(p, seq![extra] + roots),
        !under_any(p, roots) && !within_root(p, extra) ==> !under_any(p, roots.push(extra)),
{
    if under_any(p, roots) {
        let k = choose|k: int| 0 <= k < roots.len() && within_root(p, #[trigger] roots[k]);
        assert(roots.push(extra)[k] == roots[k]);
        assert((seq![extra] + roots)[k + 1] == roots[k]);
    }
    if within_root(p, extra) {
        assert(roots.push(extra)[roots.len() as int] == extra);
        assert((seq![extra] + roots)[0] == extra);
    }
    if !under_any(p, roots) && !within_root(p, extra) {
        assert forall|k: int| 0 <= k < roots.push(extra).len() implies !within_root(
            p,
            #[trigger] roots.push(extra)[k],
        ) by {
            if k < roots.len() {
                assert(roots.push(extra)[k] == roots[k]);
            }
        }
    }
}

fn under_root(p: &Vec<char>, r: &Vec<char>) -> (b: bool)
    ensures
        b == within_root(p@, r@),
{
    if p.len() < r.len() {
        assert(p@ != r@);
        return false;
    }
    let mut i: usize = 0;
    while i < r.len()
        invariant
            i <= r@.len(),
            r@.len() <= p@.len(),
            forall|k: int| 0 <= k < i ==> p@[k] == r@[k],
        decreases r.len() - i,
    {
        if p[i] != r[i] {
            assert(p@ != r@);
            assert(p@.take(r@.len() as int)[i as int] != r@[i as int]);
            if p.len() > r.len() {
                assert(p@.take(r@.len() as int + 1)[i as int] != r@.push('\\')[i as int]);
            }
            return false;
        }
        i = i + 1;
    }
    assert(p@.take(r@.len() as int) =~= r@);
    if p.len() == r.len() {
        assert(p@ =~= r@);
        true
    } else if r.len() > 0 && r[r.len() - 1] == '\\' {
        true
    } else if p[r.len()] == '\\' {
        assert(p@.take(r@.len() as int + 1) =~= r@.push('\\'));
        true
    } else {
        assert(p@.take(r@.len() as int + 1)[r@.len() as int] != r@.push('\\')[r@.len() as int]);
        assert(p@ != r@);
        false
    }
}

/// Whether the (already lower-cased) path lies in one of the (already
/// lower-cased) roots: equal to a root, or below it with a `\` boundary (the
/// root's own trailing `\`, or one that follows it), so
/// `c:\windows\system32foo` is not inside `c:\windows\system32`.
pub fn protected_by(lower_path: &str, lower_roots: &[String]) -> (b: bool)
    ensures
        b == under_any(lower_path@, lower_roots@.map_values(|s: String| s@)),
{
    let p = chars_of(lower_path);
    let ghost rs = lower_roots@.map_values(|s: String| s@);
    let mut i: usize = 0;
    while i < lower_roots.len()
        invariant
            i <= lower_roots@.len(),
            p@ == lower_path@,
            rs == lower_roots@.map_values(|s: String| s@),
            forall|k: int|
                0 <= k < i ==> !within_root(p@, #[trigger] rs[k]),
        decreases lower_roots.len() - i,
    {
        let r = chars_of(lower_roots[i].as_str());
        if under_root(&p, &r) {
            assert(rs[i as int] == r@);
            return true;
        }
        i = i + 1;
    }
    false
}

/// Is `path` inside one of the protected roots? The comparison ignores case
/// (Unicode lower-casing of both sides) and needs a separator boundary.
pub fn is_protected(path: &str, roots: &[String]) -> (b: bool)
    ensures
        b == under_any(
            lowercase(path@),
            roots@.map_values(|s: String| lowercase(s@)),
        ),
{
    let lp = to_lowercase(path);
    let mut lr: Vec<String> = Vec::new();
    let mut i: usize = 0;
    while i < roots.len()
        invariant
            i <= roots@.len(),
            lr@.map_values(|s: String| s@) == roots@.take(i as int).map_values(
                |s: String| lowercase(s@),
            ),
        decreases roots.len() - i,
    {
        let ghost before = lr@.map_values(|s: String| s@);
        let l = to_lowercase(roots[i].as_str());
        assert(l@ == lowercase(roots@[i as int]@));
        lr.push(l);
        assert(lr@.map_values(|s: String| s@) =~= before.push(l@));
        assert(roots@.take(i + 1) =~= roots@.take(i as int).push(roots@[i as int]));
        assert(lr@.map_values(|s: String| s@) =~= roots@.take(i + 1).map_values(
            |s: String| lowercase(s@),
        ));
        i = i + 1;
    }
    assert(roots@.take(roots@.len() as int) =~= roots@);
    protected_by(lp.as_str(), lr.as_slice())
}


/// What the cleanup panel asks the application to do this frame.
#[derive(Clone, Copy, Debug, PartialEq, Eq, Structural)]
pub enum CleanupAction {
    /// Nothing requested.
    Idle,
    /// Files were moved to the Recycle Bin; the scan should be cleared.
    Cleaned,
    /// The user asked to relaunch elevated to reach protected folders.
    Elevate,
}

impl Default for CleanupAction {
    fn default() -> (a: CleanupAction)
        ensures
            a == CleanupAction::Idle,
    {
        CleanupAction::Idle
    }
}

/// The files of a cleanup view split into those that will be recycled and
/// those inside protected roots, with their sizes.
pub struct CleanupPlan {
    pub deletable: Vec<usize>,
    pub protected: Vec<usize>,
    pub deletable_size: u64,
    pub total_size: u64,
}

/// Whether the file at index `i` lies in a protected root.
pub open spec fn file_protected(files: Seq<FileMetadata>, roots: Seq<String>, i: usize) -> bool {
    under_any(
        lowercase(files[i as int].path@),
        roots.map_values(|s: String| lowercase(s@)),
    )
}

/// The entries of `view` (in order) whose protection status is `p`.
pub open spec fn split_view(
    files: Seq<FileMetadata>,
    roots: Seq<String>,
    view: Seq<usize>,
    p: bool,
) -> Seq<usize>
    decreases view.len(),
{
    if view.len() == 0 {
        seq![]
    } else {
        let prev = split_view(files, roots, view.drop_last(), p);
        if file_protected(files, roots, view.last()) == p {
            prev.push(view.last())
        } else {
            prev
        }
    }
}

/// Total size of the files at the given indices.
pub open spec fn indices_size(files: Seq<FileMetadata>, idx: Seq<usize>) -> int
    decreases idx.len(),
{
    if idx.len() == 0 {
        0
    } else {
        indices_size(files, idx.drop_last()) + files[idx.last() as int].size
    }
}

proof fn lemma_split_size(files: Seq<FileMetadata>, roots: Seq<String>, view: Seq<usize>)
    ensures
        indices_size(files, split_view(files, roots, view, false)) <= indices_size(files, view),
    decreases view.len(),
{
    if view.len() > 0 {
        lemma_split_size(files, roots, view.drop_last());
        let d = split_view(files, roots, view, false);
        let pd = split_view(files, roots, view.drop_last(), false);
        if d.len() > pd.len() {
            assert(d.drop_last() =~= pd);
        }
    }
}

proof fn lemma_indices_size_prefix(files: Seq<FileMetadata>, idx: Seq<usize>, k: int)
    requires
        0 <= k <= idx.len(),
    ensures
        indices_size(files, idx.take(k)) <= indices_size(files, idx),
    decreases idx.len() - k,
{
    if k < idx.len() {
        lemma_indices_size_prefix(files, idx, k + 1);
        assert(idx.take(k + 1).drop_last() =~= idx.take(k));
    } else {
        assert(idx.take(k) =~= idx);
    }
}

/// A cleanup plan splits the view without loss: every file goes to exactly
/// one side, the recycled side holds no file inside a protected root, and the
/// two sizes add up to the size of the view.
pub proof fn law_cleanup_partition(files: Seq<FileMetadata>, roots: Seq<String>, view: Seq<usize>)
    ensures
        ({
            let d = split_view(files, roots, view, false);
            let p = split_view(files, roots, view, true);
            &&& forall|i: int| 0 <= i < d.len() ==> !file_protected(files, roots, #[trigger] d[i])
            &&& forall|i: int| 0 <= i < p.len() ==> file_protected(files, roots, #[trigger] p[i])
            &&& d.len() + p.len() == view.len()
            &&& d.to_multiset().add(p.to_multiset()) == view.to_multiset()
            &&& indices_size(files, d) + indices_size(files, p) == indices_size(files, view)
        }),
    decreases view.len(),
{
    broadcast use vstd::seq_lib::group_to_multiset_ensures;

    if view.len() > 0 {
        let v0 = view.drop_last();
        law_cleanup_partition(files, roots, v0);
        let d = split_view(files, roots, view, false);
        let p = split_view(files, roots, view, true);
        let d0 = split_view(files, roots, v0, false);
        let p0 = split_view(files, roots, v0, true);
        assert(view =~= v0.push(view.last()));
        if file_protected(files, roots, view.last()) {
            assert(d == d0);
            assert(p.drop_last() =~= p0);
        } else {
            assert(p == p0);
            assert(d.drop_last() =~= d0);
        }
    } else {
        assert(split_view(files, roots, view, false).to_multiset() =~= vstd::multiset::Multiset::empty());
        assert(split_view(files, roots, view, true).to_multiset() =~= vstd::multiset::Multiset::empty());
        assert(view.to_multiset() =~= vstd::multiset::Multiset::empty());
    }
}

/// Partitions the files of a cleanup view into those that will be recycled
/// and those inside protected roots (which are never touched), both in view
/// order, with the size to be freed and the size of the whole view.
pub fn plan_cleanup(files: &[FileMetadata], view: &[usize], roots: &[String]) -> (plan: CleanupPlan)
    requires
        forall|k: int| 0 <= k < view@.len() ==> (#[trigger] view@[k]) < files@.len(),
        indices_size(files@, view@) <= u64::MAX,
    ensures
        plan.deletable@ == split_view(files@, roots@, view@, false),
        plan.protected@ == split_view(files@, roots@, view@, true),
        plan.deletable_size == indices_size(files@, plan.deletable@),
        plan.total_size == indices_size(files@, view@),
{
    let mut deletable: Vec<usize> = Vec::new();
    let mut protected: Vec<usize> = Vec::new();
    let mut deletable_size: u64 = 0;
    let mut total_size: u64 = 0;
    let mut k: usize = 0;
    while k < view.len()
        invariant
            k <= view@.len(),
            forall|k: int| 0 <= k < view@.len() ==> (#[trigger] view@[k]) < files@.len(),
            indices_size(files@, view@) <= u64::MAX,
            deletable@ == split_view(files@, roots@, view@.take(k as int), false),
            protected@ == split_view(files@, roots@, view@.take(k as int), true),
            deletable_size == indices_size(files@, deletable@),
            total_size == indices_size(files@, view@.take(k as int)),
        decreases view.len() - k,
    {
        let i = view[k];
        let ghost pre = view@.take(k as int);
        let ghost post = view@.take(k + 1);
        assert(post.drop_last() =~= pre);
        proof {
            lemma_indices_size_prefix(files@, view@, k + 1);
            lemma_split_size(files@, roots@, post);
        }
        let ghost before_del = deletable@;
        if is_protected(files[i].path.as_str(), roots) {
            protected.push(i);
        } else {
            deletable.push(i);
            assert(deletable@.drop_last() =~= before_del);
            deletable_size = deletable_size + files[i].size;
        }
        total_size = total_size + files[i].size;
        k = k + 1;
    }
    assert(view@.take(view@.len() as int) =~= view@);
    CleanupPlan { deletable, protected, deletable_size, total_size }
}

} // verus!
