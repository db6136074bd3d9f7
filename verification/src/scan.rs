//! The bookkeeping of a scan: what is recorded for each file found, the
//! running totals, and when a progress message is due.
//!
//! Walking the directory tree and reading metadata is the caller's part; it
//! reports each file here and sends on the messages that come back.

use vstd::prelude::*;

use crate::models::{FileMetadata, ScanMessage};
use crate::text::{chars_of, lowercase, string_of, to_lowercase};
use crate::winpath::{file_name_spec, parse_spec, WinPath};

verus! {

/// How many files to record between progress messages.
pub const PROGRESS_EVERY: usize = 2000;

/// The extension of a file name (`Path::extension`): the text after the last
/// dot, unless there is no dot or the only dot leads the name.
pub open spec fn name_extension(name: Seq<char>) -> Option<Seq<char>> {
    if exists|i: int| 0 < i < name.len() && name[i] == '.' {
        let k = choose|k: int|
            0 < k < name.len() && name[k] == '.' && forall|j: int| k < j < name.len() ==> name[j]
                != '.';
        Some(name.subrange(k + 1, name.len() as int))
    } else {
        None
    }
}

/// The extension of a path: that of its file name, if it has one.
pub open spec fn extension_spec(path: Seq<char>) -> Option<Seq<char>> {
    match file_name_spec(parse_spec(path)) {
        Some(n) => name_extension(n),
        None => None,
    }
}

/// The lower-cased extension recorded for a file (empty when it has none).
pub open spec fn recorded_extension(path: Seq<char>) -> Seq<char> {
    match extension_spec(path) {
        Some(e) => lowercase(e),
        None => seq![],
    }
}

fn name_ext(name: &Vec<char>) -> (r: Option<Vec<char>>)
    ensures
        match r {
            Some(v) => name_extension(name@) == Some(v@),
            None => name_extension(name@) is None,
        },
{
    let n = name.len();
    let mut k = n;
    while k > 0 && name[k - 1] != '.'
        invariant
            k <= n,
            n == name@.len(),
            forall|j: int| k <= j < n ==> name@[j] != '.',
        decreases k,
    {
        k = k - 1;
    }
    if k <= 1 {
        return None;
    }
    let dot = k - 1;
    assert(name@[dot as int] == '.');
    let ghost kk = choose|kk: int|
        0 < kk < name@.len() && name@[kk] == '.' && forall|j: int| kk < j < name@.len() ==> name@[j]
            != '.';
    assert(kk == dot) by {
        if kk < dot {
            assert(name@[dot as int] != '.');
        }
        if kk > dot {
            assert(name@[kk] != '.');
        }
    }
    let mut v: Vec<char> = Vec::new();
    let mut i = k;
    while i < n
        invariant
            k <= i <= n,
            n == name@.len(),
            v@ == name@.subrange(k as int, i as int),
        decreases n - i,
    {
        v.push(name[i]);
        assert(name@.subrange(k as int, i + 1) =~= name@.subrange(k as int, i as int).push(
            name@[i as int],
        ));
        i = i + 1;
    }
    Some(v)
}

/// The lower-cased extension of a path, or empty when it has none.
pub fn extension_of(path: &str) -> (e: String)
    ensures
        e@ == recorded_extension(path@),
{
    let p = WinPath::parse(path);
    match p.file_name() {
        Some(name) => match name_ext(&name) {
            Some(ext) => {
                let s = string_of(ext.as_slice());
                to_lowercase(s.as_str())
            },
            None => String::new(),
        },
        None => String::new(),
    }
}

/// The running state of a scan.
pub struct ScanTally {
    files: Vec<FileMetadata>,
    total_bytes: u64,
    since_update: usize,
}

impl ScanTally {
    /// The files recorded so far.
    pub closed spec fn recorded(&self) -> Seq<FileMetadata> {
        self.files@
    }

    /// The total size recorded so far (saturating at `u64::MAX`).
    pub closed spec fn bytes(&self) -> u64 {
        self.total_bytes
    }

    /// Files recorded since the last progress message.
    pub closed spec fn pending(&self) -> usize {
        self.since_update
    }

    pub closed spec fn inv(&self) -> bool {
        self.since_update < PROGRESS_EVERY
    }

    /// An empty tally.
    pub fn new() -> (t: ScanTally)
        ensures
            t.recorded() == Seq::<FileMetadata>::empty(),
            t.bytes() == 0,
            t.pending() == 0,
            t.inv(),
    {
        ScanTally { files: Vec::new(), total_bytes: 0, since_update: 0 }
    }

    /// Records one file found by the walk. Returns a progress message (files
    /// and bytes so far) after every `PROGRESS_EVERY` files.
    pub fn add_file(
        &mut self,
        path: String,
        size: u64,
        modified: Option<i128>,
        accessed: Option<i128>,
    ) -> (msg: Option<ScanMessage>)
        requires
            old(self).inv(),
        ensures
            final(self).inv(),
            final(self).recorded().len() == old(self).recorded().len() + 1,
            final(self).recorded().drop_last() == old(self).recorded(),
            final(self).recorded().last().path@ == path@,
            final(self).recorded().last().size == size,
            final(self).recorded().last().extension@ == recorded_extension(path@),
            final(self).recorded().last().modified == modified,
            final(self).recorded().last().accessed == accessed,
            final(self).bytes() == (if old(self).bytes() + size > u64::MAX {
                u64::MAX as int
            } else {
                old(self).bytes() + size
            }),
            old(self).pending() + 1 == PROGRESS_EVERY ==> final(self).pending() == 0 && msg == Some(
                ScanMessage::Progress {
                    scanned: final(self).recorded().len() as usize,
                    bytes: final(self).bytes(),
                },
            ),
            old(self).pending() + 1 < PROGRESS_EVERY ==> final(self).pending() == old(self).pending()
                + 1 && msg is None,
    {
        let extension = extension_of(path.as_str());
        self.total_bytes = self.total_bytes.saturating_add(size);
        let ghost before = self.files@;
        self.files.push(FileMetadata { path, size, extension, modified, accessed });
        assert(self.files@.drop_last() =~= before);
        self.since_update = self.since_update + 1;
        if self.since_update >= PROGRESS_EVERY {
            self.since_update = 0;
            Some(ScanMessage::Progress { scanned: self.files.len(), bytes: self.total_bytes })
        } else {
            None
        }
    }

    /// Ends the scan: the message carrying every file recorded.
    pub fn finish(self) -> (msg: ScanMessage)
        ensures
            match msg {
                ScanMessage::Done(v) => v@ == self.recorded(),
                _ => false,
            },
    {
        ScanMessage::Done(self.files)
    }
}

} // verus!
