use oxidedisk::digest::{PrefixDigest, PREFIX_LIMIT};
use oxidedisk::duplicates::{full_groups, prefix_matches, size_candidates, to_hex, CHUNK};
use oxidedisk::models::{DuplicateGroup, FileMetadata};

/// Feeds `content` the way the file reader does, in reads of at most
/// `buf_len` bytes as `next_read_len` asks, and returns the digest.
fn digest_of(content: &[u8], limit: Option<u64>, buf_len: usize) -> [u8; 32] {
    let mut d = PrefixDigest::new(limit);
    let mut pos = 0usize;
    loop {
        let want = d.next_read_len(buf_len);
        if want == 0 {
            break;
        }
        let end = (pos + want).min(content.len());
        let chunk = &content[pos..end];
        d.feed(chunk);
        if chunk.is_empty() {
            break;
        }
        pos = end;
    }
    d.finish()
}

fn file(path: &str, size: u64) -> FileMetadata {
    FileMetadata {
        path: path.to_string(),
        size,
        extension: String::new(),
        modified: None,
        accessed: None,
    }
}

#[test]
fn identical_content_hashes_equal_distinct_differs() {
    let ha = digest_of(b"the quick brown fox", None, 64 * 1024);
    let hb = digest_of(b"the quick brown fox", None, 64 * 1024);
    let hc = digest_of(b"the quick brown cat", None, 64 * 1024);

    assert_eq!(ha, hb, "identical files must hash equal");
    assert_ne!(ha, hc, "different files must hash differently");
}

#[test]
fn prefix_limit_only_reads_first_n_bytes() {
    // Same first 8 bytes, different tails.
    let pa = digest_of(b"PREFIX01_tailA", Some(8), 64 * 1024);
    let pb = digest_of(b"PREFIX01_tailB_longer", Some(8), 64 * 1024);
    assert_eq!(pa, pb, "equal 8-byte prefixes must hash equal");

    let fa = digest_of(b"PREFIX01_tailA", None, 64 * 1024);
    let fb = digest_of(b"PREFIX01_tailB_longer", None, 64 * 1024);
    assert_ne!(fa, fb, "full hashes of different files must differ");
}

#[test]
fn digest_matches_blake3_whatever_the_read_size() {
    let content = b"0123456789abcdefghijklmnopqrstuvwxyz";
    let expected = *blake3::hash(content).as_bytes();
    for buf_len in [1usize, 3, 7, 36, 100] {
        assert_eq!(digest_of(content, None, buf_len), expected);
    }
    let prefix = *blake3::hash(&content[..10]).as_bytes();
    assert_eq!(digest_of(content, Some(10), 3), prefix);
    assert_eq!(digest_of(b"", None, 8), *blake3::hash(b"").as_bytes());
}

#[test]
fn next_read_len_respects_budget_and_end() {
    let mut d = PrefixDigest::new(Some(10));
    assert_eq!(d.next_read_len(4), 4);
    d.feed(b"abcd");
    assert_eq!(d.next_read_len(100), 6);
    d.feed(b"efghij");
    assert_eq!(d.next_read_len(100), 0);
    let mut e = PrefixDigest::new(None);
    e.feed(b"");
    assert_eq!(e.next_read_len(100), 0);
    assert_eq!(PREFIX_LIMIT, 16384);
    assert_eq!(CHUNK, 256);
}

#[test]
fn to_hex_renders_lower_case_pairs() {
    let mut d = [0u8; 32];
    d[0] = 0x0f;
    d[1] = 0xa0;
    d[31] = 0xff;
    let h = to_hex(&d);
    assert_eq!(h.len(), 64);
    assert!(h.starts_with("0fa000"));
    assert!(h.ends_with("00ff"));
    let b = [7u8; 32];
    assert_eq!(to_hex(&b), "07".repeat(32));
    let digest = *blake3::hash(b"abc").as_bytes();
    let expected: String = digest.iter().map(|b| format!("{:02x}", b)).collect();
    assert_eq!(to_hex(&digest), expected);
}

#[test]
fn size_candidates_keep_nonempty_files_sharing_a_size() {
    let files = vec![
        file("a", 5),
        file("b", 7),
        file("c", 5),
        file("d", 0),
        file("e", 0),
        file("f", 9),
        file("g", 5),
    ];
    assert_eq!(size_candidates(&files), vec![0, 2, 6]);
    assert!(size_candidates(&[]).is_empty());
}

#[test]
fn prefix_matches_need_same_size_and_same_digest() {
    let files = vec![file("a", 5), file("b", 5), file("c", 6), file("d", 6), file("e", 5)];
    let x = [1u8; 32];
    let y = [2u8; 32];
    // a and b share size and digest; c shares x but not a's size; d and e stand alone.
    let hashes = vec![(0usize, x), (1, x), (2, x), (3, y), (4, y)];
    assert_eq!(prefix_matches(&files, &hashes), vec![0, 1]);
}

#[test]
fn full_groups_collect_files_by_digest_largest_waste_first() {
    let files = vec![file("a", 10), file("b", 10), file("c", 100), file("d", 100), file("e", 10), file("f", 3)];
    let x = [1u8; 32];
    let y = [2u8; 32];
    let z = [3u8; 32];
    let hashes = vec![(0usize, x), (1, x), (2, y), (3, y), (4, x), (5, z)];
    let groups = full_groups(&files, &hashes);
    assert_eq!(groups.len(), 2);
    assert_eq!(groups[0].size, 100);
    assert_eq!(groups[0].hash, to_hex(&y));
    let mut m0 = groups[0].members.clone();
    m0.sort();
    assert_eq!(m0, vec![2, 3]);
    assert_eq!(groups[0].wasted(), 100);
    assert_eq!(groups[1].size, 10);
    assert_eq!(groups[1].hash, to_hex(&x));
    let mut m1 = groups[1].members.clone();
    m1.sort();
    assert_eq!(m1, vec![0, 1, 4]);
    assert_eq!(groups[1].wasted(), 20);
}

#[test]
fn full_groups_of_distinct_digests_is_empty() {
    let files = vec![file("a", 1), file("b", 1)];
    let hashes = vec![(0usize, [1u8; 32]), (1, [2u8; 32])];
    assert!(full_groups(&files, &hashes).is_empty());
}

#[test]
fn wasted_is_size_times_extra_copies() {
    let g = DuplicateGroup { size: 4096, hash: String::new(), members: vec![1, 2, 3] };
    assert_eq!(g.wasted(), 8192);
    let one = DuplicateGroup { size: 4096, hash: String::new(), members: vec![1] };
    assert_eq!(one.wasted(), 0);
    let huge = DuplicateGroup { size: u64::MAX, hash: String::new(), members: vec![1, 2, 3] };
    assert_eq!(huge.wasted(), u64::MAX);
}

#[test]
fn funnel_puts_equal_contents_in_one_group() {
    let contents: Vec<Vec<u8>> = vec![
        b"same bytes here".to_vec(),
        b"other content!!".to_vec(),
        b"same bytes here".to_vec(),
        Vec::new(),
        Vec::new(),
        b"same bytes herx".to_vec(),
        b"short".to_vec(),
    ];
    let files: Vec<FileMetadata> = contents
        .iter()
        .enumerate()
        .map(|(i, c)| file(&format!("f{}", i), c.len() as u64))
        .collect();
    let cands = size_candidates(&files);
    assert_eq!(cands, vec![0, 1, 2, 5]);
    let ph: Vec<(usize, [u8; 32])> = cands
        .iter()
        .map(|&i| (i, digest_of(&contents[i], Some(PREFIX_LIMIT), 4)))
        .collect();
    let confirm = prefix_matches(&files, &ph);
    assert_eq!(confirm, vec![0, 2]);
    let fh: Vec<(usize, [u8; 32])> =
        confirm.iter().map(|&i| (i, digest_of(&contents[i], None, 4))).collect();
    let groups = full_groups(&files, &fh);
    assert_eq!(groups.len(), 1);
    let mut m = groups[0].members.clone();
    m.sort();
    assert_eq!(m, vec![0, 2]);
    assert_eq!(groups[0].hash, to_hex(blake3::hash(b"same bytes here").as_bytes()));
}
