use jobfather::db::snapshot::{
    create_baseline, get_latest_baseline_id, is_latest_snapshot_job, load_baseline_files,
    BaselineFile, BaselineSet,
};
use jobfather::kubernetes::job_create::is_job_of;
use jobfather::snapshot::{
    compare, diff_lines, extract_file_from_tarball, extract_tarball, files_of, find_file, json_diff,
    unified_diff, upload_status, DiffLine, FileDiffStatus, Files, LineTag, TarEntry, TarItem,
};
use jobfather::sorted_map::SortedMap;
use jobfather::web::snapshot_api::{
    accept, accept_files, accept_target, choose_tarball, files_label, guess_content_type, Acceptance,
    AcceptSnapshotsForm,
};
use std::io::Write;

fn files(entries: &[(&str, &str)]) -> Files {
    let mut m: Files = SortedMap::new();
    for (path, content) in entries {
        m = m.insert(path.to_string(), content.as_bytes().to_vec());
    }
    m
}

fn tarball(entries: &[(&str, &str)]) -> Vec<u8> {
    let mut builder = tar::Builder::new(Vec::new());
    for (path, content) in entries {
        let mut header = tar::Header::new_gnu();
        header.set_size(content.len() as u64);
        header.set_mode(0o644);
        builder.append_data(&mut header, path, content.as_bytes()).unwrap();
    }
    let mut header = tar::Header::new_gnu();
    header.set_entry_type(tar::EntryType::Directory);
    header.set_size(0);
    builder.append_data(&mut header, "dir", &b""[..]).unwrap();
    let bytes = builder.into_inner().unwrap();
    let mut gz = flate2::write::GzEncoder::new(Vec::new(), flate2::Compression::default());
    gz.write_all(&bytes).unwrap();
    gz.finish().unwrap()
}

#[test]
fn same_files_match() {
    let a = files(&[("a.json", "1"), ("b", "2")]);
    let b = files(&[("b", "2"), ("a.json", "1")]);
    assert!(!compare(&a, &b).has_differences());
    assert_eq!(upload_status(&a, &b).1, "matches_baseline");
}

#[test]
fn differences_are_sorted_by_path() {
    let baseline = files(&[("b", "1"), ("d", "1"), ("e", "1")]);
    let current = files(&[("a", "1"), ("b", "2"), ("e", "1")]);
    let diff = compare(&baseline, &current);
    assert!(diff.has_differences());
    let seen: Vec<(&str, FileDiffStatus)> = diff.files.iter().map(|f| (f.path.as_str(), f.status)).collect();
    assert_eq!(
        seen,
        vec![
            ("a", FileDiffStatus::Added),
            ("b", FileDiffStatus::Changed),
            ("d", FileDiffStatus::Removed),
        ]
    );
    assert_eq!(upload_status(&baseline, &current).1, "differs_from_baseline");
    // From the other side, what was added is removed.
    let back = compare(&current, &baseline);
    let seen: Vec<(&str, FileDiffStatus)> = back.files.iter().map(|f| (f.path.as_str(), f.status)).collect();
    assert_eq!(
        seen,
        vec![
            ("a", FileDiffStatus::Removed),
            ("b", FileDiffStatus::Changed),
            ("d", FileDiffStatus::Added),
        ]
    );
}

fn zipped(bytes: &[u8]) -> Vec<u8> {
    let mut gz = flate2::write::GzEncoder::new(Vec::new(), flate2::Compression::default());
    gz.write_all(bytes).unwrap();
    gz.finish().unwrap()
}

fn header(path: &str, kind: tar::EntryType, size: u64) -> tar::Header {
    let mut header = tar::Header::new_gnu();
    header.set_path(path).unwrap();
    header.set_entry_type(kind);
    header.set_size(size);
    header.set_cksum();
    header
}

fn padded(content: &[u8]) -> Vec<u8> {
    let mut block = content.to_vec();
    block.resize(512, 0);
    block
}

#[test]
fn content_is_read_of_files_alone() {
    // A sparse entry that claims to be of eight gigabytes, and holds nothing
    let mut sparse = header("holes", tar::EntryType::GNUSparse, 0);
    let gnu = sparse.as_gnu_mut().unwrap();
    gnu.realsize.copy_from_slice(b"77777777777\0");
    gnu.sparse[0].offset.copy_from_slice(b"77777777777\0");
    gnu.sparse[0].numbytes.copy_from_slice(b"00000000000\0");
    sparse.set_cksum();
    let file = header("a", tar::EntryType::Regular, 1);
    let bytes = [
        sparse.as_bytes().to_vec(),
        file.as_bytes().to_vec(),
        padded(b"1"),
        vec![0; 1024],
    ]
    .concat();
    let data = zipped(&bytes);
    let all = extract_tarball(&data).unwrap();
    assert_eq!((all.len(), all.get("a")), (1, Some(&b"1".to_vec())));
    assert_eq!(extract_file_from_tarball(&data, "a").unwrap(), Some(b"1".to_vec()));
    assert_eq!(extract_file_from_tarball(&data, "holes").unwrap(), None);
}

#[test]
fn tarballs_that_are_cut_short() {
    let first = [header("a", tar::EntryType::Regular, 1).as_bytes().to_vec(), padded(b"1")].concat();
    // What is passed over is missed when the next entry is looked for.
    let link = header("l", tar::EntryType::Symlink, 600);
    let mut data = zipped(&[first.clone(), link.as_bytes().to_vec(), vec![0; 512]].concat());
    let cut = "Failed to read tarball entry: unexpected EOF during skip";
    assert_eq!(extract_tarball(&data).unwrap_err(), cut);
    assert_eq!(extract_file_from_tarball(&data, "b").unwrap_err(), cut);
    assert_eq!(extract_file_from_tarball(&data, "a").unwrap(), Some(b"1".to_vec()));
    // With a wrong checksum at the end, that is what is missed.
    let n = data.len();
    data[n - 8] ^= 1;
    let corrupt = "corrupt gzip stream does not have a matching checksum";
    assert_eq!(
        extract_tarball(&data).unwrap_err(),
        format!("Failed to read tarball entry: {}", corrupt)
    );
    assert_eq!(extract_file_from_tarball(&data, "a").unwrap(), Some(b"1".to_vec()));
    // Of a file it is missed when it is read.
    let file = header("./b", tar::EntryType::Regular, 600);
    let mut data = zipped(&[first, file.as_bytes().to_vec(), vec![0; 512]].concat());
    assert_eq!(extract_file_from_tarball(&data, "b").unwrap(), Some(vec![0; 512]));
    assert_eq!(extract_tarball(&data).unwrap_err(), cut);
    let n = data.len();
    data[n - 8] ^= 1;
    assert_eq!(
        extract_tarball(&data).unwrap_err(),
        format!("Failed to read file b: {}", corrupt)
    );
    assert_eq!(
        extract_file_from_tarball(&data, "b").unwrap_err(),
        format!("Failed to read file: {}", corrupt)
    );
    assert_eq!(
        extract_file_from_tarball(&data, "c").unwrap_err(),
        format!("Failed to read tarball entry: {}", corrupt)
    );
}

#[test]
fn one_file_is_that_of_all() {
    let data = tarball(&[("./a/b.json", "{}"), ("c", "text")]);
    let all = extract_tarball(&data).unwrap();
    for path in ["a/b.json", "c", "dir", "none"] {
        assert_eq!(extract_file_from_tarball(&data, path).unwrap().as_ref(), all.get(path));
    }
}

#[test]
fn tarballs_are_read() {
    let data = tarball(&[("./a/b.json", "{}"), ("c", "text")]);
    let found = extract_tarball(&data).unwrap();
    assert_eq!(found.len(), 2);
    assert_eq!(found.get("a/b.json"), Some(&b"{}".to_vec()));
    assert_eq!(found.get("c"), Some(&b"text".to_vec()));
    assert_eq!(extract_file_from_tarball(&data, "a/b.json").unwrap(), Some(b"{}".to_vec()));
    assert_eq!(extract_file_from_tarball(&data, "dir").unwrap(), None);
    assert_eq!(extract_file_from_tarball(&data, "x").unwrap(), None);
}

#[test]
fn broken_tarballs_are_refused() {
    let error = extract_tarball(b"not gzip").unwrap_err();
    assert!(error.starts_with("Failed to read tarball entry: "), "{}", error);
    let mut data = tarball(&[("a", "text that is long enough to be cut"), ("b", "more of it")]);
    data.truncate(data.len() / 2);
    assert!(extract_tarball(&data).is_err());
}

fn entry(path: &str, content: &str) -> TarItem {
    TarItem::Entry(TarEntry {
        is_file: true,
        path: Ok(path.to_string()),
        content: Ok(content.as_bytes().to_vec()),
    })
}

#[test]
fn entries_of_a_tarball() {
    let dir = TarItem::Entry(TarEntry { is_file: false, path: Err("p".to_string()), content: Ok(vec![]) });
    let found = files_of(vec![dir, entry("./a", "1"), entry("a", "2"), entry("./", "3")]).unwrap();
    assert_eq!(found.len(), 1);
    assert_eq!(found.get("a"), Some(&b"2".to_vec()));
    let bad_path = TarItem::Entry(TarEntry { is_file: true, path: Err("p".to_string()), content: Ok(vec![]) });
    assert_eq!(files_of(vec![bad_path]).unwrap_err(), "Invalid path in tarball: p");
    let bad_content = TarItem::Entry(TarEntry { is_file: true, path: Ok("./x".to_string()), content: Err("c".to_string()) });
    assert_eq!(files_of(vec![bad_content]).unwrap_err(), "Failed to read file x: c");
    assert_eq!(
        files_of(vec![TarItem::Unreadable("e".to_string())]).unwrap_err(),
        "Failed to read tarball entry: e"
    );
}

#[test]
fn a_file_of_a_tarball() {
    let found = find_file(vec![entry("./a", "1"), entry("a", "2")], "a").unwrap();
    assert_eq!(found, Some(b"1".to_vec()));
    let bad_path = TarItem::Entry(TarEntry { is_file: true, path: Err("p".to_string()), content: Ok(vec![]) });
    assert_eq!(find_file(vec![bad_path], "a").unwrap_err(), "Invalid path: p");
    let unread = TarItem::Entry(TarEntry { is_file: true, path: Ok("b".to_string()), content: Err("c".to_string()) });
    assert_eq!(find_file(vec![unread, entry("a", "1")], "a").unwrap(), Some(b"1".to_vec()));
    let unread = TarItem::Entry(TarEntry { is_file: true, path: Ok("a".to_string()), content: Err("c".to_string()) });
    assert_eq!(find_file(vec![unread], "a").unwrap_err(), "Failed to read file: c");
}

fn shown(lines: &[DiffLine]) -> Vec<String> {
    lines
        .iter()
        .map(|l| match l {
            DiffLine::Context(t) => format!(" {}", t),
            DiffLine::Added(t) => format!("+{}", t),
            DiffLine::Removed(t) => format!("-{}", t),
        })
        .collect()
}

#[test]
fn texts_are_compared_by_line() {
    let lines = unified_diff("a\nb\nc\n", "a\nx\nc\n", 1);
    assert_eq!(shown(&lines), vec![" a", "-b", "+x", " c"]);
    assert!(unified_diff("a\n", "a\n", 3).is_empty());
    let far = unified_diff("1\n2\n3\n4\n5\n6\n7\n", "1\n2\n3\n4\n5\n6\n8\n", 1);
    assert_eq!(shown(&far), vec![" 6", "-7", "+8"]);
}

#[test]
fn hunks_become_lines() {
    let hunks = vec![
        vec![(LineTag::Equal, "a\n\n".to_string())],
        vec![(LineTag::Delete, "b".to_string()), (LineTag::Insert, "c\n".to_string())],
    ];
    assert_eq!(shown(&diff_lines(&hunks)), vec![" a", "-b", "+c"]);
}

#[test]
fn json_texts_are_laid_out_first() {
    let lines = json_diff(b"{\"b\":1,\"a\":2}", b"{ \"a\" : 3, \"b\" : 1 }").unwrap();
    assert_eq!(shown(&lines), vec![" {", "-  \"a\": 2,", "+  \"a\": 3,", "   \"b\": 1", " }"]);
    assert!(json_diff(b"{", b"{}").is_none());
    assert!(json_diff(b"{}", b"").is_none());
    assert!(json_diff(b"{}", b"{}").unwrap().is_empty());
}

#[test]
fn a_new_baseline_is_the_latest() {
    let first = SortedMap::new().insert("b".to_string(), vec![1]).insert("a".to_string(), vec![2]);
    let third = SortedMap::new().insert("a".to_string(), vec![3]);
    let (sets, mut rows) = create_baseline(vec![], "t", "n", 1, &first);
    let (sets, more) = create_baseline(sets, "u", "n", 2, &SortedMap::new());
    rows.extend(more);
    let (sets, more) = create_baseline(sets, "t", "n", 3, &third);
    rows.extend(more);
    let held: Vec<(i64, &str, &[u8])> = rows
        .iter()
        .map(|f| (f.baseline_set_id, f.file_path.as_str(), f.content.as_slice()))
        .collect();
    assert_eq!(held, vec![(1, "a", &[2u8][..]), (1, "b", &[1u8][..]), (3, "a", &[3u8][..])]);
    let kept = load_baseline_files(
        rows.iter()
            .map(|f| BaselineFile {
                baseline_set_id: f.baseline_set_id,
                file_path: f.file_path.clone(),
                content: f.content.clone(),
            })
            .collect(),
        1,
    );
    assert_eq!((kept.len(), kept.get("a"), kept.get("b")), (2, Some(&vec![2]), Some(&vec![1])));
    let new = load_baseline_files(rows, 3);
    assert_eq!((new.len(), new.get("a")), (1, Some(&vec![3])));
    assert_eq!(get_latest_baseline_id(&sets, "t", "n"), Some(3));
    assert_eq!(get_latest_baseline_id(&sets, "u", "n"), Some(2));
    assert_eq!(get_latest_baseline_id(&sets, "t", "m"), None);
    // The one before is kept.
    let ids: Vec<(i64, bool)> = sets.iter().map(|s: &BaselineSet| (s.id, s.is_latest)).collect();
    assert_eq!(ids, vec![(1, false), (2, true), (3, true)]);
}

#[test]
fn jobs_are_told_by_their_names() {
    assert!(is_job_of("nightly-20260101-000000", "nightly"));
    assert!(!is_job_of("nightly-20260101-00000", "nightly"));
    assert!(!is_job_of("nightly-2026010a-000000", "nightly"));
    assert!(!is_job_of("nightly-20260101_000000", "nightly"));
    assert!(!is_job_of("nightly_20260101-000000", "nightly"));
    assert!(!is_job_of("weeklyx-20260101-000000", "nightly"));
    assert!(!is_job_of("nightly-x-20260101-000000", "nightly"));
    assert!(is_job_of("nightly-x-20260101-000000", "nightly-x"));
    assert!(!is_job_of("", "nightly"));
}

#[test]
fn only_the_latest_run_counts() {
    let archived = vec!["t-20260101-000000".to_string()];
    let live = vec!["t-20260103-000000".to_string(), "u-20260109-000000".to_string()];
    assert!(!is_latest_snapshot_job("t", "t-20260101-000000", &archived, &live));
    assert!(!is_latest_snapshot_job("t", "t-20260102-000000", &archived, &live));
    assert!(is_latest_snapshot_job("t", "t-20260103-000000", &archived, &live));
    assert!(is_latest_snapshot_job("t", "t-20260101-000000", &archived, &vec![]));
    assert!(!is_latest_snapshot_job("t", "s", &archived, &vec![]));
    // A job of another template whose name goes on from this one's
    let other = vec!["foo-bar-20260101-000000".to_string()];
    assert!(is_latest_snapshot_job("foo", "foo-20260102-000000", &vec![], &other));
}

#[test]
fn content_types() {
    for (path, expected) in [
        ("a.json", "application/json; charset=utf-8"),
        ("a.xml", "application/xml; charset=utf-8"),
        ("a.html", "text/html; charset=utf-8"),
        ("a.htm", "text/html; charset=utf-8"),
        ("a.png", "image/png"),
        ("a.jpg", "image/jpeg"),
        ("a.jpeg", "image/jpeg"),
        ("a.gif", "image/gif"),
        ("a.svg", "image/svg+xml"),
        ("a.css", "text/css; charset=utf-8"),
        ("a.js", "application/javascript; charset=utf-8"),
        ("a.txt", "text/plain; charset=utf-8"),
        ("json", "text/plain; charset=utf-8"),
    ] {
        assert_eq!(guess_content_type(path), expected, "{}", path);
    }
}

#[test]
fn snapshots_are_accepted() {
    let data = tarball(&[("a", "1")]);
    match accept(&Some(data), true, true) {
        Acceptance::Accepted(found) => assert_eq!(found.len(), 1),
        _ => panic!("the snapshots can be accepted"),
    }
    assert_eq!(files_label(1), "1 files");
}

#[test]
fn snapshots_that_are_not_accepted() {
    match accept(&None, true, true) {
        Acceptance::NotFound(m) => assert_eq!(m, "No test snapshots found for this job"),
        _ => panic!("there are no snapshots"),
    }
    match accept(&Some(vec![]), false, true) {
        Acceptance::BadRequest(m) => assert_eq!(
            m,
            "Cannot determine JobTemplate. Provide job_template_name and job_template_namespace."
        ),
        _ => panic!("there is no template"),
    }
    match accept(&Some(vec![]), true, false) {
        Acceptance::BadRequest(m) => assert_eq!(m, "Only the latest run can be accepted as baseline"),
        _ => panic!("it is not the latest run"),
    }
    match accept_files(true, true, true, Err("e".to_string())) {
        Acceptance::Failed(m) => assert_eq!(m, "Failed to extract snapshots: e"),
        _ => panic!("the files cannot be read"),
    }
}

#[test]
fn where_snapshots_belong() {
    let form = AcceptSnapshotsForm {
        job_template_name: Some("t".to_string()),
        job_template_namespace: Some("n".to_string()),
    };
    assert_eq!(accept_target(&form, &None), Some(("t".to_string(), "n".to_string())));
    let half = AcceptSnapshotsForm { job_template_name: Some("t".to_string()), job_template_namespace: None };
    assert_eq!(accept_target(&half, &None), None);
    assert_eq!(choose_tarball(Some(vec![1]), &None), Some(vec![1]));
    assert_eq!(choose_tarball(None, &None), None);
}
