use depmap_downloader::download::content_digest;
use depmap_downloader::download::summarize;
use depmap_downloader::download::BodyCheck;
use depmap_downloader::download::DownloadAction;
use depmap_downloader::download::DownloadOutcome;
use depmap_downloader::download::Downloader;
use depmap_downloader::download::FileDownloadInfo;
use depmap_downloader::models::DownloadFile;
use sha1::Digest;

fn file_with_hash(name: &str, md5_hash: Option<&str>) -> DownloadFile {
    DownloadFile {
        id: None,
        filename: name.to_string(),
        url: format!("https://example.org/{}", name),
        md5_hash: md5_hash.map(|h| h.to_string()),
        size: None,
        data_type: None,
        release_id: None,
        is_downloaded: false,
        download_path: None,
        created_at: None,
    }
}

fn downloader(skip_existing: bool, verify_checksum: bool) -> Downloader {
    Downloader::new(4, "out".to_string(), skip_existing, verify_checksum).unwrap()
}

fn hex_digest(body: &[u8]) -> String {
    let d = sha1::Sha1::digest(body);
    let mut s = String::new();
    for b in d.iter() {
        s.push_str(&format!("{:02x}", b));
    }
    s
}

#[test]
fn digest_is_the_real_sha1() {
    // computed independently of the library
    assert_eq!(content_digest(b"abc"), "a9993e364706816aba3e25717850c26c9cd0d89d");
    assert_eq!(content_digest(b"hello world"), hex_digest(b"hello world"));
    assert_ne!(content_digest(b"abc"), content_digest(b"abd"));
}

#[test]
fn skip_semantics() {
    // a pre-existing destination with skipping on is a success with no
    // network call
    let d = downloader(true, false);
    let f = file_with_hash("a.csv", None);
    assert_eq!(d.plan_file(&f, true), DownloadAction::SkipExisting);
    assert_eq!(d.plan_file(&f, false), DownloadAction::Fetch);
    let d2 = downloader(false, false);
    assert_eq!(d2.plan_file(&f, true), DownloadAction::Fetch);
    let outcomes = vec![DownloadOutcome::Skipped];
    let report = summarize(&outcomes);
    assert_eq!(report.success, 1);
    assert_eq!(report.failure, 0);
}

#[test]
fn checksum_isolation() {
    // three files, one with a deliberately wrong expected digest: two
    // successes, one checksum failure, and the bad body is not kept
    let d = downloader(false, true);
    let bodies: [&[u8]; 3] = [b"alpha", b"beta", b"gamma"];
    let files = [
        file_with_hash("a.csv", Some(&hex_digest(b"alpha"))),
        file_with_hash("b.csv", Some("0000000000000000000000000000000000000000")),
        file_with_hash("c.csv", Some(&hex_digest(b"gamma"))),
    ];
    let mut outcomes = Vec::new();
    let mut kept = Vec::new();
    for (f, body) in files.iter().zip(bodies.iter()) {
        match d.evaluate_download(f, body) {
            BodyCheck::Accept => {
                kept.push(f.filename.clone());
                outcomes.push(DownloadOutcome::Completed);
            }
            BodyCheck::ChecksumMismatch(expected, actual) => {
                assert_eq!(expected, *f.md5_hash.as_ref().unwrap());
                assert_eq!(actual, hex_digest(body));
                outcomes.push(DownloadOutcome::ChecksumFailure);
            }
        }
    }
    let report = summarize(&outcomes);
    assert_eq!(report.success, 2);
    assert_eq!(report.failure, 1);
    // the failing file was never kept
    assert_eq!(kept, vec!["a.csv".to_string(), "c.csv".to_string()]);
}

#[test]
fn verification_can_be_off_or_unavailable() {
    let off = downloader(false, false);
    let f = file_with_hash("a.csv", Some("0000000000000000000000000000000000000000"));
    assert!(matches!(off.evaluate_download(&f, b"body"), BodyCheck::Accept));
    let on = downloader(false, true);
    let no_hash = file_with_hash("b.csv", None);
    assert!(matches!(on.evaluate_download(&no_hash, b"body"), BodyCheck::Accept));
}

#[test]
fn concurrency_invariance() {
    // the same outcomes in any completion order give the same report
    let one_worker = vec![
        DownloadOutcome::Completed,
        DownloadOutcome::ChecksumFailure,
        DownloadOutcome::Skipped,
        DownloadOutcome::TransportFailure,
        DownloadOutcome::Completed,
    ];
    let mut eight_workers = one_worker.clone();
    eight_workers.reverse();
    eight_workers.swap(1, 3);
    let a = summarize(&one_worker);
    let b = summarize(&eight_workers);
    assert_eq!(a.success, b.success);
    assert_eq!(a.failure, b.failure);
    assert_eq!(a.success, 3);
    assert_eq!(a.failure, 2);
}

#[test]
fn destination_paths() {
    let d = downloader(false, false);
    let f = file_with_hash("a.csv", None);
    assert_eq!(d.dest_path(&f), "out/a.csv");
}

#[test]
fn downloader_keeps_its_configuration() {
    let d = Downloader::new(8, "data".to_string(), true, true).unwrap();
    assert_eq!(d.max_workers, 8);
    assert_eq!(d.output_dir, "data");
    assert!(d.skip_existing);
    assert!(d.verify_checksum);
}

#[test]
fn is_complete() {
    let base = FileDownloadInfo {
        filename: "a.csv".to_string(),
        exists: true,
        size: Some(10),
        expected_size: Some(10),
        checksum: Some("aa".to_string()),
        expected_checksum: Some("aa".to_string()),
    };
    assert!(base.is_complete());
    let missing = FileDownloadInfo { exists: false, ..clone_info(&base) };
    assert!(!missing.is_complete());
    let wrong_size = FileDownloadInfo { size: Some(9), ..clone_info(&base) };
    assert!(!wrong_size.is_complete());
    let wrong_sum = FileDownloadInfo { checksum: Some("bb".to_string()), ..clone_info(&base) };
    assert!(!wrong_sum.is_complete());
    let unknown = FileDownloadInfo {
        size: None,
        checksum: None,
        expected_checksum: None,
        ..clone_info(&base)
    };
    assert!(unknown.is_complete());
}

fn clone_info(i: &FileDownloadInfo) -> FileDownloadInfo {
    FileDownloadInfo {
        filename: i.filename.clone(),
        exists: i.exists,
        size: i.size,
        expected_size: i.expected_size,
        checksum: i.checksum.clone(),
        expected_checksum: i.expected_checksum.clone(),
    }
}

#[test]
fn file_info_applies_the_verification_policy() {
    let d = downloader(false, true);
    let f = file_with_hash("a.csv", Some("aa"));
    let info = d.get_file_info(&f, true, Some(3), Some("dd".to_string()));
    assert_eq!(info.checksum.as_deref(), Some("dd"));
    assert_eq!(info.expected_checksum.as_deref(), Some("aa"));
    let gone = d.get_file_info(&f, false, None, Some("dd".to_string()));
    assert_eq!(gone.checksum, None);
    let off = downloader(false, false);
    let no_check = off.get_file_info(&f, true, Some(3), Some("dd".to_string()));
    assert_eq!(no_check.checksum, None);
}

#[test]
fn summarize_counts_every_outcome_once() {
    let outcomes = vec![
        DownloadOutcome::Completed,
        DownloadOutcome::Completed,
        DownloadOutcome::TransportFailure,
    ];
    let r = summarize(&outcomes);
    assert_eq!(r.success + r.failure, outcomes.len());
    assert_eq!(r.success, 2);
    let empty = summarize(&Vec::new());
    assert_eq!(empty.success, 0);
    assert_eq!(empty.failure, 0);
}
