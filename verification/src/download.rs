//! The download pipeline's decisions.
//!
//! Fetching bytes and writing files is the embedding program's work;
//! everything that decides is here: whether a file is skipped, whether a
//! fetched body is kept or rejected by its digest, and how per-file
//! outcomes aggregate into a report.  Each file is an independent unit of
//! work — one failure never touches another file's outcome — and the
//! report counts outcomes without regard to completion order.

use vstd::prelude::*;
use vstd::multiset::Multiset;
use crate::classify::str_eq;
use crate::error::DepMapError;
use crate::models::DownloadFile;
use crate::trusted::sha1_hex;
use crate::trusted::sha1_hex_of;

verus! {

/// The download pipeline's configuration.
pub struct Downloader {
    /// How many transfers may be in flight at once.
    pub max_workers: usize,
    /// Where the files land, joined with each filename.
    pub output_dir: String,
    /// Count a file whose destination already exists as done, without
    /// any network call.
    pub skip_existing: bool,
    /// Compare each fetched body against the record's expected digest.
    pub verify_checksum: bool,
}

/// What happens to one file before any network call.
#[derive(Clone, Copy, Debug, PartialEq, Eq, Structural)]
pub enum DownloadAction {
    /// The destination exists and skipping is on: done, no fetch.
    SkipExisting,
    /// The body must be fetched.
    Fetch,
}

/// Whether a fetched body is kept.
pub enum BodyCheck {
    /// Write the body to the destination.
    Accept,
    /// The digest did not match: the expected and the computed hex
    /// digest; the destination file must not remain on disk.
    ChecksumMismatch(String, String),
}

/// How one file's download ended.
#[derive(Clone, Copy, Debug, PartialEq, Eq, Structural)]
pub enum DownloadOutcome {
    /// Fetched, verified and written.
    Completed,
    /// Skipped because the destination already existed.
    Skipped,
    /// The fetch or the write failed.
    TransportFailure,
    /// The body did not match the expected digest and was discarded.
    ChecksumFailure,
}

/// Skipped files count as successes.
pub open spec fn is_success(o: DownloadOutcome) -> bool {
    o is Completed || o is Skipped
}

/// The aggregate result of a download run.
pub struct DownloadReport {
    pub success: usize,
    pub failure: usize,
}

/// What [`Downloader::plan_file`] decides, as a function of the
/// configuration and the destination's existence alone.
pub open spec fn spec_plan(skip_existing: bool, dest_exists: bool) -> DownloadAction {
    if skip_existing && dest_exists {
        DownloadAction::SkipExisting
    } else {
        DownloadAction::Fetch
    }
}

/// The body is rejected exactly when verification is on, the record
/// carries an expected digest, and the body's digest differs from it.
pub open spec fn spec_rejects(verify_checksum: bool, f: DownloadFile, body: Seq<u8>) -> bool {
    verify_checksum && (f.md5_hash matches Some(h) && h@ != sha1_hex_of(body))
}

/// The SHA-1 digest of a body, as 40 lowercase hex characters.
pub fn content_digest(body: &[u8]) -> (r: String)
    ensures
        r@ == sha1_hex_of(body@),
{
    sha1_hex(body)
}

impl Downloader {
    /// A pipeline over `output_dir` with the given policies.  Creating
    /// the directory is the caller's I/O and happens outside.
    pub fn new(max_workers: usize, output_dir: String, skip_existing: bool, verify_checksum: bool)
        -> (r: Result<Downloader, DepMapError>)
        ensures
            r matches Ok(d) && d.max_workers == max_workers && d.output_dir == output_dir
                && d.skip_existing == skip_existing && d.verify_checksum == verify_checksum,
    {
        Ok(Downloader { max_workers, output_dir, skip_existing, verify_checksum })
    }

    /// The destination path of one file: the output directory, a slash,
    /// and the filename unchanged — the feed's filenames are trusted
    /// not to carry path separators.
    pub fn dest_path(&self, file: &DownloadFile) -> (r: String)
        ensures
            r@ == self.output_dir@ + "/"@ + file.filename@,
    {
        let r = self.output_dir.clone().concat("/").concat(file.filename.as_str());
        proof {
            assert(r@ =~= self.output_dir@ + "/"@ + file.filename@);
        }
        r
    }

    /// Decides one file's fate before any network call: skipped exactly
    /// when skipping is on and the destination exists.
    pub fn plan_file(&self, file: &DownloadFile, dest_exists: bool) -> (r: DownloadAction)
        ensures
            r == spec_plan(self.skip_existing, dest_exists),
    {
        let _ = file;
        if self.skip_existing && dest_exists {
            DownloadAction::SkipExisting
        } else {
            DownloadAction::Fetch
        }
    }

    /// Decides whether a fetched body is kept: rejected exactly when
    /// verification is on, the record carries an expected digest, and
    /// the body's SHA-1 hex digest differs.  A mismatch carries the
    /// expected and the computed digest, and the caller must remove the
    /// destination file.
    pub fn evaluate_download(&self, file: &DownloadFile, body: &[u8]) -> (r: BodyCheck)
        ensures
            r is Accept <==> !spec_rejects(self.verify_checksum, *file, body@),
            r matches BodyCheck::ChecksumMismatch(expected, actual) ==> file.md5_hash matches Some(
                h,
            ) && expected == h && actual@ == sha1_hex_of(body@),
    {
        if !self.verify_checksum {
            return BodyCheck::Accept;
        }
        match &file.md5_hash {
            None => BodyCheck::Accept,
            Some(h) => {
                let actual = content_digest(body);
                if str_eq(actual.as_str(), h.as_str()) {
                    BodyCheck::Accept
                } else {
                    BodyCheck::ChecksumMismatch(h.clone(), actual)
                }
            },
        }
    }
}

/// Successes in a bag of outcomes: completions and skips.
pub open spec fn success_count(outs: Seq<DownloadOutcome>) -> nat {
    outs.to_multiset().filter(|o: DownloadOutcome| is_success(o)).len()
}

/// Failures in a bag of outcomes.
pub open spec fn failure_count(outs: Seq<DownloadOutcome>) -> nat {
    outs.to_multiset().filter(|o: DownloadOutcome| !is_success(o)).len()
}

proof fn lemma_filter_insert_len(
    m: Multiset<DownloadOutcome>,
    e: DownloadOutcome,
    p: spec_fn(DownloadOutcome) -> bool,
)
    ensures
        m.insert(e).filter(p).len() == m.filter(p).len() + (if p(e) {
            1nat
        } else {
            0nat
        }),
{
    if p(e) {
        assert(m.insert(e).filter(p) =~= m.filter(p).insert(e));
    } else {
        assert(m.insert(e).filter(p) =~= m.filter(p));
    }
}

/// Counts successes and failures; every outcome lands in exactly one
/// bucket.
pub fn summarize(outcomes: &Vec<DownloadOutcome>) -> (r: DownloadReport)
    ensures
        r.success == success_count(outcomes@),
        r.failure == failure_count(outcomes@),
        r.success + r.failure == outcomes@.len(),
{
    let ghost s = outcomes@;
    proof {
        broadcast use vstd::seq_lib::group_to_multiset_ensures;

        assert(s.take(0).to_multiset() =~= Multiset::<DownloadOutcome>::empty());
        assert(Multiset::<DownloadOutcome>::empty().filter(|o: DownloadOutcome| is_success(o))
            =~= Multiset::<DownloadOutcome>::empty());
        assert(Multiset::<DownloadOutcome>::empty().filter(|o: DownloadOutcome| !is_success(o))
            =~= Multiset::<DownloadOutcome>::empty());
    }
    let mut success: usize = 0;
    let mut failure: usize = 0;
    let mut i: usize = 0;
    while i < outcomes.len()
        invariant
            i <= s.len(),
            s == outcomes@,
            success == success_count(s.take(i as int)),
            failure == failure_count(s.take(i as int)),
            success + failure == i,
        decreases s.len() - i,
    {
        proof {
            assert(s.take(i + 1) =~= s.take(i as int).push(s[i as int]));
            vstd::seq_lib::to_multiset_build(s.take(i as int), s[i as int]);
            lemma_filter_insert_len(
                s.take(i as int).to_multiset(),
                s[i as int],
                |o: DownloadOutcome| is_success(o),
            );
            lemma_filter_insert_len(
                s.take(i as int).to_multiset(),
                s[i as int],
                |o: DownloadOutcome| !is_success(o),
            );
        }
        match outcomes[i] {
            DownloadOutcome::Completed => {
                success = success + 1;
            },
            DownloadOutcome::Skipped => {
                success = success + 1;
            },
            DownloadOutcome::TransportFailure => {
                failure = failure + 1;
            },
            DownloadOutcome::ChecksumFailure => {
                failure = failure + 1;
            },
        }
        i = i + 1;
    }
    proof {
        assert(s.take(s.len() as int) =~= s);
    }
    DownloadReport { success, failure }
}

/// Concurrency invariance: a report depends only on the bag of per-file
/// outcomes, never on the order in which workers finish.  Each file's
/// outcome and on-disk bytes are in turn functions of the record, the
/// destination's prior existence and the fetched body alone (the
/// contracts of [`Downloader::plan_file`] and
/// [`Downloader::evaluate_download`]), so runs with one worker and with
/// many agree on the counts and on every kept file's content.
pub proof fn lemma_report_order_independent(a: Seq<DownloadOutcome>, b: Seq<DownloadOutcome>)
    requires
        a.to_multiset() == b.to_multiset(),
    ensures
        success_count(a) == success_count(b),
        failure_count(a) == failure_count(b),
{
}

/// What is known of one file on disk against its record.
pub struct FileDownloadInfo {
    pub filename: String,
    pub exists: bool,
    pub size: Option<u64>,
    pub expected_size: Option<u64>,
    pub checksum: Option<String>,
    pub expected_checksum: Option<String>,
}

/// A file is complete when it exists and neither a known size pair nor
/// a known checksum pair disagrees.
pub open spec fn spec_is_complete(info: FileDownloadInfo) -> bool {
    &&& info.exists
    &&& !(info.size matches Some(a) && info.expected_size matches Some(e) && a != e)
    &&& !(info.checksum matches Some(a) && info.expected_checksum matches Some(e) && a@ != e@)
}

impl FileDownloadInfo {
    pub fn is_complete(&self) -> (r: bool)
        ensures
            r == spec_is_complete(*self),
    {
        if !self.exists {
            return false;
        }
        match (self.size, self.expected_size) {
            (Some(a), Some(e)) => {
                if a != e {
                    return false;
                }
            },
            _ => {},
        }
        match (&self.checksum, &self.expected_checksum) {
            (Some(a), Some(e)) => str_eq(a.as_str(), e.as_str()),
            _ => true,
        }
    }
}

impl Downloader {
    /// Assembles what is known of one file on disk.  The caller reports
    /// whether the destination exists, its size, and its digest; the
    /// digest is kept only for an existing file under the verification
    /// policy, mirroring when it would have been computed at all.
    pub fn get_file_info(
        &self,
        file: &DownloadFile,
        exists: bool,
        size: Option<u64>,
        disk_digest: Option<String>,
    ) -> (r: FileDownloadInfo)
        ensures
            r.filename == file.filename,
            r.exists == exists,
            r.size == size,
            r.expected_size == file.size,
            r.checksum == (if exists && self.verify_checksum {
                disk_digest
            } else {
                Option::<String>::None
            }),
            r.expected_checksum == file.md5_hash,
    {
        let checksum = if exists && self.verify_checksum {
            disk_digest
        } else {
            None
        };
        FileDownloadInfo {
            filename: file.filename.clone(),
            exists,
            size,
            expected_size: file.size,
            checksum,
            expected_checksum: crate::models::clone_opt_string(&file.md5_hash),
        }
    }
}

} // verus!
