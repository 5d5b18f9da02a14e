//! The synchronization engine: turns the remote feeds into store rows.
//!
//! Three independent pipelines feed the store: the files/releases CSV
//! feed, grouped by release name with a first-seen-wins release record
//! and the data-type classifier applied per filename; the datasets feed,
//! handed over as already-decoded records; and the gene-dependency CSV
//! feed, validated for its required header fields and ingested in fixed
//! batches, skipping malformed rows.  A refresh runs them all, tolerates
//! the failure of any of them, and advances the freshness marker
//! unconditionally at the end.

use vstd::prelude::*;
use vstd::string::StringSliceAdditionalSpecFns;
use crate::classify::classify;
use crate::csv::csv_records;
use crate::csv::parse_csv;
use crate::error::DepMapError;
use crate::models::DatasetApiResponse;
use crate::models::DatasetRow;
use crate::models::DownloadCsvRow;
use crate::models::DownloadFile;
use crate::models::GeneDependency;
use crate::models::Release;
use crate::models::ReleaseRow;
use crate::store::CacheManager;
use crate::store::ds_key;
use crate::store::file_key;
use crate::store::rel_key;
use crate::store::seq_key_map;
use crate::store::unique_by;
use crate::store::upsert_all;
use crate::text::contains_bytes;
use crate::text::contains_bytes_ci;
use crate::text::contains_sub;
use crate::text::utf8_bytes;
use crate::trusted::bytes_to_string;
use crate::trusted::parse_rfc3339_seconds;
use crate::trusted::rfc3339_seconds_of;

verus! {

// ---------------------------------------------------------------------
// Header columns
// ---------------------------------------------------------------------
/// Some header field is exactly `name`.
pub open spec fn has_col(header: Seq<Seq<u8>>, name: Seq<u8>) -> bool {
    exists|j: int| #![trigger header[j]] 0 <= j < header.len() && header[j] == name
}

/// `c` is the first header field that is exactly `name`.
pub open spec fn is_first_col(header: Seq<Seq<u8>>, name: Seq<u8>, c: int) -> bool {
    &&& 0 <= c < header.len()
    &&& header[c] == name
    &&& forall|j: int| #![trigger header[j]] 0 <= j < c ==> header[j] != name
}

/// The first header field that is exactly `name` (meaningful only when
/// [`has_col`] holds).
pub open spec fn the_col(header: Seq<Seq<u8>>, name: Seq<u8>) -> int {
    choose|c: int| is_first_col(header, name, c)
}

proof fn lemma_has_col_first(header: Seq<Seq<u8>>, name: Seq<u8>)
    requires
        has_col(header, name),
    ensures
        is_first_col(header, name, the_col(header, name)),
    decreases header.len(),
{
    let j = choose|j: int| #![trigger header[j]] 0 <= j < header.len() && header[j] == name;
    // walk down to the first occurrence
    if exists|k: int| #![trigger header[k]] 0 <= k < j && header[k] == name {
        let hd = header.take(j);
        assert(has_col(hd, name)) by {
            let k = choose|k: int| #![trigger header[k]] 0 <= k < j && header[k] == name;
            assert(hd[k] == name);
        }
        lemma_has_col_first(hd, name);
        let c = the_col(hd, name);
        assert(header[c] == name);
        assert(is_first_col(header, name, c)) by {
            assert(forall|x: int| #![trigger header[x]] 0 <= x < c ==> hd[x] == header[x]);
        }
    } else {
        assert(is_first_col(header, name, j));
    }
    let w = choose|c: int| is_first_col(header, name, c);
    assert(is_first_col(header, name, w));
}

/// First header field equal to `name`, by exact byte comparison.
fn find_col(header: &Vec<Vec<u8>>, name: &[u8]) -> (r: Option<usize>)
    ensures
        r matches Some(c) ==> is_first_col(header.deep_view(), name@, c as int),
        r is None ==> !has_col(header.deep_view(), name@),
{
    let ghost h = header.deep_view();
    let mut i: usize = 0;
    while i < header.len()
        invariant
            i <= h.len(),
            h == header.deep_view(),
            forall|j: int| #![trigger h[j]] 0 <= j < i ==> h[j] != name@,
        decreases h.len() - i,
    {
        if crate::text::eq_bytes(header[i].as_slice(), name) {
            proof {
                assert(h[i as int] =~= name@);
            }
            return Some(i);
        }
        proof {
            assert(h[i as int] != name@) by {
                if h[i as int] == name@ {
                    assert(header@[i as int]@ =~= h[i as int]);
                }
            }
        }
        i = i + 1;
    }
    None
}

// ---------------------------------------------------------------------
// The files/releases feed
// ---------------------------------------------------------------------
/// The feed parses: it is empty, or its header carries the five columns
/// and every record has the header's arity with UTF-8 text in those five
/// columns.
pub open spec fn files_feed_ok(bytes: Seq<u8>) -> bool {
    let recs = csv_records(bytes);
    recs.len() == 0 || {
        let header = recs[0];
        &&& has_col(header, "release".spec_bytes())
        &&& has_col(header, "release_date".spec_bytes())
        &&& has_col(header, "filename".spec_bytes())
        &&& has_col(header, "url".spec_bytes())
        &&& has_col(header, "md5_hash".spec_bytes())
        &&& forall|i: int|
            #![trigger recs[i]]
            1 <= i < recs.len() ==> recs[i].len() == header.len()
        &&& forall|i: int|
            #![trigger recs[i]]
            1 <= i < recs.len() ==> {
                &&& vstd::utf8::valid_utf8(recs[i][the_col(header, "release".spec_bytes())])
                &&& vstd::utf8::valid_utf8(recs[i][the_col(header, "release_date".spec_bytes())])
                &&& vstd::utf8::valid_utf8(recs[i][the_col(header, "filename".spec_bytes())])
                &&& vstd::utf8::valid_utf8(recs[i][the_col(header, "url".spec_bytes())])
                &&& vstd::utf8::valid_utf8(recs[i][the_col(header, "md5_hash".spec_bytes())])
            }
    }
}

/// `row` carries the five named fields of `rec`.
pub open spec fn row_of_record(row: DownloadCsvRow, rec: Seq<Seq<u8>>, header: Seq<Seq<u8>>) -> bool {
    &&& utf8_bytes(row.release@) == rec[the_col(header, "release".spec_bytes())]
    &&& utf8_bytes(row.release_date@) == rec[the_col(header, "release_date".spec_bytes())]
    &&& utf8_bytes(row.filename@) == rec[the_col(header, "filename".spec_bytes())]
    &&& utf8_bytes(row.url@) == rec[the_col(header, "url".spec_bytes())]
    &&& utf8_bytes(row.md5_hash@) == rec[the_col(header, "md5_hash".spec_bytes())]
}

/// `rows` are the records of the feed, one per data record, in order.
pub open spec fn rows_parsed(rows: Seq<DownloadCsvRow>, bytes: Seq<u8>) -> bool {
    let recs = csv_records(bytes);
    if recs.len() == 0 {
        rows.len() == 0
    } else {
        rows.len() == recs.len() - 1 && forall|i: int|
            0 <= i < rows.len() ==> row_of_record(#[trigger] rows[i], recs[i + 1], recs[0])
    }
}

/// Reads the files/releases feed.  Succeeds exactly when
/// [`files_feed_ok`] holds of the bytes, and then returns one row per
/// data record, in feed order.
pub fn parse_files_feed(bytes: &[u8]) -> (r: Result<Vec<DownloadCsvRow>, DepMapError>)
    ensures
        r is Ok <==> files_feed_ok(bytes@),
        r matches Ok(rows) ==> rows_parsed(rows@, bytes@),
        r matches Err(e) ==> e is ParseError,
{
    let recs = parse_csv(bytes);
    let ghost recsv = csv_records(bytes@);
    proof {
        assert(recs.deep_view() == recsv);
    }
    if recs.len() == 0 {
        let rows: Vec<DownloadCsvRow> = Vec::new();
        return Ok(rows);
    }
    let header = &recs[0];
    let ghost hv = recsv[0];
    proof {
        assert(header.deep_view() == recsv[0]);
    }
    let c_rel = match find_col(header, "release".as_bytes()) {
        Some(c) => c,
        None => {
            return Err(DepMapError::ParseError("files feed lacks a required column".to_owned()));
        },
    };
    let c_date = match find_col(header, "release_date".as_bytes()) {
        Some(c) => c,
        None => {
            return Err(DepMapError::ParseError("files feed lacks a required column".to_owned()));
        },
    };
    let c_fn = match find_col(header, "filename".as_bytes()) {
        Some(c) => c,
        None => {
            return Err(DepMapError::ParseError("files feed lacks a required column".to_owned()));
        },
    };
    let c_url = match find_col(header, "url".as_bytes()) {
        Some(c) => c,
        None => {
            return Err(DepMapError::ParseError("files feed lacks a required column".to_owned()));
        },
    };
    let c_md5 = match find_col(header, "md5_hash".as_bytes()) {
        Some(c) => c,
        None => {
            return Err(DepMapError::ParseError("files feed lacks a required column".to_owned()));
        },
    };
    proof {
        lemma_has_col_first(hv, "release".spec_bytes());
        lemma_has_col_first(hv, "release_date".spec_bytes());
        lemma_has_col_first(hv, "filename".spec_bytes());
        lemma_has_col_first(hv, "url".spec_bytes());
        lemma_has_col_first(hv, "md5_hash".spec_bytes());
        assert(the_col(hv, "release".spec_bytes()) == c_rel as int);
        assert(the_col(hv, "release_date".spec_bytes()) == c_date as int);
        assert(the_col(hv, "filename".spec_bytes()) == c_fn as int);
        assert(the_col(hv, "url".spec_bytes()) == c_url as int);
        assert(the_col(hv, "md5_hash".spec_bytes()) == c_md5 as int);
    }
    let hlen = header.len();
    let mut rows: Vec<DownloadCsvRow> = Vec::new();
    let mut i: usize = 1;
    while i < recs.len()
        invariant
            1 <= i <= recsv.len(),
            recsv == recs.deep_view(),
            recsv == csv_records(bytes@),
            recsv.len() == recs@.len(),
            recsv.len() > 0,
            hlen == recsv[0].len(),
            is_first_col(recsv[0], "release".spec_bytes(), c_rel as int),
            is_first_col(recsv[0], "release_date".spec_bytes(), c_date as int),
            is_first_col(recsv[0], "filename".spec_bytes(), c_fn as int),
            is_first_col(recsv[0], "url".spec_bytes(), c_url as int),
            is_first_col(recsv[0], "md5_hash".spec_bytes(), c_md5 as int),
            the_col(recsv[0], "release".spec_bytes()) == c_rel as int,
            the_col(recsv[0], "release_date".spec_bytes()) == c_date as int,
            the_col(recsv[0], "filename".spec_bytes()) == c_fn as int,
            the_col(recsv[0], "url".spec_bytes()) == c_url as int,
            the_col(recsv[0], "md5_hash".spec_bytes()) == c_md5 as int,
            rows@.len() == i - 1,
            forall|j: int|
                0 <= j < i - 1 ==> row_of_record(#[trigger] rows@[j], recsv[j + 1], recsv[0]),
            forall|j: int|
                #![trigger recsv[j]]
                1 <= j < i ==> recsv[j].len() == recsv[0].len(),
            forall|j: int|
                #![trigger recsv[j]]
                1 <= j < i ==> {
                    &&& vstd::utf8::valid_utf8(recsv[j][c_rel as int])
                    &&& vstd::utf8::valid_utf8(recsv[j][c_date as int])
                    &&& vstd::utf8::valid_utf8(recsv[j][c_fn as int])
                    &&& vstd::utf8::valid_utf8(recsv[j][c_url as int])
                    &&& vstd::utf8::valid_utf8(recsv[j][c_md5 as int])
                },
        decreases recsv.len() - i,
    {
        let rec = &recs[i];
        proof {
            assert(rec.deep_view() == recsv[i as int]);
        }
        if rec.len() != hlen {
            proof {
                assert(recsv[i as int].len() != recsv[0].len());
            }
            return Err(DepMapError::ParseError("files feed holds a ragged record".to_owned()));
        }
        proof {
            assert(recsv[i as int].len() == recsv[0].len());
            assert(recsv[i as int][c_rel as int] =~= rec@[c_rel as int]@);
            assert(recsv[i as int][c_date as int] =~= rec@[c_date as int]@);
            assert(recsv[i as int][c_fn as int] =~= rec@[c_fn as int]@);
            assert(recsv[i as int][c_url as int] =~= rec@[c_url as int]@);
            assert(recsv[i as int][c_md5 as int] =~= rec@[c_md5 as int]@);
        }
        let release = match bytes_to_string(rec[c_rel].as_slice()) {
            Some(s) => s,
            None => {
                return Err(
                    DepMapError::ParseError("files feed holds text that is not UTF-8".to_owned()),
                );
            },
        };
        let release_date = match bytes_to_string(rec[c_date].as_slice()) {
            Some(s) => s,
            None => {
                return Err(
                    DepMapError::ParseError("files feed holds text that is not UTF-8".to_owned()),
                );
            },
        };
        let filename = match bytes_to_string(rec[c_fn].as_slice()) {
            Some(s) => s,
            None => {
                return Err(
                    DepMapError::ParseError("files feed holds text that is not UTF-8".to_owned()),
                );
            },
        };
        let url = match bytes_to_string(rec[c_url].as_slice()) {
            Some(s) => s,
            None => {
                return Err(
                    DepMapError::ParseError("files feed holds text that is not UTF-8".to_owned()),
                );
            },
        };
        let md5_hash = match bytes_to_string(rec[c_md5].as_slice()) {
            Some(s) => s,
            None => {
                return Err(
                    DepMapError::ParseError("files feed holds text that is not UTF-8".to_owned()),
                );
            },
        };
        let row = DownloadCsvRow { release, release_date, filename, url, md5_hash };
        proof {
            assert(row_of_record(row, recsv[i as int], recsv[0]));
        }
        rows.push(row);
        i = i + 1;
    }
    Ok(rows)
}

// ---------------------------------------------------------------------
// Grouping rows into releases
// ---------------------------------------------------------------------
/// The distinct release names of the feed, in first-seen order.
pub open spec fn distinct_names(rows: Seq<DownloadCsvRow>) -> Seq<Seq<char>>
    decreases rows.len(),
{
    if rows.len() == 0 {
        Seq::empty()
    } else {
        let prev = distinct_names(rows.drop_last());
        if prev.contains(rows.last().release@) {
            prev
        } else {
            prev.push(rows.last().release@)
        }
    }
}

pub proof fn lemma_distinct_names_contains(rows: Seq<DownloadCsvRow>, n: Seq<char>)
    ensures
        distinct_names(rows).contains(n) <==> exists|i: int|
            #![trigger rows[i]]
            0 <= i < rows.len() && rows[i].release@ == n,
    decreases rows.len(),
{
    if rows.len() > 0 {
        lemma_distinct_names_contains(rows.drop_last(), n);
        let prev = distinct_names(rows.drop_last());
        assert(forall|i: int|
            0 <= i < rows.len() - 1 ==> rows.drop_last()[i] == #[trigger] rows[i]);
        if distinct_names(rows).contains(n) {
            if !prev.contains(n) {
                assert(rows[rows.len() - 1].release@ == n);
            }
        }
        if exists|i: int| #![trigger rows[i]] 0 <= i < rows.len() && rows[i].release@ == n {
            let i = choose|i: int| #![trigger rows[i]] 0 <= i < rows.len() && rows[i].release@
                == n;
            if i < rows.len() - 1 {
                assert(rows.drop_last()[i].release@ == n);
                assert(prev.contains(n));
                if !prev.contains(rows.last().release@) {
                    assert(distinct_names(rows) == prev.push(rows.last().release@));
                    assert(prev[choose|k: int| 0 <= k < prev.len() && prev[k] == n] == n);
                    assert(distinct_names(rows).contains(n)) by {
                        let k = choose|k: int| 0 <= k < prev.len() && prev[k] == n;
                        assert(distinct_names(rows)[k] == n);
                    }
                }
            } else {
                if !prev.contains(n) {
                    assert(distinct_names(rows).last() == n);
                }
            }
        }
    }
}

pub proof fn lemma_distinct_names_nodup(rows: Seq<DownloadCsvRow>)
    ensures
        forall|a: int, b: int|
            0 <= a < b < distinct_names(rows).len() ==> #[trigger] distinct_names(rows)[a]
                != #[trigger] distinct_names(rows)[b],
    decreases rows.len(),
{
    if rows.len() > 0 {
        lemma_distinct_names_nodup(rows.drop_last());
        let prev = distinct_names(rows.drop_last());
        let all = distinct_names(rows);
        assert forall|a: int, b: int| 0 <= a < b < all.len() implies #[trigger] all[a]
            != #[trigger] all[b] by {
            if b == prev.len() {
                // the pushed name was not contained before
                assert(!prev.contains(all[b]));
                assert(prev[a] == all[a]);
                if all[a] == all[b] {
                    assert(prev.contains(all[b]));
                }
            } else {
                assert(prev[a] == all[a] && prev[b] == all[b]);
            }
        }
    }
}

/// `fi` is the first feed row carrying this release name.
pub open spec fn is_first_row_with(rows: Seq<DownloadCsvRow>, name: Seq<char>, fi: int) -> bool {
    &&& 0 <= fi < rows.len()
    &&& rows[fi].release@ == name
    &&& forall|j: int| #![trigger rows[j]] 0 <= j < fi ==> rows[j].release@ != name
}

/// `f` is the file record built from one feed row: the classifier names
/// its data type, nothing is downloaded yet, and the release the row
/// names owns it.
pub open spec fn file_of_row(f: DownloadFile, row: DownloadCsvRow, now_s: i64) -> bool {
    &&& f.id is None
    &&& f.filename == row.filename
    &&& f.url == row.url
    &&& f.md5_hash == Some(row.md5_hash)
    &&& f.size is None
    &&& (match crate::classify::spec_classify(utf8_bytes(row.filename@)) {
        None => f.data_type is None,
        Some(dt) => f.data_type matches Some(s) && s@ == dt.spec_label(),
    })
    &&& f.release_id == Some(row.release)
    &&& !f.is_downloaded
    &&& f.download_path is None
    &&& f.created_at == Some(now_s)
}

/// `rel` is group `g` of the feed: named by the `g`-th distinct release
/// name, dated and identified by the group's first row, flagged current
/// by the fixed name heuristic, owning one file per row of the group in
/// feed order.
pub open spec fn built_release(
    rel: Release,
    rows: Seq<DownloadCsvRow>,
    g: int,
    now_s: i64,
) -> bool {
    let name = distinct_names(rows)[g];
    &&& (exists|fi: int|
        #![trigger rows[fi]]
        is_first_row_with(rows, name, fi) && rel.id == rows[fi].release && rel.name
            == rows[fi].release && rel.release_date == rfc3339_seconds_of(
            rows[fi].release_date@,
        ))
    &&& rel.is_current == contains_bytes(utf8_bytes(name), "25Q3".spec_bytes())
    &&& rel.created_at == Some(now_s)
    &&& ({
        let grows = rows.filter(|row: DownloadCsvRow| row.release@ == name);
        rel.files@.len() == grows.len() && forall|k: int|
            0 <= k < grows.len() ==> file_of_row(#[trigger] rel.files@[k], grows[k], now_s)
    })
}

/// One release per distinct name of the feed, in first-seen order.
pub open spec fn built_releases(rels: Seq<Release>, rows: Seq<DownloadCsvRow>, now_s: i64) -> bool {
    &&& rels.len() == distinct_names(rows).len()
    &&& forall|g: int| 0 <= g < rels.len() ==> built_release(#[trigger] rels[g], rows, g, now_s)
}

/// The files of one release group, in feed order.
fn build_group_files(rows: &Vec<DownloadCsvRow>, fi: usize, now_s: i64) -> (r: Vec<DownloadFile>)
    requires
        fi < rows@.len(),
    ensures
        ({
            let grows = rows@.filter(
                |row: DownloadCsvRow| row.release@ == rows@[fi as int].release@,
            );
            r@.len() == grows.len() && forall|k: int|
                0 <= k < grows.len() ==> file_of_row(#[trigger] r@[k], grows[k], now_s)
        }),
{
    let mut out: Vec<DownloadFile> = Vec::new();
    let mut k: usize = 0;
    while k < rows.len()
        invariant
            k <= rows@.len(),
            fi < rows@.len(),
            ({
                let grows = rows@.take(k as int).filter(
                    |row: DownloadCsvRow| row.release@ == rows@[fi as int].release@,
                );
                out@.len() == grows.len() && forall|m: int|
                    0 <= m < grows.len() ==> file_of_row(#[trigger] out@[m], grows[m], now_s)
            }),
        decreases rows@.len() - k,
    {
        proof {
            crate::store::lemma_filter_take_step(
                rows@,
                k as int,
                |row: DownloadCsvRow| row.release@ == rows@[fi as int].release@,
            );
        }
        let row = &rows[k];
        if crate::classify::str_eq(row.release.as_str(), rows[fi].release.as_str()) {
            let data_type = match classify(row.filename.as_str()) {
                Some(dt) => Some(dt.label()),
                None => None,
            };
            let f = DownloadFile {
                id: None,
                filename: row.filename.clone(),
                url: row.url.clone(),
                md5_hash: Some(row.md5_hash.clone()),
                size: None,
                data_type,
                release_id: Some(row.release.clone()),
                is_downloaded: false,
                download_path: None,
                created_at: Some(now_s),
            };
            proof {
                assert(file_of_row(f, rows@[k as int], now_s));
            }
            out.push(f);
        }
        k = k + 1;
    }
    proof {
        assert(rows@.take(rows@.len() as int) =~= rows@);
    }
    out
}

/// Groups the feed rows by release name, first seen first: each group
/// becomes one release record owning the group's files.
pub fn build_releases(rows: &Vec<DownloadCsvRow>, now_s: i64) -> (r: Vec<Release>)
    ensures
        built_releases(r@, rows@, now_s),
        forall|a: int, b: int|
            0 <= a < b < r@.len() ==> #[trigger] r@[a].id@ != #[trigger] r@[b].id@,
{
    let mut out: Vec<Release> = Vec::new();
    let mut i: usize = 0;
    while i < rows.len()
        invariant
            i <= rows@.len(),
            out@.len() == distinct_names(rows@.take(i as int)).len(),
            forall|g: int|
                0 <= g < out@.len() ==> #[trigger] out@[g].id@ == distinct_names(
                    rows@.take(i as int),
                )[g],
            forall|g: int| 0 <= g < out@.len() ==> built_release(#[trigger] out@[g], rows@, g, now_s),
            distinct_names(rows@.take(i as int)) == distinct_names(rows@).take(out@.len() as int),
        decreases rows@.len() - i,
    {
        let ghost prev = distinct_names(rows@.take(i as int));
        proof {
            assert(rows@.take(i + 1).drop_last() =~= rows@.take(i as int));
            assert(rows@.take(i + 1).last() == rows@[i as int]);
            lemma_distinct_names_contains(rows@.take(i as int), rows@[i as int].release@);
        }
        // is this row the first with its name?
        let mut seen = false;
        let mut j: usize = 0;
        while j < i
            invariant
                j <= i,
                i < rows@.len(),
                seen == exists|x: int|
                    #![trigger rows@[x]]
                    0 <= x < j && rows@[x].release@ == rows@[i as int].release@,
            decreases i - j,
        {
            if crate::classify::str_eq(rows[j].release.as_str(), rows[i].release.as_str()) {
                seen = true;
            }
            j = j + 1;
        }
        if !seen {
            proof {
                assert(forall|x: int|
                    #![trigger rows@.take(i as int)[x]]
                    0 <= x < i ==> rows@.take(i as int)[x] == rows@[x]);
                assert(!prev.contains(rows@[i as int].release@));
                assert(distinct_names(rows@.take(i + 1)) == prev.push(rows@[i as int].release@));
                assert(is_first_row_with(rows@, rows@[i as int].release@, i as int));
            }
            let files = build_group_files(rows, i, now_s);
            let rel = Release {
                id: rows[i].release.clone(),
                name: rows[i].release.clone(),
                release_date: parse_rfc3339_seconds(rows[i].release_date.as_str()),
                files,
                is_current: contains_sub(rows[i].release.as_str().as_bytes(), "25Q3".as_bytes()),
                created_at: Some(now_s),
            };
            proof {
                // the new group's index is the old length
                let g = out@.len() as int;
                lemma_distinct_names_prefix(rows@, i + 1);
                assert(distinct_names(rows@.take(i + 1)).len() == g + 1);
                assert(distinct_names(rows@.take(i + 1)) == distinct_names(rows@).take(g + 1));
                assert(distinct_names(rows@)[g] == distinct_names(rows@).take(g + 1)[g]);
                assert(distinct_names(rows@)[g] == rows@[i as int].release@);
                let name = distinct_names(rows@)[g];
                crate::store::lemma_filter_congruent(
                    rows@,
                    |row: DownloadCsvRow| row.release@ == name,
                    |row: DownloadCsvRow| row.release@ == rows@[i as int].release@,
                );
                assert(is_first_row_with(rows@, name, i as int));
                assert(rel.id == rows@[i as int].release);
                assert(rel.release_date == rfc3339_seconds_of(rows@[i as int].release_date@));
                assert(rel.is_current == contains_bytes(utf8_bytes(name), "25Q3".spec_bytes()));
                assert(rel.created_at == Some(now_s));
                let grows = rows@.filter(|row: DownloadCsvRow| row.release@ == name);
                assert(grows =~= rows@.filter(
                    |row: DownloadCsvRow| row.release@ == rows@[i as int].release@,
                ));
                assert(rel.files@.len() == grows.len());
                assert(forall|k: int|
                    0 <= k < grows.len() ==> file_of_row(#[trigger] rel.files@[k], grows[k], now_s));
                assert(built_release(rel, rows@, g, now_s));
            }
            out.push(rel);
        } else {
            proof {
                assert(prev.contains(rows@[i as int].release@)) by {
                    let x = choose|x: int|
                        #![trigger rows@[x]]
                        0 <= x < i && rows@[x].release@ == rows@[i as int].release@;
                    assert(rows@.take(i as int)[x] == rows@[x]);
                }
                assert(distinct_names(rows@.take(i + 1)) == prev);
            }
        }
        i = i + 1;
    }
    proof {
        assert(rows@.take(rows@.len() as int) =~= rows@);
        assert(distinct_names(rows@).take(out@.len() as int) =~= distinct_names(rows@));
        lemma_distinct_names_nodup(rows@);
    }
    out
}

/// The distinct names of a prefix of the feed are a prefix of the
/// feed's distinct names.
proof fn lemma_distinct_names_prefix(rows: Seq<DownloadCsvRow>, i: int)
    requires
        0 <= i <= rows.len(),
    ensures
        distinct_names(rows.take(i)) == distinct_names(rows).take(
            distinct_names(rows.take(i)).len() as int,
        ),
        distinct_names(rows.take(i)).len() <= distinct_names(rows).len(),
    decreases rows.len() - i,
{
    if i == rows.len() {
        assert(rows.take(i) =~= rows);
        assert(distinct_names(rows).take(distinct_names(rows).len() as int) =~= distinct_names(
            rows,
        ));
    } else {
        assert(rows.take(i + 1).drop_last() =~= rows.take(i));
        assert(rows.take(i + 1).last() == rows[i]);
        lemma_distinct_names_prefix(rows, i + 1);
        let p_i = distinct_names(rows.take(i));
        let p_i1 = distinct_names(rows.take(i + 1));
        if p_i.contains(rows[i].release@) {
            assert(p_i1 == p_i);
        } else {
            assert(p_i1 == p_i.push(rows[i].release@));
            assert(p_i == p_i1.take(p_i.len() as int)) by {
                assert(p_i =~= p_i.push(rows[i].release@).take(p_i.len() as int));
            }
            assert(distinct_names(rows.take(i)) == distinct_names(rows).take(p_i.len() as int));
        }
    }
}

// ---------------------------------------------------------------------
// The gene-dependency feed
// ---------------------------------------------------------------------
/// The view of a gene-dependency record: its fields by content.
pub ghost struct GeneDepV {
    pub entrez_id: u32,
    pub gene: Seq<char>,
    pub dataset: Seq<char>,
    pub dependent_cell_lines: Seq<char>,
    pub cell_lines_with_data: Seq<char>,
    pub strongly_selective: bool,
    pub common_essential: bool,
    pub created_at: Option<i64>,
}

pub open spec fn gene_dep_v(g: GeneDependency) -> GeneDepV {
    GeneDepV {
        entrez_id: g.entrez_id,
        gene: g.gene@,
        dataset: g.dataset@,
        dependent_cell_lines: g.dependent_cell_lines@,
        cell_lines_with_data: g.cell_lines_with_data@,
        strongly_selective: g.strongly_selective,
        common_essential: g.common_essential,
        created_at: g.created_at,
    }
}

/// The feed has a header that mentions the gene and entrez fields
/// (ignoring ASCII case); without it the whole pipeline is skipped.
pub open spec fn gene_header_ok(recs: Seq<Seq<Seq<u8>>>) -> bool {
    recs.len() > 0 && (exists|j: int|
        #![trigger recs[0][j]]
        0 <= j < recs[0].len() && contains_bytes_ci(recs[0][j], "gene".spec_bytes())) && (exists|
        j: int,
    |
        #![trigger recs[0][j]]
        0 <= j < recs[0].len() && contains_bytes_ci(recs[0][j], "entrez".spec_bytes()))
}

/// The header carries the seven exact column names the rows are read by.
pub open spec fn gene_cols_ok(header: Seq<Seq<u8>>) -> bool {
    &&& has_col(header, "Entrez Id".spec_bytes())
    &&& has_col(header, "gene".spec_bytes())
    &&& has_col(header, "dataset".spec_bytes())
    &&& has_col(header, "Dependent Cell Lines".spec_bytes())
    &&& has_col(header, "Cell Lines with Data".spec_bytes())
    &&& has_col(header, "Strongly Selective".spec_bytes())
    &&& has_col(header, "Common Essential".spec_bytes())
}

/// A data record is ingestible: full arity, a numeric entrez id, decimal
/// counts, and UTF-8 text in the six text columns.
pub open spec fn gene_row_ok(rec: Seq<Seq<u8>>, header: Seq<Seq<u8>>) -> bool {
    &&& rec.len() == header.len()
    &&& crate::store::spec_query_entrez(rec[the_col(header, "Entrez Id".spec_bytes())]) is Some
    &&& vstd::utf8::valid_utf8(rec[the_col(header, "gene".spec_bytes())])
    &&& vstd::utf8::valid_utf8(rec[the_col(header, "dataset".spec_bytes())])
    &&& vstd::utf8::valid_utf8(rec[the_col(header, "Dependent Cell Lines".spec_bytes())])
    &&& vstd::utf8::valid_utf8(rec[the_col(header, "Cell Lines with Data".spec_bytes())])
    &&& vstd::utf8::valid_utf8(rec[the_col(header, "Strongly Selective".spec_bytes())])
    &&& vstd::utf8::valid_utf8(rec[the_col(header, "Common Essential".spec_bytes())])
    &&& crate::text::is_decimal_text(rec[the_col(header, "Dependent Cell Lines".spec_bytes())])
    &&& crate::text::is_decimal_text(rec[the_col(header, "Cell Lines with Data".spec_bytes())])
}

/// The record a valid data row yields: the flags read true exactly on
/// the literal text `True`.
pub open spec fn gene_v_of_rec(rec: Seq<Seq<u8>>, header: Seq<Seq<u8>>, now_s: i64) -> GeneDepV {
    GeneDepV {
        entrez_id: crate::text::digits_value(
            rec[the_col(header, "Entrez Id".spec_bytes())],
        ) as u32,
        gene: vstd::utf8::decode_utf8(rec[the_col(header, "gene".spec_bytes())]),
        dataset: vstd::utf8::decode_utf8(rec[the_col(header, "dataset".spec_bytes())]),
        dependent_cell_lines: vstd::utf8::decode_utf8(
            rec[the_col(header, "Dependent Cell Lines".spec_bytes())],
        ),
        cell_lines_with_data: vstd::utf8::decode_utf8(
            rec[the_col(header, "Cell Lines with Data".spec_bytes())],
        ),
        strongly_selective: vstd::utf8::decode_utf8(
            rec[the_col(header, "Strongly Selective".spec_bytes())],
        ) == "True"@,
        common_essential: vstd::utf8::decode_utf8(
            rec[the_col(header, "Common Essential".spec_bytes())],
        ) == "True"@,
        created_at: Some(now_s),
    }
}

/// The ingestible rows among the first `i` records, in feed order.
pub open spec fn gene_rows_upto(recs: Seq<Seq<Seq<u8>>>, i: int, now_s: i64) -> Seq<GeneDepV>
    decreases i,
{
    if i <= 1 {
        Seq::empty()
    } else {
        gene_rows_upto(recs, i - 1, now_s) + (if gene_row_ok(recs[i - 1], recs[0]) {
            seq![gene_v_of_rec(recs[i - 1], recs[0], now_s)]
        } else {
            Seq::empty()
        })
    }
}

/// What the gene feed yields: nothing when a required column is absent,
/// else one record per ingestible row.
pub open spec fn spec_gene_rows(recs: Seq<Seq<Seq<u8>>>, now_s: i64) -> Seq<GeneDepV> {
    if recs.len() == 0 || !gene_cols_ok(recs[0]) {
        Seq::empty()
    } else {
        gene_rows_upto(recs, recs.len() as int, now_s)
    }
}

/// How a run of the gene-dependency pipeline ended.
pub enum GeneFeedOutcome {
    /// The header lacked the gene or entrez field; nothing was ingested
    /// and the sync as a whole is unaffected.
    MissingHeader,
    /// Rows were ingested: how many, and how many were skipped as
    /// malformed.
    Applied(usize, usize),
}

/// Whether any header field contains `token`, ignoring ASCII case.
fn header_mentions(header: &Vec<Vec<u8>>, token: &[u8]) -> (r: bool)
    ensures
        r == exists|j: int|
            #![trigger header.deep_view()[j]]
            0 <= j < header.deep_view().len() && contains_bytes_ci(header.deep_view()[j], token@),
{
    let ghost h = header.deep_view();
    let mut i: usize = 0;
    while i < header.len()
        invariant
            i <= h.len(),
            h == header.deep_view(),
            forall|j: int| #![trigger h[j]] 0 <= j < i ==> !contains_bytes_ci(h[j], token@),
        decreases h.len() - i,
    {
        proof {
            assert(header@[i as int]@ =~= h[i as int]);
        }
        if crate::text::contains_sub_ci(header[i].as_slice(), token) {
            return true;
        }
        i = i + 1;
    }
    false
}

/// Reads the gene-dependency feed into the store: header-checked,
/// malformed rows skipped, records appended in batches of 500.
pub fn sync_gene_pipeline(store: &mut CacheManager, bytes: &[u8], now_s: i64) -> (r:
    GeneFeedOutcome)
    requires
        old(store).wf(),
    ensures
        final(store).wf(),
        final(store).spec_releases() == old(store).spec_releases(),
        final(store).spec_files() == old(store).spec_files(),
        final(store).spec_datasets() == old(store).spec_datasets(),
        final(store).spec_metadata() == old(store).spec_metadata(),
        final(store).spec_dataset_links() == old(store).spec_dataset_links(),
        final(store).spec_cell_lines_count() == old(store).spec_cell_lines_count(),
        r is MissingHeader <==> !gene_header_ok(csv_records(bytes@)),
        r is MissingHeader ==> final(store).spec_gene_deps() == old(store).spec_gene_deps(),
        r matches GeneFeedOutcome::Applied(processed, skipped) ==> exists|
            batch: Seq<GeneDependency>,
        |
            {
                &&& #[trigger] batch.len() == spec_gene_rows(csv_records(bytes@), now_s).len()
                &&& batch.map_values(|g: GeneDependency| gene_dep_v(g)) == spec_gene_rows(
                    csv_records(bytes@),
                    now_s,
                )
                &&& final(store).spec_gene_deps() == old(store).spec_gene_deps() + batch
                &&& processed == batch.len()
                &&& processed + skipped == csv_records(bytes@).len() - 1
            },
{
    let recs = parse_csv(bytes);
    let ghost recsv = csv_records(bytes@);
    proof {
        assert(recs.deep_view() == recsv);
    }
    if recs.len() == 0 {
        return GeneFeedOutcome::MissingHeader;
    }
    let header = &recs[0];
    proof {
        assert(header.deep_view() == recsv[0]);
    }
    if !(header_mentions(header, "gene".as_bytes()) && header_mentions(
        header,
        "entrez".as_bytes(),
    )) {
        return GeneFeedOutcome::MissingHeader;
    }
    let hlen = header.len();
    let c_e = find_col(header, "Entrez Id".as_bytes());
    let c_g = find_col(header, "gene".as_bytes());
    let c_d = find_col(header, "dataset".as_bytes());
    let c_dcl = find_col(header, "Dependent Cell Lines".as_bytes());
    let c_clwd = find_col(header, "Cell Lines with Data".as_bytes());
    let c_ss = find_col(header, "Strongly Selective".as_bytes());
    let c_ce = find_col(header, "Common Essential".as_bytes());
    let cols = match (c_e, c_g, c_d, c_dcl, c_clwd, c_ss, c_ce) {
        (Some(a), Some(b), Some(c), Some(d), Some(e), Some(f), Some(g)) => Some(
            (a, b, c, d, e, f, g),
        ),
        _ => None,
    };
    let (k_e, k_g, k_d, k_dcl, k_clwd, k_ss, k_ce) = match cols {
        None => {
            // a required column is absent: every row is skipped
            proof {
                assert(!gene_cols_ok(recsv[0]));
                assert(spec_gene_rows(recsv, now_s) =~= Seq::<GeneDepV>::empty());
                assert(Seq::<GeneDependency>::empty().map_values(
                    |g: GeneDependency| gene_dep_v(g),
                ) =~= Seq::<GeneDepV>::empty());
                assert(old(store).spec_gene_deps() + Seq::<GeneDependency>::empty() =~= old(
                    store,
                ).spec_gene_deps());
            }
            let n = recs.len() - 1;
            return GeneFeedOutcome::Applied(0, n);
        },
        Some(t) => t,
    };
    proof {
        lemma_has_col_first(recsv[0], "Entrez Id".spec_bytes());
        lemma_has_col_first(recsv[0], "gene".spec_bytes());
        lemma_has_col_first(recsv[0], "dataset".spec_bytes());
        lemma_has_col_first(recsv[0], "Dependent Cell Lines".spec_bytes());
        lemma_has_col_first(recsv[0], "Cell Lines with Data".spec_bytes());
        lemma_has_col_first(recsv[0], "Strongly Selective".spec_bytes());
        lemma_has_col_first(recsv[0], "Common Essential".spec_bytes());
        assert(the_col(recsv[0], "Entrez Id".spec_bytes()) == k_e as int);
        assert(the_col(recsv[0], "gene".spec_bytes()) == k_g as int);
        assert(the_col(recsv[0], "dataset".spec_bytes()) == k_d as int);
        assert(the_col(recsv[0], "Dependent Cell Lines".spec_bytes()) == k_dcl as int);
        assert(the_col(recsv[0], "Cell Lines with Data".spec_bytes()) == k_clwd as int);
        assert(the_col(recsv[0], "Strongly Selective".spec_bytes()) == k_ss as int);
        assert(the_col(recsv[0], "Common Essential".spec_bytes()) == k_ce as int);
    }
    let mut batch: Vec<GeneDependency> = Vec::new();
    let ghost mut flushed: Seq<GeneDependency> = Seq::empty();
    let mut processed: usize = 0;
    let mut skipped: usize = 0;
    let mut i: usize = 1;
    while i < recs.len()
        invariant
            1 <= i <= recsv.len(),
            recsv == recs.deep_view(),
            recsv == csv_records(bytes@),
            recsv.len() == recs@.len(),
            recsv.len() > 0,
            hlen == recsv[0].len(),
            gene_cols_ok(recsv[0]),
            the_col(recsv[0], "Entrez Id".spec_bytes()) == k_e as int,
            the_col(recsv[0], "gene".spec_bytes()) == k_g as int,
            the_col(recsv[0], "dataset".spec_bytes()) == k_d as int,
            the_col(recsv[0], "Dependent Cell Lines".spec_bytes()) == k_dcl as int,
            the_col(recsv[0], "Cell Lines with Data".spec_bytes()) == k_clwd as int,
            the_col(recsv[0], "Strongly Selective".spec_bytes()) == k_ss as int,
            the_col(recsv[0], "Common Essential".spec_bytes()) == k_ce as int,
            k_e < hlen && k_g < hlen && k_d < hlen && k_dcl < hlen && k_clwd < hlen && k_ss < hlen
                && k_ce < hlen,
            store.wf(),
            store.spec_releases() == old(store).spec_releases(),
            store.spec_files() == old(store).spec_files(),
            store.spec_datasets() == old(store).spec_datasets(),
            store.spec_metadata() == old(store).spec_metadata(),
            store.spec_dataset_links() == old(store).spec_dataset_links(),
            store.spec_cell_lines_count() == old(store).spec_cell_lines_count(),
            store.spec_gene_deps() == old(store).spec_gene_deps() + flushed,
            (flushed + batch@).map_values(|g: GeneDependency| gene_dep_v(g)) == gene_rows_upto(
                recsv,
                i as int,
                now_s,
            ),
            processed == flushed.len() + batch@.len(),
            processed + skipped == i - 1,
        decreases recsv.len() - i,
    {
        let rec = &recs[i];
        proof {
            assert(rec.deep_view() == recsv[i as int]);
        }
        let ghost pre_total = flushed + batch@;
        let mut ok = rec.len() == hlen;
        let mut parsed: Option<GeneDependency> = None;
        if ok {
            proof {
                assert(recsv[i as int].len() == rec@.len());
                assert(recsv[i as int][k_e as int] =~= rec@[k_e as int]@);
                assert(recsv[i as int][k_g as int] =~= rec@[k_g as int]@);
                assert(recsv[i as int][k_d as int] =~= rec@[k_d as int]@);
                assert(recsv[i as int][k_dcl as int] =~= rec@[k_dcl as int]@);
                assert(recsv[i as int][k_clwd as int] =~= rec@[k_clwd as int]@);
                assert(recsv[i as int][k_ss as int] =~= rec@[k_ss as int]@);
                assert(recsv[i as int][k_ce as int] =~= rec@[k_ce as int]@);
            }
            let entrez = crate::text::parse_u32_digits(rec[k_e].as_slice());
            let dcl_ok = crate::text::is_decimal_text_exec(rec[k_dcl].as_slice());
            let clwd_ok = crate::text::is_decimal_text_exec(rec[k_clwd].as_slice());
            match entrez {
                None => {
                    ok = false;
                },
                Some(ev) => {
                    if !(dcl_ok && clwd_ok) {
                        ok = false;
                    } else {
                        let gene_s = bytes_to_string(rec[k_g].as_slice());
                        let ds_s = bytes_to_string(rec[k_d].as_slice());
                        let dcl_s = bytes_to_string(rec[k_dcl].as_slice());
                        let clwd_s = bytes_to_string(rec[k_clwd].as_slice());
                        let ss_s = bytes_to_string(rec[k_ss].as_slice());
                        let ce_s = bytes_to_string(rec[k_ce].as_slice());
                        match (gene_s, ds_s, dcl_s, clwd_s, ss_s, ce_s) {
                            (
                                Some(gene),
                                Some(dataset),
                                Some(dcl),
                                Some(clwd),
                                Some(ss),
                                Some(ce),
                            ) => {
                                proof {
                                    vstd::utf8::encode_utf8_decode_utf8(gene@);
                                    vstd::utf8::encode_utf8_decode_utf8(dataset@);
                                    vstd::utf8::encode_utf8_decode_utf8(dcl@);
                                    vstd::utf8::encode_utf8_decode_utf8(clwd@);
                                    vstd::utf8::encode_utf8_decode_utf8(ss@);
                                    vstd::utf8::encode_utf8_decode_utf8(ce@);
                                }
                                let row = crate::models::GeneDependencyCsvRow {
                                    entrez_id: ev,
                                    gene,
                                    dataset,
                                    dependent_cell_lines: dcl,
                                    cell_lines_with_data: clwd,
                                    strongly_selective: ss,
                                    common_essential: ce,
                                };
                                let g = GeneDependency::from_row(row, now_s);
                                proof {
                                    assert(gene_row_ok(recsv[i as int], recsv[0]));
                                    assert(gene_dep_v(g) == gene_v_of_rec(
                                        recsv[i as int],
                                        recsv[0],
                                        now_s,
                                    ));
                                }
                                parsed = Some(g);
                            },
                            _ => {
                                ok = false;
                            },
                        }
                    }
                },
            }
        }
        match parsed {
            Some(g) => {
                proof {
                    assert(gene_rows_upto(recsv, i + 1, now_s) =~= gene_rows_upto(
                        recsv,
                        i as int,
                        now_s,
                    ).push(gene_v_of_rec(recsv[i as int], recsv[0], now_s)));
                    assert((pre_total.push(g)).map_values(|x: GeneDependency| gene_dep_v(x))
                        =~= pre_total.map_values(|x: GeneDependency| gene_dep_v(x)).push(
                        gene_dep_v(g),
                    ));
                    assert(flushed + batch@.push(g) =~= pre_total.push(g));
                }
                batch.push(g);
                processed = processed + 1;
                if batch.len() >= 500 {
                    store.store_gene_dependencies_batch(&batch);
                    proof {
                        flushed = flushed + batch@;
                        assert(flushed + Seq::<GeneDependency>::empty() =~= flushed);
                        assert(old(store).spec_gene_deps() + (flushed.subrange(
                            0,
                            flushed.len() - batch@.len(),
                        ) + batch@) =~= old(store).spec_gene_deps() + flushed);
                    }
                    batch = Vec::new();
                }
            },
            None => {
                proof {
                    assert(!gene_row_ok(recsv[i as int], recsv[0]));
                    assert(gene_rows_upto(recsv, i + 1, now_s) =~= gene_rows_upto(
                        recsv,
                        i as int,
                        now_s,
                    ));
                }
                skipped = skipped + 1;
            },
        }
        i = i + 1;
    }
    if batch.len() > 0 {
        store.store_gene_dependencies_batch(&batch);
        proof {
            flushed = flushed + batch@;
        }
    }
    proof {
        assert(gene_header_ok(recsv));
        assert(spec_gene_rows(recsv, now_s) == gene_rows_upto(recsv, recsv.len() as int, now_s));
        assert(flushed.map_values(|g: GeneDependency| gene_dep_v(g)) =~= (flushed
            + Seq::<GeneDependency>::empty()).map_values(|g: GeneDependency| gene_dep_v(g)));
        assert(store.spec_gene_deps() == old(store).spec_gene_deps() + flushed);
    }
    GeneFeedOutcome::Applied(processed, skipped)
}

// ---------------------------------------------------------------------
// Pipelines over the store, and the refresh itself
// ---------------------------------------------------------------------
/// The files of a list of releases, in order.
pub open spec fn concat_files(rels: Seq<Release>) -> Seq<DownloadFile>
    decreases rels.len(),
{
    if rels.len() == 0 {
        Seq::empty()
    } else {
        concat_files(rels.drop_last()) + rels.last().files@
    }
}

/// What a successful run of the files/releases pipeline does to the
/// store: some row list parsed from the feed, grouped into releases,
/// was upserted — release rows by id, file rows by filename.
pub open spec fn files_pipeline_applied(
    pre: CacheManager,
    post: CacheManager,
    bytes: Seq<u8>,
    n: int,
    now_s: i64,
) -> bool {
    exists|rows: Seq<DownloadCsvRow>, rels: Seq<Release>|
        {
            &&& #[trigger] rows_parsed(rows, bytes)
            &&& #[trigger] built_releases(rels, rows, now_s)
            &&& n == rels.len()
            &&& post.spec_releases() == upsert_all(
                pre.spec_releases(),
                rels.map_values(|rel: Release| CacheManager::spec_release_row_of(rel)),
                rel_key(),
            )
            &&& post.spec_files() == upsert_all(pre.spec_files(), concat_files(rels), file_key())
        }
}

/// Reads the files/releases feed into the store.
pub fn sync_files_pipeline(store: &mut CacheManager, bytes: &[u8], now_s: i64) -> (r: Result<
    usize,
    DepMapError,
>)
    requires
        old(store).wf(),
    ensures
        final(store).wf(),
        final(store).spec_datasets() == old(store).spec_datasets(),
        final(store).spec_gene_deps() == old(store).spec_gene_deps(),
        final(store).spec_metadata() == old(store).spec_metadata(),
        final(store).spec_dataset_links() == old(store).spec_dataset_links(),
        final(store).spec_cell_lines_count() == old(store).spec_cell_lines_count(),
        r is Ok <==> files_feed_ok(bytes@),
        r matches Ok(n) ==> files_pipeline_applied(
            *old(store),
            *final(store),
            bytes@,
            n as int,
            now_s,
        ),
        r matches Err(e) ==> e is ParseError && final(store).spec_releases() == old(
            store,
        ).spec_releases() && final(store).spec_files() == old(store).spec_files(),
{
    let rows = match parse_files_feed(bytes) {
        Err(e) => {
            return Err(e);
        },
        Ok(rows) => rows,
    };
    let rels = build_releases(&rows, now_s);
    let mut g: usize = 0;
    while g < rels.len()
        invariant
            g <= rels@.len(),
            store.wf(),
            store.spec_releases() == upsert_all(
                old(store).spec_releases(),
                rels@.take(g as int).map_values(
                    |rel: Release| CacheManager::spec_release_row_of(rel),
                ),
                rel_key(),
            ),
            store.spec_files() == upsert_all(
                old(store).spec_files(),
                concat_files(rels@.take(g as int)),
                file_key(),
            ),
            store.spec_datasets() == old(store).spec_datasets(),
            store.spec_gene_deps() == old(store).spec_gene_deps(),
            store.spec_metadata() == old(store).spec_metadata(),
            store.spec_dataset_links() == old(store).spec_dataset_links(),
            store.spec_cell_lines_count() == old(store).spec_cell_lines_count(),
        decreases rels@.len() - g,
    {
        store.store_release(&rels[g]);
        proof {
            let m = rels@.take(g as int).map_values(
                |rel: Release| CacheManager::spec_release_row_of(rel),
            );
            assert(rels@.take(g + 1).map_values(
                |rel: Release| CacheManager::spec_release_row_of(rel),
            ) =~= m.push(CacheManager::spec_release_row_of(rels@[g as int])));
            assert(m.push(CacheManager::spec_release_row_of(rels@[g as int])).drop_last() =~= m);
            crate::store::lemma_upsert_all_concat(
                old(store).spec_files(),
                concat_files(rels@.take(g as int)),
                rels@[g as int].files@,
                file_key(),
            );
            assert(concat_files(rels@.take(g + 1)) =~= concat_files(rels@.take(g as int))
                + rels@[g as int].files@) by {
                assert(rels@.take(g + 1).drop_last() =~= rels@.take(g as int));
                assert(rels@.take(g + 1).last() == rels@[g as int]);
            }
        }
        g = g + 1;
    }
    proof {
        assert(rels@.take(rels@.len() as int) =~= rels@);
    }
    Ok(rels.len())
}

/// `row` is the stored image of one datasets-feed record.
pub open spec fn ds_row_of(row: DatasetRow, rec: DatasetApiResponse, now_s: i64) -> bool {
    &&& row.id == rec.id
    &&& row.display_name == rec.display_name
    &&& row.data_type == rec.data_type
    &&& row.download_entry_url == rec.download_entry_url
    &&& row.created_at == Some(now_s)
}

/// What the datasets pipeline does to the store: one row per feed
/// record, upserted by id, in feed order.
pub open spec fn datasets_pipeline_applied(
    pre: CacheManager,
    post: CacheManager,
    records: Seq<DatasetApiResponse>,
    now_s: i64,
) -> bool {
    exists|batch: Seq<DatasetRow>|
        {
            &&& #[trigger] batch.len() == records.len()
            &&& (forall|i: int|
                0 <= i < batch.len() ==> ds_row_of(#[trigger] batch[i], records[i], now_s))
            &&& post.spec_datasets() == upsert_all(pre.spec_datasets(), batch, ds_key())
        }
}

/// Stores the datasets feed, one insert-or-replace per record.
pub fn sync_datasets_pipeline(
    store: &mut CacheManager,
    records: &Vec<DatasetApiResponse>,
    now_s: i64,
) -> (n: usize)
    requires
        old(store).wf(),
    ensures
        final(store).wf(),
        final(store).spec_releases() == old(store).spec_releases(),
        final(store).spec_files() == old(store).spec_files(),
        final(store).spec_gene_deps() == old(store).spec_gene_deps(),
        final(store).spec_metadata() == old(store).spec_metadata(),
        final(store).spec_dataset_links() == old(store).spec_dataset_links(),
        final(store).spec_cell_lines_count() == old(store).spec_cell_lines_count(),
        n == records@.len(),
        datasets_pipeline_applied(*old(store), *final(store), records@, now_s),
{
    let ghost mut batch: Seq<DatasetRow> = Seq::empty();
    let mut i: usize = 0;
    while i < records.len()
        invariant
            i <= records@.len(),
            store.wf(),
            batch.len() == i,
            forall|j: int| 0 <= j < i ==> ds_row_of(#[trigger] batch[j], records@[j], now_s),
            store.spec_datasets() == upsert_all(old(store).spec_datasets(), batch, ds_key()),
            store.spec_releases() == old(store).spec_releases(),
            store.spec_files() == old(store).spec_files(),
            store.spec_gene_deps() == old(store).spec_gene_deps(),
            store.spec_metadata() == old(store).spec_metadata(),
            store.spec_dataset_links() == old(store).spec_dataset_links(),
            store.spec_cell_lines_count() == old(store).spec_cell_lines_count(),
        decreases records@.len() - i,
    {
        let rec = &records[i];
        let row = DatasetRow {
            id: rec.id.clone(),
            display_name: rec.display_name.clone(),
            data_type: rec.data_type.clone(),
            download_entry_url: crate::models::clone_opt_string(&rec.download_entry_url),
            created_at: Some(now_s),
        };
        store.store_dataset(&row);
        proof {
            assert(batch.push(row).drop_last() =~= batch);
            batch = batch.push(row);
        }
        i = i + 1;
    }
    records.len()
}

/// What the embedding program fetched for a refresh: each feed either
/// arrived as bytes (or decoded records), or failed with a transport
/// message.
pub struct SyncFetch {
    pub files_csv: Result<Vec<u8>, String>,
    pub datasets: Result<Vec<DatasetApiResponse>, String>,
    pub gene_csv: Result<Vec<u8>, String>,
}

/// How one pipeline of a refresh ended.
pub enum PipelineOutcome {
    /// The refresh did not run at all (the mirror was fresh).
    NotRun,
    /// The fetch failed; the message is the transport error.
    FetchFailed(String),
    /// The feed could not be parsed; the message says why.
    ParseFailed(String),
    /// The pipeline wrote this many records.
    Applied(usize),
    /// The gene feed lacked its required header fields and was skipped.
    SkippedMissingHeader,
}

/// The structured result of a refresh: callers can tell a full sync
/// from a partial one.
pub struct RefreshReport {
    pub ran: bool,
    pub files: PipelineOutcome,
    pub datasets: PipelineOutcome,
    pub gene_dependencies: PipelineOutcome,
}

/// Everything a refresh guarantees.  When the mirror is fresh and the
/// refresh is not forced, nothing changes.  Otherwise the three
/// pipelines run independently — a failed fetch or parse leaves that
/// pipeline's tables untouched and is reported, never propagated — and
/// the freshness marker advances to `now_s` unconditionally, even after
/// partial failure.
pub open spec fn refresh_post(
    pre: CacheManager,
    post: CacheManager,
    r: RefreshReport,
    force: bool,
    now_s: i64,
    fetched: SyncFetch,
) -> bool {
    if !force && !pre.spec_cache_expired(now_s) {
        &&& post == pre
        &&& !r.ran
        &&& r.files is NotRun
        &&& r.datasets is NotRun
        &&& r.gene_dependencies is NotRun
    } else {
        &&& r.ran
        &&& post.wf()
        &&& post.spec_cell_lines_count() == pre.spec_cell_lines_count()
        &&& post.spec_dataset_links() == pre.spec_dataset_links()
        &&& (match fetched.files_csv {
            Err(m) => (r.files matches PipelineOutcome::FetchFailed(s) && s == m)
                && post.spec_releases() == pre.spec_releases() && post.spec_files()
                == pre.spec_files(),
            Ok(bytes) => {
                if files_feed_ok(bytes@) {
                    (r.files matches PipelineOutcome::Applied(n) && files_pipeline_applied(
                        pre,
                        post,
                        bytes@,
                        n as int,
                        now_s,
                    ))
                } else {
                    (r.files is ParseFailed) && post.spec_releases() == pre.spec_releases()
                        && post.spec_files() == pre.spec_files()
                }
            },
        })
        &&& (match fetched.datasets {
            Err(m) => (r.datasets matches PipelineOutcome::FetchFailed(s) && s == m)
                && post.spec_datasets() == pre.spec_datasets(),
            Ok(records) => (r.datasets matches PipelineOutcome::Applied(n) && n == records@.len())
                && datasets_pipeline_applied(pre, post, records@, now_s),
        })
        &&& (match fetched.gene_csv {
            Err(m) => (r.gene_dependencies matches PipelineOutcome::FetchFailed(s) && s == m)
                && post.spec_gene_deps() == pre.spec_gene_deps(),
            Ok(bytes) => {
                if gene_header_ok(csv_records(bytes@)) {
                    (r.gene_dependencies matches PipelineOutcome::Applied(n) && exists|
                        batch: Seq<GeneDependency>,
                    |
                        {
                            &&& #[trigger] batch.len() == spec_gene_rows(
                                csv_records(bytes@),
                                now_s,
                            ).len()
                            &&& batch.map_values(|g: GeneDependency| gene_dep_v(g))
                                == spec_gene_rows(csv_records(bytes@), now_s)
                            &&& n == batch.len()
                            &&& post.spec_gene_deps() == pre.spec_gene_deps() + batch
                        })
                } else {
                    (r.gene_dependencies is SkippedMissingHeader) && post.spec_gene_deps()
                        == pre.spec_gene_deps()
                }
            },
        })
        &&& (CacheManager::spec_meta_lookup(post.spec_metadata(), "last_full_update"@) matches Some(
            row,
        ) && row.updated_at == now_s && row.value@ == "completed"@)
        &&& forall|k: Seq<char>|
            k != "last_full_update"@ ==> #[trigger] CacheManager::spec_meta_lookup(
                post.spec_metadata(),
                k,
            ) == CacheManager::spec_meta_lookup(pre.spec_metadata(), k)
    }
}

impl CacheManager {
    /// Refreshes the mirror from what was fetched.  A no-op when the
    /// mirror is fresh and `force` is not set; otherwise the three
    /// pipelines run, each failure is contained and reported, and the
    /// freshness marker advances unconditionally.
    pub fn update_cache(&mut self, force: bool, now_s: i64, fetched: SyncFetch) -> (r:
        RefreshReport)
        requires
            old(self).wf(),
        ensures
            final(self).wf(),
            refresh_post(*old(self), *final(self), r, force, now_s, fetched),
    {
        if !force && !self.is_cache_expired(now_s) {
            return RefreshReport {
                ran: false,
                files: PipelineOutcome::NotRun,
                datasets: PipelineOutcome::NotRun,
                gene_dependencies: PipelineOutcome::NotRun,
            };
        }
        let SyncFetch { files_csv, datasets, gene_csv } = fetched;
        let files = match files_csv {
            Err(m) => PipelineOutcome::FetchFailed(m),
            Ok(bytes) => match sync_files_pipeline(self, bytes.as_slice(), now_s) {
                Ok(n) => PipelineOutcome::Applied(n),
                Err(e) => PipelineOutcome::ParseFailed(e.message()),
            },
        };
        let datasets_outcome = match datasets {
            Err(m) => PipelineOutcome::FetchFailed(m),
            Ok(records) => PipelineOutcome::Applied(
                sync_datasets_pipeline(self, &records, now_s),
            ),
        };
        let gene_outcome = match gene_csv {
            Err(m) => PipelineOutcome::FetchFailed(m),
            Ok(bytes) => match sync_gene_pipeline(self, bytes.as_slice(), now_s) {
                GeneFeedOutcome::MissingHeader => PipelineOutcome::SkippedMissingHeader,
                GeneFeedOutcome::Applied(processed, _skipped) => PipelineOutcome::Applied(
                    processed,
                ),
            },
        };
        self.update_timestamps(now_s);
        RefreshReport { ran: true, files, datasets: datasets_outcome, gene_dependencies: gene_outcome }
    }

    /// Refreshes selectively by data type.  Every data type is in fact
    /// refreshed — the pipelines share their feeds, so a partial
    /// refresh would leave the mirror inconsistent — and the filters
    /// only shape what the caller shows.
    pub fn update_cache_selective(
        &mut self,
        force: bool,
        data_type_filters: &Vec<String>,
        now_s: i64,
        fetched: SyncFetch,
    ) -> (r: RefreshReport)
        requires
            old(self).wf(),
        ensures
            final(self).wf(),
            refresh_post(*old(self), *final(self), r, force, now_s, fetched),
    {
        let _ = data_type_filters;
        self.update_cache(force, now_s, fetched)
    }
}

// ---------------------------------------------------------------------
// Laws of the refresh
// ---------------------------------------------------------------------
/// The content of a release row, field by field.
pub ghost struct ReleaseRowV {
    pub id: Seq<char>,
    pub name: Seq<char>,
    pub release_date: Option<i64>,
    pub is_current: bool,
    pub created_at: Option<i64>,
}

pub open spec fn rel_row_v(r: ReleaseRow) -> ReleaseRowV {
    ReleaseRowV {
        id: r.id@,
        name: r.name@,
        release_date: r.release_date,
        is_current: r.is_current,
        created_at: r.created_at,
    }
}

/// The content of a dataset row, field by field.
pub ghost struct DatasetRowV {
    pub id: Seq<char>,
    pub display_name: Seq<char>,
    pub data_type: Seq<char>,
    pub download_entry_url: Option<Seq<char>>,
    pub created_at: Option<i64>,
}

pub open spec fn ds_row_v(d: DatasetRow) -> DatasetRowV {
    DatasetRowV {
        id: d.id@,
        display_name: d.display_name@,
        data_type: d.data_type@,
        download_entry_url: match d.download_entry_url {
            Some(u) => Some(u@),
            None => None,
        },
        created_at: d.created_at,
    }
}

proof fn lemma_seq_key_map_view_equal<T, V>(
    b1: Seq<T>,
    b2: Seq<T>,
    key: spec_fn(T) -> Seq<char>,
    view: spec_fn(T) -> V,
)
    requires
        b1.len() == b2.len(),
        forall|i: int| 0 <= i < b1.len() ==> #[trigger] key(b1[i]) == key(b2[i]),
        forall|i: int| 0 <= i < b1.len() ==> #[trigger] view(b1[i]) == view(b2[i]),
    ensures
        seq_key_map(b1, key).map_values(view) == seq_key_map(b2, key).map_values(view),
    decreases b1.len(),
{
    if b1.len() == 0 {
        assert(seq_key_map(b1, key).map_values(view) =~= seq_key_map(b2, key).map_values(view));
    } else {
        let d1 = b1.drop_last();
        let d2 = b2.drop_last();
        assert forall|i: int| 0 <= i < d1.len() implies #[trigger] key(d1[i]) == key(d2[i])
            && view(d1[i]) == view(d2[i]) by {
            assert(d1[i] == b1[i] && d2[i] == b2[i]);
            assert(key(b1[i]) == key(b2[i]));
            assert(view(b1[i]) == view(b2[i]));
        }
        lemma_seq_key_map_view_equal(d1, d2, key, view);
        let l1 = b1[b1.len() - 1];
        let l2 = b2[b1.len() - 1];
        assert(key(l1) == key(l2) && view(l1) == view(l2));
        let md1 = seq_key_map(d1, key);
        let md2 = seq_key_map(d2, key);
        assert(seq_key_map(b1, key) == md1.insert(key(l1), l1));
        assert(seq_key_map(b2, key) == md2.insert(key(l2), l2));
        let f1 = seq_key_map(b1, key).map_values(view);
        let f2 = seq_key_map(b2, key).map_values(view);
        assert forall|k: Seq<char>| #[trigger] f1.dom().contains(k) implies f2.dom().contains(k)
            && f1[k] == f2[k] by {
            if k == key(l1) {
                assert(f1[k] == view(l1));
                assert(f2[k] == view(l2));
            } else {
                assert(seq_key_map(b1, key)[k] == md1[k]);
                assert(md1.dom().contains(k));
                assert(f1[k] == md1.map_values(view)[k]);
                assert(md1.map_values(view)[k] == md2.map_values(view)[k]);
                assert(md2.dom().contains(k)) by {
                    assert(md1.map_values(view).dom() == md2.map_values(view).dom());
                }
                assert(f2[k] == md2.map_values(view)[k]);
            }
        }
        assert forall|k: Seq<char>| #[trigger] f2.dom().contains(k) implies f1.dom().contains(
            k,
        ) by {
            if k != key(l1) {
                assert(md2.dom().contains(k));
                assert(md2.map_values(view).dom().contains(k));
                assert(md1.map_values(view).dom().contains(k));
            }
        }
        assert(f1 =~= f2);
    }
}

/// Upserting a batch, then a batch with the same keys and the same row
/// content, leaves the same rows (by content, keyed by key) as the
/// first batch alone.
pub proof fn lemma_upsert_all_twice_view<T, V>(
    s: Seq<T>,
    b1: Seq<T>,
    b2: Seq<T>,
    key: spec_fn(T) -> Seq<char>,
    view: spec_fn(T) -> V,
)
    requires
        unique_by(s, key),
        b1.len() == b2.len(),
        forall|i: int| 0 <= i < b1.len() ==> #[trigger] key(b1[i]) == key(b2[i]),
        forall|i: int| 0 <= i < b1.len() ==> #[trigger] view(b1[i]) == view(b2[i]),
    ensures
        seq_key_map(upsert_all(upsert_all(s, b1, key), b2, key), key).map_values(view)
            == seq_key_map(upsert_all(s, b1, key), key).map_values(view),
{
    crate::store::lemma_upsert_all_map(s, b1, key);
    crate::store::lemma_upsert_all_map(upsert_all(s, b1, key), b2, key);
    lemma_seq_key_map_view_equal(b1, b2, key, view);
    let m0 = seq_key_map(s, key);
    let m1 = seq_key_map(b1, key);
    let m2 = seq_key_map(b2, key);
    // the double application is m0 + m1 + m2; m2 carries the same
    // content as m1, so the second pass changes nothing
    assert(m1.dom() =~= m2.dom()) by {
        crate::store::lemma_seq_key_map_domain_equal(b1, b2, key);
    }
    let lhs = m0.union_prefer_right(m1).union_prefer_right(m2).map_values(view);
    let rhs = m0.union_prefer_right(m1).map_values(view);
    assert forall|k: Seq<char>| #[trigger] rhs.dom().contains(k) implies lhs.dom().contains(k)
        && lhs[k] == rhs[k] by {
        if m2.dom().contains(k) {
            assert(m1.map_values(view)[k] == view(m1[k]));
            assert(m2.map_values(view)[k] == view(m2[k]));
            assert(view(m1[k]) == view(m2[k]));
        }
    }
    assert(lhs =~= rhs);
}

/// Two consecutive refreshes that apply the same remote data — batches
/// equal row for row in key and content — leave the same release and
/// dataset rows, keyed by id and compared by content.  Gene-dependency
/// rows are exempt by design: they are append-only.
pub proof fn lemma_refresh_idempotent(
    releases0: Seq<ReleaseRow>,
    rel_b1: Seq<ReleaseRow>,
    rel_b2: Seq<ReleaseRow>,
    datasets0: Seq<DatasetRow>,
    ds_b1: Seq<DatasetRow>,
    ds_b2: Seq<DatasetRow>,
)
    requires
        unique_by(releases0, rel_key()),
        unique_by(datasets0, ds_key()),
        rel_b1.len() == rel_b2.len(),
        forall|i: int| 0 <= i < rel_b1.len() ==> #[trigger] rel_row_v(rel_b1[i]) == rel_row_v(
            rel_b2[i],
        ),
        ds_b1.len() == ds_b2.len(),
        forall|i: int| 0 <= i < ds_b1.len() ==> #[trigger] ds_row_v(ds_b1[i]) == ds_row_v(ds_b2[i]),
    ensures
        seq_key_map(
            upsert_all(upsert_all(releases0, rel_b1, rel_key()), rel_b2, rel_key()),
            rel_key(),
        ).map_values(|r: ReleaseRow| rel_row_v(r)) == seq_key_map(
            upsert_all(releases0, rel_b1, rel_key()),
            rel_key(),
        ).map_values(|r: ReleaseRow| rel_row_v(r)),
        seq_key_map(
            upsert_all(upsert_all(datasets0, ds_b1, ds_key()), ds_b2, ds_key()),
            ds_key(),
        ).map_values(|d: DatasetRow| ds_row_v(d)) == seq_key_map(
            upsert_all(datasets0, ds_b1, ds_key()),
            ds_key(),
        ).map_values(|d: DatasetRow| ds_row_v(d)),
{
    assert forall|i: int| 0 <= i < rel_b1.len() implies #[trigger] rel_key()(rel_b1[i])
        == rel_key()(rel_b2[i]) by {
        assert(rel_row_v(rel_b1[i]) == rel_row_v(rel_b2[i]));
        assert(rel_b1[i].id@ == rel_b2[i].id@);
    }
    assert forall|i: int| 0 <= i < ds_b1.len() implies #[trigger] ds_key()(ds_b1[i]) == ds_key()(
        ds_b2[i],
    ) by {
        assert(ds_row_v(ds_b1[i]) == ds_row_v(ds_b2[i]));
        assert(ds_b1[i].id@ == ds_b2[i].id@);
    }
    lemma_upsert_all_twice_view(
        releases0,
        rel_b1,
        rel_b2,
        rel_key(),
        |r: ReleaseRow| rel_row_v(r),
    );
    lemma_upsert_all_twice_view(datasets0, ds_b1, ds_b2, ds_key(), |d: DatasetRow| ds_row_v(d));
}

} // verus!
