use depmap_downloader::cli::effective_limit;
use depmap_downloader::cli::search_targets;
use depmap_downloader::cli::select_download_request;
use depmap_downloader::cli::DownloadCommands;
use depmap_downloader::cli::DownloadSelector;
use depmap_downloader::error::DepMapError;
use depmap_downloader::models::GeneDependencyCsvRow;
use depmap_downloader::models::GeneDependency;

#[test]
fn download_selector_subcommands_win() {
    let r = select_download_request(
        Some(DownloadCommands::Release { name: "24Q4".to_string(), data_type: None }),
        Some("ignored".to_string()),
        Some("ignored".to_string()),
    );
    assert!(matches!(r, Ok(DownloadSelector::Release { ref name, .. }) if name == "24Q4"));
    let r2 = select_download_request(
        Some(DownloadCommands::Dataset { id: "ds".to_string() }),
        None,
        None,
    );
    assert!(matches!(r2, Ok(DownloadSelector::Dataset { ref id }) if id == "ds"));
}

#[test]
fn download_selector_flags() {
    let by_dataset = select_download_request(None, Some("ds".to_string()), None);
    assert!(matches!(by_dataset, Ok(DownloadSelector::Dataset { ref id }) if id == "ds"));
    let by_file = select_download_request(None, None, Some("a.csv".to_string()));
    assert!(matches!(by_file, Ok(DownloadSelector::SingleFile { ref filename }) if filename == "a.csv"));
    let default = select_download_request(None, None, None);
    assert!(matches!(default, Ok(DownloadSelector::CoreFiles)));
}

#[test]
fn download_selector_conflict() {
    let r = select_download_request(None, Some("ds".to_string()), Some("a.csv".to_string()));
    match r {
        Err(e) => {
            assert!(matches!(e, DepMapError::InvalidArguments));
            assert_eq!(e.message(), "Invalid arguments");
        }
        Ok(_) => panic!("conflicting selectors must be rejected"),
    }
}

#[test]
fn search_targets_default_to_all() {
    assert_eq!(search_targets(false, false, false), (true, true, true));
    assert_eq!(search_targets(false, true, false), (true, false, false));
    assert_eq!(search_targets(true, false, true), (false, true, true));
}

#[test]
fn search_limit_defaults_to_fifty() {
    assert_eq!(effective_limit(None), 50);
    assert_eq!(effective_limit(Some(7)), 7);
}

#[test]
fn error_messages() {
    assert_eq!(
        DepMapError::FileNotFound("x.csv".to_string()).message(),
        "File not found: x.csv"
    );
    assert_eq!(DepMapError::NotFound("gone".to_string()).message(), "Not found: gone");
    assert_eq!(DepMapError::ParseError("bad".to_string()).message(), "Parse error: bad");
    assert_eq!(
        DepMapError::ChecksumError("a.csv".to_string()).message(),
        "Checksum validation failed for a.csv"
    );
    assert_eq!(
        DepMapError::DownloadError("HTTP 500".to_string()).message(),
        "Download failed: HTTP 500"
    );
    assert_eq!(DepMapError::CacheError("io".to_string()).message(), "Cache error: io");
}

#[test]
fn gene_record_from_feed_row() {
    let row = GeneDependencyCsvRow {
        entrez_id: 672,
        gene: "BRCA1".to_string(),
        dataset: "Chronos_Combined".to_string(),
        dependent_cell_lines: "55.0".to_string(),
        cell_lines_with_data: "1086.0".to_string(),
        strongly_selective: "True".to_string(),
        common_essential: "FALSE".to_string(),
    };
    let g = GeneDependency::from_row(row, 123);
    assert_eq!(g.entrez_id, 672);
    assert_eq!(g.gene, "BRCA1");
    assert!(g.strongly_selective);
    // only the literal "True" reads as true
    assert!(!g.common_essential);
    assert_eq!(g.created_at, Some(123));
    assert_eq!(g.id, None);
}
