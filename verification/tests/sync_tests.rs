use depmap_downloader::models::DatasetApiResponse;
use depmap_downloader::store::CacheManager;
use depmap_downloader::sync::parse_files_feed;
use depmap_downloader::sync::PipelineOutcome;
use depmap_downloader::sync::SyncFetch;

const NOW: i64 = 1_750_000_000;

fn files_csv() -> &'static str {
    "release,release_date,filename,url,md5_hash\n\
     24Q4,2024-06-01T00:00:00Z,CRISPRGeneEffect.csv,https://example.org/crispr,aaa\n\
     24Q4,2024-06-01T00:00:00Z,OmicsExpression.csv,https://example.org/expr,bbb\n\
     23Q4,2023-12-01T00:00:00Z,readme.txt,https://example.org/readme,ccc\n"
}

fn datasets() -> Vec<DatasetApiResponse> {
    vec![
        DatasetApiResponse {
            id: "ds-crispr".to_string(),
            display_name: "CRISPR Screens".to_string(),
            data_type: "CRISPR".to_string(),
            download_entry_url: Some("https://example.org/ds".to_string()),
        },
        DatasetApiResponse {
            id: "ds-expr".to_string(),
            display_name: "Expression 24Q4".to_string(),
            data_type: "Expression".to_string(),
            download_entry_url: None,
        },
    ]
}

fn gene_csv() -> &'static str {
    "gene,Entrez Id,dataset,Dependent Cell Lines,Cell Lines with Data,Strongly Selective,Common Essential\n\
     BRCA1,672,Chronos_Combined,55.0,1086.0,True,False\n\
     BRCA1A,999,Chronos_Combined,5.5,1086.0,False,True\n\
     XBRCA1,111,Chronos_Combined,1.0,2.0,True,True\n\
     BADROW,notanumber,Chronos_Combined,1.0,2.0,True,True\n\
     SOX10,6663,Chronos_Combined,12.25,1086.0,maybe,False\n"
}

fn fetch_all() -> SyncFetch {
    SyncFetch {
        files_csv: Ok(files_csv().as_bytes().to_vec()),
        datasets: Ok(datasets()),
        gene_csv: Ok(gene_csv().as_bytes().to_vec()),
    }
}

fn synced_store() -> CacheManager {
    let mut store = CacheManager::new();
    let report = store.update_cache(true, NOW, fetch_all());
    assert!(report.ran);
    store
}

#[test]
fn files_feed_parses_and_groups_by_release() {
    let store = synced_store();
    let releases = store.get_releases(None).unwrap();
    assert_eq!(releases.len(), 2);
    // the feed had two rows labeled 24Q4: exactly one release owning two files
    let r24 = releases.iter().find(|r| r.name == "24Q4").unwrap();
    assert_eq!(r24.files.len(), 2);
    assert_eq!(r24.files[0].filename, "CRISPRGeneEffect.csv");
    assert_eq!(r24.files[0].data_type.as_deref(), Some("CRISPR"));
    assert_eq!(r24.files[1].filename, "OmicsExpression.csv");
    assert_eq!(r24.files[1].data_type.as_deref(), Some("Expression"));
    let r23 = releases.iter().find(|r| r.name == "23Q4").unwrap();
    assert_eq!(r23.files.len(), 1);
    assert_eq!(r23.files[0].data_type, None);
}

#[test]
fn release_dates_come_from_the_feed() {
    let store = synced_store();
    let releases = store.get_releases(Some("24Q4")).unwrap();
    assert_eq!(releases.len(), 1);
    assert_eq!(releases[0].release_date, Some(1_717_200_000));
    assert_eq!(releases[0].created_at, Some(NOW));
    assert!(!releases[0].is_current);
}

#[test]
fn refresh_twice_leaves_identical_rows() {
    let mut store = CacheManager::new();
    let r1 = store.update_cache(true, NOW, fetch_all());
    let releases_once = store.get_releases(None).unwrap();
    let datasets_once = store.get_datasets(None).unwrap();
    let r2 = store.update_cache(true, NOW + 10, fetch_all());
    assert!(r1.ran && r2.ran);
    let releases_twice = store.get_releases(None).unwrap();
    let datasets_twice = store.get_datasets(None).unwrap();
    assert_eq!(releases_once.len(), releases_twice.len());
    for (a, b) in releases_once.iter().zip(releases_twice.iter()) {
        assert_eq!(a.id, b.id);
        assert_eq!(a.name, b.name);
        assert_eq!(a.release_date, b.release_date);
        assert_eq!(a.is_current, b.is_current);
        assert_eq!(a.files.len(), b.files.len());
        for (fa, fb) in a.files.iter().zip(b.files.iter()) {
            assert_eq!(fa.filename, fb.filename);
            assert_eq!(fa.url, fb.url);
            assert_eq!(fa.md5_hash, fb.md5_hash);
            assert_eq!(fa.data_type, fb.data_type);
        }
    }
    assert_eq!(datasets_once.len(), datasets_twice.len());
    for (a, b) in datasets_once.iter().zip(datasets_twice.iter()) {
        assert_eq!(a.id, b.id);
        assert_eq!(a.display_name, b.display_name);
        assert_eq!(a.data_type, b.data_type);
    }
}

#[test]
fn freshness_policy() {
    let mut store = CacheManager::new();
    // no metadata row yet: expired
    assert!(store.is_cache_expired(NOW));
    store.update_cache(true, NOW, fetch_all());
    // one hour later: fresh
    assert!(!store.is_cache_expired(NOW + 3600));
    // twenty-five hours later: expired
    assert!(store.is_cache_expired(NOW + 25 * 3600));
}

#[test]
fn unforced_refresh_on_fresh_mirror_is_a_no_op() {
    let mut store = CacheManager::new();
    store.update_cache(true, NOW, fetch_all());
    let report = store.update_cache(
        false,
        NOW + 3600,
        SyncFetch {
            files_csv: Err("unreachable".to_string()),
            datasets: Err("unreachable".to_string()),
            gene_csv: Err("unreachable".to_string()),
        },
    );
    assert!(!report.ran);
    assert!(matches!(report.files, PipelineOutcome::NotRun));
    assert_eq!(store.get_releases(None).unwrap().len(), 2);
}

#[test]
fn partial_failure_still_advances_the_freshness_marker() {
    let mut store = CacheManager::new();
    let report = store.update_cache(
        true,
        NOW,
        SyncFetch {
            files_csv: Err("connection refused".to_string()),
            datasets: Ok(datasets()),
            gene_csv: Err("timed out".to_string()),
        },
    );
    assert!(report.ran);
    assert!(matches!(report.files, PipelineOutcome::FetchFailed(ref m) if m == "connection refused"));
    assert!(matches!(report.datasets, PipelineOutcome::Applied(2)));
    assert!(matches!(report.gene_dependencies, PipelineOutcome::FetchFailed(_)));
    // the releases table is untouched, the datasets landed, and the
    // marker advanced even though two pipelines failed
    assert_eq!(store.get_releases(None).unwrap().len(), 0);
    assert_eq!(store.get_datasets(None).unwrap().len(), 2);
    assert!(!store.is_cache_expired(NOW + 3600));
}

#[test]
fn malformed_files_feed_is_reported_not_applied() {
    let mut store = CacheManager::new();
    let report = store.update_cache(
        true,
        NOW,
        SyncFetch {
            files_csv: Ok(b"release,filename\n24Q4,too,many,fields\n".to_vec()),
            datasets: Ok(vec![]),
            gene_csv: Ok(gene_csv().as_bytes().to_vec()),
        },
    );
    assert!(matches!(report.files, PipelineOutcome::ParseFailed(_)));
    assert_eq!(store.get_releases(None).unwrap().len(), 0);
}

#[test]
fn parse_files_feed_rejects_missing_columns_and_ragged_rows() {
    assert!(parse_files_feed(b"release,filename\na,b\n").is_err());
    assert!(
        parse_files_feed(b"release,release_date,filename,url,md5_hash\na,b,c\n").is_err()
    );
    let ok = parse_files_feed(
        b"release,release_date,filename,url,md5_hash\n24Q4,2024-06-01T00:00:00Z,f.csv,u,m\n",
    )
    .unwrap();
    assert_eq!(ok.len(), 1);
    assert_eq!(ok[0].release, "24Q4");
    assert_eq!(ok[0].filename, "f.csv");
    assert!(parse_files_feed(b"").unwrap().is_empty());
}

#[test]
fn current_release_prefers_the_flag_then_the_latest_date() {
    // three dated releases, none flagged current: the 2024-06-01 one wins
    let feed = "release,release_date,filename,url,md5_hash\n\
                23Q1,2023-01-01T00:00:00Z,a.csv,u,m\n\
                24Q2,2024-06-01T00:00:00Z,b.csv,u,m\n\
                23Q4,2023-12-01T00:00:00Z,c.csv,u,m\n";
    let mut store = CacheManager::new();
    store.update_cache(
        true,
        NOW,
        SyncFetch {
            files_csv: Ok(feed.as_bytes().to_vec()),
            datasets: Ok(vec![]),
            gene_csv: Ok(b"".to_vec()),
        },
    );
    let current = store.current_release().unwrap();
    assert_eq!(current.name, "24Q2");
    assert_eq!(current.release_date, Some(1_717_200_000));

    // a release whose name carries the current-quarter token is flagged
    // and wins over any date
    let feed2 = "release,release_date,filename,url,md5_hash\n\
                 25Q3,2023-01-01T00:00:00Z,a.csv,u,m\n\
                 24Q2,2024-06-01T00:00:00Z,b.csv,u,m\n";
    let mut store2 = CacheManager::new();
    store2.update_cache(
        true,
        NOW,
        SyncFetch {
            files_csv: Ok(feed2.as_bytes().to_vec()),
            datasets: Ok(vec![]),
            gene_csv: Ok(b"".to_vec()),
        },
    );
    let current2 = store2.current_release().unwrap();
    assert!(current2.is_current);
    assert_eq!(current2.name, "25Q3");
}

#[test]
fn current_release_none_when_empty() {
    let store = CacheManager::new();
    assert!(store.current_release().is_none());
    assert!(store.get_current_release_core_files().is_err());
}

#[test]
fn core_files_of_the_current_release() {
    let store = synced_store();
    // no release is flagged; 24Q4 has the latest date; its core files
    // are the CRISPR and Expression ones
    let core = store.get_current_release_core_files().unwrap();
    assert_eq!(core.len(), 2);
    assert!(core.iter().all(|f| f.release_id.as_deref() == Some("24Q4")));
}

#[test]
fn gene_pipeline_skips_malformed_rows_and_reads_flags() {
    let store = synced_store();
    // of the five data rows one has a non-numeric entrez id and is skipped
    let genes = store.search_genes("brca", 10).unwrap();
    assert_eq!(genes.len(), 3);
    assert_eq!(genes[0].gene, "BRCA1");
    assert_eq!(genes[0].entrez_id, 672);
    assert!(genes[0].strongly_selective);
    assert!(!genes[0].common_essential);
    assert_eq!(genes[0].dependent_cell_lines, "55.0");
    // the literal "maybe" is not "True": it reads as false
    let sox = store.search_genes("SOX10", 10).unwrap();
    assert_eq!(sox.len(), 1);
    assert!(!sox[0].strongly_selective);
    assert!(store.search_genes("BADROW", 10).unwrap().is_empty());
}

#[test]
fn gene_pipeline_requires_its_header() {
    let mut store = CacheManager::new();
    let report = store.update_cache(
        true,
        NOW,
        SyncFetch {
            files_csv: Ok(b"".to_vec()),
            datasets: Ok(vec![]),
            gene_csv: Ok(b"symbol,count\nBRCA1,5\n".to_vec()),
        },
    );
    assert!(matches!(report.gene_dependencies, PipelineOutcome::SkippedMissingHeader));
    assert_eq!(store.search_genes("BRCA1", 10).unwrap().len(), 0);
}

#[test]
fn gene_rows_accumulate_across_refreshes() {
    // gene-dependency rows have no natural key and are append-only
    let mut store = CacheManager::new();
    store.update_cache(true, NOW, fetch_all());
    store.update_cache(true, NOW + 10, fetch_all());
    assert_eq!(store.get_cache_stats().gene_dependency_count, 8);
}

#[test]
fn search_genes_orders_by_relevance_tier() {
    let store = synced_store();
    // exact match first, then prefix, then substring
    let genes = store.search_genes("brca1", 10).unwrap();
    let names: Vec<&str> = genes.iter().map(|g| g.gene.as_str()).collect();
    assert_eq!(names, vec!["BRCA1", "BRCA1A", "XBRCA1"]);
    // a numeric query also matches by entrez id
    let by_id = store.search_genes("672", 10).unwrap();
    assert_eq!(by_id.len(), 1);
    assert_eq!(by_id[0].gene, "BRCA1");
    // the limit cuts after ordering
    let top = store.search_genes("brca1", 1).unwrap();
    assert_eq!(top.len(), 1);
    assert_eq!(top[0].gene, "BRCA1");
}

#[test]
fn dataset_queries() {
    let store = synced_store();
    assert_eq!(store.get_datasets(None).unwrap().len(), 2);
    let crispr_only = store.get_datasets(Some("CRISPR")).unwrap();
    assert_eq!(crispr_only.len(), 1);
    assert_eq!(crispr_only[0].id, "ds-crispr");
    // the exact-type filter is case-sensitive
    assert_eq!(store.get_datasets(Some("crispr")).unwrap().len(), 0);
}

#[test]
fn dataset_files_fall_back_to_heuristic_matching() {
    let store = synced_store();
    // no association rows exist, and "Expression 24Q4" matches the
    // expression file by its data-type label
    let files = store.get_dataset_files("ds-expr").unwrap();
    assert_eq!(files.len(), 1);
    assert_eq!(files[0].filename, "OmicsExpression.csv");
    let err = store.get_dataset_files("nope").unwrap_err();
    assert_eq!(err.message(), "Not found: Dataset 'nope' not found");
}

#[test]
fn file_lookup_by_name() {
    let store = synced_store();
    let f = store.get_file_by_name("readme.txt").unwrap();
    assert_eq!(f.release_id.as_deref(), Some("23Q4"));
    let err = store.get_file_by_name("missing.csv").unwrap_err();
    assert_eq!(err.message(), "File not found: missing.csv");
}

#[test]
fn release_files_queries() {
    let store = synced_store();
    let all = store.get_releases_files("24Q4").unwrap();
    assert_eq!(all.len(), 2);
    let filtered = store.get_release_files("24Q4", Some("crispr")).unwrap();
    assert_eq!(filtered.len(), 1);
    assert_eq!(filtered[0].filename, "CRISPRGeneEffect.csv");
    let err = store.get_releases_files("99Q9").unwrap_err();
    assert_eq!(err.message(), "Not found: Release '99Q9' not found");
}

#[test]
fn stats_and_clearing() {
    let mut store = synced_store();
    let stats = store.get_cache_stats();
    assert_eq!(stats.release_count, 2);
    assert_eq!(stats.file_count, 3);
    assert_eq!(stats.dataset_count, 2);
    assert_eq!(stats.gene_dependency_count, 4);
    assert_eq!(stats.cell_line_count, 0);
    assert_eq!(stats.total_size_mb, 0);
    assert_eq!(stats.last_updated, Some(NOW));

    let removed = store.clear_cache_by_data_type("CRISPR");
    assert_eq!(removed, 1);
    assert_eq!(store.get_cache_stats().file_count, 2);
    assert_eq!(store.get_cache_stats().dataset_count, 1);

    let paths = store.clear_all_cache();
    assert!(paths.is_empty());
    let empty = store.get_cache_stats();
    assert_eq!(empty.release_count, 0);
    assert_eq!(empty.file_count, 0);
    assert_eq!(empty.dataset_count, 0);
    assert_eq!(empty.gene_dependency_count, 0);
    assert_eq!(empty.last_updated, None);
}

#[test]
fn stub_searches_find_nothing() {
    let store = CacheManager::new();
    assert!(store.search_cell_lines("HELA").unwrap().is_empty());
    assert!(store.search_datasets("expression").unwrap().is_empty());
    assert!(store.get_gene_dependencies("BRCA1").unwrap().is_empty());
}

#[test]
fn releases_are_listed_newest_first() {
    // inserted dates-ascending, listed descending; an undated release
    // counts as the epoch and comes last
    let feed = "release,release_date,filename,url,md5_hash\n\
                22Q1,2022-01-01T00:00:00Z,a.csv,u,m\n\
                nodate,not-a-date,b.csv,u,m\n\
                24Q2,2024-06-01T00:00:00Z,c.csv,u,m\n\
                23Q4,2023-12-01T00:00:00Z,d.csv,u,m\n";
    let mut store = CacheManager::new();
    store.update_cache(
        true,
        NOW,
        SyncFetch {
            files_csv: Ok(feed.as_bytes().to_vec()),
            datasets: Ok(vec![]),
            gene_csv: Ok(b"".to_vec()),
        },
    );
    let names: Vec<String> =
        store.get_releases(None).unwrap().iter().map(|r| r.name.clone()).collect();
    assert_eq!(names, vec!["24Q2", "23Q4", "22Q1", "nodate"]);
}

#[test]
fn datasets_are_listed_in_order() {
    fn ds(id: &str, name: &str, dt: &str) -> DatasetApiResponse {
        DatasetApiResponse {
            id: id.to_string(),
            display_name: name.to_string(),
            data_type: dt.to_string(),
            download_entry_url: None,
        }
    }
    let mut store = CacheManager::new();
    store.update_cache(
        true,
        NOW,
        SyncFetch {
            files_csv: Ok(b"".to_vec()),
            datasets: Ok(vec![
                ds("1", "b-set", "Expression"),
                ds("2", "a-set", "Expression"),
                ds("3", "z-set", "CRISPR"),
            ]),
            gene_csv: Ok(b"".to_vec()),
        },
    );
    // unfiltered: by data type, then display name
    let all: Vec<String> =
        store.get_datasets(None).unwrap().iter().map(|d| d.display_name.clone()).collect();
    assert_eq!(all, vec!["z-set", "a-set", "b-set"]);
    // filtered: by display name
    let expr: Vec<String> = store
        .get_datasets(Some("Expression"))
        .unwrap()
        .iter()
        .map(|d| d.display_name.clone())
        .collect();
    assert_eq!(expr, vec!["a-set", "b-set"]);
}

#[test]
fn gene_export_keeps_insertion_order() {
    let store = synced_store();
    let all = store.all_gene_dependencies();
    let names: Vec<&str> = all.iter().map(|g| g.gene.as_str()).collect();
    assert_eq!(names, vec!["BRCA1", "BRCA1A", "XBRCA1", "SOX10"]);
}
