use depmap_downloader::classify::classify;
use depmap_downloader::classify::is_core_data_type;
use depmap_downloader::classify::DataType;

fn label_of(name: &str) -> Option<String> {
    classify(name).map(|dt| dt.label())
}

#[test]
fn classifier_precedence_first_match_wins() {
    // both CRISPR and Expression occur; CRISPR has precedence
    assert_eq!(label_of("CRISPR_Expression_24Q4.csv"), Some("CRISPR".to_string()));
}

#[test]
fn classifier_no_match() {
    assert_eq!(label_of("readme.txt"), None);
}

#[test]
fn classifier_each_keyword() {
    assert_eq!(label_of("CRISPRGeneEffect.csv"), Some("CRISPR".to_string()));
    assert_eq!(label_of("RNAi_merged.csv"), Some("RNAi".to_string()));
    assert_eq!(label_of("OmicsExpressionProteinCodingGenesTPM.csv"), Some("Expression".to_string()));
    assert_eq!(label_of("somatic_mutations.maf"), Some("Mutations".to_string()));
    assert_eq!(label_of("copy_number_segments.csv"), Some("CN".to_string()));
    assert_eq!(label_of("drug_sensitivity.csv"), Some("Drug screen".to_string()));
    assert_eq!(label_of("prism_repurposing.csv"), Some("Drug screen".to_string()));
    assert_eq!(label_of("protein_quant.csv"), Some("Protein Expression".to_string()));
    assert_eq!(label_of("RPPA_matrix.csv"), Some("Protein Expression".to_string()));
    assert_eq!(label_of("metabolomics_levels.csv"), Some("Metabolomics".to_string()));
    assert_eq!(label_of("subtype_annotations.csv"), Some("Metadata".to_string()));
    assert_eq!(label_of("Model.csv"), Some("Metadata".to_string()));
}

#[test]
fn classifier_copy_needs_number_too() {
    assert_eq!(label_of("copy_of_notes.txt"), None);
    assert_eq!(label_of("number_list.txt"), None);
}

#[test]
fn classifier_ignores_ascii_case() {
    assert_eq!(classify("cRiSpR.csv"), Some(DataType::Crispr));
    assert_eq!(classify("MUTATIONS.csv"), Some(DataType::Mutations));
}

#[test]
fn core_data_type_labels() {
    assert!(is_core_data_type("CRISPR"));
    assert!(is_core_data_type("Expression"));
    assert!(is_core_data_type("Mutations"));
    assert!(is_core_data_type("CN"));
    assert!(is_core_data_type("RNAi"));
    assert!(is_core_data_type("Drug screen"));
    assert!(!is_core_data_type("Metadata"));
    assert!(!is_core_data_type("Protein Expression"));
    assert!(!is_core_data_type("crispr"));
}
