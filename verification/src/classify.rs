//! The data-type classifier: a fixed, ordered keyword match over a
//! filename.  The order is part of the contract, because several keywords
//! can occur in one filename and the first match wins.  Matching ignores
//! ASCII case only; non-ASCII characters are compared as they stand.

use vstd::prelude::*;
use vstd::string::StringSliceAdditionalSpecFns;
use crate::text::contains_bytes_ci;
use crate::text::contains_sub_ci;

verus! {

/// The data types the catalog distinguishes.
#[derive(Clone, Copy, Debug, PartialEq, Eq, Structural)]
pub enum DataType {
    Crispr,
    Rnai,
    Expression,
    Mutations,
    CopyNumber,
    DrugScreen,
    ProteinExpression,
    Metabolomics,
    Metadata,
}

/// The classifier, written over the filename's UTF-8 bytes.  Keyword
/// containment ignores ASCII case; the precedence is exactly the order of
/// the conditions.
pub open spec fn spec_classify(name: Seq<u8>) -> Option<DataType> {
    if contains_bytes_ci(name, "crispr".spec_bytes()) {
        Some(DataType::Crispr)
    } else if contains_bytes_ci(name, "rnai".spec_bytes()) {
        Some(DataType::Rnai)
    } else if contains_bytes_ci(name, "expression".spec_bytes()) {
        Some(DataType::Expression)
    } else if contains_bytes_ci(name, "mutation".spec_bytes()) {
        Some(DataType::Mutations)
    } else if contains_bytes_ci(name, "copy".spec_bytes()) && contains_bytes_ci(
        name,
        "number".spec_bytes(),
    ) {
        Some(DataType::CopyNumber)
    } else if contains_bytes_ci(name, "drug".spec_bytes()) || contains_bytes_ci(
        name,
        "prism".spec_bytes(),
    ) {
        Some(DataType::DrugScreen)
    } else if contains_bytes_ci(name, "protein".spec_bytes()) || contains_bytes_ci(
        name,
        "rppa".spec_bytes(),
    ) {
        Some(DataType::ProteinExpression)
    } else if contains_bytes_ci(name, "metabol".spec_bytes()) {
        Some(DataType::Metabolomics)
    } else if contains_bytes_ci(name, "subtype".spec_bytes()) || contains_bytes_ci(
        name,
        "model".spec_bytes(),
    ) {
        Some(DataType::Metadata)
    } else {
        None
    }
}

/// Classifies a filename, first keyword match wins; `None` when no keyword
/// occurs.  Case folding is ASCII-only: a keyword letter never matches a
/// non-ASCII character, however it would fold under Unicode rules.
pub fn classify(filename: &str) -> (r: Option<DataType>)
    ensures
        r == spec_classify(filename.spec_bytes()),
{
    let b = filename.as_bytes();
    if contains_sub_ci(b, "crispr".as_bytes()) {
        Some(DataType::Crispr)
    } else if contains_sub_ci(b, "rnai".as_bytes()) {
        Some(DataType::Rnai)
    } else if contains_sub_ci(b, "expression".as_bytes()) {
        Some(DataType::Expression)
    } else if contains_sub_ci(b, "mutation".as_bytes()) {
        Some(DataType::Mutations)
    } else if contains_sub_ci(b, "copy".as_bytes()) && contains_sub_ci(b, "number".as_bytes()) {
        Some(DataType::CopyNumber)
    } else if contains_sub_ci(b, "drug".as_bytes()) || contains_sub_ci(b, "prism".as_bytes()) {
        Some(DataType::DrugScreen)
    } else if contains_sub_ci(b, "protein".as_bytes()) || contains_sub_ci(b, "rppa".as_bytes()) {
        Some(DataType::ProteinExpression)
    } else if contains_sub_ci(b, "metabol".as_bytes()) {
        Some(DataType::Metabolomics)
    } else if contains_sub_ci(b, "subtype".as_bytes()) || contains_sub_ci(b, "model".as_bytes()) {
        Some(DataType::Metadata)
    } else {
        None
    }
}

impl DataType {
    /// The label stored and shown for this data type.
    pub open spec fn spec_label(self) -> Seq<char> {
        match self {
            DataType::Crispr => "CRISPR"@,
            DataType::Rnai => "RNAi"@,
            DataType::Expression => "Expression"@,
            DataType::Mutations => "Mutations"@,
            DataType::CopyNumber => "CN"@,
            DataType::DrugScreen => "Drug screen"@,
            DataType::ProteinExpression => "Protein Expression"@,
            DataType::Metabolomics => "Metabolomics"@,
            DataType::Metadata => "Metadata"@,
        }
    }

    pub fn label(&self) -> (r: String)
        ensures
            r@ == self.spec_label(),
    {
        match self {
            DataType::Crispr => "CRISPR".to_owned(),
            DataType::Rnai => "RNAi".to_owned(),
            DataType::Expression => "Expression".to_owned(),
            DataType::Mutations => "Mutations".to_owned(),
            DataType::CopyNumber => "CN".to_owned(),
            DataType::DrugScreen => "Drug screen".to_owned(),
            DataType::ProteinExpression => "Protein Expression".to_owned(),
            DataType::Metabolomics => "Metabolomics".to_owned(),
            DataType::Metadata => "Metadata".to_owned(),
        }
    }
}

/// The labels counted as core data for the current release's core files.
pub open spec fn is_core_label(s: Seq<char>) -> bool {
    ||| s == "CRISPR"@
    ||| s == "Expression"@
    ||| s == "Mutations"@
    ||| s == "CN"@
    ||| s == "RNAi"@
    ||| s == "Drug screen"@
}

/// Whether a stored data-type label names one of the core data types.
pub fn is_core_data_type(s: &str) -> (r: bool)
    ensures
        r == is_core_label(s@),
{
    str_eq(s, "CRISPR") || str_eq(s, "Expression") || str_eq(s, "Mutations") || str_eq(s, "CN")
        || str_eq(s, "RNAi") || str_eq(s, "Drug screen")
}

/// Equality of two string slices, by their characters.
pub fn str_eq(a: &str, b: &str) -> (r: bool)
    ensures
        r == (a@ == b@),
{
    let r = crate::text::eq_bytes(a.as_bytes(), b.as_bytes());
    proof {
        // UTF-8 encoding is lossless, so byte equality decides character
        // equality
        if a.spec_bytes() == b.spec_bytes() {
            vstd::utf8::encode_utf8_decode_utf8(a@);
            vstd::utf8::encode_utf8_decode_utf8(b@);
        }
    }
    r
}

} // verus!
