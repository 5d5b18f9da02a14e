//! A verified CSV reader.
//!
//! The remote catalog feeds are CSV text.  This module defines the exact
//! grammar the crate accepts as a byte-level state machine and proves that
//! the executable reader computes precisely what the machine describes.
//!
//! The grammar: fields are separated by commas and records by `\n`, `\r\n`
//! or a lone `\r`; a field whose first byte is a double quote runs to the
//! closing quote, with `""` standing for a literal quote, and bytes after
//! the closing quote up to the next separator are taken literally; a quote
//! in the middle of an unquoted field is literal; blank lines are skipped;
//! an unterminated quoted field ends with the input.

use vstd::prelude::*;

verus! {

/// Where the reader stands between two input bytes.
#[derive(Clone, Copy, Debug, PartialEq, Eq, Structural)]
pub enum CsvMode {
    /// At the start of a field (and possibly of a record).
    FieldStart,
    /// Inside an unquoted field.
    Unquoted,
    /// Inside a quoted field.
    Quoted,
    /// Inside a quoted field, just after a quote byte.
    QuoteInQuoted,
    /// Just after a `\r` that ended a record; a following `\n` is part of
    /// the same separator.
    AfterCr,
}

/// The reader's full state: finished records, the record and field under
/// construction, and the mode.
pub ghost struct CsvState {
    pub records: Seq<Seq<Seq<u8>>>,
    pub rec: Seq<Seq<u8>>,
    pub field: Seq<u8>,
    pub mode: CsvMode,
}

pub open spec fn csv_state0() -> CsvState {
    CsvState {
        records: Seq::empty(),
        rec: Seq::empty(),
        field: Seq::empty(),
        mode: CsvMode::FieldStart,
    }
}

/// Appends the pending field to the pending record and starts a new field.
pub open spec fn csv_end_field(st: CsvState) -> CsvState {
    CsvState {
        records: st.records,
        rec: st.rec.push(st.field),
        field: Seq::empty(),
        mode: CsvMode::FieldStart,
    }
}

/// Closes the pending record (field included) and appends it to the output.
pub open spec fn csv_end_record(st: CsvState, mode: CsvMode) -> CsvState {
    CsvState {
        records: st.records.push(st.rec.push(st.field)),
        rec: Seq::empty(),
        field: Seq::empty(),
        mode: mode,
    }
}

/// One step of the machine from `FieldStart` (byte values: 34 `"`, 44 `,`,
/// 10 `\n`, 13 `\r`).
pub open spec fn csv_field_start_step(st: CsvState, b: u8) -> CsvState {
    if b == 34 {
        CsvState { mode: CsvMode::Quoted, ..st }
    } else if b == 44 {
        csv_end_field(st)
    } else if b == 10 || b == 13 {
        let m = if b == 13 {
            CsvMode::AfterCr
        } else {
            CsvMode::FieldStart
        };
        if st.rec.len() == 0 && st.field.len() == 0 {
            // a blank line is not a record
            CsvState { mode: m, ..st }
        } else {
            csv_end_record(st, m)
        }
    } else {
        CsvState { field: st.field.push(b), mode: CsvMode::Unquoted, ..st }
    }
}

/// One step of the machine on byte `b`.
pub open spec fn csv_step(st: CsvState, b: u8) -> CsvState {
    match st.mode {
        CsvMode::FieldStart => csv_field_start_step(st, b),
        CsvMode::AfterCr => {
            let st1 = CsvState { mode: CsvMode::FieldStart, ..st };
            if b == 10 {
                st1
            } else {
                csv_field_start_step(st1, b)
            }
        },
        CsvMode::Unquoted => {
            if b == 44 {
                csv_end_field(st)
            } else if b == 10 {
                csv_end_record(st, CsvMode::FieldStart)
            } else if b == 13 {
                csv_end_record(st, CsvMode::AfterCr)
            } else {
                CsvState { field: st.field.push(b), ..st }
            }
        },
        CsvMode::Quoted => {
            if b == 34 {
                CsvState { mode: CsvMode::QuoteInQuoted, ..st }
            } else {
                CsvState { field: st.field.push(b), ..st }
            }
        },
        CsvMode::QuoteInQuoted => {
            if b == 34 {
                CsvState { field: st.field.push(34u8), mode: CsvMode::Quoted, ..st }
            } else if b == 44 {
                csv_end_field(st)
            } else if b == 10 {
                csv_end_record(st, CsvMode::FieldStart)
            } else if b == 13 {
                csv_end_record(st, CsvMode::AfterCr)
            } else {
                CsvState { field: st.field.push(b), mode: CsvMode::Unquoted, ..st }
            }
        },
    }
}

/// The machine's state after the first `n` bytes of `s`.
pub open spec fn csv_run(s: Seq<u8>, n: int) -> CsvState
    decreases n,
{
    if n <= 0 {
        csv_state0()
    } else {
        csv_step(csv_run(s, n - 1), s[n - 1])
    }
}

/// The records of a state at end of input: whatever is pending becomes the
/// last record, except that a blank tail is not a record.
pub open spec fn csv_finish(st: CsvState) -> Seq<Seq<Seq<u8>>> {
    match st.mode {
        CsvMode::FieldStart | CsvMode::AfterCr => {
            if st.rec.len() == 0 && st.field.len() == 0 {
                st.records
            } else {
                st.records.push(st.rec.push(st.field))
            }
        },
        _ => st.records.push(st.rec.push(st.field)),
    }
}

/// The records of the byte string `s` under this module's grammar.
pub open spec fn csv_records(s: Seq<u8>) -> Seq<Seq<Seq<u8>>> {
    csv_finish(csv_run(s, s.len() as int))
}

/// Appends the pending field and record to `records` and leaves both empty.
fn flush_record(records: &mut Vec<Vec<Vec<u8>>>, mut rec: Vec<Vec<u8>>, field: Vec<u8>) -> (out: (
    Vec<Vec<u8>>,
    Vec<u8>,
))
    ensures
        final(records).deep_view() == old(records).deep_view().push(rec.deep_view().push(field@)),
        out.0@.len() == 0,
        out.1@.len() == 0,
{
    let ghost rec0 = rec.deep_view();
    rec.push(field);
    proof {
        assert(rec.deep_view() =~~= rec0.push(field@));
    }
    let ghost recs0 = records.deep_view();
    let ghost recv = rec.deep_view();
    records.push(rec);
    proof {
        assert(records.deep_view() =~~= recs0.push(recv));
    }
    (Vec::new(), Vec::new())
}

/// Reads `s` into records of fields, exactly as [`csv_records`] describes.
pub fn parse_csv(s: &[u8]) -> (r: Vec<Vec<Vec<u8>>>)
    ensures
        r.deep_view() == csv_records(s@),
{
    let mut records: Vec<Vec<Vec<u8>>> = Vec::new();
    let mut rec: Vec<Vec<u8>> = Vec::new();
    let mut field: Vec<u8> = Vec::new();
    let mut mode = CsvMode::FieldStart;
    let mut i: usize = 0;
    proof {
        assert(s.len() == s@.len());
        assert(records.deep_view() =~~= csv_state0().records);
        assert(rec.deep_view() =~~= csv_state0().rec);
    }
    while i < s.len()
        invariant
            i <= s@.len(),
            s@.len() <= usize::MAX,
            records.deep_view() == csv_run(s@, i as int).records,
            rec.deep_view() == csv_run(s@, i as int).rec,
            field@ == csv_run(s@, i as int).field,
            mode == csv_run(s@, i as int).mode,
        decreases s@.len() - i,
    {
        let ghost st = csv_run(s@, i as int);
        let b = s[i];
        proof {
            assert(csv_run(s@, i + 1) == csv_step(st, b));
        }
        let mut start_with = mode;
        if matches!(mode, CsvMode::AfterCr) {
            mode = CsvMode::FieldStart;
            start_with = CsvMode::FieldStart;
            if b == 10 {
                start_with = CsvMode::AfterCr;  // byte consumed as part of the separator
            }
        }
        match start_with {
            CsvMode::AfterCr => {
                // the newline completing a `\r\n` separator: nothing changes
            },
            CsvMode::FieldStart => {
                if b == 34 {
                    mode = CsvMode::Quoted;
                } else if b == 44 {
                    let ghost r0 = rec.deep_view();
                    rec.push(field);
                    field = Vec::new();
                    proof {
                        assert(rec.deep_view() =~~= r0.push(st.field));
                    }
                } else if b == 10 || b == 13 {
                    let m = if b == 13 {
                        CsvMode::AfterCr
                    } else {
                        CsvMode::FieldStart
                    };
                    if rec.len() == 0 && field.len() == 0 {
                        mode = m;
                    } else {
                        let (r2, f2) = flush_record(&mut records, rec, field);
                        rec = r2;
                        field = f2;
                        mode = m;
                    }
                } else {
                    field.push(b);
                    mode = CsvMode::Unquoted;
                }
            },
            CsvMode::Unquoted => {
                if b == 44 {
                    let ghost r0 = rec.deep_view();
                    rec.push(field);
                    field = Vec::new();
                    mode = CsvMode::FieldStart;
                    proof {
                        assert(rec.deep_view() =~~= r0.push(st.field));
                    }
                } else if b == 10 || b == 13 {
                    let (r2, f2) = flush_record(&mut records, rec, field);
                    rec = r2;
                    field = f2;
                    mode = if b == 13 {
                        CsvMode::AfterCr
                    } else {
                        CsvMode::FieldStart
                    };
                } else {
                    field.push(b);
                }
            },
            CsvMode::Quoted => {
                if b == 34 {
                    mode = CsvMode::QuoteInQuoted;
                } else {
                    field.push(b);
                }
            },
            CsvMode::QuoteInQuoted => {
                if b == 34 {
                    field.push(34);
                    mode = CsvMode::Quoted;
                } else if b == 44 {
                    let ghost r0 = rec.deep_view();
                    rec.push(field);
                    field = Vec::new();
                    mode = CsvMode::FieldStart;
                    proof {
                        assert(rec.deep_view() =~~= r0.push(st.field));
                    }
                } else if b == 10 || b == 13 {
                    let (r2, f2) = flush_record(&mut records, rec, field);
                    rec = r2;
                    field = f2;
                    mode = if b == 13 {
                        CsvMode::AfterCr
                    } else {
                        CsvMode::FieldStart
                    };
                } else {
                    field.push(b);
                    mode = CsvMode::Unquoted;
                }
            },
        }
        i = i + 1;
    }
    proof {
        assert(csv_run(s@, s@.len() as int) == csv_run(s@, i as int));
    }
    match mode {
        CsvMode::FieldStart | CsvMode::AfterCr => {
            if rec.len() == 0 && field.len() == 0 {
                return records;
            }
            let (r2, f2) = flush_record(&mut records, rec, field);
            let _ = r2;
            let _ = f2;
            records
        },
        _ => {
            let (r2, f2) = flush_record(&mut records, rec, field);
            let _ = r2;
            let _ = f2;
            records
        },
    }
}

} // verus!
