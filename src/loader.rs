//! Building the record collection from the contents of several files.
use vstd::prelude::*;

use crate::parser::{has_nucleotide_labels, parse_model, FastaRecord, ParseError};

verus! {

/// What one file gives: the read error where its contents are missing, else
/// what parsing them gives.
pub open spec fn file_outcome(contents: Option<Seq<u8>>) -> Result<
    (Seq<char>, Seq<u8>, Seq<nat>),
    ParseError,
> {
    match contents {
        None => Err(ParseError::Io),
        Some(data) => parse_model(data),
    }
}

/// The records of the files that parse, in the order of the files.
pub open spec fn loaded_records(files: Seq<(Seq<char>, Option<Seq<u8>>)>) -> Seq<
    (Seq<char>, Seq<u8>, Seq<nat>),
>
    decreases files.len(),
{
    if files.len() == 0 {
        seq![]
    } else {
        let earlier = loaded_records(files.drop_last());
        match file_outcome(files.last().1) {
            Ok(rec) => earlier.push(rec),
            Err(_) => earlier,
        }
    }
}

/// The paths of the files that do not parse, each with its error, in the order
/// of the files.
pub open spec fn load_failures(files: Seq<(Seq<char>, Option<Seq<u8>>)>) -> Seq<
    (Seq<char>, ParseError),
>
    decreases files.len(),
{
    if files.len() == 0 {
        seq![]
    } else {
        let earlier = load_failures(files.drop_last());
        match file_outcome(files.last().1) {
            Ok(_) => earlier,
            Err(e) => earlier.push((files.last().0, e)),
        }
    }
}

pub open spec fn file_view(f: (String, Option<Vec<u8>>)) -> (Seq<char>, Option<Seq<u8>>) {
    (
        f.0@,
        match f.1 {
            None => None,
            Some(v) => Some(v@),
        },
    )
}

pub open spec fn files_view(files: Seq<(String, Option<Vec<u8>>)>) -> Seq<
    (Seq<char>, Option<Seq<u8>>),
> {
    files.map_values(|f: (String, Option<Vec<u8>>)| file_view(f))
}

pub open spec fn records_view(records: Seq<FastaRecord>) -> Seq<(Seq<char>, Seq<u8>, Seq<nat>)> {
    records.map_values(|r: FastaRecord| r@)
}

pub open spec fn failures_view(failures: Seq<(String, ParseError)>) -> Seq<
    (Seq<char>, ParseError),
> {
    failures.map_values(|f: (String, ParseError)| (f.0@, f.1))
}

/// Every file ends up either among the records or among the failures, never both.
pub proof fn lemma_load_partition(files: Seq<(Seq<char>, Option<Seq<u8>>)>)
    ensures
        loaded_records(files).len() + load_failures(files).len() == files.len(),
    decreases files.len(),
{
    if files.len() > 0 {
        lemma_load_partition(files.drop_last());
    }
}

/// Loading two lists of files one after the other is loading them as one list:
/// the records and the failures of the second follow those of the first.
pub proof fn lemma_load_concat(
    a: Seq<(Seq<char>, Option<Seq<u8>>)>,
    b: Seq<(Seq<char>, Option<Seq<u8>>)>,
)
    ensures
        loaded_records(a + b) == loaded_records(a) + loaded_records(b),
        load_failures(a + b) == load_failures(a) + load_failures(b),
    decreases b.len(),
{
    if b.len() == 0 {
        assert(a + b =~= a);
        assert(loaded_records(a) + loaded_records(b) =~= loaded_records(a));
        assert(load_failures(a) + load_failures(b) =~= load_failures(a));
    } else {
        assert((a + b).drop_last() =~= a + b.drop_last());
        assert((a + b).last() == b.last());
        lemma_load_concat(a, b.drop_last());
        assert((loaded_records(a) + loaded_records(b.drop_last())).push(
            file_outcome(b.last().1)->Ok_0,
        ) =~= loaded_records(a) + loaded_records(b.drop_last()).push(
            file_outcome(b.last().1)->Ok_0,
        ));
        assert((load_failures(a) + load_failures(b.drop_last())).push(
            (b.last().0, file_outcome(b.last().1)->Err_0),
        ) =~= load_failures(a) + load_failures(b.drop_last()).push(
            (b.last().0, file_outcome(b.last().1)->Err_0),
        ));
    }
}

/// A file that fails among others is left out of the records and reported once,
/// in its place among the failures; the files before and after it load as they
/// would alone, in their order.
pub proof fn lemma_load_skips_failure(
    before: Seq<(Seq<char>, Option<Seq<u8>>)>,
    failed: (Seq<char>, Option<Seq<u8>>),
    after: Seq<(Seq<char>, Option<Seq<u8>>)>,
)
    requires
        file_outcome(failed.1) is Err,
    ensures
        loaded_records(before + seq![failed] + after) == loaded_records(before) + loaded_records(
            after,
        ),
        load_failures(before + seq![failed] + after) == load_failures(before) + seq![
            (failed.0, file_outcome(failed.1)->Err_0),
        ] + load_failures(after),
{
    let one = seq![failed];
    lemma_load_concat(before, one);
    lemma_load_concat(before + one, after);
    assert(one.drop_last() =~= Seq::<(Seq<char>, Option<Seq<u8>>)>::empty());
    assert(one.last() == failed);
    assert(loaded_records(one.drop_last()) =~= Seq::<(Seq<char>, Seq<u8>, Seq<nat>)>::empty());
    assert(load_failures(one.drop_last()) =~= Seq::<(Seq<char>, ParseError)>::empty());
    assert(loaded_records(one) =~= Seq::<(Seq<char>, Seq<u8>, Seq<nat>)>::empty());
    assert(load_failures(one) =~= seq![(failed.0, file_outcome(failed.1)->Err_0)]);
    assert(loaded_records(before) + loaded_records(one) =~= loaded_records(before));
}

/// The records that loaded, and the files that did not with their errors.
pub struct LoadOutcome {
    pub records: Vec<FastaRecord>,
    pub failures: Vec<(String, ParseError)>,
}

/// Parses each file, given as its path and its contents (`None` where it could
/// not be read). A file that fails does not stop the others: it is reported with
/// its error, and the records keep the order of the files.
pub fn load(files: &Vec<(String, Option<Vec<u8>>)>) -> (r: LoadOutcome)
    ensures
        records_view(r.records@) == loaded_records(files_view(files@)),
        failures_view(r.failures@) == load_failures(files_view(files@)),
        forall|k: int|
            0 <= k < r.records@.len() ==> has_nucleotide_labels(
                #[trigger] r.records@[k].nucleotide_counts,
            ),
{
    let ghost fv = files_view(files@);
    let mut records: Vec<FastaRecord> = Vec::new();
    let mut failures: Vec<(String, ParseError)> = Vec::new();
    let mut i: usize = 0;
    while i < files.len()
        invariant
            i <= files@.len(),
            fv == files_view(files@),
            records_view(records@) == loaded_records(fv.subrange(0, i as int)),
            failures_view(failures@) == load_failures(fv.subrange(0, i as int)),
            forall|k: int|
                0 <= k < records@.len() ==> has_nucleotide_labels(
                    #[trigger] records@[k].nucleotide_counts,
                ),
        decreases files@.len() - i,
    {
        let (path, contents) = &files[i];
        let ghost pre = fv.subrange(0, i as int);
        let ghost cur = fv.subrange(0, i + 1);
        assert(cur.drop_last() =~= pre);
        assert(cur.last() == file_view(files@[i as int]));
        let outcome = match contents {
            None => Err(ParseError::Io),
            Some(data) => FastaRecord::parse(data.as_slice()),
        };
        match outcome {
            Ok(rec) => {
                let ghost old_records = records@;
                records.push(rec);
                assert(records_view(records@) =~= records_view(old_records).push(rec@));
            },
            Err(e) => {
                let ghost old_failures = failures@;
                failures.push((path.clone(), e));
                assert(failures_view(failures@) =~= failures_view(old_failures).push(
                    (path@, e),
                ));
            },
        }
        i = i + 1;
    }
    assert(fv.subrange(0, files@.len() as int) =~= fv);
    LoadOutcome { records, failures }
}

} // verus!
