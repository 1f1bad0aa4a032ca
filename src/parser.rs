//! Reading the first record of a FASTA text and computing its composition.
use vstd::prelude::*;

use crate::counter::{count, count_of, counts_model, nucleotides, BASE_A, BASE_C, BASE_G, BASE_T};

verus! {

/// The byte that opens a FASTA header line.
pub const HEADER_MARK: u8 = 62;

/// The byte that ends a line.
pub const LINE_END: u8 = 10;

/// Printable ASCII bytes other than the space.
pub open spec fn is_word(s: Seq<u8>) -> bool {
    forall|i: int| 0 <= i < s.len() ==> 33 <= #[trigger] s[i] <= 126
}

/// A sequence line that cannot be taken for a header line.
pub open spec fn is_body_line(l: Seq<u8>) -> bool {
    is_word(l) && (l.len() > 0 ==> l[0] != HEADER_MARK)
}

/// An id and body lines from which `plain_fasta_text` writes one record.
pub open spec fn is_plain_record(id: Seq<u8>, lines: Seq<Seq<u8>>) -> bool {
    id.len() > 0 && is_word(id) && forall|k: int| 0 <= k < lines.len() ==> is_body_line(#[trigger] lines[k])
}

/// The text of one record: the header line `>id`, then each line of `lines`,
/// every line ended by a line feed.
pub open spec fn plain_fasta_text(id: Seq<u8>, lines: Seq<Seq<u8>>) -> Seq<u8> {
    seq![HEADER_MARK] + id + seq![LINE_END] + lines.map_values(|l: Seq<u8>| l.push(LINE_END)).flatten()
}

pub open spec fn ascii_chars(s: Seq<u8>) -> Seq<char> {
    s.map_values(|b: u8| b as char)
}

/// Why a file gave no record.
#[derive(Debug, Clone, Copy, PartialEq, Eq, Structural)]
pub enum ParseError {
    /// The file could not be opened or read.
    Io,
    /// No line of the file is a header line.
    EmptyFile,
    /// The first record is not well formed.
    Malformed,
}

/// The first FASTA record that bio's reader finds in `data`: `None` where there is
/// no record, `Some(Err(()))` where reading failed, else its id and sequence.
pub uninterp spec fn first_fasta_record(data: Seq<u8>) -> Option<Result<(Seq<char>, Seq<u8>), ()>>;

pub open spec fn raw_record_view(r: Option<Result<(String, Vec<u8>), ()>>) -> Option<
    Result<(Seq<char>, Seq<u8>), ()>,
> {
    match r {
        None => None,
        Some(Err(())) => Some(Err(())),
        Some(Ok((id, seq))) => Some(Ok((id@, seq@))),
    }
}

/// The characters that cannot stand in an id: space, tab, line feed, vertical
/// tab, form feed and carriage return.
pub open spec fn is_space_char(c: char) -> bool {
    c == ' ' || c == '\t' || c == '\n' || c == '\x0B' || c == '\x0C' || c == '\r'
}

/// Relies on bio::io::fasta::Reader::new(data).records().next(): the first record
/// of the text (its id, the first token of the header, and its sequence lines
/// joined), an error where the text does not start with a header line or cannot
/// be read as UTF-8, and nothing where the header gives neither id nor sequence.
/// The id is the first piece of a split on whitespace, so it holds none. On a
/// plain record (`>id`, then lines of printable ASCII without spaces that do not
/// start with `>`, each ended by a line feed) `read` takes the id whole and joins
/// the lines.
#[verifier::external_body]
fn read_first_record(data: &[u8]) -> (r: Option<Result<(String, Vec<u8>), ()>>)
    ensures
        raw_record_view(r) == first_fasta_record(data@),
        r matches Some(Ok((id, _))) ==> forall|i: int|
            0 <= i < id@.len() ==> !is_space_char(#[trigger] id@[i]),
        forall|id: Seq<u8>, lines: Seq<Seq<u8>>|
            #[trigger] plain_fasta_text(id, lines) == data@ && is_plain_record(id, lines)
                ==> raw_record_view(r) == Some(Ok::<(Seq<char>, Seq<u8>), ()>((ascii_chars(id), lines.flatten()))),
{
    match bio::io::fasta::Reader::new(data).records().next() {
        None => None,
        Some(Ok(rec)) => Some(Ok((rec.id().to_string(), rec.seq().to_vec()))),
        Some(Err(_)) => Some(Err(())),
    }
}

/// Position `p` of `data` opens a header line: it holds `>` and starts a line.
pub open spec fn is_header_start(data: Seq<u8>, p: int) -> bool {
    0 <= p < data.len() && data[p] == HEADER_MARK && (p == 0 || data[p - 1] == LINE_END)
}

/// Some line of `data` is a header line.
pub open spec fn has_header(data: Seq<u8>) -> bool {
    exists|p: int| is_header_start(data, p)
}

/// `p` opens the first header line of `data`.
pub open spec fn is_first_header(data: Seq<u8>, p: int) -> bool {
    is_header_start(data, p) && forall|q: int| 0 <= q < p ==> !is_header_start(data, q)
}

/// The text from the first header line on; lines before it are skipped.
pub open spec fn from_first_header(data: Seq<u8>) -> Seq<u8> {
    let p = choose|p: int| is_first_header(data, p);
    data.subrange(p, data.len() as int)
}

/// Finds where the first header line of `data` starts.
pub fn find_header(data: &[u8]) -> (r: Option<usize>)
    ensures
        r is None <==> !has_header(data@),
        r matches Some(p) ==> is_first_header(data@, p as int),
{
    let mut i: usize = 0;
    while i < data.len()
        invariant
            i <= data@.len(),
            forall|q: int| 0 <= q < i ==> !is_header_start(data@, q),
        decreases data@.len() - i,
    {
        if data[i] == HEADER_MARK && (i == 0 || data[i - 1] == LINE_END) {
            assert(is_header_start(data@, i as int));
            return Some(i);
        }
        i = i + 1;
    }
    assert forall|q: int| !is_header_start(data@, q) by {}
    None
}

/// A record is usable when its id is not empty and its sequence is ASCII.
pub open spec fn record_is_valid(id: Seq<char>, seq: Seq<u8>) -> bool {
    id.len() > 0 && forall|i: int| 0 <= i < seq.len() ==> #[trigger] seq[i] < 128
}

fn is_valid_record(id: &String, seq: &Vec<u8>) -> (r: bool)
    ensures
        r == record_is_valid(id@, seq@),
{
    if id.as_str().is_empty() {
        return false;
    }
    let mut i: usize = 0;
    while i < seq.len()
        invariant
            i <= seq@.len(),
            forall|k: int| 0 <= k < i ==> #[trigger] seq@[k] < 128,
        decreases seq@.len() - i,
    {
        if seq[i] >= 128 {
            return false;
        }
        i = i + 1;
    }
    true
}

/// The labels of the counts, in the order of `counts_model`.
pub open spec fn has_nucleotide_labels(c: [(&'static str, u64); 4]) -> bool {
    &&& c@[0].0@ == "A"@
    &&& c@[1].0@ == "T"@
    &&& c@[2].0@ == "G"@
    &&& c@[3].0@ == "C"@
}

pub open spec fn counts_view(c: [(&'static str, u64); 4]) -> Seq<nat> {
    seq![c@[0].1 as nat, c@[1].1 as nat, c@[2].1 as nat, c@[3].1 as nat]
}

/// Counts `A`, `T`, `G` and `C` in `seq` in one pass, labelled in that order.
pub fn nucleotide_counts(seq: &[u8]) -> (r: [(&'static str, u64); 4])
    ensures
        has_nucleotide_labels(r),
        counts_view(r) == counts_model(seq@),
{
    let alphabet: [u8; 4] = [BASE_A, BASE_T, BASE_G, BASE_C];
    assert(alphabet@ =~= nucleotides());
    let c = count(seq, alphabet.as_slice());
    assert(c@[0] == count_of(seq@, alphabet@[0]));
    assert(c@[1] == count_of(seq@, alphabet@[1]));
    assert(c@[2] == count_of(seq@, alphabet@[2]));
    assert(c@[3] == count_of(seq@, alphabet@[3]));
    let r = [("A", c[0]), ("T", c[1]), ("G", c[2]), ("C", c[3])];
    assert(counts_view(r) =~= counts_model(seq@));
    r
}

/// A FASTA record: its id, its sequence, and the counts of its nucleotides.
#[derive(Debug, Clone, PartialEq, Eq)]
pub struct FastaRecord {
    pub id: String,
    pub sequence: Vec<u8>,
    pub nucleotide_counts: [(&'static str, u64); 4],
}

impl View for FastaRecord {
    /// The id, the sequence and the four counts.
    type V = (Seq<char>, Seq<u8>, Seq<nat>);

    open spec fn view(&self) -> (Seq<char>, Seq<u8>, Seq<nat>) {
        (self.id@, self.sequence@, counts_view(self.nucleotide_counts))
    }
}

/// What bio's first record of a text that opens with a header line gives.
pub open spec fn record_model(raw: Option<Result<(Seq<char>, Seq<u8>), ()>>) -> Result<
    (Seq<char>, Seq<u8>, Seq<nat>),
    ParseError,
> {
    match raw {
        None => Err(ParseError::Malformed),
        Some(Err(())) => Err(ParseError::Malformed),
        Some(Ok((id, seq))) => if record_is_valid(id, seq) {
            Ok((id, seq, counts_model(seq)))
        } else {
            Err(ParseError::Malformed)
        },
    }
}

/// What parsing `data` gives: `EmptyFile` where no line is a header line, else
/// the record that starts at the first header line, or why it is malformed.
pub open spec fn parse_model(data: Seq<u8>) -> Result<(Seq<char>, Seq<u8>, Seq<nat>), ParseError> {
    if !has_header(data) {
        Err(ParseError::EmptyFile)
    } else {
        record_model(first_fasta_record(from_first_header(data)))
    }
}

pub open spec fn parse_view(r: Result<FastaRecord, ParseError>) -> Result<
    (Seq<char>, Seq<u8>, Seq<nat>),
    ParseError,
> {
    match r {
        Ok(rec) => Ok(rec@),
        Err(e) => Err(e),
    }
}

/// Parsing is deterministic: two parses of the same bytes give the same id, the
/// same sequence and the same labelled counts.
pub proof fn lemma_parse_deterministic(
    data: Seq<u8>,
    first: Result<FastaRecord, ParseError>,
    second: Result<FastaRecord, ParseError>,
)
    requires
        parse_view(first) == parse_model(data),
        parse_view(second) == parse_model(data),
        first matches Ok(rec) ==> has_nucleotide_labels(rec.nucleotide_counts),
        second matches Ok(rec) ==> has_nucleotide_labels(rec.nucleotide_counts),
    ensures
        parse_view(first) == parse_view(second),
        first is Ok <==> second is Ok,
        first matches Ok(a) ==> second matches Ok(b) && a.id@ == b.id@ && a.sequence@
            == b.sequence@ && forall|k: int|
            0 <= k < 4 ==> #[trigger] a.nucleotide_counts@[k].0@ == b.nucleotide_counts@[k].0@
                && a.nucleotide_counts@[k].1 == b.nucleotide_counts@[k].1,
{
}

/// The joined body lines of a plain record are ASCII.
proof fn lemma_plain_lines_ascii(lines: Seq<Seq<u8>>)
    requires
        forall|k: int| 0 <= k < lines.len() ==> is_body_line(#[trigger] lines[k]),
    ensures
        forall|i: int| 0 <= i < lines.flatten().len() ==> #[trigger] lines.flatten()[i] < 128,
    decreases lines.len(),
{
    if lines.len() > 0 {
        let rest = lines.drop_first();
        assert forall|k: int| 0 <= k < rest.len() implies is_body_line(#[trigger] rest[k]) by {
            assert(rest[k] == lines[k + 1]);
        }
        lemma_plain_lines_ascii(rest);
        let f = lines.flatten();
        assert(f == lines.first() + rest.flatten());
        assert(is_body_line(lines[0]));
        assert forall|i: int| 0 <= i < f.len() implies #[trigger] f[i] < 128 by {
            if i >= lines.first().len() {
                assert(f[i] == rest.flatten()[i - lines.first().len()]);
            }
        }
    }
}

impl FastaRecord {
    /// Parses the first record of the FASTA text `data`: lines before the first
    /// header line are skipped and later records are ignored. The id is the first
    /// token of the header line.
    pub fn parse(data: &[u8]) -> (r: Result<FastaRecord, ParseError>)
        ensures
            parse_view(r) == parse_model(data@),
            r == Err::<FastaRecord, ParseError>(ParseError::EmptyFile) <==> !has_header(data@),
            r matches Ok(rec) ==> has_nucleotide_labels(rec.nucleotide_counts),
            r matches Ok(rec) ==> rec.id@.len() > 0 && forall|i: int|
                0 <= i < rec.id@.len() ==> !is_space_char(#[trigger] rec.id@[i]),
            forall|id: Seq<u8>, lines: Seq<Seq<u8>>|
                #[trigger] plain_fasta_text(id, lines) == data@ && is_plain_record(id, lines)
                    ==> parse_view(r) == Ok::<(Seq<char>, Seq<u8>, Seq<nat>), ParseError>(
                    (ascii_chars(id), lines.flatten(), counts_model(lines.flatten())),
                ),
    {
        let start = find_header(data);
        let p = match start {
            None => {
                proof {
                    assert forall|id: Seq<u8>, lines: Seq<Seq<u8>>|
                        #[trigger] plain_fasta_text(id, lines) == data@ implies false by {
                        assert(data@[0] == HEADER_MARK);
                        assert(is_header_start(data@, 0));
                    }
                }
                return Err(ParseError::EmptyFile);
            },
            Some(p) => p,
        };
        let rest = vstd::slice::slice_subrange(data, p, data.len());
        proof {
            let q = choose|q: int| is_first_header(data@, q);
            assert(is_first_header(data@, q));
            if q < p {
                assert(!is_header_start(data@, q));
            }
            if p < q {
                assert(!is_header_start(data@, p as int));
            }
            assert(rest@ == from_first_header(data@));
        }
        let raw = read_first_record(rest);
        proof {
            assert forall|id: Seq<u8>, lines: Seq<Seq<u8>>|
                #[trigger] plain_fasta_text(id, lines) == data@ && is_plain_record(id, lines)
                    implies record_is_valid(ascii_chars(id), lines.flatten())
                    && p == 0 && rest@ == plain_fasta_text(id, lines) by {
                lemma_plain_lines_ascii(lines);
                assert(data@[0] == HEADER_MARK);
                assert(is_header_start(data@, 0));
                if p > 0 {
                    assert(!is_header_start(data@, 0));
                }
                assert(rest@ =~= data@);
            }
        }
        match raw {
            None => Err(ParseError::Malformed),
            Some(Err(())) => Err(ParseError::Malformed),
            Some(Ok((id, sequence))) => {
                if is_valid_record(&id, &sequence) {
                    let nucleotide_counts = nucleotide_counts(sequence.as_slice());
                    Ok(FastaRecord { id, sequence, nucleotide_counts })
                } else {
                    Err(ParseError::Malformed)
                }
            },
        }
    }
}

} // verus!
