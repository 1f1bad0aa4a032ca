//! Counting the occurrences of alphabet symbols in a byte sequence.
use vstd::prelude::*;

verus! {

/// The byte of the symbol `A`.
pub const BASE_A: u8 = 65;

/// The byte of the symbol `T`.
pub const BASE_T: u8 = 84;

/// The byte of the symbol `G`.
pub const BASE_G: u8 = 71;

/// The byte of the symbol `C`.
pub const BASE_C: u8 = 67;

/// Number of positions of `s` that hold exactly `b`.
pub open spec fn count_of(s: Seq<u8>, b: u8) -> nat
    decreases s.len(),
{
    if s.len() == 0 {
        0
    } else {
        count_of(s.drop_last(), b) + if s.last() == b { 1nat } else { 0nat }
    }
}

/// The four nucleotide symbols, in the fixed order `A, T, G, C`.
pub open spec fn nucleotides() -> Seq<u8> {
    seq![BASE_A, BASE_T, BASE_G, BASE_C]
}

pub open spec fn is_nucleotide(b: u8) -> bool {
    b == BASE_A || b == BASE_T || b == BASE_G || b == BASE_C
}

/// The counts of `A`, `T`, `G`, `C` in `s`, in that order.
pub open spec fn counts_model(s: Seq<u8>) -> Seq<nat> {
    seq![count_of(s, BASE_A), count_of(s, BASE_T), count_of(s, BASE_G), count_of(s, BASE_C)]
}

/// Sum of the four nucleotide counts of `s`.
pub open spec fn nucleotide_total(s: Seq<u8>) -> nat {
    let c = counts_model(s);
    c[0] + c[1] + c[2] + c[3]
}

/// Sum of the counts of `x` over each of `lines` taken alone.
pub open spec fn count_over_lines(lines: Seq<Seq<u8>>, x: u8) -> nat
    decreases lines.len(),
{
    if lines.len() == 0 {
        0
    } else {
        count_of(lines.first(), x) + count_over_lines(lines.drop_first(), x)
    }
}

/// Counting distributes over concatenation.
pub proof fn lemma_count_concat(a: Seq<u8>, b: Seq<u8>, x: u8)
    ensures
        count_of(a + b, x) == count_of(a, x) + count_of(b, x),
    decreases b.len(),
{
    if b.len() == 0 {
        assert(a + b =~= a);
    } else {
        assert((a + b).drop_last() =~= a + b.drop_last());
        lemma_count_concat(a, b.drop_last(), x);
    }
}

/// Counting is blind to how a sequence is folded into lines: the count over the
/// joined lines is the sum of the counts of the lines, so two foldings of one
/// sequence give the same counts.
pub proof fn lemma_count_line_folding(a: Seq<Seq<u8>>, b: Seq<Seq<u8>>, x: u8)
    requires
        a.flatten() == b.flatten(),
    ensures
        count_of(a.flatten(), x) == count_over_lines(a, x),
        counts_model(a.flatten()) == counts_model(b.flatten()),
        count_over_lines(a, x) == count_over_lines(b, x),
{
    lemma_count_lines(a, x);
    lemma_count_lines(b, x);
}

proof fn lemma_count_lines(lines: Seq<Seq<u8>>, x: u8)
    ensures
        count_of(lines.flatten(), x) == count_over_lines(lines, x),
    decreases lines.len(),
{
    if lines.len() > 0 {
        lemma_count_lines(lines.drop_first(), x);
        lemma_count_concat(lines.first(), lines.drop_first().flatten(), x);
    }
}

proof fn lemma_count_push(s: Seq<u8>, i: int, x: u8)
    requires
        0 <= i < s.len(),
    ensures
        count_of(s.subrange(0, i + 1), x) == count_of(s.subrange(0, i), x) + if s[i] == x {
            1nat
        } else {
            0nat
        },
{
    assert(s.subrange(0, i + 1).drop_last() =~= s.subrange(0, i));
}

/// The nucleotide counts never add up to more than the length of the sequence,
/// and they add up to exactly its length if and only if every symbol of the
/// sequence is one of `A`, `T`, `G`, `C`.
pub proof fn lemma_nucleotide_total(s: Seq<u8>)
    ensures
        nucleotide_total(s) <= s.len(),
        nucleotide_total(s) == s.len() <==> (forall|i: int| 0 <= i < s.len() ==> is_nucleotide(
            #[trigger] s[i],
        )),
    decreases s.len(),
{
    if s.len() > 0 {
        let p = s.drop_last();
        lemma_nucleotide_total(p);
        if nucleotide_total(s) == s.len() {
            assert forall|i: int| 0 <= i < s.len() implies is_nucleotide(#[trigger] s[i]) by {
                if i < s.len() - 1 {
                    assert(p[i] == s[i]);
                }
            }
        }
        if forall|i: int| 0 <= i < s.len() ==> is_nucleotide(#[trigger] s[i]) {
            assert forall|i: int| 0 <= i < p.len() implies is_nucleotide(#[trigger] p[i]) by {
                assert(p[i] == s[i]);
            }
        }
    }
}

/// Counts how often each symbol of `alphabet` occurs in `seq`, in one pass over
/// `seq`. Symbols outside the alphabet are not counted anywhere.
pub fn count(seq: &[u8], alphabet: &[u8]) -> (r: Vec<u64>)
    requires
        alphabet@.no_duplicates(),
    ensures
        r@.len() == alphabet@.len(),
        forall|j: int| 0 <= j < alphabet@.len() ==> r@[j] == count_of(seq@, #[trigger] alphabet@[j]),
{
    // slot[b] is one more than the position of `b` in the alphabet, or 0.
    let mut slot: Vec<usize> = Vec::new();
    let mut b: usize = 0;
    while b < 256
        invariant
            b <= 256,
            slot@.len() == b,
            forall|k: int| 0 <= k < b ==> slot@[k] == 0,
        decreases 256 - b,
    {
        slot.push(0);
        b = b + 1;
    }
    let mut j: usize = 0;
    while j < alphabet.len()
        invariant
            j <= alphabet@.len(),
            alphabet@.no_duplicates(),
            slot@.len() == 256,
            forall|k: int|
                0 <= k < 256 ==> {
                    let v = #[trigger] slot@[k];
                    &&& v <= j
                    &&& v == 0 ==> forall|m: int| 0 <= m < j ==> alphabet@[m] != k
                    &&& v > 0 ==> alphabet@[v - 1] == k
                },
        decreases alphabet@.len() - j,
    {
        slot.set(alphabet[j] as usize, j + 1);
        j = j + 1;
    }
    let mut r: Vec<u64> = Vec::new();
    while r.len() < alphabet.len()
        invariant
            r@.len() <= alphabet@.len(),
            forall|k: int| 0 <= k < r@.len() ==> r@[k] == 0,
        decreases alphabet@.len() - r@.len(),
    {
        r.push(0);
    }
    let mut i: usize = 0;
    while i < seq.len()
        invariant
            i <= seq@.len(),
            r@.len() == alphabet@.len(),
            alphabet@.no_duplicates(),
            slot@.len() == 256,
            forall|k: int|
                0 <= k < 256 ==> {
                    let v = #[trigger] slot@[k];
                    &&& v <= alphabet@.len()
                    &&& v == 0 ==> forall|m: int| 0 <= m < alphabet@.len() ==> alphabet@[m] != k
                    &&& v > 0 ==> alphabet@[v - 1] == k
                },
            forall|m: int|
                0 <= m < alphabet@.len() ==> r@[m] == count_of(
                    seq@.subrange(0, i as int),
                    #[trigger] alphabet@[m],
                ) && r@[m] <= i,
        decreases seq@.len() - i,
    {
        let x = seq[i];
        let v = slot[x as usize];
        proof {
            assert forall|m: int| 0 <= m < alphabet@.len() implies count_of(
                seq@.subrange(0, i + 1),
                #[trigger] alphabet@[m],
            ) == count_of(seq@.subrange(0, i as int), alphabet@[m]) + if x == alphabet@[m] {
                1nat
            } else {
                0nat
            } by {
                lemma_count_push(seq@, i as int, alphabet@[m]);
            }
        }
        if v > 0 {
            let c = r[v - 1];
            r.set(v - 1, c + 1);
            proof {
                assert forall|m: int| 0 <= m < alphabet@.len() && m != v - 1 implies alphabet@[m]
                    != x by {
                    assert(alphabet@[v - 1] == x);
                }
            }
        }
        i = i + 1;
    }
    assert(seq@.subrange(0, seq@.len() as int) =~= seq@);
    r
}

} // verus!
