//! Recognising FASTA files by the extension of their path.
use vstd::prelude::*;

verus! {

/// `e` is where the path ends once its trailing `/` are dropped.
pub open spec fn is_name_end(p: Seq<char>, e: int) -> bool {
    &&& 0 <= e <= p.len()
    &&& (e == 0 || p[e - 1] != '/')
    &&& forall|j: int| e <= j < p.len() ==> #[trigger] p[j] == '/'
}

/// `d` is the position of the dot that opens the extension of the file name
/// that ends at `e`: the last dot after the last `/`, not the name's first
/// character.
pub open spec fn is_extension_dot(p: Seq<char>, e: int, d: int) -> bool {
    &&& 0 < d < e <= p.len()
    &&& p[d] == '.'
    &&& p[d - 1] != '/'
    &&& forall|j: int| d < j < e ==> #[trigger] p[j] != '.' && p[j] != '/'
}

pub open spec fn is_fasta_extension(x: Seq<char>) -> bool {
    x == "fa"@ || x == "fna"@ || x == "fasta"@ || x == "fn"@
}

/// The file name at the end of `p`, trailing `/` aside, has one of the
/// extensions `fa`, `fna`, `fasta`, `fn`.
pub open spec fn has_fasta_extension_spec(p: Seq<char>) -> bool {
    exists|e: int, d: int|
        is_name_end(p, e) && is_extension_dot(p, e, d) && is_fasta_extension(
            p.subrange(d + 1, e),
        )
}

fn suffix_is(p: &str, from: usize, n: usize, word: &str) -> (r: bool)
    requires
        from <= n <= p@.len(),
    ensures
        r == (p@.subrange(from as int, n as int) == word@),
{
    let w = word.unicode_len();
    if n - from != w {
        return false;
    }
    let mut k: usize = 0;
    while k < w
        invariant
            n <= p@.len(),
            w == word@.len(),
            from + w == n,
            k <= w,
            forall|m: int| 0 <= m < k ==> p@[from + m] == word@[m],
        decreases w - k,
    {
        if p.get_char(from + k) != word.get_char(k) {
            assert(p@.subrange(from as int, n as int)[k as int] != word@[k as int]);
            return false;
        }
        k = k + 1;
    }
    assert(p@.subrange(from as int, n as int) =~= word@);
    true
}

/// Whether the file name at the end of `path` has a FASTA extension: `fa`,
/// `fna`, `fasta` or `fn`. Trailing `/` are not part of the name.
pub fn has_fasta_extension(path: &str) -> (r: bool)
    ensures
        r == has_fasta_extension_spec(path@),
{
    let len = path.unicode_len();
    let mut e: usize = len;
    while e > 0 && path.get_char(e - 1) == '/'
        invariant
            len == path@.len(),
            e <= len,
            forall|k: int| e <= k < len ==> #[trigger] path@[k] == '/',
        decreases e,
    {
        e = e - 1;
    }
    assert(is_name_end(path@, e as int));
    assert forall|f: int| is_name_end(path@, f) implies f == e by {
        if f < e {
            assert(path@[e - 1] == '/');
        }
        if e < f {
            assert(path@[f - 1] == '/');
        }
    }
    let mut j: usize = e;
    while j > 0 && path.get_char(j - 1) != '.' && path.get_char(j - 1) != '/'
        invariant
            len == path@.len(),
            j <= e <= len,
            forall|k: int| j <= k < e ==> #[trigger] path@[k] != '.' && path@[k] != '/',
        decreases j,
    {
        j = j - 1;
    }
    if j == 0 || path.get_char(j - 1) == '/' {
        assert forall|d: int| !is_extension_dot(path@, e as int, d) by {
            if is_extension_dot(path@, e as int, d) && d < j {
                assert(path@[j - 1] != '.');
            }
        }
        return false;
    }
    let d = j - 1;
    if d == 0 || path.get_char(d - 1) == '/' {
        assert forall|x: int| !is_extension_dot(path@, e as int, x) by {
            if is_extension_dot(path@, e as int, x) && x < d {
                assert(path@[d as int] != '.');
            }
        }
        return false;
    }
    assert(is_extension_dot(path@, e as int, d as int));
    assert forall|x: int| is_extension_dot(path@, e as int, x) implies x == d by {
        if x < d {
            assert(path@[d as int] != '.');
        }
    }
    let r = suffix_is(path, j, e, "fa") || suffix_is(path, j, e, "fna") || suffix_is(
        path,
        j,
        e,
        "fasta",
    ) || suffix_is(path, j, e, "fn");
    r
}

} // verus!
