//! Byte-buffer scanning primitives shared by every component.
//!
//! The call-graph text is an immutable byte buffer; all higher-level
//! structure (declarations, edges, labels) is discovered by exact substring
//! matching at computed offsets, built from the helpers here.

use vstd::prelude::*;

verus! {

/// `pat` occurs in `data` starting exactly at position `i`.
pub open spec fn match_at(data: Seq<u8>, pat: Seq<u8>, i: int) -> bool {
    &&& 0 <= i
    &&& i + pat.len() <= data.len()
    &&& forall|k: int| 0 <= k < pat.len() ==> #[trigger] pat[k] == data[i + k]
}

/// `i` is the first position of `data` at which `pat` occurs.
pub open spec fn first_match_at(data: Seq<u8>, pat: Seq<u8>, i: int) -> bool {
    &&& match_at(data, pat, i)
    &&& forall|j: int| 0 <= j < i ==> !match_at(data, pat, j)
}

/// Decides whether `pat` occurs in `data` at position `i`.
pub fn matches_at(data: &Vec<u8>, pat: &Vec<u8>, i: usize) -> (r: bool)
    requires
        i + pat@.len() <= data@.len(),
    ensures
        r == match_at(data@, pat@, i as int),
{
    let data_len = data.len();
    let mut k: usize = 0;
    while k < pat.len()
        invariant
            i + pat@.len() <= data@.len(),
            data@.len() == data_len,
            k <= pat@.len(),
            forall|j: int| 0 <= j < k ==> #[trigger] pat@[j] == data@[i + j],
        decreases pat@.len() - k,
    {
        if data[i + k] != pat[k] {
            proof {
                assert(!(pat@[k as int] == data@[i + k as int]));
            }
            return false;
        }
        k = k + 1;
    }
    true
}

/// Copies `data[start..end]` into an independent buffer.
pub fn copy_range(data: &Vec<u8>, start: usize, end: usize) -> (r: Vec<u8>)
    requires
        start <= end,
        end <= data@.len(),
    ensures
        r@ == data@.subrange(start as int, end as int),
{
    let mut r: Vec<u8> = Vec::new();
    let mut j: usize = start;
    while j < end
        invariant
            start <= j <= end <= data@.len(),
            r@ == data@.subrange(start as int, j as int),
        decreases end - j,
    {
        r.push(data[j]);
        proof {
            assert(data@.subrange(start as int, j + 1) =~= data@.subrange(
                start as int,
                j as int,
            ).push(data@[j as int]));
        }
        j = j + 1;
    }
    r
}

/// Appends all of `src` to `out`.
pub fn push_all(out: &mut Vec<u8>, src: &Vec<u8>)
    ensures
        final(out)@ == old(out)@ + src@,
{
    let mut j: usize = 0;
    while j < src.len()
        invariant
            j <= src@.len(),
            out@ == old(out)@ + src@.subrange(0, j as int),
        decreases src@.len() - j,
    {
        out.push(src[j]);
        proof {
            assert(old(out)@ + src@.subrange(0, j + 1) =~= (old(out)@ + src@.subrange(
                0,
                j as int,
            )).push(src@[j as int]));
        }
        j = j + 1;
    }
    proof {
        assert(src@.subrange(0, src@.len() as int) =~= src@);
    }
}

/// Decides byte-wise equality of two buffers.
pub fn bytes_eq(a: &Vec<u8>, b: &Vec<u8>) -> (r: bool)
    ensures
        r == (a@ == b@),
{
    if a.len() != b.len() {
        return false;
    }
    let mut j: usize = 0;
    while j < a.len()
        invariant
            a@.len() == b@.len(),
            j <= a@.len(),
            forall|k: int| 0 <= k < j ==> a@[k] == b@[k],
        decreases a@.len() - j,
    {
        if a[j] != b[j] {
            return false;
        }
        j = j + 1;
    }
    proof {
        assert(a@ =~= b@);
    }
    true
}

/// Finds the first occurrence of `target` in `data` at or after `from`.
pub fn find_byte(data: &Vec<u8>, from: usize, target: u8) -> (r: Option<usize>)
    requires
        from <= data@.len(),
    ensures
        match r {
            Some(k) => {
                &&& from <= k < data@.len()
                &&& data@[k as int] == target
                &&& forall|j: int| from <= j < k ==> data@[j] != target
            },
            None => forall|j: int| from <= j < data@.len() ==> data@[j] != target,
        },
{
    let mut k: usize = from;
    while k < data.len()
        invariant
            from <= k <= data@.len(),
            forall|j: int| from <= j < k ==> data@[j] != target,
        decreases data@.len() - k,
    {
        if data[k] == target {
            return Some(k);
        }
        k = k + 1;
    }
    None
}

/// The view of each row of a vector of byte buffers.
pub proof fn lemma_bytes_deep_view(v: Vec<u8>)
    ensures
        v.deep_view() == v@,
{
    assert(v.deep_view() =~= v@);
}

/// Decides whether `node` occurs, byte-wise, among the rows of `rows`.
pub fn contains_bytes(rows: &Vec<Vec<u8>>, node: &Vec<u8>) -> (r: bool)
    ensures
        r == rows.deep_view().contains(node@),
{
    let mut j: usize = 0;
    while j < rows.len()
        invariant
            j <= rows@.len(),
            forall|k: int| 0 <= k < j ==> rows.deep_view()[k] != node@,
        decreases rows@.len() - j,
    {
        if bytes_eq(&rows[j], node) {
            proof {
                lemma_bytes_deep_view(rows@[j as int]);
                assert(rows.deep_view()[j as int] == node@);
            }
            return true;
        }
        proof {
            lemma_bytes_deep_view(rows@[j as int]);
        }
        j = j + 1;
    }
    proof {
        if rows.deep_view().contains(node@) {
            let k = choose|k: int| 0 <= k < rows.deep_view().len() && rows.deep_view()[k] == node@;
            assert(rows.deep_view()[k] != node@);
        }
    }
    false
}

} // verus!
