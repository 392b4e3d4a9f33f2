//! Finding every quote of a corpus that holds a pattern.
use crate::quotes::{quote_bytes, quotes_of, split_quotes};
use vstd::prelude::*;
use vstd::string::StringSliceAdditionalSpecFns;
use vstd::utf8::encode_utf8;

verus! {

/// `p` occurs in `q` at byte position `k`.
pub open spec fn occurs_at(q: Seq<u8>, p: Seq<u8>, k: int) -> bool {
    0 <= k && k + p.len() <= q.len() && q.subrange(k, k + p.len()) == p
}

/// `p` occurs somewhere in `q`.
pub open spec fn contains_bytes(q: Seq<u8>, p: Seq<u8>) -> bool {
    exists|k: int| occurs_at(q, p, k)
}

/// A quote that holds `p`.
pub open spec fn holds(p: Seq<u8>) -> spec_fn(Seq<u8>) -> bool {
    |q: Seq<u8>| contains_bytes(q, p)
}

/// The bytes of each file's text.
pub open spec fn file_bytes(files: Seq<String>) -> Seq<Seq<u8>> {
    files.map_values(|f: String| encode_utf8(f@))
}

/// Every quote that holds `p`, file after file, each file's in their order.
pub open spec fn matching_quotes(files: Seq<Seq<u8>>, p: Seq<u8>) -> Seq<Seq<u8>>
    decreases files.len(),
{
    if files.len() == 0 {
        seq![]
    } else {
        matching_quotes(files.drop_last(), p) + quotes_of(files.last()).filter(holds(p))
    }
}

/// Whether `p` occurs in `q` at position `k`.
fn occurs_here(q: &[u8], p: &[u8], k: usize) -> (r: bool)
    requires
        k + p@.len() <= q@.len(),
    ensures
        r == occurs_at(q@, p@, k as int),
{
    let qn = q.len();
    let mut j: usize = 0;
    while j < p.len()
        invariant
            qn == q@.len(),
            j <= p@.len(),
            k + p@.len() <= q@.len(),
            forall|m: int| 0 <= m < j ==> q@[k + m] == p@[m],
        decreases p@.len() - j,
    {
        if q[k + j] != p[j] {
            assert(q@.subrange(k as int, k + p@.len())[j as int] != p@[j as int]);
            return false;
        }
        j = j + 1;
    }
    assert(q@.subrange(k as int, k + p@.len()) =~= p@);
    true
}

/// Whether the bytes `p` occur in the bytes `q`.
pub fn contains_pattern(q: &[u8], p: &[u8]) -> (r: bool)
    ensures
        r == contains_bytes(q@, p@),
{
    if p.len() > q.len() {
        return false;
    }
    let last = q.len() - p.len();
    let mut k: usize = 0;
    while k <= last
        invariant
            last + p@.len() == q@.len(),
            forall|m: int| 0 <= m < k ==> !occurs_at(q@, p@, m),
        decreases last + 1 - k,
    {
        if occurs_here(q, p, k) {
            return true;
        }
        if k == last {
            assert forall|m: int| #![trigger occurs_at(q@, p@, m)] !occurs_at(q@, p@, m) by {
                if 0 <= m <= last {
                }
            }
            return false;
        }
        k = k + 1;
    }
    false
}

/// Every quote of the files' texts that holds `pattern`: file after file, and
/// within a file in its order. No match gives an empty result.
pub fn search_fortunes(files: &Vec<String>, pattern: &str) -> (r: Vec<String>)
    ensures
        quote_bytes(r@) == matching_quotes(file_bytes(files@), pattern.spec_bytes()),
{
    let p = pattern.as_bytes();
    let ghost pb = pattern.spec_bytes();
    let mut out: Vec<String> = Vec::new();
    let mut i: usize = 0;
    while i < files.len()
        invariant
            p@ == pb,
            i <= files.len(),
            quote_bytes(out@) == matching_quotes(file_bytes(files@.subrange(0, i as int)), pb),
        decreases files.len() - i,
    {
        let quotes = split_quotes(files[i].as_str());
        let ghost before = quote_bytes(out@);
        let ghost qs = quote_bytes(quotes@);
        let mut j: usize = 0;
        while j < quotes.len()
            invariant
                p@ == pb,
                j <= quotes.len(),
                qs == quote_bytes(quotes@),
                quote_bytes(out@) == before + quote_bytes(quotes@.subrange(0, j as int)).filter(
                    holds(pb),
                ),
            decreases quotes.len() - j,
        {
            let q = &quotes[j];
            let found = contains_pattern(q.as_str().as_bytes(), p);
            proof {
                assert(quote_bytes(quotes@.subrange(0, j + 1)) =~= quote_bytes(
                    quotes@.subrange(0, j as int),
                ).push(encode_utf8(q@)));
                quote_bytes(quotes@.subrange(0, j as int)).lemma_filter_push(
                    encode_utf8(q@),
                    holds(pb),
                );
            }
            if found {
                let c = q.clone();
                proof {
                    assert(quote_bytes(out@.push(c)) =~= quote_bytes(out@).push(encode_utf8(q@)));
                }
                out.push(c);
            }
            j = j + 1;
        }
        proof {
            assert(quotes@.subrange(0, quotes@.len() as int) =~= quotes@);
            let fs = file_bytes(files@.subrange(0, i + 1));
            assert(fs.drop_last() =~= file_bytes(files@.subrange(0, i as int)));
            assert(fs.last() == encode_utf8(files@[i as int]@));
        }
        i = i + 1;
    }
    assert(files@.subrange(0, files@.len() as int) =~= files@);
    out
}

/// A quote of any file that holds the pattern is among the search results.
pub proof fn lemma_planted_quote_found(files: Seq<Seq<u8>>, p: Seq<u8>, f: int, q: Seq<u8>)
    requires
        0 <= f < files.len(),
        quotes_of(files[f]).contains(q),
        contains_bytes(q, p),
    ensures
        matching_quotes(files, p).contains(q),
    decreases files.len(),
{
    let earlier = matching_quotes(files.drop_last(), p);
    let here = quotes_of(files.last()).filter(holds(p));
    if f == files.len() - 1 {
        let k = choose|k: int| 0 <= k < quotes_of(files[f]).len() && quotes_of(files[f])[k] == q;
        quotes_of(files.last()).lemma_filter_contains(holds(p), k);
        let m = choose|m: int| 0 <= m < here.len() && here[m] == q;
        assert((earlier + here)[earlier.len() + m] == q);
    } else {
        assert(files.drop_last()[f] == files[f]);
        lemma_planted_quote_found(files.drop_last(), p, f, q);
        let m = choose|m: int| 0 <= m < earlier.len() && earlier[m] == q;
        assert((earlier + here)[m] == q);
    }
}

/// When no quote of any file holds the pattern, the search finds nothing.
pub proof fn lemma_absent_pattern_finds_nothing(files: Seq<Seq<u8>>, p: Seq<u8>)
    requires
        forall|f: int, q: Seq<u8>|
            0 <= f < files.len() && #[trigger] quotes_of(files[f]).contains(q) ==> !contains_bytes(
                q,
                p,
            ),
    ensures
        matching_quotes(files, p).len() == 0,
    decreases files.len(),
{
    if files.len() > 0 {
        let last = quotes_of(files.last());
        assert forall|f: int, q: Seq<u8>|
            0 <= f < files.drop_last().len() && #[trigger] quotes_of(
                files.drop_last()[f],
            ).contains(q) implies !contains_bytes(q, p) by {
            assert(files.drop_last()[f] == files[f]);
        }
        lemma_absent_pattern_finds_nothing(files.drop_last(), p);
        if last.filter(holds(p)).len() > 0 {
            let q = last.filter(holds(p))[0];
            last.lemma_filter_pred(holds(p), 0);
            assert(last.filter(holds(p)).contains(q));
            last.lemma_filter_contains_rev(holds(p), q);
            assert(quotes_of(files[files.len() - 1]).contains(q));
        }
    }
}

} // verus!
