//! Splitting a corpus file into quotes.
//!
//! A file is a UTF-8 text whose quotes are separated by the three bytes
//! `"\n%\n"`: a line holding a single `%`. Splitting is done on the bytes of
//! the text, scanning from the left, as `str::split` does.
use vstd::prelude::*;
use vstd::string::StringSliceAdditionalSpecFns;
use vstd::utf8::*;

verus! {

/// A delimiter `"\n%\n"` starts at position `i` of `s`.
pub open spec fn is_delimiter_at(s: Seq<u8>, i: int) -> bool {
    &&& 0 <= i
    &&& i + 3 <= s.len()
    &&& s[i] == 10
    &&& s[i + 1] == 37
    &&& s[i + 2] == 10
}

/// The quotes of `s` that begin at or after `start`, when the search for the
/// next delimiter resumes at `i`.
pub open spec fn quotes_from(s: Seq<u8>, start: int, i: int) -> Seq<Seq<u8>>
    decreases s.len() - i,
{
    if i < 0 || i + 3 > s.len() {
        seq![s.subrange(start, s.len() as int)]
    } else if is_delimiter_at(s, i) {
        seq![s.subrange(start, i)] + quotes_from(s, i + 3, i + 3)
    } else {
        quotes_from(s, start, i + 1)
    }
}

/// The quotes of a file's bytes, in order.
pub open spec fn quotes_of(s: Seq<u8>) -> Seq<Seq<u8>> {
    quotes_from(s, 0, 0)
}

/// The bytes of each string.
pub open spec fn quote_bytes(v: Seq<String>) -> Seq<Seq<u8>> {
    v.map_values(|q: String| encode_utf8(q@))
}

/// Every text has at least one quote.
pub proof fn lemma_quotes_from_nonempty(s: Seq<u8>, start: int, i: int)
    ensures
        quotes_from(s, start, i).len() >= 1,
    decreases s.len() - i,
{
    if i < 0 || i + 3 > s.len() {
    } else if is_delimiter_at(s, i) {
        lemma_quotes_from_nonempty(s, i + 3, i + 3);
    } else {
        lemma_quotes_from_nonempty(s, start, i + 1);
    }
}

/// Splitting is deterministic: two splits of the same text give quotes with
/// the same characters, in the same order.
pub proof fn lemma_split_deterministic(text: Seq<char>, r1: Seq<String>, r2: Seq<String>)
    requires
        quote_bytes(r1) == quotes_of(encode_utf8(text)),
        quote_bytes(r2) == quotes_of(encode_utf8(text)),
    ensures
        r1.len() == r2.len(),
        forall|i: int| 0 <= i < r1.len() ==> #[trigger] r1[i]@ == r2[i]@,
{
    assert(r1.len() == quote_bytes(r1).len());
    assert forall|i: int| 0 <= i < r1.len() implies #[trigger] r1[i]@ == r2[i]@ by {
        assert(quote_bytes(r1)[i] == quote_bytes(r2)[i]);
        encode_utf8_decode_utf8(r1[i]@);
        encode_utf8_decode_utf8(r2[i]@);
    }
}

/// In valid UTF-8 the position right after an ASCII byte starts a character
/// (or is the end).
proof fn lemma_boundary_after_ascii(b: Seq<u8>, j: int)
    requires
        valid_utf8(b),
        0 < j <= b.len(),
        b[j - 1] < 0x80,
    ensures
        is_char_boundary(b, j),
{
    if j < b.len() {
        is_char_boundary_iff_not_is_continuation_byte(b, j - 1);
        valid_utf8_split(b, j - 1);
        let r = b.subrange(j - 1, b.len() as int);
        let t = b.subrange(j, b.len() as int);
        assert(valid_utf8(r));
        assert(length_of_first_scalar(r) == 1);
        assert(pop_first_scalar(r) =~= t);
        assert(valid_utf8(t));
        assert(valid_first_scalar(t));
        assert(t[0] == b[j]);
        is_char_boundary_iff_not_is_continuation_byte(b, j);
    } else {
        is_char_boundary_start_end_of_seq(b);
    }
}

/// The part of `text` between byte positions `start` and `end`, both of which
/// sit next to an ASCII byte (or at an end of the text).
fn piece(text: &str, start: usize, end: usize) -> (r: String)
    requires
        start <= end <= text.spec_bytes().len(),
        start == 0 || text.spec_bytes()[start - 1] < 0x80,
        end == text.spec_bytes().len() || text.spec_bytes()[end as int] < 0x80,
    ensures
        encode_utf8(r@) == text.spec_bytes().subrange(start as int, end as int),
{
    let ghost b = text.spec_bytes();
    proof {
        encode_utf8_valid_utf8(text@);
        is_char_boundary_start_end_of_seq(b);
        if end < b.len() {
            is_char_boundary_iff_not_is_continuation_byte(b, end as int);
        }
    }
    let (head, _) = text.split_at(end);
    proof {
        let h = head.spec_bytes();
        valid_utf8_split(b, end as int);
        is_char_boundary_start_end_of_seq(h);
        if start > 0 {
            assert(h[start - 1] == b[start - 1]);
            lemma_boundary_after_ascii(h, start as int);
        }
    }
    let (_, q) = head.split_at(start);
    proof {
        assert(q.spec_bytes() =~= b.subrange(start as int, end as int));
    }
    q.to_owned()
}

/// Splits a file's text into its quotes, in order. Text without a delimiter,
/// the empty text included, is a single quote.
pub fn split_quotes(text: &str) -> (r: Vec<String>)
    ensures
        quote_bytes(r@) == quotes_of(text.spec_bytes()),
{
    let bytes = text.as_bytes();
    let n = bytes.len();
    let ghost b = text.spec_bytes();
    let mut out: Vec<String> = Vec::new();
    let mut start: usize = 0;
    let mut i: usize = 0;
    while n - i >= 3
        invariant
            b == text.spec_bytes(),
            bytes@ == b,
            n == b.len(),
            start <= i <= n,
            start == 0 || b[start - 1] == 10,
            quote_bytes(out@) + quotes_from(b, start as int, i as int) == quotes_of(b),
        decreases n - i,
    {
        if bytes[i] == 10 && bytes[i + 1] == 37 && bytes[i + 2] == 10 {
            let q = piece(text, start, i);
            proof {
                assert(quote_bytes(out@.push(q)) =~= quote_bytes(out@).push(encode_utf8(q@)));
                assert(quotes_from(b, start as int, i as int) == seq![
                    b.subrange(start as int, i as int),
                ] + quotes_from(b, i + 3, i + 3));
                assert(quote_bytes(out@).push(encode_utf8(q@)) + quotes_from(b, i + 3, i + 3)
                    =~= quote_bytes(out@) + quotes_from(b, start as int, i as int));
            }
            out.push(q);
            i = i + 3;
            start = i;
        } else {
            i = i + 1;
        }
    }
    let q = piece(text, start, n);
    proof {
        assert(quote_bytes(out@.push(q)) =~= quote_bytes(out@).push(encode_utf8(q@)));
        assert(quote_bytes(out@).push(encode_utf8(q@)) =~= quote_bytes(out@) + quotes_from(
            b,
            start as int,
            i as int,
        ));
    }
    out.push(q);
    out
}

} // verus!
