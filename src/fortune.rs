//! Choosing a quote from a file's text: at random, or among the quotes that
//! are short enough.
use crate::error::FortuneError;
use crate::quotes::{lemma_quotes_from_nonempty, quote_bytes, quotes_of, split_quotes};
use crate::random::random;
use vstd::arithmetic::div_mod::lemma_div_denominator;
use vstd::arithmetic::power2::{lemma_pow2_pos, lemma_pow2_unfold, pow2};
use vstd::prelude::*;
use vstd::string::StringSliceAdditionalSpecFns;
use vstd::utf8::encode_utf8;

verus! {

/// The longest quote, in bytes, that counts as short.
pub const SHORT: usize = 150;

/// The quote size that asks for a joke instead of a quote.
pub const HUMOROUS_SIZE: u8 = 255;

/// How a quote is to be chosen, read from a quote size.
#[derive(Debug, Clone, Copy, PartialEq, Eq, Structural)]
pub enum Criterion {
    /// Any quote of the file.
    Random,
    /// Only quotes no longer than `target_length` of this code.
    MaxLength(u8),
    /// No quote: a fixed message.
    HumorousExit,
}

/// What a request for a quote produced.
#[derive(Debug, PartialEq, Eq)]
pub enum Outcome {
    /// The chosen quote.
    Quote(String),
    /// The fixed message is to be shown, and nothing else done.
    HumorousExit,
}

/// The criterion that a quote size stands for.
pub open spec fn criterion_spec(quote_size: u8) -> Criterion {
    if quote_size == 0 {
        Criterion::Random
    } else if quote_size == HUMOROUS_SIZE {
        Criterion::HumorousExit
    } else {
        Criterion::MaxLength(quote_size)
    }
}

/// The byte bound for size code `n >= 1`: `SHORT / 2^(n - 1)`, rounded down,
/// and at least one.
pub open spec fn max_length(n: nat) -> nat {
    let t = SHORT as nat / pow2((n - 1) as nat);
    if t < 1 {
        1
    } else {
        t
    }
}

/// A quote of at most `max_len` bytes.
pub open spec fn fits_in(max_len: nat) -> spec_fn(Seq<u8>) -> bool {
    |q: Seq<u8>| q.len() <= max_len
}

/// Some quote of `quotes` has at most `max_len` bytes.
pub open spec fn has_fitting(quotes: Seq<Seq<u8>>, max_len: nat) -> bool {
    exists|i: int| 0 <= i < quotes.len() && quotes[i].len() <= max_len
}

/// All quotes of the corpus: those of each file, file after file.
pub open spec fn corpus_quotes(files: Seq<Seq<u8>>) -> Seq<Seq<u8>>
    decreases files.len(),
{
    if files.len() == 0 {
        seq![]
    } else {
        corpus_quotes(files.drop_last()) + quotes_of(files.last())
    }
}

/// The fixed message of the humorous exit.
pub open spec fn humorous_text() -> Seq<char> {
    "WE GET IT, YOU WANT A SHORT FORTUNE"@
}

/// Reads a quote size: 0 asks for any quote, `HUMOROUS_SIZE` for the joke, and
/// any other value for a quote no longer than its `target_length`.
pub fn criterion(quote_size: u8) -> (r: Criterion)
    ensures
        r == criterion_spec(quote_size),
{
    if quote_size == 0 {
        Criterion::Random
    } else if quote_size == HUMOROUS_SIZE {
        Criterion::HumorousExit
    } else {
        Criterion::MaxLength(quote_size)
    }
}

/// The fixed message shown in place of a quote when the quote size is
/// `HUMOROUS_SIZE`.
pub fn humorous_message() -> (r: String)
    ensures
        r@ == humorous_text(),
{
    String::from_str("WE GET IT, YOU WANT A SHORT FORTUNE")
}

/// The byte bound for size code `n`: 150 for 1, halved (rounding down) with
/// each step above 1, and never below 1.
pub fn target_length(n: u8) -> (r: usize)
    requires
        n >= 1,
    ensures
        r == max_length(n as nat),
{
    let mut t: usize = SHORT;
    let mut k: u8 = 1;
    proof {
        assert(pow2(0) == 1) by {
            lemma_pow2_pos(0);
            vstd::arithmetic::power2::lemma2_to64();
        }
        assert(SHORT as nat / pow2(0) == 150);
    }
    while k < n
        invariant
            1 <= k <= n,
            t == SHORT as nat / pow2((k - 1) as nat),
        decreases n - k,
    {
        proof {
            lemma_pow2_pos((k - 1) as nat);
            lemma_pow2_unfold(k as nat);
            lemma_div_denominator(SHORT as int, pow2((k - 1) as nat) as int, 2);
        }
        t = t / 2;
        k = k + 1;
    }
    if t < 1 {
        1
    } else {
        t
    }
}

/// The quotes of at most `max_len` bytes, in their order.
pub fn short_quotes(quotes: &Vec<String>, max_len: usize) -> (r: Vec<String>)
    ensures
        quote_bytes(r@) == quote_bytes(quotes@).filter(fits_in(max_len as nat)),
{
    let mut out: Vec<String> = Vec::new();
    let mut i: usize = 0;
    while i < quotes.len()
        invariant
            i <= quotes.len(),
            quote_bytes(out@) == quote_bytes(quotes@.subrange(0, i as int)).filter(
                fits_in(max_len as nat),
            ),
        decreases quotes.len() - i,
    {
        let q = &quotes[i];
        let len = q.as_str().as_bytes().len();
        proof {
            assert(quote_bytes(quotes@.subrange(0, i + 1)) =~= quote_bytes(
                quotes@.subrange(0, i as int),
            ).push(encode_utf8(q@)));
            quote_bytes(quotes@.subrange(0, i as int)).lemma_filter_push(
                encode_utf8(q@),
                fits_in(max_len as nat),
            );
            assert(len == encode_utf8(q@).len());
            assert(fits_in(max_len as nat)(encode_utf8(q@)) == (len <= max_len));
        }
        if len <= max_len {
            let c = q.clone();
            proof {
                assert(quote_bytes(out@.push(c)) =~= quote_bytes(out@).push(encode_utf8(q@)));
            }
            out.push(c);
        }
        i = i + 1;
    }
    assert(quotes@.subrange(0, quotes.len() as int) =~= quotes@);
    out
}

/// Picks one of the quotes uniformly.
pub fn pick_quote(quotes: &Vec<String>) -> (r: Result<String, FortuneError>)
    ensures
        quotes.len() == 0 <==> r == Err::<String, FortuneError>(FortuneError::EmptyQuoteSet),
        quotes.len() > 0 <==> r is Ok,
        r matches Ok(q) ==> quotes@.contains(q),
{
    if quotes.len() == 0 {
        Err(FortuneError::EmptyQuoteSet)
    } else {
        let i = random(quotes.len());
        Ok(quotes[i].clone())
    }
}

/// Picks uniformly one of the quotes of at most `max_len` bytes.
pub fn pick_short_quote(quotes: &Vec<String>, max_len: usize) -> (r: Result<String, FortuneError>)
    ensures
        !has_fitting(quote_bytes(quotes@), max_len as nat) <==> r == Err::<String, FortuneError>(
            FortuneError::NoMatchingQuote,
        ),
        has_fitting(quote_bytes(quotes@), max_len as nat) <==> r is Ok,
        r matches Ok(q) ==> quote_bytes(quotes@).contains(encode_utf8(q@)) && encode_utf8(q@).len()
            <= max_len,
{
    let short = short_quotes(quotes, max_len);
    let ghost all = quote_bytes(quotes@);
    let ghost pred = fits_in(max_len as nat);
    proof {
        broadcast use vstd::seq_lib::group_filter_ensures;

        if has_fitting(all, max_len as nat) {
            let j = choose|j: int| 0 <= j < all.len() && all[j].len() <= max_len;
            assert(pred(all[j]));
            assert(all.filter(pred).contains(all[j]));
        }
        if short.len() > 0 {
            assert(quote_bytes(short@).len() == short.len());
            assert(pred(all.filter(pred)[0]));
            assert(all.filter(pred).contains(all.filter(pred)[0]));
            all.lemma_filter_contains_rev(pred, all.filter(pred)[0]);
        }
    }
    if short.len() == 0 {
        Err(FortuneError::NoMatchingQuote)
    } else {
        let i = random(short.len());
        let q = short[i].clone();
        proof {
            broadcast use vstd::seq_lib::group_filter_ensures;

            assert(quote_bytes(short@)[i as int] == encode_utf8(q@));
            assert(all.filter(pred).contains(encode_utf8(q@)));
            assert(pred(encode_utf8(q@)));
            all.lemma_filter_contains_rev(pred, encode_utf8(q@));
        }
        Ok(q)
    }
}

} // verus!

verus! {

/// Chooses a quote from a file's text by quote size: 0 picks any quote,
/// `HUMOROUS_SIZE` asks for the fixed message without reading the text, and
/// any other size picks among the quotes of at most `target_length(size)` bytes.
pub fn get_quote(text: &str, quote_size: u8) -> (r: Result<Outcome, FortuneError>)
    ensures
        quote_size == HUMOROUS_SIZE ==> r == Ok::<Outcome, FortuneError>(Outcome::HumorousExit),
        quote_size == 0 ==> (r matches Ok(Outcome::Quote(q)) && quotes_of(
            text.spec_bytes(),
        ).contains(encode_utf8(q@))),
        quote_size != 0 && quote_size != HUMOROUS_SIZE ==> {
            let max = max_length(quote_size as nat);
            let quotes = quotes_of(text.spec_bytes());
            &&& has_fitting(quotes, max) <==> r is Ok
            &&& !has_fitting(quotes, max) <==> r == Err::<Outcome, FortuneError>(
                FortuneError::NoMatchingQuote,
            )
            &&& r matches Ok(Outcome::Quote(q)) ==> quotes.contains(encode_utf8(q@))
                && encode_utf8(q@).len() <= max
            &&& r is Ok ==> r matches Ok(Outcome::Quote(_))
        },
{
    match criterion(quote_size) {
        Criterion::HumorousExit => Ok(Outcome::HumorousExit),
        Criterion::Random => {
            let quotes = split_quotes(text);
            proof {
                lemma_quotes_from_nonempty(text.spec_bytes(), 0, 0);
            }
            match pick_quote(&quotes) {
                Ok(q) => {
                    proof {
                        let k = choose|k: int| 0 <= k < quotes@.len() && quotes@[k] == q;
                        assert(quote_bytes(quotes@)[k] == encode_utf8(q@));
                    }
                    Ok(Outcome::Quote(q))
                },
                Err(e) => Err(e),
            }
        },
        Criterion::MaxLength(n) => {
            let quotes = split_quotes(text);
            let max = target_length(n);
            match pick_short_quote(&quotes, max) {
                Ok(q) => Ok(Outcome::Quote(q)),
                Err(e) => Err(e),
            }
        },
    }
}

/// A quote chosen from any one file of the corpus, as `get_random_file_weighted`
/// and `get_quote` choose them, is one of the quotes of the whole corpus.
pub proof fn lemma_file_quote_in_corpus(files: Seq<Seq<u8>>, i: int, q: Seq<u8>)
    requires
        0 <= i < files.len(),
        quotes_of(files[i]).contains(q),
    ensures
        corpus_quotes(files).contains(q),
    decreases files.len(),
{
    let earlier = corpus_quotes(files.drop_last());
    let here = quotes_of(files.last());
    if i == files.len() - 1 {
        let m = choose|m: int| 0 <= m < here.len() && here[m] == q;
        assert((earlier + here)[earlier.len() + m] == q);
    } else {
        assert(files.drop_last()[i] == files[i]);
        lemma_file_quote_in_corpus(files.drop_last(), i, q);
        let m = choose|m: int| 0 <= m < earlier.len() && earlier[m] == q;
        assert((earlier + here)[m] == q);
    }
}

} // verus!
