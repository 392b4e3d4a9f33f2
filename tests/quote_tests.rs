use fortune_kind::error::FortuneError;
use fortune_kind::fortune::{
    criterion, get_quote, humorous_message, pick_quote, pick_short_quote, short_quotes,
    target_length, Criterion, Outcome, HUMOROUS_SIZE, SHORT,
};
use fortune_kind::quotes::split_quotes;

fn strings(v: &[&str]) -> Vec<String> {
    v.iter().map(|s| s.to_string()).collect()
}

#[test]
fn split_three_quotes() {
    assert_eq!(split_quotes("A\n%\nBB\n%\nCCC"), strings(&["A", "BB", "CCC"]));
}

#[test]
fn split_empty_text_is_one_empty_quote() {
    assert_eq!(split_quotes(""), strings(&[""]));
}

#[test]
fn split_without_delimiter_keeps_text() {
    assert_eq!(split_quotes("one line\nsecond line\n"), strings(&["one line\nsecond line\n"]));
}

#[test]
fn split_keeps_trailing_empty_quote() {
    assert_eq!(split_quotes("A\n%\nB\n%\n"), strings(&["A", "B", ""]));
}

#[test]
fn split_takes_leftmost_delimiter() {
    assert_eq!(split_quotes("\n%\n%\n"), strings(&["", "%\n"]));
    assert_eq!(split_quotes("x\n%\n\n%\ny"), strings(&["x", "", "y"]));
}

#[test]
fn split_needs_whole_delimiter_line() {
    assert_eq!(split_quotes("50%\n100%"), strings(&["50%\n100%"]));
    assert_eq!(split_quotes("a\n% \nb"), strings(&["a\n% \nb"]));
    assert_eq!(split_quotes("a\n%%\nb"), strings(&["a\n%%\nb"]));
}

#[test]
fn split_keeps_multibyte_text() {
    assert_eq!(
        split_quotes("smörgåsbord\n%\n日本語\n%\n🦀"),
        strings(&["smörgåsbord", "日本語", "🦀"])
    );
}

#[test]
fn split_twice_gives_the_same_quotes() {
    let text = "first\n%\nsecond, with\ntwo lines\n%\n\n%\nlast";
    assert_eq!(split_quotes(text), split_quotes(text));
}

#[test]
fn target_lengths_halve() {
    assert_eq!(SHORT, 150);
    assert_eq!(target_length(1), 150);
    assert_eq!(target_length(2), 75);
    assert_eq!(target_length(3), 37);
    assert_eq!(target_length(4), 18);
    assert_eq!(target_length(5), 9);
    assert_eq!(target_length(6), 4);
    assert_eq!(target_length(7), 2);
    assert_eq!(target_length(8), 1);
}

#[test]
fn target_length_never_below_one() {
    assert_eq!(target_length(9), 1);
    assert_eq!(target_length(100), 1);
    assert_eq!(target_length(254), 1);
}

#[test]
fn criterion_of_sizes() {
    assert_eq!(criterion(0), Criterion::Random);
    assert_eq!(criterion(1), Criterion::MaxLength(1));
    assert_eq!(criterion(254), Criterion::MaxLength(254));
    assert_eq!(criterion(HUMOROUS_SIZE), Criterion::HumorousExit);
    assert_eq!(HUMOROUS_SIZE, 255);
}

#[test]
fn short_quotes_keep_order_and_bound() {
    let quotes = strings(&["A", "BB", "CCC", "", "DD"]);
    assert_eq!(short_quotes(&quotes, 2), strings(&["A", "BB", "", "DD"]));
    assert_eq!(short_quotes(&quotes, 0), strings(&[""]));
}

#[test]
fn short_quotes_count_bytes() {
    let quotes = strings(&["ab", "é", "日"]);
    assert_eq!(short_quotes(&quotes, 2), strings(&["ab", "é"]));
}

#[test]
fn pick_quote_of_nothing_is_empty_quote_set() {
    assert_eq!(pick_quote(&vec![]), Err(FortuneError::EmptyQuoteSet));
}

#[test]
fn pick_quote_returns_a_member() {
    let quotes = strings(&["A", "BB", "CCC"]);
    for _ in 0..200 {
        let q = pick_quote(&quotes).unwrap();
        assert!(quotes.contains(&q));
    }
}

#[test]
fn pick_short_quote_without_candidate_is_no_matching_quote() {
    let quotes = strings(&["CCC", "DDDD"]);
    assert_eq!(pick_short_quote(&quotes, 2), Err(FortuneError::NoMatchingQuote));
}

#[test]
fn pick_short_quote_returns_short_member() {
    let quotes = strings(&["CCC", "DD", "EEEE"]);
    for _ in 0..100 {
        assert_eq!(pick_short_quote(&quotes, 2), Ok("DD".to_string()));
    }
}

#[test]
fn get_quote_with_threshold_two_never_returns_long_quote() {
    let text = "A\n%\nBB\n%\nCCC";
    assert_eq!(target_length(7), 2);
    let mut seen_a = false;
    let mut seen_bb = false;
    for _ in 0..500 {
        match get_quote(text, 7) {
            Ok(Outcome::Quote(q)) => {
                assert!(q == "A" || q == "BB");
                seen_a |= q == "A";
                seen_bb |= q == "BB";
            }
            other => panic!("unexpected {:?}", other),
        }
    }
    assert!(seen_a && seen_bb);
}

#[test]
fn get_quote_random_returns_a_quote_of_the_file() {
    let text = "A\n%\nBB\n%\nCCC";
    let mut seen = [false; 3];
    for _ in 0..500 {
        match get_quote(text, 0) {
            Ok(Outcome::Quote(q)) => {
                let k = ["A", "BB", "CCC"].iter().position(|s| *s == q).expect("a quote of the file");
                seen[k] = true;
            }
            other => panic!("unexpected {:?}", other),
        }
    }
    assert!(seen.iter().all(|s| *s));
}

#[test]
fn get_quote_default_size_bounds_length() {
    let long = "x".repeat(151);
    let text = format!("{}\n%\nshort one\n%\n{}", long, long);
    for _ in 0..100 {
        assert_eq!(get_quote(&text, 1), Ok(Outcome::Quote("short one".to_string())));
    }
}

#[test]
fn get_quote_without_short_quote_is_no_matching_quote() {
    assert_eq!(get_quote("CCC\n%\nDDDD", 7), Err(FortuneError::NoMatchingQuote));
}

#[test]
fn get_quote_humorous_size_ignores_text() {
    assert_eq!(get_quote("A\n%\nBB", 255), Ok(Outcome::HumorousExit));
    assert_eq!(get_quote("", 255), Ok(Outcome::HumorousExit));
}

#[test]
fn humorous_message_text() {
    assert_eq!(humorous_message(), "WE GET IT, YOU WANT A SHORT FORTUNE");
}
