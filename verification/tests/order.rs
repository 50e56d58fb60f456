use baize::tokenize::order::sort_by_start;
use baize::tokenize::Token;

fn token(text: &str, start: usize, end: usize) -> Token {
    Token { text: text.to_string(), start, end, colocated: false }
}

fn texts(tokens: Vec<Token>) -> Vec<(String, usize)> {
    tokens.into_iter().map(|t| (t.text, t.start)).collect()
}

fn named(pairs: &[(&str, usize)]) -> Vec<(String, usize)> {
    pairs.iter().map(|(t, s)| (t.to_string(), *s)).collect()
}

#[test]
fn tokens_are_put_in_the_order_of_their_starts() {
    let sorted = sort_by_start(vec![
        token("c", 6, 7),
        token("a", 0, 1),
        token("d", 9, 10),
        token("b", 3, 4),
    ]);
    assert_eq!(texts(sorted), named(&[("a", 0), ("b", 3), ("c", 6), ("d", 9)]));
}

#[test]
fn tokens_that_start_together_keep_their_order() {
    let sorted = sort_by_start(vec![
        token("first", 15, 21),
        token("inner", 18, 24),
        token("last", 21, 27),
        token("whole", 15, 27),
        token("again", 15, 18),
        token("front", 0, 3),
    ]);
    assert_eq!(
        texts(sorted),
        named(&[
            ("front", 0),
            ("first", 15),
            ("whole", 15),
            ("again", 15),
            ("inner", 18),
            ("last", 21),
        ])
    );
}

#[test]
fn ordered_tokens_stay_as_they_are() {
    let sorted = sort_by_start(vec![token("a", 0, 1), token("b", 1, 2), token("c", 1, 3)]);
    assert_eq!(texts(sorted), named(&[("a", 0), ("b", 1), ("c", 1)]));
    assert!(sort_by_start(Vec::new()).is_empty());
    assert_eq!(texts(sort_by_start(vec![token("x", 5, 6)])), named(&[("x", 5)]));
}

#[test]
fn sorting_keeps_every_field() {
    let sorted = sort_by_start(vec![
        Token { text: "b".to_string(), start: 4, end: 9, colocated: true },
        Token { text: "a".to_string(), start: 2, end: 3, colocated: false },
    ]);
    assert_eq!(sorted[0].text, "a");
    assert_eq!((sorted[0].start, sorted[0].end, sorted[0].colocated), (2, 3, false));
    assert_eq!(sorted[1].text, "b");
    assert_eq!((sorted[1].start, sorted[1].end, sorted[1].colocated), (4, 9, true));
}
