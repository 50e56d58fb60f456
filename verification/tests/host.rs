use baize::host::{
    create, emissions, next_action, tokenize, Action, Emission, FTS5_TOKENIZE_DOCUMENT,
    FTS5_TOKEN_COLOCATED, SQLITE_ERROR, SQLITE_OK,
};
use baize::tokenize::{ErrorCode, JiebaEngine, Porter, Simple, Token, TokenizerImpl};

/// An engine that refuses every argument list and every text.
struct Refusing;

impl TokenizerImpl for Refusing {
    fn new(_args: &[&[u8]]) -> Result<Self, ErrorCode> {
        Err(ErrorCode::new(7).unwrap())
    }

    fn tokenize(&self, _text: &str, _flags: i32) -> Result<Vec<Token>, ErrorCode> {
        Err(ErrorCode::new(21).unwrap())
    }
}

/// Hands a plan over as the bridge does, with a callback that answers the
/// emission with index `i` with `answers[i]`.
fn hand_over(plan: &Vec<Emission>, answers: &[i32]) -> (Vec<usize>, i32) {
    let mut handed = Vec::new();
    let mut last = SQLITE_OK;
    loop {
        match next_action(plan, handed.len(), last) {
            Action::Emit(i) => {
                last = answers[i];
                handed.push(i);
            }
            Action::Return(status) => return (handed, status),
        }
    }
}

fn token(text: &str, start: usize, end: usize, colocated: bool) -> Token {
    Token { text: text.to_string(), start, end, colocated }
}

#[test]
fn the_constants_are_the_hosts() {
    assert_eq!(SQLITE_OK, rusqlite::ffi::SQLITE_OK as i32);
    assert_eq!(SQLITE_ERROR, rusqlite::ffi::SQLITE_ERROR as i32);
    assert_eq!(FTS5_TOKENIZE_DOCUMENT, rusqlite::ffi::FTS5_TOKENIZE_DOCUMENT as i32);
    assert_eq!(FTS5_TOKEN_COLOCATED, rusqlite::ffi::FTS5_TOKEN_COLOCATED as i32);
}

#[test]
fn error_codes_are_never_zero() {
    assert!(ErrorCode::new(0).is_none());
    assert_eq!(ErrorCode::new(1).unwrap().get(), 1);
    assert_eq!(ErrorCode::new(-3).unwrap().get(), -3);
    assert_eq!(ErrorCode::new(i32::MIN).unwrap().get(), i32::MIN);
}

#[test]
fn create_gives_the_engine_or_its_status() {
    let args: Vec<&[u8]> = vec![b"a", b"b"];
    assert!(create::<Simple>(&args).is_ok());
    assert!(create::<Porter>(&[]).is_ok());
    assert!(create::<JiebaEngine>(&[]).is_ok());
    assert!(matches!(create::<Refusing>(&args), Err(7)));
}

#[test]
fn bytes_that_are_no_utf8_are_refused() {
    let engine = Simple {};
    for bytes in [&[0xffu8][..], &[b'a', 0x80], &[0xe5, 0x9c], &[0xed, 0xa0, 0x80], &[0xc0, 0xaf]] {
        assert!(matches!(tokenize(&engine, 0, bytes), Err(SQLITE_ERROR)));
    }
}

#[test]
fn the_engines_status_is_passed_on() {
    assert!(matches!(tokenize(&Refusing, 0, b"abc"), Err(21)));
    assert!(matches!(tokenize(&Refusing, 0, &[0xff]), Err(SQLITE_ERROR)));
}

#[test]
fn each_token_is_planned_with_its_length_and_span() {
    let engine = Simple {};
    let plan = tokenize(&engine, FTS5_TOKENIZE_DOCUMENT, "Hello, 世界 1,000".as_bytes()).unwrap();
    let seen: Vec<_> =
        plan.iter().map(|e| (e.flags, e.text.as_str(), e.len, e.start, e.end)).collect();
    assert_eq!(
        seen,
        vec![
            (0, "hello", 5, 0, 5),
            (0, "世", 3, 7, 10),
            (0, "界", 3, 10, 13),
            (0, "1000", 4, 14, 19),
        ]
    );
    assert!(tokenize(&engine, 0, b"").unwrap().is_empty());
}

#[test]
fn the_stemming_engine_is_planned_with_the_stems_length() {
    let plan = tokenize(&Porter {}, 0, b"totally lazy").unwrap();
    let seen: Vec<_> = plan.iter().map(|e| (e.text.as_str(), e.len, e.start, e.end)).collect();
    assert_eq!(seen, vec![("total", 5, 0, 7), ("lazi", 4, 8, 12)]);
}

#[test]
fn colocated_tokens_carry_the_flag() {
    let plan = emissions(vec![
        token("run", 0, 7, false),
        token("running", 0, 7, true),
        token("超", 8, 11, false),
    ])
    .unwrap();
    let seen: Vec<_> =
        plan.iter().map(|e| (e.flags, e.text.as_str(), e.len, e.start, e.end)).collect();
    assert_eq!(
        seen,
        vec![
            (0, "run", 3, 0, 7),
            (FTS5_TOKEN_COLOCATED, "running", 7, 0, 7),
            (0, "超", 3, 8, 11),
        ]
    );
    assert!(emissions(Vec::new()).unwrap().is_empty());
}

#[test]
fn numbers_too_large_for_the_host_are_refused() {
    let max = i32::MAX as usize;
    assert!(emissions(vec![token("a", max - 1, max, false)]).is_ok());
    assert!(matches!(emissions(vec![token("a", max, max + 1, false)]), Err(SQLITE_ERROR)));
    assert!(matches!(emissions(vec![token("a", max + 1, max + 2, false)]), Err(SQLITE_ERROR)));
    assert!(matches!(
        emissions(vec![token("a", 0, 1, false), token("b", 1, max + 1, false)]),
        Err(SQLITE_ERROR)
    ));
}

#[test]
fn all_are_handed_over_while_the_callback_accepts() {
    let plan = tokenize(&Simple {}, 0, b"one two three").unwrap();
    assert_eq!(hand_over(&plan, &[0, 0, 0]), (vec![0, 1, 2], SQLITE_OK));
    let none = tokenize(&Simple {}, 0, b" ").unwrap();
    assert_eq!(hand_over(&none, &[]), (vec![], SQLITE_OK));
}

#[test]
fn the_hand_over_stops_at_the_first_refusal() {
    let plan = tokenize(&Simple {}, 0, b"one two three").unwrap();
    assert_eq!(hand_over(&plan, &[0, 4, 0]), (vec![0, 1], 4));
    assert_eq!(hand_over(&plan, &[9, 0, 0]), (vec![0], 9));
    assert_eq!(hand_over(&plan, &[0, 0, -5]), (vec![0, 1, 2], -5));
    assert_eq!(hand_over(&plan, &[3, 4, 5]), (vec![0], 3));
}

#[test]
fn next_action_ignores_the_answer_before_the_first_emission() {
    let plan = tokenize(&Simple {}, 0, b"one two").unwrap();
    assert_eq!(next_action(&plan, 0, 5), Action::Emit(0));
    assert_eq!(next_action(&plan, 1, 0), Action::Emit(1));
    assert_eq!(next_action(&plan, 1, 5), Action::Return(5));
    assert_eq!(next_action(&plan, 2, 0), Action::Return(SQLITE_OK));
    assert_eq!(next_action(&plan, 2, 6), Action::Return(6));
    let none: Vec<Emission> = Vec::new();
    assert_eq!(next_action(&none, 0, 0), Action::Return(SQLITE_OK));
    assert_eq!(next_action(&none, 0, 8), Action::Return(SQLITE_OK));
}

#[test]
fn jieba_is_planned_through_the_same_bridge() {
    let engine = create::<JiebaEngine>(&[]).unwrap();
    let plan = tokenize(&engine, 0, "我来到北京".as_bytes()).unwrap();
    let seen: Vec<_> =
        plan.iter().map(|e| (e.flags, e.text.as_str(), e.len, e.start, e.end)).collect();
    assert_eq!(seen, vec![(0, "我", 3, 0, 3), (0, "来到", 6, 3, 9), (0, "北京", 6, 9, 15)]);
}
