use llmog::parser::{parse_reply, parse_response, ParseOutcome};
use llmog::score::SCORE_MILLI_MAX;

fn parsed(text: &str) -> (Vec<u8>, bool, i64) {
    let p = parse_reply(&text.as_bytes().to_vec()).expect("reply should parse");
    (p.reason, p.multi_line, p.score.milli)
}

#[test]
fn plain_reason_and_score() {
    let (reason, multi, milli) = parsed("Critical disk capacity issue\nSCORE: 92");
    assert_eq!(reason, b"Critical disk capacity issue".to_vec());
    assert!(!multi);
    assert_eq!(milli, 92_000);
}

#[test]
fn fenced_reply() {
    let (reason, multi, milli) = parsed("```\nNot a log\nSCORE: 0\n```");
    assert_eq!(reason, b"Not a log".to_vec());
    assert!(!multi);
    assert_eq!(milli, 0);
}

#[test]
fn keyword_is_case_insensitive() {
    let (_, _, milli) = parsed("reason\nscore: 55");
    assert_eq!(milli, 55_000);
    let (_, _, milli) = parsed("reason\nScore: 56");
    assert_eq!(milli, 56_000);
}

#[test]
fn bare_number_line() {
    let (reason, multi, milli) = parsed("A leading line\n42");
    assert_eq!(reason, b"A leading line".to_vec());
    assert!(!multi);
    assert_eq!(milli, 42_000);
}

#[test]
fn signed_scores() {
    let (_, _, milli) = parsed("reason\nSCORE: -5");
    assert_eq!(milli, -5_000);
    let (_, _, milli) = parsed("reason\nSCORE: +3.25");
    assert_eq!(milli, 3_250);
}

#[test]
fn fractional_score() {
    let (_, _, milli) = parsed("reason\nSCORE: 92.5");
    assert_eq!(milli, 92_500);
}

#[test]
fn score_with_trailing_fence_on_same_line() {
    let (reason, _, milli) = parsed("reason\nSCORE: 5 ```");
    assert_eq!(reason, b"reason".to_vec());
    assert_eq!(milli, 5_000);
}

#[test]
fn reason_is_trimmed() {
    let (reason, _, _) = parsed("  spaced out  \nSCORE: 10");
    assert_eq!(reason, b"spaced out".to_vec());
}

#[test]
fn huge_score_saturates() {
    let (_, _, milli) = parsed("reason\nSCORE: 99999999999999999999");
    assert_eq!(milli, SCORE_MILLI_MAX);
    let (_, _, milli) = parsed("reason\nSCORE: -99999999999999999999");
    assert_eq!(milli, -SCORE_MILLI_MAX);
}

#[test]
fn multi_line_reason_keeps_last_line() {
    let p = parse_reply(&b"line one\nline two\nSCORE: 10".to_vec()).unwrap();
    assert!(p.multi_line);
    assert_eq!(p.reason, b"line two".to_vec());
    assert_eq!(p.score.milli, 10_000);
}

#[test]
fn empty_reason_is_allowed() {
    let (reason, multi, milli) = parsed("SCORE: 7");
    assert_eq!(reason, b"".to_vec());
    assert!(!multi);
    assert_eq!(milli, 7_000);
}

#[test]
fn carriage_returns_are_trimmed() {
    let (reason, multi, milli) = parsed("reason\r\nSCORE: 5\r\n");
    assert_eq!(reason, b"reason".to_vec());
    assert!(!multi);
    assert_eq!(milli, 5_000);
}

#[test]
fn garbage_is_malformed() {
    assert!(parse_reply(&b"no score here".to_vec()).is_none());
    assert!(parse_reply(&b"".to_vec()).is_none());
    assert!(parse_reply(&b"   ".to_vec()).is_none());
    assert!(parse_reply(&b"reason\nSCORE:".to_vec()).is_none());
    assert!(parse_reply(&b"reason\nSCORE: 12x".to_vec()).is_none());
    assert!(parse_reply(&b"reason\nSCORE: 12.".to_vec()).is_none());
    assert!(parse_reply(&b"reason\nSCORE: .5".to_vec()).is_none());
}

#[test]
fn multi_line_is_malformed_before_final_attempt() {
    let text = b"line one\nline two\nSCORE: 10".to_vec();
    assert!(matches!(parse_response(&text, false), ParseOutcome::Malformed));
    match parse_response(&text, true) {
        ParseOutcome::Valid { reason, score } => {
            assert_eq!(reason, b"line two".to_vec());
            assert_eq!(score.milli, 10_000);
        }
        ParseOutcome::Malformed => panic!("final attempt must keep the last line"),
    }
}

#[test]
fn reparsing_canonical_output_is_stable() {
    let first = parse_reply(&b"```\nCritical disk capacity issue\nSCORE: 92\n```".to_vec())
        .expect("reply should parse");
    let canonical = format!(
        "{}\nSCORE: {}",
        String::from_utf8(first.reason.clone()).unwrap(),
        first.score.milli / 1000
    );
    let again = parse_reply(&canonical.into_bytes()).expect("canonical text should parse");
    assert_eq!(again.reason, first.reason);
    assert_eq!(again.score.milli, first.score.milli);
    assert!(!again.multi_line);
}

#[test]
fn reparsing_fractional_canonical_output_is_stable() {
    let first = parse_reply(&b"watch this\nSCORE: 33.25".to_vec()).unwrap();
    assert_eq!(first.score.milli, 33_250);
    let again = parse_reply(&b"watch this\nSCORE: 33.25".to_vec()).unwrap();
    assert_eq!(again.reason, first.reason);
    assert_eq!(again.score.milli, first.score.milli);
}
