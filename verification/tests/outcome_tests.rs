use markdown::outcome::ParseResult;

#[test]
fn or_else_short_circuits_on_success() {
    let mut evaluated = false;
    let r = ParseResult::Success(7).or_else(|| {
        evaluated = true;
        ParseResult::Success(9)
    });
    assert!(matches!(r, ParseResult::Success(7)));
    assert!(!evaluated);
}

#[test]
fn or_else_short_circuits_on_end() {
    let mut evaluated = false;
    let r: ParseResult<u32> = ParseResult::End.or_else(|| {
        evaluated = true;
        ParseResult::Success(9)
    });
    assert!(matches!(r, ParseResult::End));
    assert!(!evaluated);
}

#[test]
fn or_else_tries_alternative_on_no_parse() {
    let mut evaluated = false;
    let r: ParseResult<u32> = ParseResult::NoParse.or_else(|| {
        evaluated = true;
        ParseResult::Success(9)
    });
    assert!(matches!(r, ParseResult::Success(9)));
    assert!(evaluated);
}

#[test]
fn or_else_end_from_alternative_wins() {
    let r: ParseResult<u32> = ParseResult::NoParse.or_else(|| ParseResult::End);
    assert!(matches!(r, ParseResult::End));
}

#[test]
fn map_transforms_only_the_match() {
    let r = ParseResult::Success(3).map(|v: u32| v * 2);
    assert!(matches!(r, ParseResult::Success(6)));
    let n: ParseResult<u32> = ParseResult::NoParse;
    assert!(matches!(n.map(|v: u32| v * 2), ParseResult::NoParse));
    let e: ParseResult<u32> = ParseResult::End;
    assert!(matches!(e.map(|v: u32| v * 2), ParseResult::End));
}

#[test]
fn unwrap_returns_the_payload() {
    assert_eq!(ParseResult::Success(41).unwrap(), 41);
}

#[test]
fn queries_identify_the_variant() {
    let s: ParseResult<u32> = ParseResult::Success(1);
    let n: ParseResult<u32> = ParseResult::NoParse;
    let e: ParseResult<u32> = ParseResult::End;
    assert!(s.is_success() && !s.is_end());
    assert!(!n.is_success() && !n.is_end());
    assert!(!e.is_success() && e.is_end());
}

#[test]
fn to_option_maps_match_and_end() {
    assert_eq!(ParseResult::Success(5).to_option(), Some(5));
    let e: ParseResult<u32> = ParseResult::End;
    assert_eq!(e.to_option(), None);
}
