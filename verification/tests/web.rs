use mcmonarch::web::{
    delimited_string_try_into_vec, response_path, FailReason, Outcome, ParseError,
};

fn make_valid_u8_vec_string(input: &str) -> String {
    Vec::<u8>::from(input)
        .iter()
        .map(|b| format!("{},", b))
        .collect()
}

#[test]
fn convert_cds_to_vec() {
    let expected = "Hi my name is dingus";
    let input = make_valid_u8_vec_string(expected);
    assert_eq!(
        Vec::<u8>::from(expected),
        delimited_string_try_into_vec(&input, ",").unwrap()
    );
}

#[test]
fn fail_convert_cds_to_vec_empty_parse() {
    let start: Vec<u8> = "me amo es dingus".into();
    let input: String = start.iter().map(|&b| format!(",{},", b)).collect();
    assert!(delimited_string_try_into_vec(&input, ",").is_err());
}

#[test]
fn convert_cds_rejects_empty() {
    let input = make_valid_u8_vec_string("");
    assert!(delimited_string_try_into_vec(&input, ",").is_err());
}

#[test]
fn check_calls_verify_with_expected() {
    let input = make_valid_u8_vec_string("je m'appele dingus");
    let bytes = delimited_string_try_into_vec(&input, ",").unwrap();
    assert_eq!(Vec::<u8>::from("je m'appele dingus"), bytes);
    assert_eq!(
        "mcmonarch_web/static/verified.html",
        response_path(&Outcome::Granted)
    );
}

#[test]
fn payload_grammar_cases() {
    assert_eq!(
        vec![104u8, 105, 33],
        delimited_string_try_into_vec("104,105,33", ",").unwrap()
    );
    assert_eq!(
        Err(ParseError::Empty),
        delimited_string_try_into_vec("", ",")
    );
    // a single trailing delimiter is tolerated and stripped
    assert_eq!(
        vec![104u8, 105],
        delimited_string_try_into_vec("104,105,", ",").unwrap()
    );
    // an internal empty element is an error
    assert_eq!(
        Err(ParseError::BadElement),
        delimited_string_try_into_vec(",104,105,", ",")
    );
    assert_eq!(
        Err(ParseError::BadElement),
        delimited_string_try_into_vec("104,,105", ",")
    );
}

#[test]
fn payload_rejects_malformed_elements() {
    // beyond a byte's range
    assert_eq!(
        Err(ParseError::BadElement),
        delimited_string_try_into_vec("104,256", ",")
    );
    // not a number
    assert_eq!(
        Err(ParseError::BadElement),
        delimited_string_try_into_vec("104,x", ",")
    );
    // a lone delimiter leaves one empty element
    assert_eq!(
        Err(ParseError::BadElement),
        delimited_string_try_into_vec(",", ",")
    );
    // boundary values parse
    assert_eq!(
        vec![0u8, 255],
        delimited_string_try_into_vec("0,255,", ",").unwrap()
    );
}

#[test]
fn every_failure_gets_the_same_page() {
    let verified = response_path(&Outcome::Granted);
    assert_eq!("mcmonarch_web/static/verified.html", verified);
    for reason in [FailReason::Parse, FailReason::Crypto, FailReason::Grant] {
        assert_eq!(
            "mcmonarch_web/static/failed.html",
            response_path(&Outcome::Failed(reason))
        );
    }
}
