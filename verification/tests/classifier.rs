use scope::axes::PointType;
use scope::classify::{
    bare_one, bare_three, bare_two, decode_bare, decode_captures, deci, handle_caps, list, node,
    one, read_fields, select_grammar, three, two, Classified, Classifier,
};
use scope::decimal::check_decimal;
use scope::level::LEVEL_ZERO;

fn decode(line: &str) -> Classified {
    let classifier = Classifier::new().expect("the grammars compile");
    classifier.classify(line)
}

fn texts(fields: &[&str]) -> Vec<Option<String>> {
    fields.iter().map(|f| Some(String::from(*f))).collect()
}

fn expect_decoded(line: &str, name: &str, fields: Vec<Option<String>>) {
    match decode(line) {
        Classified::Decoded { name: got, fields: got_fields } => {
            assert_eq!(got, name);
            assert_eq!(got_fields, fields);
        }
        other => panic!("{:?}", other),
    }
}

fn expect_passthrough(line: &str) {
    match decode(line) {
        Classified::Passthrough(got) => assert_eq!(got, line),
        other => panic!("{:?}", other),
    }
}

#[test]
fn patterns_are_spelled_out() {
    assert_eq!(deci(), r"[-+]?[0-9]*\.?[0-9]+(?:[eE][-+]?[0-9]+)?");
    let d = deci();
    let sep = r"(?:\s+|,\s*)";
    assert_eq!(bare_one(), format!("^({}){}?$", d, sep));
    assert_eq!(bare_two(), format!("^({}){}({}){}?$", d, sep, d, sep));
    assert_eq!(bare_three(), format!("^({}){}({}){}({}){}?$", d, sep, d, sep, d, sep));
    assert_eq!(one(), format!("~\\.(.+)@\\s*({})", d));
    assert_eq!(two(), format!("~\\.(.+)@\\s*({})\\s*,\\s*({})", d, d));
    assert_eq!(three(), format!("~\\.(.+)@\\s*({})\\s*,\\s*({})\\s*,\\s*({})", d, d, d));
    assert_eq!(list(), format!(r"~#(.+)#(?:(\d+),(\d+))?@((?:(?:{})|,|\(|\)|\s)+)", d));
    assert_eq!(node(), r"~%(.+)@(\d+)\[((?:\d+|,|\s)*)\]");
}

#[test]
fn one_value_line_is_decoded() {
    expect_decoded("~.temp@21.5\n", "temp", texts(&["21.5"]));
}

#[test]
fn two_value_line_is_decoded() {
    expect_decoded("~.temp@22.0,3\n", "temp", texts(&["22.0", "3"]));
}

#[test]
fn three_values_take_precedence() {
    expect_decoded("~.sig@1,2,3", "sig", texts(&["1", "2", "3"]));
}

#[test]
fn three_values_take_precedence_with_spaces_and_signs() {
    expect_decoded("~.sig@ -1.5e3 , +2 ,.25 rest", "sig", texts(&["-1.5e3", "+2", ".25"]));
}

#[test]
fn a_fourth_value_is_not_read() {
    expect_decoded("~.sig@1,2,3,4", "sig", texts(&["1", "2", "3"]));
}

#[test]
fn unmatched_line_is_passed_through_unchanged() {
    expect_passthrough("garbage\n");
    expect_passthrough("");
    expect_passthrough("~.name@\n");
    expect_passthrough("~.@x\n");
    expect_passthrough("  tabs\tand unicode \u{e9}\u{4e16}\n");
}

#[test]
fn bare_numbers_become_points_of_csv() {
    expect_decoded("1,2,3\n", "csv", texts(&["1", "2", "3"]));
    expect_decoded("4.5\n", "csv", texts(&["4.5"]));
    expect_decoded("4.5", "csv", texts(&["4.5"]));
    expect_decoded("1, 2\n", "csv", texts(&["1", "2"]));
    expect_decoded("-1e3,\t+.5", "csv", texts(&["-1e3", "+.5"]));
}

#[test]
fn bare_numbers_parted_by_white_space_keep_their_count() {
    expect_decoded("1 2 3\n", "csv", texts(&["1", "2", "3"]));
    expect_decoded("1 2 3", "csv", texts(&["1", "2", "3"]));
    expect_decoded("1 2\n", "csv", texts(&["1", "2"]));
    expect_decoded("21.5\t-3\n", "csv", texts(&["21.5", "-3"]));
    expect_decoded("1,2 3\r\n", "csv", texts(&["1", "2", "3"]));
    expect_decoded("1  2,  3 ", "csv", texts(&["1", "2", "3"]));
}

#[test]
fn a_comma_may_end_a_bare_line() {
    expect_decoded("1,2,\n", "csv", texts(&["1", "2"]));
    expect_decoded("7,", "csv", texts(&["7"]));
}

#[test]
fn four_bare_numbers_are_passed_through() {
    expect_passthrough("1,2,3,4\n");
    expect_passthrough("1 2 3 4\n");
}

#[test]
fn lines_that_are_not_only_numbers_are_passed_through() {
    expect_passthrough(" 1\n");
    expect_passthrough("1,,2\n");
    expect_passthrough("1 ,2\n");
    expect_passthrough("1 2 x\n");
    expect_passthrough("1.\n");
    expect_passthrough("12a\n");
}

#[test]
fn bare_captures_give_the_values_of_csv() {
    let groups = vec![Some(String::from("1 2")), Some(String::from("1")), Some(String::from("2"))];
    match decode_bare(&groups) {
        Classified::Decoded { name, fields } => {
            assert_eq!(name, "csv");
            assert_eq!(fields, texts(&["1", "2"]));
        }
        other => panic!("{:?}", other),
    }
    let groups = vec![Some(String::from("x")), Some(String::from("x"))];
    match decode_bare(&groups) {
        Classified::Malformed { name } => assert_eq!(name, "csv"),
        other => panic!("{:?}", other),
    }
}

#[test]
fn fields_are_read_from_their_place_on() {
    let groups = vec![Some(String::from("a")), None, Some(String::from("2")), Some(String::from("x"))];
    assert_eq!(read_fields(&groups, 1), None);
    assert_eq!(read_fields(&groups, 3), None);
    assert_eq!(read_fields(&groups[..3].to_vec(), 0), None);
    assert_eq!(read_fields(&groups[..3].to_vec(), 1), Some(vec![None, Some(String::from("2"))]));
    assert_eq!(read_fields(&groups, 4), Some(Vec::new()));
    assert_eq!(read_fields(&groups, 9), Some(Vec::new()));
}

#[test]
fn list_with_one_number_is_decoded() {
    expect_decoded("~#grid#2,3@7.5", "grid", texts(&["2", "3", "7.5"]));
}

#[test]
fn list_without_dimensions_has_missing_fields() {
    expect_decoded("~#grid#@7.5", "grid", vec![None, None, Some(String::from("7.5"))]);
}

#[test]
fn list_with_a_matrix_is_malformed() {
    match decode("~#grid#2,2@(1,2),(3,4)") {
        Classified::Malformed { name } => assert_eq!(name, "grid"),
        other => panic!("{:?}", other),
    }
}

#[test]
fn node_with_one_index_is_decoded() {
    expect_decoded("~%tree@12[5]", "tree", texts(&["12", "5"]));
}

#[test]
fn node_with_several_indices_is_malformed() {
    match decode("~%tree@12[5, 6]") {
        Classified::Malformed { name } => assert_eq!(name, "tree"),
        other => panic!("{:?}", other),
    }
}

#[test]
fn node_wins_over_the_value_grammars() {
    expect_decoded("~.a@1 ~%tree@12[5]", "tree", texts(&["12", "5"]));
}

#[test]
fn the_greatest_matching_grammar_is_selected() {
    assert_eq!(select_grammar(&vec![]), None);
    assert_eq!(select_grammar(&vec![0]), Some(0));
    assert_eq!(select_grammar(&vec![0, 1, 2]), Some(2));
    assert_eq!(select_grammar(&vec![0, 4]), Some(4));
    assert_eq!(select_grammar(&vec![3, 1]), Some(3));
}

#[test]
fn captures_without_a_name_are_passed_through() {
    let groups = vec![Some(String::from("whole")), None, Some(String::from("1"))];
    match decode_captures(&groups, "line") {
        Classified::Passthrough(line) => assert_eq!(line, "line"),
        other => panic!("{:?}", other),
    }
    match decode_captures(&vec![Some(String::from("whole"))], "line") {
        Classified::Passthrough(line) => assert_eq!(line, "line"),
        other => panic!("{:?}", other),
    }
}

#[test]
fn captures_with_a_bad_field_are_malformed() {
    let groups = vec![
        Some(String::from("whole")),
        Some(String::from("sig")),
        Some(String::from("1")),
        Some(String::from("1.")),
    ];
    match decode_captures(&groups, "line") {
        Classified::Malformed { name } => assert_eq!(name, "sig"),
        other => panic!("{:?}", other),
    }
}

#[test]
fn captures_give_name_and_fields() {
    let groups = vec![
        Some(String::from("whole")),
        Some(String::from("sig")),
        None,
        Some(String::from("-2e5")),
    ];
    match decode_captures(&groups, "line") {
        Classified::Decoded { name, fields } => {
            assert_eq!(name, "sig");
            assert_eq!(fields, vec![None, Some(String::from("-2e5"))]);
        }
        other => panic!("{:?}", other),
    }
}

#[test]
fn decimals_are_recognised() {
    for good in ["0", "12", "-12", "+12", "1.5", ".5", "-.5", "1e5", "1E5", "1.5e-3", "+0.0E+0", "007"] {
        assert!(check_decimal(good), "{}", good);
    }
    for bad in ["", "-", "+", ".", "1.", "1.e5", "e5", "1e", "1e+", "1e5.0", "1 ", " 1", "1,2", "--1", "1.2.3", "0x10", "inf", "NaN", "1e5e5", "\u{664}"] {
        assert!(!check_decimal(bad), "{}", bad);
    }
}

#[test]
fn every_decimal_is_read_as_a_float() {
    for good in ["0", "12", "-12", "+12", "1.5", ".5", "-.5", "1e5", "1E5", "1.5e-3", "+0.0E+0", "1e999"] {
        assert!(check_decimal(good));
        assert!(good.parse::<f64>().is_ok(), "{}", good);
    }
}

#[test]
fn one_to_three_fields_make_a_point() {
    let p = handle_caps(String::from("a"), &vec![Some(7)], Some(100), 3);
    assert_eq!(p.name, "a");
    assert_eq!(p.line_number, 3);
    assert_eq!(p.timestamp, Some(100));
    assert_eq!(p.ty, PointType::D1);
    assert_eq!((p.x, p.y, p.z), (Some(7), None, None));
    let p = handle_caps(String::from("a"), &vec![Some(7), Some(-8)], None, 0);
    assert_eq!(p.ty, PointType::D2);
    assert_eq!(p.timestamp, None);
    assert_eq!((p.x, p.y, p.z), (Some(7), Some(-8), None));
    let p = handle_caps(String::from("a"), &vec![Some(7), Some(-8), Some(9)], None, 0);
    assert_eq!(p.ty, PointType::D3);
    assert_eq!((p.x, p.y, p.z), (Some(7), Some(-8), Some(9)));
}

#[test]
fn a_missing_field_counts_as_zero() {
    let p = handle_caps(String::from("grid"), &vec![None, None, Some(5)], Some(1), 0);
    assert_eq!(p.ty, PointType::D3);
    assert_eq!((p.x, p.y, p.z), (Some(LEVEL_ZERO), Some(LEVEL_ZERO), Some(5)));
}

#[test]
fn any_other_count_makes_a_break_point() {
    let p = handle_caps(String::from("a"), &vec![], Some(1), 9);
    assert_eq!(p.ty, PointType::BreakPoint);
    assert_eq!((p.x, p.y, p.z), (None, None, None));
    assert_eq!(p.line_number, 9);
    let p = handle_caps(String::from("a"), &vec![Some(1), Some(2), Some(3), Some(4)], Some(1), 9);
    assert_eq!(p.ty, PointType::BreakPoint);
    assert_eq!((p.x, p.y, p.z), (None, None, None));
}

fn compiled_grammars() -> Vec<Result<regex::Regex, regex::Error>> {
    [one(), two(), three(), list(), node()].iter().map(|p| regex::Regex::new(p)).collect()
}

fn compiled_bares() -> Vec<Result<regex::Regex, regex::Error>> {
    [bare_one(), bare_two(), bare_three()].iter().map(|p| regex::Regex::new(p)).collect()
}

fn compiled_set() -> Result<regex::RegexSet, regex::Error> {
    regex::RegexSet::new([one(), two(), three(), list(), node()])
}

#[test]
fn the_patterns_are_accepted() {
    assert!(Classifier::new().is_some());
}

#[test]
fn accepted_patterns_make_a_classifier() {
    let made = Classifier::from_compiled(compiled_set(), compiled_grammars(), compiled_bares());
    let classifier = made.expect("every pattern was accepted");
    match classifier.classify("~.sig@1,2") {
        Classified::Decoded { name, fields } => {
            assert_eq!(name, "sig");
            assert_eq!(fields, texts(&["1", "2"]));
        }
        other => panic!("{:?}", other),
    }
    match classifier.classify("1 2 3") {
        Classified::Decoded { name, fields } => {
            assert_eq!(name, "csv");
            assert_eq!(fields, texts(&["1", "2", "3"]));
        }
        other => panic!("{:?}", other),
    }
}

#[test]
fn a_refused_pattern_makes_no_classifier() {
    let refused = || regex::Regex::new("(");
    assert!(refused().is_err());
    assert!(Classifier::from_compiled(regex::RegexSet::new(["("]), compiled_grammars(), compiled_bares()).is_none());
    for at in 0..5 {
        let mut grammars = compiled_grammars();
        grammars[at] = refused();
        assert!(Classifier::from_compiled(compiled_set(), grammars, compiled_bares()).is_none());
    }
    for at in 0..3 {
        let mut bares = compiled_bares();
        bares[at] = refused();
        assert!(Classifier::from_compiled(compiled_set(), compiled_grammars(), bares).is_none());
    }
}

#[test]
fn too_few_or_too_many_patterns_make_no_classifier() {
    let mut few = compiled_grammars();
    few.pop();
    assert!(Classifier::from_compiled(compiled_set(), few, compiled_bares()).is_none());
    let mut many = compiled_grammars();
    many.push(regex::Regex::new("x"));
    assert!(Classifier::from_compiled(compiled_set(), many, compiled_bares()).is_none());
    assert!(Classifier::from_compiled(compiled_set(), Vec::new(), compiled_bares()).is_none());
    let mut few = compiled_bares();
    few.pop();
    assert!(Classifier::from_compiled(compiled_set(), compiled_grammars(), few).is_none());
    let mut many = compiled_bares();
    many.push(regex::Regex::new("x"));
    assert!(Classifier::from_compiled(compiled_set(), compiled_grammars(), many).is_none());
}
