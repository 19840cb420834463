use inquest::abbreviation::expand_abbreviation;

fn names(list: &[&str]) -> Vec<String> {
    list.iter().map(|s| s.to_string()).collect()
}

#[test]
fn unique_single_letter_pair() {
    let tests = names(&["breezy.tests.test_foo", "breezy.tests.test_bar"]);
    let got = expand_abbreviation("bt.test_foo", &tests).unwrap();
    assert_eq!(got, "breezy.tests.test_foo");
}

#[test]
fn three_letter_prefix() {
    let tests = names(&[
        "breezy.tests.bzr.test_x",
        "breezy.tests.git.test_y",
        "breezy.tests.test_top",
    ]);
    let got = expand_abbreviation("btb.test_x", &tests).unwrap();
    assert_eq!(got, "breezy.tests.bzr.test_x");
}

#[test]
fn literal_segment_passes_through() {
    let tests = names(&["breezy.tests.test_foo"]);
    let got = expand_abbreviation("breezy.tests.test_foo", &tests).unwrap();
    assert_eq!(got, "breezy.tests.test_foo");
}

#[test]
fn mixed_literal_and_abbrev() {
    let tests = names(&["breezy.tests.bzr.test_x"]);
    let got = expand_abbreviation("breezy.tb.test_x", &tests).unwrap();
    assert_eq!(got, "breezy.tests.bzr.test_x");
}

#[test]
fn no_tail_piece() {
    let tests = names(&["breezy.tests.test_foo", "breezy.tests.test_bar"]);
    let got = expand_abbreviation("bt", &tests).unwrap();
    assert_eq!(got, "breezy.tests");
}

#[test]
fn ambiguous_fails() {
    // Two distinct top-level segments both start with 'b', and each has
    // a child starting with 't', so 'bt' could mean either 'breezy.tests'
    // or 'boring.tools'.
    let tests = names(&["breezy.tests.x", "boring.tools.x"]);
    let err = expand_abbreviation("bt.x", &tests).unwrap_err();
    let msg = err.message();
    assert!(msg.contains("ambiguous"), "{}", msg);
}

#[test]
fn no_match_fails() {
    let tests = names(&["breezy.tests.test_foo"]);
    let err = expand_abbreviation("zz.x", &tests).unwrap_err();
    let msg = err.message();
    assert!(msg.contains("no known tests"), "{}", msg);
}

#[test]
fn empty_input_fails() {
    let tests = names(&["a.b.c"]);
    let err = expand_abbreviation("", &tests).unwrap_err();
    assert!(err.message().contains("empty abbreviation"));
}

#[test]
fn first_letter_collision_resolved_by_second() {
    // Two top-level segments start with 'b', but only one has a child
    // starting with 't', so 'bt' is unambiguous.
    let tests = names(&[
        "breezy.tests.test_a",
        "breezy.tests.test_b",
        "boring.utils.helper",
    ]);
    let got = expand_abbreviation("bt.test_a", &tests).unwrap();
    assert_eq!(got, "breezy.tests.test_a");
}

#[test]
fn empty_segments_handled() {
    // Abbreviation longer than test path must not match.
    let tests = names(&["a.b"]);
    let err = expand_abbreviation("abc.x", &tests).unwrap_err();
    assert!(err.message().contains("no known tests"));
}

#[test]
fn ambiguity_lists_what_is_possible() {
    let tests = names(&["breezy.tests.x", "boring.tools.x"]);
    assert_eq!(
        expand_abbreviation("bt.x", &tests).unwrap_err().message(),
        "Configuration error: abbreviation 'bt.x' is ambiguous; could expand to: boring.tools, \
         breezy.tests"
    );
}

#[test]
fn known_names_stand_for_themselves() {
    let tests = names(&["a.b.c", "a.x.d"]);
    assert_eq!(expand_abbreviation("a.b.c", &tests).unwrap(), "a.b.c");
    assert_eq!(expand_abbreviation("a", &tests).unwrap(), "a");
}

#[test]
fn one_character_is_no_initial() {
    let tests = names(&["breezy.test_foo"]);
    assert_eq!(
        expand_abbreviation("b.test_foo", &tests).unwrap_err().message(),
        "Configuration error: abbreviation 'b.test_foo' matches no known tests"
    );
    let tests = names(&["b.test_foo", "breezy.test_foo"]);
    assert_eq!(expand_abbreviation("b.test_foo", &tests).unwrap(), "b.test_foo");
}

#[test]
fn the_order_and_number_of_known_names_do_not_matter() {
    let one = names(&["breezy.tests.x", "boring.tools.x"]);
    let other = names(&["boring.tools.x", "breezy.tests.x", "boring.tools.x"]);
    assert_eq!(
        expand_abbreviation("bt.x", &one).unwrap_err().message(),
        expand_abbreviation("bt.x", &other).unwrap_err().message()
    );
    let again = names(&["breezy.tests.y", "breezy.tests.x", "breezy.tests.x"]);
    assert_eq!(expand_abbreviation("bt.x", &again).unwrap(), "breezy.tests.x");
}
