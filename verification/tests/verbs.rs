use quenya::eng::verbs::{
    is_past_simple, is_present_participle, is_present_simple, make_past_simple,
    make_present_participle, make_present_simple,
};

#[test]
fn it_allows_working() {
    let result = is_present_participle("working");

    assert_eq!(result, Ok("work"));
}

#[test]
fn it_should_not_allow_works() {
    let result = is_present_participle("works");

    assert_eq!(result, Err(()));
}

#[test]
fn it_should_allow_past_simple_of_work() {
    let result = is_past_simple("worked");

    assert_eq!(result, Ok("work"));
}

#[test]
fn it_should_allow_present_simple_of_work() {
    let result = is_present_simple("works");

    assert_eq!(result, Ok("work"));
}

#[test]
fn ending_alone_has_empty_stem() {
    assert_eq!(is_present_participle("ing"), Ok(""));
    assert_eq!(is_present_participle("in"), Err(()));
    assert_eq!(is_present_participle(""), Err(()));
    assert_eq!(is_past_simple("ed"), Ok(""));
    assert_eq!(is_past_simple("closed"), Ok("clos"));
    assert_eq!(is_past_simple("work"), Err(()));
    assert_eq!(is_present_simple("s"), Ok(""));
    assert_eq!(is_present_simple("work"), Err(()));
    assert_eq!(is_present_simple("cafés"), Ok("café"));
}

#[test]
fn forms_are_stem_and_ending() {
    assert_eq!(make_present_simple("work"), "works");
    assert_eq!(make_past_simple("work"), "worked");
    assert_eq!(make_present_participle("work"), "working");
    assert_eq!(make_present_simple(""), "s");
    assert_eq!(is_present_participle(&make_present_participle("walk")), Ok("walk"));
    assert_eq!(is_past_simple(&make_past_simple("walk")), Ok("walk"));
    assert_eq!(is_present_simple(&make_present_simple("walk")), Ok("walk"));
}
