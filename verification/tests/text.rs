use crab::text::trim_end_matches;

#[test]
fn trailing_run_is_taken_off() {
    assert_eq!(trim_end_matches("name:", ':'), "name");
    assert_eq!(trim_end_matches("name:::", ':'), "name");
    assert_eq!(trim_end_matches("na:me", ':'), "na:me");
    assert_eq!(trim_end_matches(":name", ':'), ":name");
    assert_eq!(trim_end_matches(":::", ':'), "");
    assert_eq!(trim_end_matches("", ':'), "");
    assert_eq!(trim_end_matches("prix €€", '€'), "prix ");
    assert_eq!(trim_end_matches("été:", ':'), "été");
}
