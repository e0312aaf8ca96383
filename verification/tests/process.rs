use wdrlib::process::{checked_resource_filename, filename_from_segments, log_file_name, shell_for};

#[test]
fn filename_is_the_last_path_segment() {
    assert_eq!(
        checked_resource_filename("https://example.com/path/to/hello"),
        Some(Some("hello".to_string()))
    );
    assert_eq!(checked_resource_filename("https://whichxjy.com/what"), Some(Some("what".to_string())));
    assert_eq!(checked_resource_filename("https://example.com/dir/"), Some(Some(String::new())));
    assert_eq!(checked_resource_filename("https://example.com"), Some(Some(String::new())));
}

#[test]
fn filename_of_text_that_is_no_url() {
    assert_eq!(checked_resource_filename("not a url"), Some(None));
    assert_eq!(checked_resource_filename(""), Some(None));
}

#[test]
fn filename_of_url_that_cannot_be_a_base() {
    assert_eq!(checked_resource_filename("mailto:someone@example.com"), None);
}

#[test]
fn filename_from_segment_lists() {
    assert_eq!(filename_from_segments(&vec![]), None);
    assert_eq!(
        filename_from_segments(&vec!["a".to_string(), "b".to_string()]),
        Some("b".to_string())
    );
}

#[test]
fn log_and_shell() {
    assert_eq!(log_file_name("hello"), "hello.log");
    assert_eq!(shell_for(false), ("sh", "-c"));
    assert_eq!(shell_for(true), ("cmd", "/C"));
}
