use geogroup::apply::target_file_name;

#[test]
fn plain_name_stays() {
    assert_eq!(target_file_name("Prague", None, None), "Prague");
}

#[test]
fn name_is_sanitised_and_gets_the_extension() {
    assert_eq!(target_file_name("a/b", Some("jpg"), None), "a_b.jpg");
}

#[test]
fn retries_are_numbered() {
    assert_eq!(target_file_name("a/b", Some("jpg"), Some(3)), "a_b_0003.jpg");
    assert_eq!(target_file_name("x", None, Some(12345)), "x_12345");
}

#[test]
fn empty_name_is_replaced() {
    assert_eq!(target_file_name("", None, None), "_");
}

#[test]
fn attempt_numbers_are_zero_padded() {
    assert_eq!(target_file_name("x", None, Some(0)), "x_0000");
    assert_eq!(target_file_name("x", None, Some(9)), "x_0009");
    assert_eq!(target_file_name("x", None, Some(10)), "x_0010");
    assert_eq!(target_file_name("x", None, Some(999)), "x_0999");
    assert_eq!(target_file_name("x", None, Some(1000)), "x_1000");
    assert_eq!(target_file_name("x", None, Some(usize::MAX)), format!("x_{}", usize::MAX));
}
