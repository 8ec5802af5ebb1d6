#[test]
fn health_check_test_test_nothing() {
    let me = "make my IDE recognize this as a test mod!";
    assert_ne!("not testing", me);
}
