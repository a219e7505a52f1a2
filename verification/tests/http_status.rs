use content_paulmcbride_com::http_status::is_success_status;

#[test]
fn only_2xx_statuses_succeed() {
    assert!(is_success_status(200));
    assert!(is_success_status(299));
    assert!(!is_success_status(199));
    assert!(!is_success_status(300));
    assert!(!is_success_status(404));
}
