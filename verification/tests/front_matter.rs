use content_paulmcbride_com::front_matter::parse_document;

#[test]
fn splits_front_matter_from_the_body() {
    let parsed = parse_document("---\ntitle: Hello\n---\n\nBody text");
    assert!(parsed.data.is_some());
    assert_eq!(parsed.content, "Body text");
}

#[test]
fn text_without_front_matter_is_all_body() {
    let parsed = parse_document("Just text");
    assert!(parsed.data.is_none());
    assert_eq!(parsed.content, "Just text");
}
