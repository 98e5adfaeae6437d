use eddie::config_aggregator::get_aggregated_tomls;

#[test]
fn test_read_appropriate_toml_data() {
    let contents = vec![
        String::from("[build]\nname = 'Build'"),
        String::from("[check]\nname = 'Check'"),
    ];
    let merged = get_aggregated_tomls(&contents);
    assert_eq!(merged, "[build]\nname = 'Build'\n[check]\nname = 'Check'");
}

#[test]
fn aggregating_no_documents_gives_empty_text() {
    let contents: Vec<String> = vec![];
    assert_eq!(get_aggregated_tomls(&contents), "");
}

#[test]
fn aggregating_one_document_keeps_it_unchanged() {
    let contents = vec![String::from("[a]\nname = 'A'")];
    assert_eq!(get_aggregated_tomls(&contents), "[a]\nname = 'A'");
}
