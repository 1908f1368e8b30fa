use taglog::parsedquery::ParsedQuery;

#[test]
fn query_parser_removes_plusses() {
    let mut expected: Vec<&str> = Vec::new();
    expected.push("tag");

    let parsed: Vec<String> = ParsedQuery::from("+tag").get_parsed_tags();

    assert_eq!(expected, parsed);
}

#[test]
fn query_parser_separates_on_whitespace() {
    let mut expected: Vec<&str> = Vec::new();
    expected.push("tag");
    expected.push("another");

    let parsed: Vec<String> = ParsedQuery::from("+tag another").get_parsed_tags();

    assert_eq!(expected, parsed);
}

#[test]
fn query_parser_separates_on_plusses() {
    let mut expected: Vec<&str> = Vec::new();
    expected.push("tag");
    expected.push("another");

    let parsed: Vec<String> = ParsedQuery::from("+tag+another").get_parsed_tags();

    assert_eq!(expected, parsed);
}

#[test]
fn generate_plot_title_takes_all_elements_of_vector_and_returns_title() {
    let parsed = vec![
        vec!["something".to_string(), "value".to_string()],
        vec!["tag".to_string()],
        vec!["else".to_string()],
    ];
    let parsed = ParsedQuery::from(parsed);

    let title = parsed.generate_plot_title();

    assert_eq!(title, "Plot for: something, tag, else")
}

#[test]
fn generate_plot_title_sees_exclude_command_and_changes_title_appropriately() {
    let parsed = vec![
        vec!["something".to_string(), "exclude".to_string()],
        vec!["tag".to_string()],
        vec!["else".to_string()],
    ];
    let parsed = ParsedQuery::from(parsed);

    let title = parsed.generate_plot_title();

    assert_eq!(title, "Plot for: without something, tag, else")
}

#[test]
fn modifier_chains_split_on_colons() {
    let parsed = ParsedQuery::from("weight:date:from:2023-10-11");

    assert_eq!(
        parsed.get_raw_parsed(),
        vec![vec![
            "weight".to_string(),
            "date".to_string(),
            "from".to_string(),
            "2023-10-11".to_string()
        ]]
    );
}

#[test]
fn blank_and_sole_empty_queries_are_empty() {
    assert!(ParsedQuery::from("").empty());
    assert!(ParsedQuery::from("   ").empty());
    assert!(ParsedQuery::from("+").empty());
    assert!(!ParsedQuery::from("tag").empty());
}

#[test]
fn can_all_be_found_in_needs_every_required_tag() {
    let parsed = ParsedQuery::from("one two");
    let both = vec!["one".to_string(), "two".to_string(), "three".to_string()];
    let one_missing = vec!["one".to_string()];

    assert!(parsed.can_all_be_found_in(&both));
    assert!(!parsed.can_all_be_found_in(&one_missing));
}

#[test]
fn excluded_terms_do_not_join_the_inclusion_test() {
    let parsed = ParsedQuery::from("one two:exclude");
    let only_one = vec!["one".to_string()];

    assert!(parsed.can_all_be_found_in(&only_one));
}
