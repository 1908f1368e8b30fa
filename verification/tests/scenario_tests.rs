use taglog::datastore::Datastore;

#[test]
fn it_works() {
    let result = taglog::add(2, 2);
    assert_eq!(result, 4);
}

#[test]
fn get_str_returns_the_fixed_greeting() {
    assert_eq!(taglog::get_str(), "This string came from the domain");
}

#[test]
fn sleep_scenario_groups_split_by_drink() {
    let mut datastore = Datastore::new();
    datastore.add_datapoint("6 hours +sleep +coffee");
    datastore.add_datapoint("7 hours +sleep +coffee");
    datastore.add_datapoint("7 hours +sleep +tea");
    datastore.add_datapoint("8 hours +sleep +tea");

    let coffee = datastore.query("sleep coffee");
    let tea = datastore.query("sleep tea");

    let coffee_values: Vec<f64> = coffee
        .get_numeric_texts()
        .iter()
        .map(|t| t.parse::<f64>().unwrap())
        .collect();
    let tea_values: Vec<f64> = tea
        .get_numeric_texts()
        .iter()
        .map(|t| t.parse::<f64>().unwrap())
        .collect();

    assert_eq!(coffee_values, vec![6.0, 7.0]);
    assert_eq!(tea_values, vec![7.0, 8.0]);
}

#[test]
fn value_modifier_keeps_only_the_number() {
    let mut datastore = Datastore::new();
    datastore.add_datapoint("8kg +curl");

    let queryresult = datastore.query("curl:value");

    assert_eq!(queryresult.get_datapoints()[0].get_data(), "8");
}

#[test]
fn query_on_two_tags_returns_only_entries_with_both() {
    let mut datastore = Datastore::new();
    datastore.add_datapoint("both +a +b");
    datastore.add_datapoint("only first +a");
    datastore.add_datapoint("only second +b");
    datastore.add_datapoint("both again +b +a");

    let found = datastore.query("a b").get_datapoints();

    assert_eq!(found.len(), 2);
    assert_eq!(found[0].get_data(), "both");
    assert_eq!(found[1].get_data(), "both again");
}

#[test]
fn exclude_removes_matches_even_when_other_terms_match() {
    let mut datastore = Datastore::new();
    datastore.add_datapoint("keep +a");
    datastore.add_datapoint("drop +a +b");

    let found = datastore.query("a b:exclude").get_datapoints();

    assert_eq!(found.len(), 1);
    assert_eq!(found[0].get_data(), "keep");
}

#[test]
fn entries_added_out_of_order_come_back_sorted_by_timestamp() {
    let mut datastore = Datastore::new();
    datastore.add_datapoint("c +x +DATE:2023-10-13 +TIME:08-00-00");
    datastore.add_datapoint("a +x +DATE:2023-10-11 +TIME:23-59-59");
    datastore.add_datapoint("d +x +DATE:2023-10-13 +TIME:09-30-00");
    datastore.add_datapoint("b +x +DATE:2023-10-12 +TIME:00-00-00");

    let datapoints = datastore.retrieve_datapoints();
    let payloads: Vec<&str> = datapoints.iter().map(|d| d.get_data().as_str()).collect();

    assert_eq!(payloads, vec!["a", "b", "c", "d"]);
}

#[test]
fn an_entry_with_an_equal_timestamp_lands_before_its_twin() {
    let mut datastore = Datastore::new();
    datastore.add_datapoint("first +x +DATE:2023-10-13 +TIME:08-00-00");
    datastore.add_datapoint("second +x +DATE:2023-10-13 +TIME:08-00-00");

    let datapoints = datastore.retrieve_datapoints();

    assert_eq!(datapoints[0].get_data(), "second");
    assert_eq!(datapoints[1].get_data(), "first");
}

#[test]
fn date_from_keeps_entries_on_or_after_the_date() {
    let mut datastore = Datastore::new();
    datastore.add_datapoint("early +w +DATE:2023-10-10");
    datastore.add_datapoint("edge +w +DATE:2023-10-11 +TIME:00-00-00");
    datastore.add_datapoint("late +w +DATE:2023-10-12");

    let found = datastore.query("w:date:from:2023-10-11").get_datapoints();

    assert_eq!(found.len(), 2);
    assert_eq!(found[0].get_data(), "edge");
    assert_eq!(found[1].get_data(), "late");
}

#[test]
fn date_until_keeps_entries_strictly_before_the_next_day() {
    let mut datastore = Datastore::new();
    datastore.add_datapoint("early +w +DATE:2023-10-10");
    datastore.add_datapoint("inside +w +DATE:2023-10-13 +TIME:12-00-00");
    datastore.add_datapoint("late +w +DATE:2023-10-14 +TIME:00-00-00");

    let found = datastore.query("w:date:until:2023-10-13").get_datapoints();

    assert_eq!(found.len(), 2);
    assert_eq!(found[0].get_data(), "early");
    assert_eq!(found[1].get_data(), "inside");
}

#[test]
fn update_preserves_key_and_reorders_only_on_time_change() {
    let mut datastore = Datastore::new();
    datastore.add_datapoint("a +x +DATE:2023-10-10 +TIME:10-00-00");
    datastore.add_datapoint("b +x +DATE:2023-10-11 +TIME:10-00-00");

    let updated = datastore.update_datapoint("a2 +x +DATE:2023-10-10 +TIME:10-00-00", 1);
    assert_eq!(updated.get_key(), 1);
    let order: Vec<String> = datastore
        .retrieve_datapoints()
        .iter()
        .map(|d| d.get_data().clone())
        .collect();
    assert_eq!(order, vec!["a2".to_string(), "b".to_string()]);

    datastore.update_datapoint("a3 +x +DATE:2023-10-12 +TIME:10-00-00", 1);
    let reordered: Vec<String> = datastore
        .retrieve_datapoints()
        .iter()
        .map(|d| d.get_data().clone())
        .collect();
    assert_eq!(reordered, vec!["b".to_string(), "a3".to_string()]);
}

#[test]
fn delete_on_absent_key_changes_nothing() {
    let mut datastore = Datastore::new();
    datastore.add_datapoint("a +x");
    let before = datastore.retrieve_datapoints();

    assert_eq!(datastore.delete_datapoint(99), None);
    assert_eq!(datastore.retrieve_datapoints(), before);
}

#[test]
fn blank_query_returns_every_added_entry() {
    let mut datastore = Datastore::new();
    datastore.add_datapoint("one +a");
    datastore.add_datapoint("two +b");
    datastore.add_datapoint("three");

    let found = datastore.query("").get_datapoints();

    assert_eq!(found.len(), 3);
}

#[test]
fn query_title_reads_excluded_terms_as_without() {
    let mut datastore = Datastore::new();
    datastore.add_datapoint("one +a +b");

    let result = datastore.query("a b:exclude");

    assert_eq!(
        result.get_query().generate_plot_title(),
        "Plot for: a, without b"
    );
}
