use taglog::datastore::Datastore;
use taglog::queryresult::apply_command;

#[test]
fn getting_date_numeric_returns_a_vector_of_associated_datetime_value_tuples() {
    let mut datastore = Datastore::new();
    datastore.add_datapoint("1 +value +DATE:2023-10-10");
    datastore.add_datapoint("2 +value +DATE:2023-10-11");
    datastore.add_datapoint("3 +value +DATE:2023-10-14");
    let queryresult = datastore.query("+value");

    let data = queryresult.get_date_numeric_texts().unwrap();

    assert_eq!(data[0].1.parse::<f64>().unwrap(), 1.0);
    assert_eq!(data[1].1.parse::<f64>().unwrap(), 2.0);
    assert_eq!(data[2].1.parse::<f64>().unwrap(), 3.0);
}

#[test]
fn getting_date_numeric_for_invalid_data_returns_none() {
    let mut datastore = Datastore::new();
    datastore.add_datapoint("11.1.4 +value +DATE:2023-10-10");
    datastore.add_datapoint("0.1 +value +DATE:2023-10-11");
    datastore.add_datapoint("8.9 +value +DATE:2023-10-14");
    let queryresult = datastore.query("+value");

    let data = queryresult.get_date_numeric_texts();

    assert_eq!(data, None);
}

#[test]
fn getting_date_numeric_for_non_numeric_data_returns_none() {
    let mut datastore = Datastore::new();
    datastore.add_datapoint("words and not numbers +value +DATE:2023-10-10");
    datastore.add_datapoint("more words +value +DATE:2023-10-11");
    datastore.add_datapoint("where are the numbers +value +DATE:2023-10-14");
    let queryresult = datastore.query("+value");

    let data = queryresult.get_date_numeric_texts();

    assert_eq!(data, None);
}

#[test]
fn getting_date_numeric_for_an_empty_query_returns_none() {
    let mut datastore = Datastore::new();
    datastore.add_datapoint("32.1 +value +DATE:2023-10-10");
    datastore.add_datapoint("6 +value +DATE:2023-10-11");
    datastore.add_datapoint("8.1 +value +DATE:2023-10-14");
    let queryresult = datastore.query("+invalid");

    let data = queryresult.get_date_numeric_texts();

    assert_eq!(data, None);
}

#[test]
fn malformed_date_in_query_returns_all() {
    let mut datastore = Datastore::new();
    datastore.add_datapoint("one +w +DATE:2023-10-10");
    datastore.add_datapoint("two +w +DATE:2023-10-11");
    datastore.add_datapoint("three +w +DATE:2023-10-14");
    let datapoints = datastore.retrieve_datapoints();

    let queryresult = datastore.query("w:DATE:FROM:2023-qwoop-10");
    let queryresult_datapoints = queryresult.get_datapoints();

    assert_eq!(queryresult_datapoints, datapoints);
}

#[test]
fn incorrect_from_specifier_in_query_returns_all() {
    let mut datastore = Datastore::new();
    datastore.add_datapoint("one +w +DATE:2023-10-10");
    datastore.add_datapoint("two +w +DATE:2023-10-11");
    datastore.add_datapoint("three +w +DATE:2023-10-14");
    let datapoints = datastore.retrieve_datapoints();

    let queryresult = datastore.query("w:DATE:FRUMPL:2023-10-11");
    let queryresult_datapoints = queryresult.get_datapoints();

    assert_eq!(queryresult_datapoints, datapoints);
}

#[test]
fn incorrect_date_selector_in_query_returns_all() {
    let mut datastore = Datastore::new();
    datastore.add_datapoint("one +w +DATE:2023-10-10");
    datastore.add_datapoint("two +w +DATE:2023-10-11");
    datastore.add_datapoint("three +w +DATE:2023-10-14");
    let datapoints = datastore.retrieve_datapoints();

    let queryresult = datastore.query("w:DATE:2023-10-11");
    let queryresult_datapoints = queryresult.get_datapoints();

    assert_eq!(queryresult_datapoints, datapoints);
}

#[test]
fn from_selector_in_query_allows_selection_based_on_date() {
    let mut datastore = Datastore::new();
    datastore.add_datapoint("one +w +DATE:2023-10-10");
    datastore.add_datapoint("two +w +DATE:2023-10-11");
    datastore.add_datapoint("three +w +DATE:2023-10-14");
    let datapoints = datastore.retrieve_datapoints();

    let queryresult = datastore.query("w:DATE:FROM:2023-10-11");
    let queryresult_datapoints = queryresult.get_datapoints();

    assert_eq!(queryresult_datapoints[0], datapoints[1]);
    assert_eq!(queryresult_datapoints[1], datapoints[2]);
}

#[test]
fn different_selectors_allow_date_before_selection_like_from() {
    let mut datastore = Datastore::new();
    datastore.add_datapoint("one +w +DATE:2023-10-10");
    datastore.add_datapoint("two +w +DATE:2023-10-12");
    datastore.add_datapoint("three +w +DATE:2023-10-14");

    let queryresult = datastore.query("w:DATE:FROM:2023-10-11");
    let datapoints_from = queryresult.get_datapoints();
    let queryresult = datastore.query("w:DATE:START:2023-10-11");
    let datapoints_start = queryresult.get_datapoints();

    assert_eq!(datapoints_from, datapoints_start);
}

#[test]
fn until_selector_in_query_allows_selection_based_on_date() {
    let mut datastore = Datastore::new();
    datastore.add_datapoint("one +w +DATE:2023-10-10");
    datastore.add_datapoint("two +w +DATE:2023-10-12");
    datastore.add_datapoint("three +w +DATE:2023-10-13");
    let datapoints = datastore.retrieve_datapoints();

    let queryresult = datastore.query("w:DATE:UNTIL:2023-10-13");
    let queryresult_datapoints = queryresult.get_datapoints();

    assert_eq!(queryresult_datapoints[0], datapoints[0]);
    assert_eq!(queryresult_datapoints[1], datapoints[1]);
}

#[test]
fn different_selectors_in_query_allows_selection_like_until() {
    let mut datastore = Datastore::new();
    datastore.add_datapoint("one +w +DATE:2023-10-10");
    datastore.add_datapoint("two +w +DATE:2023-10-12");
    datastore.add_datapoint("three +w +DATE:2023-10-14");

    let queryresult = datastore.query("w:DATE:UNTIL:2023-10-13");
    let datapoints_until = queryresult.get_datapoints();
    let queryresult = datastore.query("w:DATE:END:2023-10-13");
    let datapoints_end = queryresult.get_datapoints();
    let queryresult = datastore.query("w:DATE:TILL:2023-10-13");
    let datapoints_till = queryresult.get_datapoints();

    assert_eq!(datapoints_until, datapoints_end);
    assert_eq!(datapoints_until, datapoints_till);
}

#[test]
fn get_datapoints_returns_a_vector_of_contained_datapoints() {
    let mut datastore = Datastore::new();
    datastore.add_datapoint("something +tag");
    datastore.add_datapoint("another +tag");
    let datapoints = datastore.retrieve_datapoints();

    let queryresult = datastore.query("tag");
    let queryresult_datapoints = queryresult.get_datapoints();

    assert_eq!(queryresult_datapoints, datapoints);
}

#[test]
fn get_query_returns_the_parsed_query() {
    let mut datastore = Datastore::new();
    datastore.add_datapoint("something +tag");
    datastore.add_datapoint("another +tag");

    let queryresult = datastore.query("tag");
    let query = queryresult.get_query().get_raw_parsed();

    assert_eq!(query, vec![vec!["tag".to_string()]]);
}

#[test]
fn apply_command_with_unknown_command_returns_full_datapoint_vector() {
    let mut datastore = Datastore::new();
    datastore.add_datapoint("cool information +tag");
    datastore.add_datapoint("More cool information +tag");
    let datapoints = datastore.retrieve_datapoints();

    let datapoints_after_command = apply_command(
        datapoints.clone(),
        vec!["Whatever".to_string(), "Unknown".to_string()],
    );

    assert_eq!(
        datapoints[0].get_data(),
        datapoints_after_command[0].get_data()
    );
    assert_eq!(
        datapoints[1].get_data(),
        datapoints_after_command[1].get_data()
    );
}

#[test]
fn value_command_strips_non_numeric_information_from_data() {
    let mut datastore = Datastore::new();
    datastore.add_datapoint("80kg +weight");

    let datapoints = datastore.retrieve_datapoints();
    let valuestripped = apply_command(datapoints, vec!["weight".to_string(), "value".to_owned()]);

    assert_eq!(valuestripped[0].get_data(), "80");
}

#[test]
fn uppercase_modifier_names_are_accepted() {
    let mut datastore = Datastore::new();
    datastore.add_datapoint("80kg +weight");

    let queryresult = datastore.query("weight:VALUE");

    assert_eq!(queryresult.get_datapoints()[0].get_data(), "80");
}

#[test]
fn numeric_texts_skip_entries_that_do_not_read_as_numbers() {
    let mut datastore = Datastore::new();
    datastore.add_datapoint("30.4kg +mixed");
    datastore.add_datapoint("no numbers here +mixed");
    datastore.add_datapoint("4 reps +mixed");

    let queryresult = datastore.query("mixed");
    let texts = queryresult.get_numeric_texts();

    assert_eq!(texts, vec!["30.4".to_string(), "4".to_string()]);
}
