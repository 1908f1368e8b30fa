use taglog::datapoint::create_datapoint;
use taglog::datastore::Datastore;

#[test]
fn datapoints_can_be_deleted_based_on_key() {
    let mut datastore = Datastore::new();
    datastore.add_datapoint("data +one +two");
    datastore.add_datapoint("more +one");

    let deleted = datastore.delete_datapoint(1).unwrap();
    let remaining = datastore.retrieve_datapoints();

    assert_eq!(remaining.len(), 1);
    assert_eq!(remaining[0].get_data(), "more");
    assert_eq!(deleted.get_data(), "data");
}

#[test]
fn deleting_based_on_non_accessible_key_returns_none() {
    let mut datastore = Datastore::new();
    datastore.add_datapoint("data +one +two");
    datastore.add_datapoint("more +one");

    let result = datastore.delete_datapoint(4);

    assert_eq!(result, None);
}

#[test]
fn query_can_exclude_certain_tags() {
    let mut datastore = Datastore::new();
    datastore.add_datapoint("data +one +two");
    datastore.add_datapoint("more +one");

    let queryresult = datastore.query("one two:exclude");
    let found = queryresult.get_datapoints();

    assert_eq!(found.len(), 1);
    assert_eq!(found[0].get_data(), "more");
}

#[test]
fn datapoints_can_be_updated_based_on_key() {
    let mut datastore = Datastore::new();
    datastore.add_datapoint("A datapoint +tag +TIME:17-00-00");
    datastore.add_datapoint("Another datapoint +another +TIME:17-00-01");

    datastore.update_datapoint("Different information +different +TIME:17-00-00", 1);

    assert_eq!(
        datastore.retrieve_datapoints()[0].get_data(),
        &"Different information".to_string()
    );
}

#[test]
fn final_datapoint_can_also_be_updated_based_on_key() {
    let mut datastore = Datastore::new();
    datastore.add_datapoint("A datapoint +tag");
    datastore.add_datapoint("Another datapoint +another");
    datastore.add_datapoint("Even more +more");

    datastore.update_datapoint("Different information +different", 3);

    assert_eq!(
        datastore.retrieve_datapoints()[2].get_data(),
        &"Different information".to_string()
    );
}

#[test]
fn datapoints_can_be_updated_based_on_key_redoing_time_ordering() {
    let mut datastore = Datastore::new();
    datastore.add_datapoint("A datapoint +tag +TIME:17-00-00");
    datastore.add_datapoint("Another datapoint +another +TIME:17-00-01");

    datastore.update_datapoint("A datapoint +tag +TIME:17-00-02", 1);

    assert_eq!(
        datastore.retrieve_datapoints()[1].get_data(),
        &"A datapoint".to_string()
    );
}

#[test]
fn from_a_vector_of_datapoints_a_datastore_is_born() {
    let mut datapoints = Vec::new();
    datapoints.push(create_datapoint("some stuff +tag"));
    datapoints.push(create_datapoint("more stuff +another +stuff"));
    datapoints.push(create_datapoint("whatever +whatever +tag"));
    datapoints[0].set_key(1);
    datapoints[1].set_key(2);
    datapoints[2].set_key(3);

    let mut datastore = Datastore::from(datapoints.clone());

    assert_eq!(datastore.retrieve_datapoints()[0], datapoints[0]);
    assert_eq!(datastore.retrieve_datapoints()[1], datapoints[1]);
    assert_eq!(datastore.retrieve_datapoints()[2], datapoints[2]);
    assert_eq!(
        datastore.retrieve_taglist(),
        vec![
            "tag".to_string(),
            "another".to_string(),
            "stuff".to_string(),
            "whatever".to_string()
        ]
    );
    // The counter resumed past the largest key: the next entry gets key 4.
    let next = datastore.add_datapoint("fresh +tag");
    assert_eq!(next.get_key(), 4);
}

#[test]
fn empty_query_returns_all_datapoints_from_store() {
    let mut datastore = Datastore::new();
    datastore.add_datapoint("cool information +tag");
    datastore.add_datapoint("More cool information +tag");

    let queryresult = datastore.query("+");
    let datapoints = queryresult.get_datapoints();

    assert_eq!("cool information", datapoints[0].get_data());
    assert_eq!("More cool information", datapoints[1].get_data());
}

#[test]
fn append_tags_does_not_append_tags_already_included() {
    let mut datastore = Datastore::new();
    datastore.add_datapoint("80kg +something");
    datastore.add_datapoint("stuff +tag");

    datastore.append_tags(&vec![
        "something".to_string(),
        "tag".to_string(),
        "weight".to_string(),
    ]);

    assert_eq!(
        datastore.retrieve_taglist(),
        vec![
            "something".to_string(),
            "tag".to_string(),
            "weight".to_string()
        ]
    );
}

#[test]
fn append_tags_function_appends_tags_to_datastore_tag_list() {
    let mut datastore = Datastore::new();
    datastore.add_datapoint("80kg +weight ");
    datastore.add_datapoint("stuff +tag");

    datastore.append_tags(&vec!["something".to_string()]);

    assert_eq!(
        datastore.retrieve_taglist(),
        vec![
            "weight".to_string(),
            "tag".to_string(),
            "something".to_string()
        ]
    );
}

#[test]
fn data_added_tagged_before_current_datetime_is_inserted_in_appropriate_location() {
    let mut datastore = Datastore::new();
    datastore.add_datapoint("80kg +weight +DATE:2023-10-16");
    datastore.add_datapoint("80.5kg +weight +DATE:2023-10-15");

    let datapoints = datastore.retrieve_datapoints();

    assert_eq!(datapoints[0].get_data(), "80.5kg");
}

#[test]
fn data_added_tagged_at_various_times_are_added_in_the_expected_locations() {
    let mut datastore = Datastore::new();
    datastore.add_datapoint("80kg +weight +DATE:2023-10-3");
    datastore.add_datapoint("81kg +weight +DATE:2023-10-2");
    datastore.add_datapoint("79kg +weight +DATE:2023-10-1");
    datastore.add_datapoint("83kg +weight +DATE:2023-10-5");
    datastore.add_datapoint("82kg +weight +DATE:2023-10-4");

    let datapoints = datastore.retrieve_datapoints();

    println!(
        "{:?}",
        datapoints
            .clone()
            .into_iter()
            .map(|point| (point.get_key(), point.get_data().to_owned()))
            .collect::<Vec<(u64, String)>>()
    );
    assert_eq!(datapoints[0].get_data(), "79kg");
    assert_eq!(datapoints[1].get_data(), "81kg");
    assert_eq!(datapoints[2].get_data(), "80kg");
    assert_eq!(datapoints[3].get_data(), "82kg");
    assert_eq!(datapoints[4].get_data(), "83kg");
}

#[test]
fn value_command_in_query_strips_non_numeric_information() {
    let mut datastore = Datastore::new();
    datastore.add_datapoint("80kg +weight");
    datastore.add_datapoint("8kg +curl");

    let queryresult = datastore.query("curl:value");
    let retrieved = queryresult.get_datapoints();

    assert_eq!(retrieved[0].get_data(), "8");
}

#[test]
fn query_with_tag_only_retrieves_tagged_datapoint() {
    let mut datastore = Datastore::new();

    datastore.add_datapoint("information +with +tags");
    datastore.add_datapoint("information +different");

    let queryresult = datastore.query("+different");
    let query_result = queryresult.get_datapoints();

    assert_eq!(1, query_result.len());
}

#[test]
fn query_with_word_only_retrieves_tagged_datapoint() {
    let mut datastore = Datastore::new();

    datastore.add_datapoint("information +with +tags");
    datastore.add_datapoint("information +different");

    let queryresult = datastore.query("different");
    let query_result = queryresult.get_datapoints();

    assert_eq!(1, query_result.len());
}

#[test]
fn datapoints_are_stored_in_datastore_after_add_function() {
    let mut datastore = Datastore::new();

    datastore.add_datapoint("Some text with +some +tags");

    assert_eq!(1, datastore.retrieve_datapoints().len());
}

#[test]
fn datapoints_can_be_retrieved_from_datastore() {
    let mut datastore = Datastore::new();
    let input_text = "Some text with +some +tags";
    let expected_datapoint = create_datapoint(input_text);

    datastore.add_datapoint(input_text);
    let actual_datapoint = &datastore.retrieve_datapoints()[0];

    assert!(actual_datapoint.data_same_as(&expected_datapoint));
    assert!(actual_datapoint.tags_same_as(&expected_datapoint));
}

#[test]
fn batch_operation_adds_a_tag_across_keys() {
    let mut datastore = Datastore::new();
    datastore.add_datapoint("6 hours +sleep");
    datastore.add_datapoint("coffee time +drink");
    datastore.add_datapoint("7 hours +sleep");

    let updated = datastore.batch_operation("reviewed", vec![1, 3], true);

    assert_eq!(updated.len(), 2);
    assert_eq!(updated[0].get_tags(), &vec!["sleep".to_string(), "reviewed".to_string()]);
    assert_eq!(updated[1].get_tags(), &vec!["sleep".to_string(), "reviewed".to_string()]);
    let requeried = datastore.query("reviewed");
    assert_eq!(requeried.get_datapoints().len(), 2);
    assert!(datastore.retrieve_taglist().contains(&"reviewed".to_string()));
}

#[test]
fn batch_operation_removes_a_tag_and_skips_absent_keys() {
    let mut datastore = Datastore::new();
    datastore.add_datapoint("6 hours +sleep +old");
    datastore.add_datapoint("7 hours +sleep +old");

    let updated = datastore.batch_operation("old", vec![2, 9], false);

    assert_eq!(updated.len(), 1);
    assert_eq!(updated[0].get_tags(), &vec!["sleep".to_string()]);
    let still_old = datastore.query("old");
    assert_eq!(still_old.get_datapoints().len(), 1);
    assert_eq!(still_old.get_datapoints()[0].get_key(), 1);
}
