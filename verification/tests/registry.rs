use cantons::{
    find, handle_forward, handle_message, handle_register, unregister, Outcome, Train, TRACKLENGTH,
};
use std::collections::VecDeque;

#[test]
fn test_handle_register_success() {
    let mut train_list = VecDeque::new();
    let response = handle_register(&mut train_list, String::from("TGV123"), 10);
    assert_eq!(response, "ACK");
    assert_eq!(train_list.len(), 1);
    assert_eq!(train_list[0].name, "TGV123");
}

#[test]
fn test_handle_register_already_registered() {
    let mut train_list = VecDeque::new();
    train_list.push_back(Train::new(String::from("TGV123"), 10));
    let response = handle_register(&mut train_list, String::from("TGV123"), 10);
    assert_eq!(response, "Already registered");
}

#[test]
fn test_handle_register_first_block_occupied() {
    let mut train_list = VecDeque::new();
    train_list.push_back(Train::new(String::from("TGV123"), 10));
    train_list[0].location = 0;
    let response = handle_register(&mut train_list, String::from("TER456"), 20);
    assert_eq!(response, "First block occupied");
}

#[test]
fn test_unregister_success() {
    let mut train_list = VecDeque::new();
    let mut train = Train::new(String::from("TGV123"), 10);
    train.location = 100;
    train_list.push_back(train);
    let response = unregister(&mut train_list, String::from("TGV123"));
    assert_eq!(response, "ACK");
    assert!(train_list.is_empty());
}

#[test]
fn test_unregister_not_registered() {
    let mut train_list = VecDeque::new();
    let response = unregister(&mut train_list, String::from("TGV123"));
    assert_eq!(response, "Not registered");
}

#[test]
fn test_unregister_not_in_last_block() {
    let mut train_list = VecDeque::new();
    let train = Train::new(String::from("TGV123"), 10);
    train_list.push_back(train);
    let response = unregister(&mut train_list, String::from("TGV123"));
    assert_eq!(response, "Train is not in the last block");
    assert_eq!(train_list.len(), 1);
}

#[test]
fn test_handle_message_register() {
    let mut train_list = VecDeque::new();
    let message = String::from("TGV123:reg:10");
    let response = handle_message(&message, &mut train_list);
    assert_eq!(response, "ACK");
    assert_eq!(train_list.len(), 1);
    assert_eq!(train_list[0].name, "TGV123");
}

#[test]
fn test_handle_message_unregister() {
    let mut train_list = VecDeque::new();
    let mut train = Train::new(String::from("TGV123"), 10);
    train.location = 100;
    train_list.push_back(train);
    let message = String::from("TGV123:unr:0");
    let response = handle_message(&message, &mut train_list);
    assert_eq!(response, "ACK");
    assert!(train_list.is_empty());
}

#[test]
fn test_handle_message_forward() {
    let mut train_list = VecDeque::new();
    let train = Train::new(String::from("TGV123"), 10);
    train_list.push_back(train);
    let message = String::from("TGV123:for:5");
    let response = handle_message(&message, &mut train_list);
    assert_eq!(response, "ACK");
    assert_eq!(train_list[0].location, 5);
}

#[test]
fn test_handle_message_invalid_command() {
    let mut train_list = VecDeque::new();
    let message = String::from("TGV123:invalid:5");
    let response = handle_message(&message, &mut train_list);
    assert_eq!(response, "Invalid command");
}

#[test]
fn test_handle_message_not_registered() {
    let mut train_list = VecDeque::new();
    let message = String::from("TGV123:for:5");
    let response = handle_message(&message, &mut train_list);
    assert_eq!(response, "Not registered");
}

fn send(trains: &mut VecDeque<Train>, text: &str) -> String {
    handle_message(&String::from(text), trains)
}

fn snapshot(trains: &VecDeque<Train>) -> Vec<(String, u8, u8, u8)> {
    trains.iter().map(|t| (t.name.clone(), t.location, t.eoa, t.speed)).collect()
}

fn train_at(name: &str, eoa: u8, location: u8) -> Train {
    let mut train = Train::new(String::from(name), eoa);
    train.location = location;
    train
}

#[test]
fn register_on_an_empty_registry_is_granted() {
    let mut trains = VecDeque::new();
    assert_eq!(send(&mut trains, "TGV001:reg:50"), "ACK");
    assert_eq!(trains.len(), 1);
    assert_eq!(trains[0].name, "TGV001");
    assert_eq!(trains[0].location, 0);
    assert_eq!(trains[0].eoa, 50);
    assert_eq!(trains[0].speed, 20);
}

#[test]
fn forward_within_speed_and_authority_is_granted() {
    let mut trains = VecDeque::new();
    assert_eq!(send(&mut trains, "TGV001:reg:50"), "ACK");
    assert_eq!(send(&mut trains, "TGV001:for:15"), "ACK");
    assert_eq!(trains[0].location, 15);
}

#[test]
fn forward_out_of_reach_is_refused() {
    let mut trains = VecDeque::new();
    assert_eq!(send(&mut trains, "TGV001:reg:50"), "ACK");
    assert_eq!(send(&mut trains, "TGV001:for:15"), "ACK");
    assert_eq!(send(&mut trains, "TGV001:for:40"), "Block is unreachable");
    assert_eq!(trains[0].location, 15);
}

#[test]
fn forward_beyond_authority_is_refused() {
    let mut trains = VecDeque::new();
    assert_eq!(send(&mut trains, "TGV001:reg:50"), "ACK");
    assert_eq!(send(&mut trains, "TGV001:for:15"), "ACK");
    assert_eq!(send(&mut trains, "TGV001:for:40"), "Block is unreachable");
    assert_eq!(send(&mut trains, "TGV001:for:60"), "Block is greater than EOA");
    assert_eq!(trains[0].location, 15);
}

#[test]
fn second_train_is_refused_while_the_entry_block_is_occupied() {
    let mut trains = VecDeque::new();
    assert_eq!(send(&mut trains, "TGV001:reg:50"), "ACK");
    assert_eq!(send(&mut trains, "TER002:reg:30"), "First block occupied");
    assert_eq!(trains.len(), 1);
    assert_eq!(trains[0].name, "TGV001");
    assert_eq!(trains[0].location, 0);
}

#[test]
fn message_without_separator_is_invalid() {
    let mut trains: VecDeque<Train> = VecDeque::new();
    assert_eq!(send(&mut trains, "X"), "Invalid command");
    assert!(trains.is_empty());
}

#[test]
fn find_returns_the_place_in_the_queue() {
    let mut trains = VecDeque::new();
    trains.push_back(train_at("TGV1", 100, 30));
    trains.push_back(train_at("TER2", 100, 20));
    trains.push_back(train_at("INT3", 100, 10));
    assert_eq!(find(&trains, &String::from("TGV1")), Some(0));
    assert_eq!(find(&trains, &String::from("TER2")), Some(1));
    assert_eq!(find(&trains, &String::from("INT3")), Some(2));
    assert_eq!(find(&trains, &String::from("INT4")), None);
    assert_eq!(find(&trains, &String::from("")), None);
    assert_eq!(find(&VecDeque::new(), &String::from("TGV1")), None);
}

#[test]
fn find_returns_the_first_of_two_equal_names() {
    let mut trains = VecDeque::new();
    trains.push_back(train_at("A", 100, 30));
    trains.push_back(train_at("B", 100, 20));
    trains.push_back(train_at("B", 100, 10));
    assert_eq!(find(&trains, &String::from("B")), Some(1));
}

#[test]
fn find_works_beyond_two_hundred_and_fifty_six_trains() {
    let mut trains = VecDeque::new();
    for i in 0..300 {
        trains.push_back(train_at(&format!("T{}", i), 100, 1));
    }
    assert_eq!(find(&trains, &String::from("T0")), Some(0));
    assert_eq!(find(&trains, &String::from("T255")), Some(255));
    assert_eq!(find(&trains, &String::from("T256")), Some(256));
    assert_eq!(find(&trains, &String::from("T299")), Some(299));
    assert_eq!(handle_forward(&mut trains, &String::from("T299"), 4), "ACK");
    assert_eq!(trains[299].location, 4);
    assert_eq!(trains[43].location, 1);
}

#[test]
fn registering_a_name_twice_is_refused_whatever_the_authority() {
    for (first, second) in [(10u8, 10u8), (10, 200), (0, 255), (255, 0)] {
        let mut trains = VecDeque::new();
        assert_eq!(handle_register(&mut trains, String::from("TGV123"), first), "ACK");
        let before = snapshot(&trains);
        assert_eq!(
            handle_register(&mut trains, String::from("TGV123"), second),
            "Already registered"
        );
        assert_eq!(snapshot(&trains), before);
    }
}

#[test]
fn a_duplicate_is_named_even_when_the_entry_block_is_occupied() {
    let mut trains = VecDeque::new();
    trains.push_back(train_at("TGV1", 100, 30));
    trains.push_back(train_at("TER2", 100, 0));
    assert_eq!(handle_register(&mut trains, String::from("TGV1"), 5), "Already registered");
    assert_eq!(handle_register(&mut trains, String::from("TER2"), 5), "Already registered");
    assert_eq!(handle_register(&mut trains, String::from("INT3"), 5), "First block occupied");
    assert_eq!(trains.len(), 2);
}

#[test]
fn registration_looks_at_the_tail_only() {
    // The head sits in block 0, the tail does not: the entry block counts as free.
    let mut trains = VecDeque::new();
    trains.push_back(train_at("TGV1", 100, 0));
    trains.push_back(train_at("TER2", 100, 1));
    assert_eq!(handle_register(&mut trains, String::from("INT3"), 40), "ACK");
    assert_eq!(trains.len(), 3);
    assert_eq!(trains[2].name, "INT3");
    assert_eq!(trains[2].location, 0);
    assert_eq!(trains[2].eoa, 40);
    assert_eq!(trains[2].speed, 5);
    assert_eq!(trains[0].name, "TGV1");
    assert_eq!(trains[1].name, "TER2");
}

#[test]
fn registration_is_granted_once_the_tail_has_moved() {
    let mut trains = VecDeque::new();
    assert_eq!(send(&mut trains, "TGV001:reg:50"), "ACK");
    assert_eq!(send(&mut trains, "TER002:reg:30"), "First block occupied");
    assert_eq!(send(&mut trains, "TGV001:for:1"), "ACK");
    assert_eq!(send(&mut trains, "TER002:reg:30"), "ACK");
    assert_eq!(send(&mut trains, "INT003:reg:30"), "First block occupied");
    assert_eq!(snapshot(&trains), vec![
        (String::from("TGV001"), 1, 50, 20),
        (String::from("TER002"), 0, 30, 10),
    ]);
}

#[test]
fn unregistering_needs_the_last_block_exactly() {
    for location in [0u8, 1, 50, 99, 101, 255] {
        let mut trains = VecDeque::new();
        trains.push_back(train_at("TGV1", 255, location));
        assert_eq!(
            unregister(&mut trains, String::from("TGV1")),
            "Train is not in the last block"
        );
        assert_eq!(trains.len(), 1);
        assert_eq!(trains[0].location, location);
    }
    let mut trains = VecDeque::new();
    trains.push_back(train_at("TGV1", 255, TRACKLENGTH));
    assert_eq!(TRACKLENGTH, 100);
    assert_eq!(unregister(&mut trains, String::from("TGV1")), "ACK");
    assert!(trains.is_empty());
}

#[test]
fn unregistering_an_unknown_name_changes_nothing() {
    let mut trains = VecDeque::new();
    trains.push_back(train_at("TGV1", 100, 100));
    trains.push_back(train_at("TER2", 100, 100));
    let before = snapshot(&trains);
    assert_eq!(unregister(&mut trains, String::from("INT3")), "Not registered");
    assert_eq!(unregister(&mut trains, String::from("")), "Not registered");
    assert_eq!(unregister(&mut trains, String::from("TGV")), "Not registered");
    assert_eq!(snapshot(&trains), before);
}

#[test]
fn unregistering_the_head_pops_the_queue() {
    let mut trains = VecDeque::new();
    trains.push_back(train_at("TGV1", 100, 100));
    trains.push_back(train_at("TER2", 100, 60));
    trains.push_back(train_at("INT3", 100, 0));
    assert_eq!(unregister(&mut trains, String::from("TGV1")), "ACK");
    assert_eq!(snapshot(&trains), vec![
        (String::from("TER2"), 60, 100, 10),
        (String::from("INT3"), 0, 100, 5),
    ]);
}

#[test]
fn unregistering_removes_the_named_train() {
    let mut trains = VecDeque::new();
    trains.push_back(train_at("TGV1", 100, 80));
    trains.push_back(train_at("TER2", 100, 100));
    trains.push_back(train_at("INT3", 100, 0));
    assert_eq!(unregister(&mut trains, String::from("TER2")), "ACK");
    assert_eq!(snapshot(&trains), vec![
        (String::from("TGV1"), 80, 100, 20),
        (String::from("INT3"), 0, 100, 5),
    ]);
    assert_eq!(unregister(&mut trains, String::from("TER2")), "Not registered");
}

#[test]
fn forward_moves_the_named_train_and_no_other() {
    let mut trains = VecDeque::new();
    trains.push_back(train_at("TGV1", 100, 30));
    trains.push_back(train_at("TER2", 100, 20));
    trains.push_back(train_at("INT3", 100, 10));
    assert_eq!(handle_forward(&mut trains, &String::from("TER2"), 25), "ACK");
    assert_eq!(snapshot(&trains), vec![
        (String::from("TGV1"), 30, 100, 20),
        (String::from("TER2"), 25, 100, 10),
        (String::from("INT3"), 10, 100, 5),
    ]);
    assert_eq!(handle_forward(&mut trains, &String::from("TER2"), 36), "Block is unreachable");
    assert_eq!(handle_forward(&mut trains, &String::from("INT3"), 10),
        "Block is less than or equal to current location");
    assert_eq!(handle_forward(&mut trains, &String::from("BUS4"), 10), "Not registered");
    assert_eq!(snapshot(&trains), vec![
        (String::from("TGV1"), 30, 100, 20),
        (String::from("TER2"), 25, 100, 10),
        (String::from("INT3"), 10, 100, 5),
    ]);
}

#[test]
fn every_refusal_leaves_the_registry_as_it_was() {
    let mut trains = VecDeque::new();
    trains.push_back(train_at("TGV1", 60, 30));
    trains.push_back(train_at("TER2", 100, 0));
    let before = snapshot(&trains);
    let refused = [
        ("TGV1:reg:10", "Already registered"),
        ("INT3:reg:10", "First block occupied"),
        ("INT3:unr", "Not registered"),
        ("TGV1:unr", "Train is not in the last block"),
        ("INT3:for:5", "Not registered"),
        ("TGV1:for:61", "Block is greater than EOA"),
        ("TGV1:for:30", "Block is less than or equal to current location"),
        ("TGV1:for:51", "Block is unreachable"),
        ("TGV1:stop:5", "Invalid command"),
        ("TGV1", "Invalid command"),
        ("TGV1:for:5:6", "Invalid command"),
        ("", "Invalid command"),
    ];
    for (message, reply) in refused {
        assert_eq!(send(&mut trains, message), reply);
        assert_eq!(snapshot(&trains), before);
    }
}

#[test]
fn requests_refused_on_an_empty_registry_leave_it_empty() {
    for (message, reply) in [
        ("TGV123:invalid", "Invalid command"),
        ("TGV123:invalid:5", "Invalid command"),
        ("TGV123:for:5", "Not registered"),
        ("TGV123:for", "Not registered"),
        ("TGV123:unr", "Not registered"),
        ("TGV123:unr:100", "Not registered"),
        ("X", "Invalid command"),
    ] {
        let mut trains: VecDeque<Train> = VecDeque::new();
        assert_eq!(send(&mut trains, message), reply);
        assert!(trains.is_empty());
    }
}

#[test]
fn commands_are_matched_exactly() {
    let mut trains = VecDeque::new();
    trains.push_back(train_at("TGV1", 100, 100));
    for message in ["TGV1:REG:5", "TGV1:register:5", "TGV1: unr", "TGV1:unr ", "TGV1:forward:5", "TGV1::5"] {
        assert_eq!(send(&mut trains, message), "Invalid command");
    }
    assert_eq!(snapshot(&trains), vec![(String::from("TGV1"), 100, 100, 20)]);
}

#[test]
fn a_missing_or_unreadable_block_counts_as_zero() {
    let mut trains = VecDeque::new();
    assert_eq!(send(&mut trains, "TGV1:reg"), "ACK");
    assert_eq!(trains[0].eoa, 0);
    assert_eq!(send(&mut trains, "TGV1:for:abc"), "Block is less than or equal to current location");
    assert_eq!(send(&mut trains, "TGV1:for:1"), "Block is greater than EOA");
    assert_eq!(send(&mut trains, "TGV1:for:300"), "Block is less than or equal to current location");

    let mut others = VecDeque::new();
    assert_eq!(send(&mut others, "TER1:reg:xyz"), "ACK");
    assert_eq!(others[0].eoa, 0);
    assert_eq!(others[0].speed, 10);
}

#[test]
fn the_block_of_an_unregister_request_is_ignored() {
    for message in ["TGV1:unr", "TGV1:unr:0", "TGV1:unr:77", "TGV1:unr:junk"] {
        let mut trains = VecDeque::new();
        trains.push_back(train_at("TGV1", 100, 100));
        assert_eq!(send(&mut trains, message), "ACK");
        assert!(trains.is_empty());
    }
}

#[test]
fn a_short_or_empty_name_can_register() {
    let mut trains = VecDeque::new();
    assert_eq!(send(&mut trains, ":reg:9"), "ACK");
    assert_eq!(trains[0].name, "");
    assert_eq!(trains[0].speed, 5);
    assert_eq!(send(&mut trains, ":for:5"), "ACK");
    assert_eq!(send(&mut trains, "TG:reg:9"), "ACK");
    assert_eq!(trains[1].name, "TG");
    assert_eq!(trains[1].speed, 5);
}

#[test]
fn a_whole_journey() {
    let mut trains = VecDeque::new();
    assert_eq!(send(&mut trains, "TGV001:reg:100"), "ACK");
    for block in [20u8, 40, 60, 80] {
        assert_eq!(send(&mut trains, &format!("TGV001:for:{}", block)), "ACK");
        assert_eq!(send(&mut trains, "TGV001:unr"), "Train is not in the last block");
    }
    assert_eq!(send(&mut trains, "TER002:reg:100"), "ACK");
    assert_eq!(send(&mut trains, "TGV001:for:101"), "Block is greater than EOA");
    assert_eq!(send(&mut trains, "TGV001:for:100"), "ACK");
    assert_eq!(send(&mut trains, "TER002:unr"), "Train is not in the last block");
    assert_eq!(send(&mut trains, "TGV001:unr"), "ACK");
    assert_eq!(snapshot(&trains), vec![(String::from("TER002"), 0, 100, 10)]);
    assert_eq!(send(&mut trains, "TGV001:unr"), "Not registered");
    assert_eq!(send(&mut trains, "TGV001:reg:100"), "First block occupied");
    assert_eq!(send(&mut trains, "TER002:for:10"), "ACK");
    assert_eq!(send(&mut trains, "TGV001:reg:100"), "ACK");
    assert_eq!(snapshot(&trains), vec![
        (String::from("TER002"), 10, 100, 10),
        (String::from("TGV001"), 0, 100, 20),
    ]);
}

#[test]
fn each_outcome_has_its_text() {
    assert_eq!(Outcome::Ack.message(), "ACK");
    assert_eq!(Outcome::DuplicateName.message(), "Already registered");
    assert_eq!(Outcome::EntryBlockOccupied.message(), "First block occupied");
    assert_eq!(Outcome::UnknownTrain.message(), "Not registered");
    assert_eq!(Outcome::NotAtExit.message(), "Train is not in the last block");
    assert_eq!(Outcome::AuthorityExceeded.message(), "Block is greater than EOA");
    assert_eq!(
        Outcome::NoProgress.message(),
        "Block is less than or equal to current location"
    );
    assert_eq!(Outcome::UnreachableBlock.message(), "Block is unreachable");
    assert_eq!(Outcome::InvalidCommand.message(), "Invalid command");
}
