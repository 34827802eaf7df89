use textabus::admin::{group_exchanges, MessageLink};

fn first(id: u128) -> MessageLink {
    MessageLink { id, initial_message_id: None }
}

fn reply(id: u128, to: u128) -> MessageLink {
    MessageLink { id, initial_message_id: Some(to) }
}

#[test]
fn replies_follow_their_first_message_in_sent_order() {
    // Newest first: the log as the admin page reads it.
    let log = vec![reply(6, 4), first(4), reply(3, 1), reply(2, 1), first(1)];
    let exchanges = group_exchanges(&log);
    assert_eq!(exchanges.len(), 2);
    assert_eq!(exchanges[0].first, 1);
    assert_eq!(exchanges[0].responses, vec![0]);
    assert_eq!(exchanges[1].first, 4);
    assert_eq!(exchanges[1].responses, vec![3, 2]);
}

#[test]
fn orphan_replies_are_not_shown() {
    let log = vec![reply(9, 42), first(1)];
    let exchanges = group_exchanges(&log);
    assert_eq!(exchanges.len(), 1);
    assert_eq!(exchanges[0].first, 1);
    assert!(exchanges[0].responses.is_empty());
}

#[test]
fn an_empty_log_has_no_exchanges() {
    assert!(group_exchanges(&Vec::new()).is_empty());
}
