use rimmod::mod_watcher::{poll_outcome, watch_message, ModWatcherMessage, ModWatcherPoll};

#[test]
fn reading_metadata_is_not_a_change() {
    assert_eq!(watch_message(Ok(true)), None);
    assert_eq!(watch_message(Ok(false)), Some(ModWatcherMessage::Changed));
    assert_eq!(
        watch_message(Err("lost".to_owned())),
        Some(ModWatcherMessage::Error("lost".to_owned()))
    );
}

#[test]
fn polls_report_the_last_error_before_changes() {
    assert_eq!(poll_outcome(Vec::new()), ModWatcherPoll::Idle);
    assert_eq!(
        poll_outcome(vec![ModWatcherMessage::Changed, ModWatcherMessage::Changed]),
        ModWatcherPoll::Changed
    );
    assert_eq!(
        poll_outcome(vec![
            ModWatcherMessage::Error("first".to_owned()),
            ModWatcherMessage::Changed,
            ModWatcherMessage::Error("second".to_owned()),
            ModWatcherMessage::Changed,
        ]),
        ModWatcherPoll::Error("second".to_owned())
    );
}
