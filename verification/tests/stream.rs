use barm_worker::stream::{
    refusal_item, relay, CollectStep, InferenceError, RelayAction, RelayEvent, StreamCollector,
    StreamItem,
};

fn token(text: &str) -> StreamItem {
    StreamItem::Token(text.to_string(), 1)
}

/// Hands the items to a collector, one by one, until it stops.
fn collect(items: Vec<StreamItem>) -> Result<(String, usize), String> {
    let mut collector = StreamCollector::new();
    for item in items {
        match collector.take(Some(item)) {
            CollectStep::More => {}
            CollectStep::Complete => return Ok(collector.into_answer()),
            CollectStep::Failed(e) => return Err(e.message()),
        }
    }
    match collector.take(None) {
        CollectStep::Complete => Ok(collector.into_answer()),
        other => panic!("{:?}", other),
    }
}

#[test]
fn tokens_make_the_answer() {
    let answer = collect(vec![token("Bei"), StreamItem::Other, token("jing"), StreamItem::Done]);
    assert_eq!(answer, Ok(("Beijing".to_string(), 2)));
}

#[test]
fn items_after_the_end_have_no_part() {
    let answer = collect(vec![token("a"), StreamItem::Done, token("b")]);
    assert_eq!(answer, Ok(("a".to_string(), 1)));
}

#[test]
fn closed_stream_completes_the_answer() {
    assert_eq!(collect(vec![token("a"), token("")]), Ok(("a".to_string(), 2)));
    assert_eq!(collect(vec![]), Ok(("".to_string(), 0)));
}

#[test]
fn error_ends_the_answer() {
    let answer =
        collect(vec![token("a"), StreamItem::Error("out of memory".to_string()), token("b")]);
    assert_eq!(answer, Err("Inference error: out of memory".to_string()));
}

#[test]
fn refused_request_is_told_in_the_stream() {
    match refusal_item("busy".to_string()) {
        StreamItem::Error(text) => assert_eq!(text, "Failed to add request: busy"),
        other => panic!("{:?}", other),
    }
    assert_eq!(
        InferenceError::Refused("busy".to_string()).message(),
        "Failed to add request: busy"
    );
}

#[test]
fn items_are_passed_on_until_the_caller_leaves() {
    let items = vec![3, 1, 4, 1, 5];
    for room in 0..8usize {
        let mut got: Vec<i32> = Vec::new();
        let mut source = items.iter();
        let mut event = match source.next() {
            Some(item) => RelayEvent::Item(*item),
            None => RelayEvent::Closed,
        };
        loop {
            match relay(event) {
                RelayAction::Send(item) => {
                    if got.len() < room {
                        got.push(item);
                        event = RelayEvent::Delivered;
                    } else {
                        event = RelayEvent::CallerGone;
                    }
                }
                RelayAction::Receive => {
                    event = match source.next() {
                        Some(item) => RelayEvent::Item(*item),
                        None => RelayEvent::Closed,
                    };
                }
                RelayAction::Stop => break,
            }
        }
        assert_eq!(got, items[..room.min(items.len())].to_vec());
    }
}
