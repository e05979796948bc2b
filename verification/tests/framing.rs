use capnp_zmq::framing::{
    frames_for_output, frames_to_segments, Receiver, RecvEvent, RecvOutcome, RecvRequest,
};

#[test]
fn segments_keep_whole_words_only() {
    let a: Vec<u8> = (0u8..20).collect();
    let b: Vec<u8> = (0u8..16).collect();
    let c: Vec<u8> = vec![1, 2, 3];
    let frames: Vec<&[u8]> = vec![&a[..], &b[..], &c[..]];
    let segments = frames_to_segments(&frames);
    assert_eq!(segments.len(), 3);
    assert_eq!(segments[0], &a[..16]);
    assert_eq!(segments[1], &b[..]);
    assert_eq!(segments[2].len(), 0);
}

#[test]
fn no_frames_give_no_segments() {
    let frames: Vec<&[u8]> = Vec::new();
    assert!(frames_to_segments(&frames).is_empty());
}

#[test]
fn more_flag_on_all_frames_but_last() {
    let a = [1u8; 8];
    let b = [2u8; 16];
    let c = [3u8; 8];
    let segments: Vec<&[u8]> = vec![&a[..], &b[..], &c[..]];
    let frames = frames_for_output(&segments);
    assert_eq!(frames, vec![(&a[..], true), (&b[..], true), (&c[..], false)]);
}

#[test]
fn single_segment_sent_without_more() {
    let a = [9u8; 24];
    let segments: Vec<&[u8]> = vec![&a[..]];
    assert_eq!(frames_for_output(&segments), vec![(&a[..], false)]);
}

fn feed(events: Vec<RecvEvent<&'static str, i32>>) -> Result<Vec<&'static str>, i32> {
    let mut receiver: Receiver<&'static str> = Receiver::new();
    for event in events {
        let expected = match &event {
            RecvEvent::Frame(_) => RecvRequest::Frame,
            RecvEvent::More(_) => RecvRequest::More,
            RecvEvent::Failed(_) => receiver.request(),
        };
        assert_eq!(receiver.request(), expected);
        match receiver.step(event) {
            RecvOutcome::Pending(next) => receiver = next,
            RecvOutcome::Complete(frames) => return Ok(frames),
            RecvOutcome::Failed(e) => return Err(e),
        }
    }
    panic!("the message did not end");
}

#[test]
fn receiver_collects_frames_until_no_more() {
    let got = feed(vec![
        RecvEvent::Frame("a"),
        RecvEvent::More(true),
        RecvEvent::Frame("b"),
        RecvEvent::More(true),
        RecvEvent::Frame("c"),
        RecvEvent::More(false),
    ]);
    assert_eq!(got, Ok(vec!["a", "b", "c"]));
}

#[test]
fn receiver_single_frame_message() {
    assert_eq!(feed(vec![RecvEvent::Frame("x"), RecvEvent::More(false)]), Ok(vec!["x"]));
}

#[test]
fn receiver_stops_on_failed_frame() {
    assert_eq!(feed(vec![RecvEvent::Frame("a"), RecvEvent::More(true), RecvEvent::Failed(11)]), Err(11));
}

#[test]
fn receiver_stops_on_failed_more_flag() {
    assert_eq!(feed(vec![RecvEvent::Frame("a"), RecvEvent::Failed(4)]), Err(4));
}

#[test]
fn new_receiver_waits_on_a_frame() {
    let receiver: Receiver<u8> = Receiver::new();
    assert_eq!(receiver.request(), RecvRequest::Frame);
}

#[test]
fn sent_segments_come_back_through_the_receiver() {
    let a = [5u8; 16];
    let b = [6u8; 8];
    let segments: Vec<&[u8]> = vec![&a[..], &b[..]];
    let mut receiver: Receiver<&[u8]> = Receiver::new();
    let mut received = None;
    'outer: for (frame, more) in frames_for_output(&segments) {
        for event in [RecvEvent::<&[u8], i32>::Frame(frame), RecvEvent::More(more)] {
            match receiver.step(event) {
                RecvOutcome::Pending(next) => receiver = next,
                RecvOutcome::Complete(frames) => {
                    received = Some(frames);
                    break 'outer;
                }
                RecvOutcome::Failed(_) => panic!("no failure was sent"),
            }
        }
    }
    let received = received.expect("the message ended");
    assert_eq!(frames_to_segments(&received), segments);
}
