use sine_tone::channel::{control_channel, ChannelError};

#[test]
fn send_into_full_channel_fails() {
    let (mut tx, mut rx) = control_channel(1);
    assert_eq!(tx.send(7), Ok(()));
    assert_eq!(tx.send(8), Err(ChannelError::Full));
    assert_eq!(rx.try_receive(), Some(7));
    assert_eq!(tx.send(9), Ok(()));
    assert_eq!(rx.try_receive(), Some(9));
}

#[test]
fn receive_from_empty_channel_returns_nothing() {
    let (_tx, mut rx) = control_channel(4);
    assert_eq!(rx.try_receive(), None);
    assert_eq!(rx.drain_latest(), None);
}

#[test]
fn values_arrive_in_order() {
    let (mut tx, mut rx) = control_channel(8);
    for v in [3u32, 1, 4, 1, 5] {
        assert_eq!(tx.send(v), Ok(()));
    }
    assert_eq!(rx.try_receive(), Some(3));
    assert_eq!(rx.try_receive(), Some(1));
    assert_eq!(rx.try_receive(), Some(4));
    assert_eq!(rx.try_receive(), Some(1));
    assert_eq!(rx.try_receive(), Some(5));
    assert_eq!(rx.try_receive(), None);
}

#[test]
fn drain_keeps_only_the_last_frequency() {
    let (mut tx, mut rx) = control_channel(16);
    let sent = [440.0f32, 466.16, 488.3];
    for f in sent {
        assert_eq!(tx.send(f.to_bits()), Ok(()));
    }
    let got = rx.drain_latest().map(f32::from_bits);
    assert_eq!(got, Some(488.3f32));
    assert_eq!(rx.drain_latest(), None);
}

#[test]
fn drain_of_full_channel_takes_everything() {
    let (mut tx, mut rx) = control_channel(3);
    assert_eq!(tx.send(10), Ok(()));
    assert_eq!(tx.send(20), Ok(()));
    assert_eq!(tx.send(30), Ok(()));
    assert_eq!(tx.send(40), Err(ChannelError::Full));
    assert_eq!(rx.drain_latest(), Some(30));
    assert_eq!(rx.try_receive(), None);
}

#[test]
fn send_after_receiver_dropped_fails() {
    let (mut tx, rx) = control_channel(2);
    drop(rx);
    assert_eq!(tx.send(1), Err(ChannelError::Disconnected));
}

#[test]
fn capacity_is_kept() {
    let (tx, rx) = control_channel(5);
    assert_eq!(tx.capacity(), 5);
    assert_eq!(rx.capacity(), 5);
}
