use playback::decoder::memory::MemoryDecoder;
use playback::decoder::AudioDecoder;
use playback::decoder::AudioPacket;

fn stream() -> MemoryDecoder {
    MemoryDecoder::new(vec![
        (0, AudioPacket::OggData(vec![0])),
        (20, AudioPacket::OggData(vec![1])),
        (40, AudioPacket::OggData(vec![2])),
        (60, AudioPacket::OggData(vec![3])),
    ])
}

fn next_byte<D: AudioDecoder>(decoder: &mut D) -> Option<u8> {
    decoder.next_packet().unwrap().map(|packet| packet.oggdata()[0])
}

#[test]
fn packets_come_in_order_and_then_none() {
    let mut decoder = stream();
    assert_eq!(next_byte(&mut decoder), Some(0));
    assert_eq!(next_byte(&mut decoder), Some(1));
    assert_eq!(next_byte(&mut decoder), Some(2));
    assert_eq!(next_byte(&mut decoder), Some(3));
    assert_eq!(next_byte(&mut decoder), None);
}

#[test]
fn none_is_followed_by_none() {
    let mut decoder = stream();
    while decoder.next_packet().unwrap().is_some() {}
    assert!(matches!(decoder.next_packet(), Ok(None)));
    assert!(matches!(decoder.next_packet(), Ok(None)));
    assert!(matches!(decoder.next_packet(), Ok(None)));
}

#[test]
fn an_empty_stream_gives_none_at_once() {
    let mut decoder = MemoryDecoder::new(vec![]);
    assert!(matches!(decoder.next_packet(), Ok(None)));
    assert!(decoder.seek(0).is_ok());
    assert!(matches!(decoder.next_packet(), Ok(None)));
    assert!(matches!(decoder.next_packet(), Ok(None)));
}

#[test]
fn seek_to_zero_mid_stream_restarts() {
    let mut decoder = stream();
    assert_eq!(next_byte(&mut decoder), Some(0));
    assert_eq!(next_byte(&mut decoder), Some(1));
    assert_eq!(next_byte(&mut decoder), Some(2));
    assert!(decoder.seek(0).is_ok());
    assert_eq!(next_byte(&mut decoder), Some(0));
    assert_eq!(next_byte(&mut decoder), Some(1));
}

#[test]
fn seek_before_the_first_packet_is_read() {
    let mut decoder = stream();
    assert!(decoder.seek(40).is_ok());
    assert_eq!(next_byte(&mut decoder), Some(2));
    assert_eq!(next_byte(&mut decoder), Some(3));
    assert_eq!(next_byte(&mut decoder), None);
}

#[test]
fn seek_lands_at_or_before_the_time() {
    let mut decoder = stream();
    assert!(decoder.seek(39).is_ok());
    assert_eq!(next_byte(&mut decoder), Some(1));
    assert!(decoder.seek(20).is_ok());
    assert_eq!(next_byte(&mut decoder), Some(1));
    assert!(decoder.seek(19).is_ok());
    assert_eq!(next_byte(&mut decoder), Some(0));
    assert!(decoder.seek(59).is_ok());
    assert_eq!(next_byte(&mut decoder), Some(2));
}

#[test]
fn seek_past_the_end_lands_on_the_last_packet() {
    let mut decoder = stream();
    assert!(decoder.seek(i64::MAX).is_ok());
    assert_eq!(next_byte(&mut decoder), Some(3));
    assert_eq!(next_byte(&mut decoder), None);
}

#[test]
fn seek_before_the_start_lands_on_the_first_packet() {
    let mut decoder = stream();
    assert_eq!(next_byte(&mut decoder), Some(0));
    assert!(decoder.seek(-5).is_ok());
    assert_eq!(next_byte(&mut decoder), Some(0));
    assert!(decoder.seek(i64::MIN).is_ok());
    assert_eq!(next_byte(&mut decoder), Some(0));
}

#[test]
fn seek_after_the_end_makes_packets_come_again() {
    let mut decoder = stream();
    while decoder.next_packet().unwrap().is_some() {}
    assert_eq!(next_byte(&mut decoder), None);
    assert!(decoder.seek(60).is_ok());
    assert_eq!(next_byte(&mut decoder), Some(3));
    assert_eq!(next_byte(&mut decoder), None);
    assert_eq!(next_byte(&mut decoder), None);
}

#[test]
fn sample_packets_come_out_as_they_went_in() {
    let first = vec![0.5f32.to_bits(), (-0.5f32).to_bits()];
    let mut decoder = MemoryDecoder::new(vec![
        (0, AudioPacket::Samples(first.clone())),
        (10, AudioPacket::Samples(vec![])),
    ]);
    let packet = decoder.next_packet().unwrap().unwrap();
    assert_eq!(packet.samples(), first.as_slice());
    let packet = decoder.next_packet().unwrap().unwrap();
    assert!(packet.is_empty());
    assert!(decoder.next_packet().unwrap().is_none());
}
