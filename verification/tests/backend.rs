use playback::audio_backend::find;
use playback::audio_backend::memory::MemorySink;
use playback::audio_backend::mk_sink;
use playback::audio_backend::write_as_bytes;
use playback::audio_backend::Open;
use playback::audio_backend::Sink;
use playback::audio_backend::SinkAsBytes;
use playback::config::AudioFormat;
use playback::convert::Converter;
use playback::decoder::AudioPacket;
use std::io;

type SinkBuilder = fn(Option<String>, AudioFormat) -> Box<dyn Sink>;

fn samples(values: &[f32]) -> AudioPacket {
    AudioPacket::Samples(values.iter().map(|s| s.to_bits()).collect())
}

fn written(format: AudioFormat, packet: &AudioPacket) -> Vec<u8> {
    let mut sink = MemorySink::open(None, format);
    let mut converter = Converter::new();
    sink.write(packet, &mut converter).unwrap();
    sink.bytes().to_vec()
}

#[test]
fn find_without_a_name_gives_the_first_entry() {
    let backends = [("rodio", 1u8), ("alsa", 2u8)];
    assert_eq!(find(&backends, None), Some(1));
}

#[test]
fn find_by_name_gives_that_entry() {
    let backends = [("rodio", 1u8), ("alsa", 2u8)];
    assert_eq!(find(&backends, Some(String::from("alsa"))), Some(2));
    assert_eq!(find(&backends, Some(String::from("rodio"))), Some(1));
}

#[test]
fn find_by_a_name_that_is_not_there_gives_none() {
    let backends = [("rodio", 1u8), ("alsa", 2u8)];
    assert_eq!(find(&backends, Some(String::from("missing"))), None);
    assert_eq!(find(&backends, Some(String::new())), None);
}

#[test]
fn find_matches_the_whole_name_and_its_case() {
    let backends = [("rodio", 1u8), ("alsa", 2u8)];
    assert_eq!(find(&backends, Some(String::from("ALSA"))), None);
    assert_eq!(find(&backends, Some(String::from("Rodio"))), None);
    assert_eq!(find(&backends, Some(String::from("als"))), None);
    assert_eq!(find(&backends, Some(String::from("alsa "))), None);
}

#[test]
fn find_takes_the_first_of_two_entries_with_one_name() {
    let backends = [("pipe", 1u8), ("pipe", 2u8), ("alsa", 3u8)];
    assert_eq!(find(&backends, Some(String::from("pipe"))), Some(1));
}

#[test]
fn find_by_name_in_an_empty_table_gives_none() {
    let backends: [(&str, u8); 0] = [];
    assert_eq!(find(&backends, Some(String::from("pipe"))), None);
}

fn mk_marked(_device: Option<String>, format: AudioFormat) -> Box<dyn Sink> {
    Box::new(Marked(MemorySink::open(None, format)))
}

struct Marked(MemorySink);

impl Sink for Marked {
    fn write(&mut self, _packet: &AudioPacket, _converter: &mut Converter) -> io::Result<()> {
        Err(io::Error::new(io::ErrorKind::Other, "marked"))
    }
}

#[test]
fn find_gives_constructors_that_make_sinks() {
    let backends: [(&str, SinkBuilder); 2] =
        [("memory", mk_sink::<MemorySink>), ("marked", mk_marked)];
    let mut converter = Converter::new();
    let packet = samples(&[0.5]);

    let default = find(&backends, None).unwrap();
    let mut sink = default(None, AudioFormat::S16);
    assert!(sink.start().is_ok());
    assert!(sink.write(&packet, &mut converter).is_ok());
    assert!(sink.stop().is_ok());

    let named = find(&backends, Some(String::from("marked"))).unwrap();
    let mut sink = named(Some(String::from("device")), AudioFormat::S16);
    assert!(sink.write(&packet, &mut converter).is_err());

    assert!(find(&backends, Some(String::from("missing"))).is_none());
}

#[test]
fn start_and_stop_succeed_where_a_backend_leaves_them_alone() {
    let mut sink = MemorySink::open(None, AudioFormat::S16);
    assert!(sink.stop().is_ok());
    assert!(sink.start().is_ok());
    assert!(sink.start().is_ok());
    assert!(sink.stop().is_ok());
    assert_eq!(sink.bytes().len(), 0);
}

#[test]
fn open_keeps_the_format() {
    assert_eq!(MemorySink::open(None, AudioFormat::S24_3).format(), AudioFormat::S24_3);
    assert_eq!(
        MemorySink::open(Some(String::from("hw:0")), AudioFormat::F32).format(),
        AudioFormat::F32
    );
}

#[test]
fn s16_goes_out_in_the_byte_order_of_the_machine() {
    let packet = samples(&[0.0, 1.0, -1.0, 0.5, 2.0, -2.0]);
    let mut expected = Vec::new();
    for value in [0i16, 32767, -32767, 16384, 32767, -32768] {
        expected.extend_from_slice(&value.to_ne_bytes());
    }
    assert_eq!(written(AudioFormat::S16, &packet), expected);
}

#[test]
fn s32_goes_out_in_the_byte_order_of_the_machine() {
    let packet = samples(&[0.0, 1.0, -1.0, 0.5, -2.0]);
    let mut expected = Vec::new();
    for value in [0i32, 2147483647, -2147483647, 1073741824, -2147483648] {
        expected.extend_from_slice(&value.to_ne_bytes());
    }
    assert_eq!(written(AudioFormat::S32, &packet), expected);
}

#[test]
fn s24_goes_out_sign_extended_in_four_bytes() {
    let packet = samples(&[0.0, 1.0, -1.0, 0.5, -2.0]);
    let mut expected = Vec::new();
    for value in [0i32, 8388607, -8388607, 4194304, -8388608] {
        expected.extend_from_slice(&value.to_ne_bytes());
    }
    assert_eq!(written(AudioFormat::S24, &packet), expected);
}

#[test]
fn s24_3_goes_out_little_endian_in_three_bytes() {
    let packet = samples(&[0.0, 1.0, -1.0, 0.5, -2.0]);
    let expected = vec![
        0x00, 0x00, 0x00, 0xff, 0xff, 0x7f, 0x01, 0x00, 0x80, 0x00, 0x00, 0x40, 0x00, 0x00, 0x80,
    ];
    assert_eq!(written(AudioFormat::S24_3, &packet), expected);
}

#[test]
fn s24_3_length_is_three_times_the_count() {
    for count in [0usize, 1, 2, 7, 100] {
        let packet = AudioPacket::Samples(vec![0.25f32.to_bits(); count]);
        assert_eq!(written(AudioFormat::S24_3, &packet).len(), 3 * count);
        assert_eq!(written(AudioFormat::S16, &packet).len(), 2 * count);
        assert_eq!(written(AudioFormat::S24, &packet).len(), 4 * count);
        assert_eq!(written(AudioFormat::S32, &packet).len(), 4 * count);
        assert_eq!(written(AudioFormat::F32, &packet).len(), 4 * count);
    }
}

#[test]
fn f32_goes_out_unchanged() {
    let values = [0.0f32, 1.0, -1.0, 0.333_333_34, 2.0, f32::MIN_POSITIVE];
    let mut expected = Vec::new();
    for value in values {
        expected.extend_from_slice(&value.to_ne_bytes());
    }
    assert_eq!(written(AudioFormat::F32, &samples(&values)), expected);
}

#[test]
fn compressed_blocks_go_out_unchanged_whatever_the_format() {
    let block = vec![b'O', b'g', b'g', b'S', 0, 2, 0xff, 0x80];
    for format in [
        AudioFormat::F32,
        AudioFormat::S32,
        AudioFormat::S24,
        AudioFormat::S24_3,
        AudioFormat::S16,
    ] {
        assert_eq!(written(format, &AudioPacket::OggData(block.clone())), block);
    }
}

#[test]
fn empty_packets_write_nothing() {
    assert_eq!(written(AudioFormat::S16, &AudioPacket::Samples(vec![])), Vec::<u8>::new());
    assert_eq!(written(AudioFormat::S24_3, &AudioPacket::Samples(vec![])), Vec::<u8>::new());
    assert_eq!(written(AudioFormat::S16, &AudioPacket::OggData(vec![])), Vec::<u8>::new());
}

#[test]
fn packets_are_written_in_order() {
    let mut sink = MemorySink::open(None, AudioFormat::S16);
    let mut converter = Converter::new();
    sink.write(&samples(&[1.0]), &mut converter).unwrap();
    sink.write(&samples(&[]), &mut converter).unwrap();
    sink.write(&samples(&[-1.0, 0.5]), &mut converter).unwrap();
    let mut expected = Vec::new();
    for value in [32767i16, -32767, 16384] {
        expected.extend_from_slice(&value.to_ne_bytes());
    }
    assert_eq!(sink.bytes(), expected.as_slice());
    assert_eq!(sink.format(), AudioFormat::S16);
}

#[test]
fn one_converter_serves_sinks_of_several_formats() {
    let mut converter = Converter::new();
    let mut narrow = MemorySink::open(None, AudioFormat::S16);
    let mut wide = MemorySink::open(None, AudioFormat::S32);
    let packet = samples(&[0.5, -0.5]);
    narrow.write(&packet, &mut converter).unwrap();
    wide.write(&packet, &mut converter).unwrap();
    narrow.write(&packet, &mut converter).unwrap();
    assert_eq!(narrow.bytes().len(), 8);
    assert_eq!(wide.bytes().len(), 8);
    assert_eq!(narrow.bytes()[..4], narrow.bytes()[4..]);
}

struct Limited {
    room: usize,
    taken: Vec<u8>,
    calls: usize,
}

impl SinkAsBytes for Limited {
    fn write_bytes(&mut self, data: &[u8]) -> io::Result<()> {
        self.calls += 1;
        if data.len() > self.room {
            return Err(io::Error::new(io::ErrorKind::WriteZero, "full"));
        }
        self.room -= data.len();
        self.taken.extend_from_slice(data);
        Ok(())
    }
}

#[test]
fn write_as_bytes_hands_over_each_packet_in_one_call() {
    let mut sink = Limited { room: 9, taken: vec![], calls: 0 };
    let mut converter = Converter::new();
    assert!(write_as_bytes(&mut sink, AudioFormat::S24_3, &samples(&[1.0, -1.0]), &mut converter).is_ok());
    assert_eq!(sink.calls, 1);
    assert_eq!(sink.taken, vec![0xff, 0xff, 0x7f, 0x01, 0x00, 0x80]);
    assert!(write_as_bytes(&mut sink, AudioFormat::S24_3, &AudioPacket::OggData(vec![7, 8, 9]), &mut converter)
        .is_ok());
    assert_eq!(sink.calls, 2);
    assert_eq!(sink.taken, vec![0xff, 0xff, 0x7f, 0x01, 0x00, 0x80, 7, 8, 9]);
}

#[test]
fn write_as_bytes_returns_the_error_of_the_device() {
    let mut sink = Limited { room: 3, taken: vec![], calls: 0 };
    let mut converter = Converter::new();
    let err = write_as_bytes(&mut sink, AudioFormat::S16, &samples(&[1.0, -1.0]), &mut converter)
        .unwrap_err();
    assert_eq!(err.kind(), io::ErrorKind::WriteZero);
    assert_eq!(sink.calls, 1);
    assert!(sink.taken.is_empty());
    assert!(write_as_bytes(&mut sink, AudioFormat::S16, &samples(&[1.0]), &mut converter).is_ok());
    assert_eq!(sink.taken, 32767i16.to_ne_bytes());
}
