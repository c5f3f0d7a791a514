use ubx_capture::frame::encode_frame;
use ubx_capture::sink::kind_for_path;
use ubx_capture::sink::sink_source_round_trip;
use ubx_capture::sink::Sink;
use ubx_capture::sink::SinkKind;
use ubx_capture::sink::Source;

#[test]
fn kind_is_selected_by_path_suffix() {
    assert_eq!(kind_for_path("output.ubx.gz"), SinkKind::Gzip);
    assert_eq!(kind_for_path("capture.ubx"), SinkKind::Plain);
    assert_eq!(kind_for_path(".gz"), SinkKind::Gzip);
    assert_eq!(kind_for_path("a.gz"), SinkKind::Gzip);
    assert_eq!(kind_for_path("gz"), SinkKind::Plain);
    assert_eq!(kind_for_path("archive.gzip"), SinkKind::Plain);
    assert_eq!(kind_for_path(""), SinkKind::Plain);
}

#[test]
fn round_trip_plain_and_compressed() {
    let data: Vec<u8> = (0u16..1000).map(|i| (i % 251) as u8).collect();
    assert_eq!(sink_source_round_trip(SinkKind::Plain, &data), data);
    assert_eq!(sink_source_round_trip(SinkKind::Gzip, &data), data);
}

#[test]
fn round_trip_empty_input() {
    assert_eq!(sink_source_round_trip(SinkKind::Plain, &[]), Vec::<u8>::new());
    assert_eq!(sink_source_round_trip(SinkKind::Gzip, &[]), Vec::<u8>::new());
}

#[test]
fn compressed_sink_really_compresses() {
    // The stored bytes of a gzip sink are a gzip stream, not the raw
    // input handed back unchanged.
    let data = vec![7u8; 512];
    let mut sink = Sink::new(SinkKind::Gzip);
    sink.write(&data);
    let stored = sink.into_bytes();
    assert!(stored.len() >= 2);
    assert_eq!(stored[0], 0x1f);
    assert_eq!(stored[1], 0x8b);
    assert_ne!(stored, data);
    assert!(stored.len() < data.len());
}

#[test]
fn malformed_compressed_stream_does_not_open() {
    assert!(Source::open(SinkKind::Gzip, &[1, 2, 3, 4]).is_none());
    // The same bytes open fine as a plain source.
    let plain = Source::open(SinkKind::Plain, &[1, 2, 3, 4]).unwrap();
    assert_eq!(plain.data, vec![1, 2, 3, 4]);
}

#[test]
fn source_reads_in_bounded_chunks() {
    let mut sink = Sink::new(SinkKind::Plain);
    sink.write(&[1, 2, 3, 4, 5]);
    let stored = sink.into_bytes();
    let mut source = Source::open(SinkKind::Plain, &stored).unwrap();
    assert_eq!(source.read(2), vec![1, 2]);
    assert_eq!(source.read(2), vec![3, 4]);
    assert_eq!(source.read(2), vec![5]);
    assert_eq!(source.read(2), Vec::<u8>::new());
}

#[test]
fn default_capture_path_is_compressed_and_preserves_marker() {
    // The default output path selects compression, and what a capture
    // stores, once decompressed, starts with the same frame-start
    // marker as the raw stream.
    let kind = kind_for_path("output.ubx.gz");
    assert_eq!(kind, SinkKind::Gzip);

    let raw = encode_frame(0x01, 0x07, &[1, 2, 3]);
    let mut sink = Sink::new(kind);
    sink.write(&raw);
    let stored = sink.into_bytes();

    let mut source = Source::open(kind, &stored).unwrap();
    let recovered = source.read(raw.len());
    assert_eq!(recovered, raw);
    assert_eq!(recovered[0], 0xb5);
    assert_eq!(recovered[1], 0x62);
}
