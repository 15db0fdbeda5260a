use transcode_orchestrator::probe::{
    decode_probe_output, decode_streams, ffprobe_args, stream_record, RawStream, VideoInfo,
};
use transcode_orchestrator::CoreError;

#[test]
fn raw_entries_decode_one_record_each_in_order() {
    let raw = vec![
        RawStream {
            width: Some(1),
            height: None,
            nb_read_packets: Some("8".to_string()),
            bit_rate: None,
        },
        RawStream {
            width: None,
            height: Some(2),
            nb_read_packets: None,
            bit_rate: Some("x".to_string()),
        },
    ];
    let r = decode_streams(&raw);
    assert_eq!(
        r,
        vec![
            VideoInfo { width: 1, height: 0, nb_packets: 8, bit_rate: 0 },
            VideoInfo { width: 0, height: 2, nb_packets: 0, bit_rate: 0 },
        ]
    );
}

#[test]
fn probe_document_with_missing_packet_count_defaults_it() {
    let doc = "{\"streams\":[{\"width\":1920,\"height\":1080,\"bit_rate\":\"5000000\"}]}";
    let r = decode_probe_output(doc).unwrap();
    assert_eq!(
        r,
        vec![VideoInfo { width: 1920, height: 1080, nb_packets: 0, bit_rate: 5000000 }]
    );
}

#[test]
fn full_record_decodes_every_field() {
    let doc = "{\"streams\":[{\"width\":640,\"height\":480,\"nb_read_packets\":\"250\",\"bit_rate\":\"900000\"}]}";
    let r = decode_probe_output(doc).unwrap();
    assert_eq!(
        r,
        vec![VideoInfo { width: 640, height: 480, nb_packets: 250, bit_rate: 900000 }]
    );
}

#[test]
fn stream_order_is_preserved() {
    let doc = "{\"streams\":[{\"width\":1},{\"width\":2},{\"width\":3}]}";
    let r = decode_probe_output(doc).unwrap();
    assert_eq!(r.len(), 3);
    assert_eq!(r[0].width, 1);
    assert_eq!(r[1].width, 2);
    assert_eq!(r[2].width, 3);
}

#[test]
fn non_numeric_string_fields_default_to_zero() {
    let doc = "{\"streams\":[{\"bit_rate\":\"N/A\",\"nb_read_packets\":\"many\"}]}";
    let r = decode_probe_output(doc).unwrap();
    assert_eq!(r, vec![VideoInfo { width: 0, height: 0, nb_packets: 0, bit_rate: 0 }]);
}

#[test]
fn wrongly_typed_fields_default_to_zero() {
    // Dimensions are read as native numbers, the other two as numeric
    // strings; a field of the other representation defaults.
    let doc = "{\"streams\":[{\"width\":\"1920\",\"bit_rate\":5000000}]}";
    let r = decode_probe_output(doc).unwrap();
    assert_eq!(r, vec![VideoInfo { width: 0, height: 0, nb_packets: 0, bit_rate: 0 }]);
}

#[test]
fn document_without_streams_yields_no_records() {
    assert_eq!(decode_probe_output("{}"), Ok(vec![]));
    assert_eq!(decode_probe_output("{\"streams\":{}}"), Ok(vec![]));
    assert_eq!(decode_probe_output("null"), Ok(vec![]));
}

#[test]
fn invalid_document_is_a_parse_error() {
    assert_eq!(decode_probe_output("not json"), Err(CoreError::ParseError));
    assert_eq!(decode_probe_output(""), Err(CoreError::ParseError));
}

#[test]
fn record_assembly_defaults_each_missing_field() {
    let r = stream_record(None, None, None, None);
    assert_eq!(r, VideoInfo { width: 0, height: 0, nb_packets: 0, bit_rate: 0 });
    let r = stream_record(Some(10), Some(20), Some("30"), Some("40"));
    assert_eq!(r, VideoInfo { width: 10, height: 20, nb_packets: 30, bit_rate: 40 });
    let r = stream_record(Some(-1), None, Some("x"), Some("-7"));
    assert_eq!(r, VideoInfo { width: -1, height: 0, nb_packets: 0, bit_rate: -7 });
}

#[test]
fn prober_arguments_select_the_fields_in_a_structured_format() {
    let a = ffprobe_args("clip.mp4");
    assert_eq!(
        a,
        vec![
            "-v".to_string(),
            "error".to_string(),
            "-select_streams".to_string(),
            "v:0".to_string(),
            "-count_packets".to_string(),
            "-show_entries".to_string(),
            "stream=width,height,nb_read_packets,bit_rate".to_string(),
            "-of".to_string(),
            "json".to_string(),
            "clip.mp4".to_string(),
        ]
    );
}
