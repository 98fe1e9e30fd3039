use video_preview::files::{InputError, PathStatus};
use video_preview::json::{parse_document, JsonValue};
use video_preview::metadata::{
    extract_metadata, get_video_metadata, read_frame_rate, read_metadata, request_metadata,
    MetadataError, ProbeFailure, VideoMetadata,
};
use video_preview::process::{Invocation, Outcome};

const FULL: &str = r#"{
    "streams": [
        {"index": 0, "codec_type": "audio", "codec_name": "aac", "r_frame_rate": "0/0"},
        {"index": 1, "codec_type": "video", "codec_name": "h264", "width": 1920,
         "height": 1080, "r_frame_rate": "30000/1001"},
        {"index": 2, "codec_type": "video", "codec_name": "mjpeg", "width": 320,
         "height": 240, "r_frame_rate": "25/1"}
    ],
    "format": {"filename": "a.mp4", "duration": "12.500000", "bit_rate": "1205959"}
}"#;

fn described(text: &str) -> VideoMetadata {
    extract_metadata(&parse_document(text).unwrap())
}

fn rate_texts(metadata: &VideoMetadata) -> Option<(String, String)> {
    metadata.fps.as_ref().map(|rate| (rate.numerator.to_text().unwrap(), rate.denominator.to_text().unwrap()))
}

fn frames_per_second(metadata: &VideoMetadata) -> Option<f32> {
    rate_texts(metadata)
        .map(|(above, below)| above.parse::<f32>().unwrap() / below.parse::<f32>().unwrap())
}

fn seconds(metadata: &VideoMetadata) -> Option<f64> {
    metadata.duration.as_ref().map(|number| number.to_text().unwrap().parse::<f64>().unwrap())
}

#[test]
fn a_full_document_fills_every_field() {
    let metadata = described(FULL);
    assert_eq!(metadata.width, Some(1920));
    assert_eq!(metadata.height, Some(1080));
    assert_eq!(metadata.codec.as_deref(), Some("h264"));
    assert_eq!(metadata.bitrate.as_deref(), Some("1205959"));
    assert_eq!(seconds(&metadata), Some(12.5));
    assert_eq!(rate_texts(&metadata), Some(("30000".to_string(), "1001".to_string())));
    assert_eq!(frames_per_second(&metadata), Some(30000.0f32 / 1001.0f32));
}

#[test]
fn only_the_first_video_stream_counts() {
    let metadata = described(
        r#"{"streams": [
            {"codec_type": "subtitle", "width": 1},
            {"codec_type": "video", "codec_name": "vp9"},
            {"codec_type": "video", "codec_name": "h264", "width": 640, "height": 480,
             "r_frame_rate": "24/1"}
        ]}"#,
    );
    assert_eq!(metadata.codec.as_deref(), Some("vp9"));
    assert_eq!(metadata.width, None);
    assert_eq!(metadata.height, None);
    assert!(metadata.fps.is_none());
}

#[test]
fn a_stream_without_frame_rate_leaves_fps_unset() {
    let metadata = described(
        r#"{"streams": [{"codec_type": "video", "codec_name": "h264", "width": 1280,
            "height": 720}], "format": {"duration": "3.0", "bit_rate": "900"}}"#,
    );
    assert!(metadata.fps.is_none());
    assert_eq!(metadata.width, Some(1280));
    assert_eq!(metadata.height, Some(720));
    assert_eq!(metadata.codec.as_deref(), Some("h264"));
    assert_eq!(seconds(&metadata), Some(3.0));
}

#[test]
fn a_format_without_duration_still_succeeds() {
    let printed = br#"{"streams": [{"codec_type": "video", "width": 8, "height": 6}],
        "format": {"bit_rate": "128000"}}"#;
    let outcome = Outcome::Exited { success: true, output: printed.to_vec() };
    let metadata = read_metadata(&outcome).unwrap();
    assert!(metadata.duration.is_none());
    assert_eq!(metadata.bitrate.as_deref(), Some("128000"));
    assert_eq!(metadata.width, Some(8));
    assert_eq!(metadata.height, Some(6));
}

#[test]
fn a_format_without_bit_rate_keeps_its_duration() {
    let metadata = described(r#"{"streams": [], "format": {"duration": "0.04"}}"#);
    assert_eq!(seconds(&metadata), Some(0.04));
    assert!(metadata.bitrate.is_none());
}

#[test]
fn a_document_without_video_leaves_the_stream_fields_unset() {
    for text in [
        r#"{"format": {"duration": "9"}}"#,
        r#"{"streams": [], "format": {"duration": "9"}}"#,
        r#"{"streams": [{"codec_type": "audio", "width": 5}], "format": {"duration": "9"}}"#,
        r#"{"streams": {"codec_type": "video"}, "format": {"duration": "9"}}"#,
        r#"{"streams": [{"codec_type": 7}, {"codec_type": "Video"}, "video", ["video"]],
            "format": {"duration": "9"}}"#,
    ] {
        let metadata = described(text);
        assert_eq!(metadata.width, None, "{:?}", text);
        assert_eq!(metadata.height, None);
        assert!(metadata.codec.is_none());
        assert!(metadata.fps.is_none());
        assert_eq!(seconds(&metadata), Some(9.0));
    }
}

#[test]
fn any_document_gives_metadata() {
    for text in ["null", "[]", "7", "\"text\"", "{}", r#"{"format": 3, "streams": null}"#] {
        let metadata = described(text);
        assert!(metadata.width.is_none() && metadata.height.is_none());
        assert!(metadata.duration.is_none() && metadata.bitrate.is_none());
        assert!(metadata.codec.is_none() && metadata.fps.is_none());
    }
}

#[test]
fn fields_of_another_shape_are_left_unset() {
    let metadata = described(
        r#"{"streams": [{"codec_type": "video", "width": "1920", "height": -1080,
            "codec_name": 264, "r_frame_rate": 30}],
            "format": {"duration": 12.5, "bit_rate": 1000}}"#,
    );
    assert_eq!(metadata.width, None);
    assert_eq!(metadata.height, None);
    assert!(metadata.codec.is_none());
    assert!(metadata.fps.is_none());
    assert!(metadata.duration.is_none());
    assert!(metadata.bitrate.is_none());
}

#[test]
fn an_unreadable_duration_is_left_unset() {
    for duration in ["N/A", "", " 12.5", "12,5", "1:02"] {
        let text = format!(r#"{{"format": {{"duration": "{}", "bit_rate": "1"}}}}"#, duration);
        let metadata = described(&text);
        assert!(metadata.duration.is_none(), "{:?}", duration);
        assert_eq!(metadata.bitrate.as_deref(), Some("1"));
    }
}

#[test]
fn the_bit_rate_is_kept_as_written() {
    let metadata = described(r#"{"format": {"bit_rate": " 1.2 Mb/s "}}"#);
    assert_eq!(metadata.bitrate.as_deref(), Some(" 1.2 Mb/s "));
}

#[test]
fn dimensions_keep_their_low_32_bits() {
    let metadata = described(
        r#"{"streams": [{"codec_type": "video", "width": 4294967301, "height": 4294967295}]}"#,
    );
    assert_eq!(metadata.width, Some(5));
    assert_eq!(metadata.height, Some(u32::MAX));
}

#[test]
fn frame_rates_are_quotients() {
    let cases = [
        ("30/1", "30", "1"),
        ("30000/1001", "30000", "1001"),
        ("24000/1001", "24000", "1001"),
        ("25.0/1.0", "25", "1"),
        ("0/1", "0", "1"),
        ("-30/1", "-30", "1"),
        ("15/0.5", "15", "0.5"),
        ("+60/+2", "60", "2"),
        ("1e3/1", "1000", "1"),
        ("3e4/1.001E3", "30000", "1001"),
        ("25/1e0", "25", "1"),
    ];
    for (text, above, below) in cases {
        let rate = read_frame_rate(text).unwrap();
        assert_eq!(rate.numerator.to_text().unwrap(), above, "{:?}", text);
        assert_eq!(rate.denominator.to_text().unwrap(), below, "{:?}", text);
    }
}

#[test]
fn a_zero_denominator_leaves_fps_unset() {
    for text in ["30/0", "0/0", "30/0.0", "30/-0", "30/000", "30/+0.000", "1/.0", "30/0e5",
        "30/0.0E-3"] {
        assert!(read_frame_rate(text).is_none(), "{:?}", text);
    }
    let metadata = described(
        r#"{"streams": [{"codec_type": "video", "codec_name": "png", "width": 4,
            "height": 3, "r_frame_rate": "0/0"}]}"#,
    );
    assert!(metadata.fps.is_none());
    assert_eq!(metadata.width, Some(4));
    assert_eq!(metadata.height, Some(3));
    assert_eq!(metadata.codec.as_deref(), Some("png"));
}

#[test]
fn malformed_frame_rates_leave_fps_unset() {
    for text in ["", "30", "/", "30/", "/1", "30/1/1", "a/b", "30 / 1", "30/1 ", "30:1", "3\u{e9}/1",
        "30/e", "e/1", "30/1e", "inf/1", "1/nan"] {
        assert!(read_frame_rate(text).is_none(), "{:?}", text);
    }
}

#[test]
fn a_prober_that_fails_is_reported() {
    let missing = Outcome::NotStarted { reason: "No such file or directory".to_string() };
    match read_metadata(&missing) {
        Err(ProbeFailure::NotStarted { reason }) => assert_eq!(reason, "No such file or directory"),
        other => panic!("{:?}", other),
    }
    let failed = Outcome::Exited { success: false, output: FULL.as_bytes().to_vec() };
    assert!(matches!(read_metadata(&failed), Err(ProbeFailure::Unsuccessful)));
}

#[test]
fn output_that_is_no_document_is_reported() {
    for printed in [&b""[..], b"not json", b"{\"streams\": [", &[0xff, 0xfe, 0x7b, 0x7d]] {
        let outcome = Outcome::Exited { success: true, output: printed.to_vec() };
        assert!(matches!(read_metadata(&outcome), Err(ProbeFailure::Unreadable)));
    }
}

#[test]
fn the_printed_document_is_read() {
    let outcome = Outcome::Exited { success: true, output: FULL.as_bytes().to_vec() };
    let metadata = read_metadata(&outcome).unwrap();
    assert_eq!(metadata.width, Some(1920));
    assert_eq!(metadata.codec.as_deref(), Some("h264"));
    assert_eq!(seconds(&metadata), Some(12.5));
}

#[test]
fn repeated_readings_agree() {
    let outcome = Outcome::Exited { success: true, output: FULL.as_bytes().to_vec() };
    let first = read_metadata(&outcome).unwrap();
    let second = read_metadata(&outcome).unwrap();
    assert_eq!(first.width, second.width);
    assert_eq!(first.height, second.height);
    assert_eq!(seconds(&first), seconds(&second));
    assert_eq!(first.bitrate, second.bitrate);
    assert_eq!(first.codec, second.codec);
    assert_eq!(rate_texts(&first), rate_texts(&second));
}

#[test]
fn the_metadata_query_is_named_for_a_regular_file_only() {
    let file = PathStatus { exists: true, is_file: true, is_dir: false };
    let command = request_metadata("a.mp4", &file).unwrap();
    assert_eq!(command.program, "ffprobe");
    assert_eq!(command.arguments.last().unwrap(), "a.mp4");
    assert_eq!(command.arguments[3], "json");
    let missing = PathStatus { exists: false, is_file: false, is_dir: false };
    match request_metadata("gone.mp4", &missing) {
        Err(InputError::FileMissing { path }) => assert_eq!(path, "gone.mp4"),
        other => panic!("{:?}", other),
    }
    let directory = PathStatus { exists: true, is_file: false, is_dir: true };
    assert!(matches!(request_metadata("/v", &directory), Err(InputError::NotAFile { .. })));
}

#[test]
fn a_hand_made_document_is_read_like_a_parsed_one() {
    let stream = JsonValue::Object(vec![
        ("codec_type".to_string(), JsonValue::String("video".to_string())),
        ("width".to_string(), JsonValue::Number(Some(64))),
        ("r_frame_rate".to_string(), JsonValue::String("50/2".to_string())),
    ]);
    let document = JsonValue::Object(vec![
        ("streams".to_string(), JsonValue::Array(vec![JsonValue::Null, stream])),
        (
            "format".to_string(),
            JsonValue::Object(vec![("duration".to_string(), JsonValue::String("1.5".to_string()))]),
        ),
    ]);
    let metadata = extract_metadata(&document);
    assert_eq!(metadata.width, Some(64));
    assert_eq!(metadata.height, None);
    assert_eq!(frames_per_second(&metadata), Some(25.0));
    assert_eq!(seconds(&metadata), Some(1.5));
}

#[test]
fn probe_failures_are_put_in_words() {
    let missing = ProbeFailure::NotStarted { reason: "No such file or directory".to_string() };
    assert_eq!(missing.message(), "Failed to execute ffprobe: No such file or directory");
    assert_eq!(ProbeFailure::Unsuccessful.message(), "FFprobe command failed");
    assert_eq!(ProbeFailure::Unreadable.message(), "Failed to parse video metadata JSON");
}

#[test]
fn metadata_is_had_with_one_query() {
    let file = PathStatus { exists: true, is_file: true, is_dir: false };
    let asked = std::cell::RefCell::new(Vec::new());
    let host = |command: &Invocation| {
        asked.borrow_mut().push((command.program.clone(), command.arguments.clone()));
        Outcome::Exited { success: true, output: FULL.as_bytes().to_vec() }
    };
    let metadata = get_video_metadata("/v/a.mp4", &file, host).unwrap();
    assert_eq!(metadata.width, Some(1920));
    assert_eq!(metadata.height, Some(1080));
    assert_eq!(seconds(&metadata), Some(12.5));
    assert_eq!(metadata.bitrate.as_deref(), Some("1205959"));
    assert_eq!(metadata.codec.as_deref(), Some("h264"));
    assert_eq!(frames_per_second(&metadata), Some(30000.0f32 / 1001.0f32));
    let asked = asked.into_inner();
    assert_eq!(asked.len(), 1);
    assert_eq!(asked[0].0, "ffprobe");
    assert_eq!(
        asked[0].1,
        vec!["-v", "quiet", "-print_format", "json", "-show_streams", "-show_format", "/v/a.mp4"]
    );
}

#[test]
fn metadata_of_a_missing_file_is_refused_without_a_query() {
    let missing = PathStatus { exists: false, is_file: false, is_dir: false };
    let result = get_video_metadata("gone.mp4", &missing, |_: &Invocation| -> Outcome {
        panic!("no command may be run")
    });
    match result {
        Err(MetadataError::Refused(InputError::FileMissing { path })) => {
            assert_eq!(path, "gone.mp4")
        },
        other => panic!("{:?}", other),
    }
    let directory = PathStatus { exists: true, is_file: false, is_dir: true };
    let result = get_video_metadata("/v", &directory, |_: &Invocation| -> Outcome {
        panic!("no command may be run")
    });
    assert_eq!(result.unwrap_err().message(), "Path is not a file: /v");
}

#[test]
fn a_failed_metadata_query_is_an_error() {
    let file = PathStatus { exists: true, is_file: true, is_dir: false };
    let vanished = |_: &Invocation| Outcome::NotStarted { reason: "not found".to_string() };
    let result = get_video_metadata("a.mp4", &file, vanished);
    assert!(matches!(result, Err(MetadataError::Failed(ProbeFailure::NotStarted { .. }))));
    assert_eq!(result.unwrap_err().message(), "Failed to execute ffprobe: not found");
    let failing = |_: &Invocation| Outcome::Exited { success: false, output: Vec::new() };
    let result = get_video_metadata("a.mp4", &file, failing);
    assert_eq!(result.unwrap_err().message(), "FFprobe command failed");
    let garbled = |_: &Invocation| Outcome::Exited { success: true, output: b"<xml/>".to_vec() };
    let result = get_video_metadata("a.mp4", &file, garbled);
    assert_eq!(result.unwrap_err().message(), "Failed to parse video metadata JSON");
}

#[test]
fn repeated_requests_to_one_host_agree() {
    let file = PathStatus { exists: true, is_file: true, is_dir: false };
    let host =
        |_: &Invocation| Outcome::Exited { success: true, output: FULL.as_bytes().to_vec() };
    let first = get_video_metadata("a.mp4", &file, &host).unwrap();
    let second = get_video_metadata("a.mp4", &file, &host).unwrap();
    assert_eq!(first.width, second.width);
    assert_eq!(first.height, second.height);
    assert_eq!(seconds(&first), seconds(&second));
    assert_eq!(first.bitrate, second.bitrate);
    assert_eq!(first.codec, second.codec);
    assert_eq!(rate_texts(&first), rate_texts(&second));
}

#[test]
fn bytes_that_are_no_text_are_replaced_before_the_document_is_read() {
    let mut printed = b"{\"format\": {\"bit_rate\": \"1".to_vec();
    printed.push(0xff);
    printed.extend_from_slice(b"2\", \"duration\": \"4.5\"}}");
    let outcome = Outcome::Exited { success: true, output: printed };
    let metadata = read_metadata(&outcome).unwrap();
    assert_eq!(metadata.bitrate.as_deref(), Some("1\u{fffd}2"));
    assert_eq!(seconds(&metadata), Some(4.5));
}

#[test]
fn numbers_with_an_exponent_are_read_from_the_document() {
    let metadata = described(
        r#"{"streams": [{"codec_type": "video", "r_frame_rate": "1e3/1"}],
            "format": {"duration": "1e3", "bit_rate": "1e3"}}"#,
    );
    assert_eq!(seconds(&metadata), Some(1000.0));
    assert_eq!(frames_per_second(&metadata), Some(1000.0));
    assert_eq!(metadata.bitrate.as_deref(), Some("1e3"));
    let metadata = described(r#"{"format": {"duration": "1.25E-1"}}"#);
    assert_eq!(seconds(&metadata), Some(0.125));
    for duration in ["inf", "nan", "infinity", "1e", "e3"] {
        let text = format!(r#"{{"format": {{"duration": "{}"}}}}"#, duration);
        assert!(described(&text).duration.is_none(), "{:?}", duration);
    }
}
