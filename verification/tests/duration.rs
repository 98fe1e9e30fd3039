use video_preview::decimal::Decimal;
use video_preview::duration::{read_duration, read_duration_text, sample_times, SAMPLES};
use video_preview::process::Outcome;

fn printed(output: &[u8]) -> Outcome {
    Outcome::Exited { success: true, output: output.to_vec() }
}

fn seconds(outcome: &Outcome) -> Option<String> {
    read_duration(outcome).map(|duration| duration.to_text().unwrap())
}

#[test]
fn reads_the_printed_duration() {
    assert_eq!(seconds(&printed(b"12.5")), Some("12.5".to_string()));
    assert_eq!(seconds(&printed(b"12.500000\n")), Some("12.5".to_string()));
    assert_eq!(seconds(&printed(b"  634.166667\r\n")), Some("634.166667".to_string()));
    assert_eq!(seconds(&printed(b"\t7\n\n")), Some("7".to_string()));
}

#[test]
fn white_space_of_any_script_is_trimmed() {
    assert_eq!(
        read_duration_text("\u{a0}\u{2003}12.5\u{3000}\u{85}").map(|d| d.to_text().unwrap()),
        Some("12.5".to_string())
    );
    assert_eq!(
        seconds(&printed("\u{2028}3.25\u{205f}".as_bytes())),
        Some("3.25".to_string())
    );
    assert!(read_duration_text("12.5\u{200b}").is_none());
    assert!(read_duration_text("12 .5").is_none());
}

#[test]
fn no_duration_from_a_prober_that_failed() {
    assert!(read_duration(&Outcome::NotStarted { reason: "not found".to_string() }).is_none());
    assert!(read_duration(&Outcome::Exited { success: false, output: b"12.5".to_vec() }).is_none());
}

#[test]
fn no_duration_from_what_is_no_positive_number() {
    for output in ["", "\n", "N/A", "0", "0.000", "-0", "-3.5", "abc", "12.5 s", "1e", "nan", "inf",
        "0e3", "-1e3"] {
        assert!(read_duration(&printed(output.as_bytes())).is_none(), "{:?}", output);
    }
}

#[test]
fn bytes_that_are_no_text_give_no_duration() {
    assert!(read_duration(&printed(&[0x31, 0x32, 0xff])).is_none());
    assert!(read_duration(&printed(&[0xff, 0xfe])).is_none());
    assert_eq!(seconds(&printed(&[0x31, 0x32])), Some("12".to_string()));
}

#[test]
fn samples_lie_at_one_to_five_tenths() {
    let duration = Decimal::parse("12.5").unwrap();
    let times = sample_times(&duration);
    assert_eq!(times.len(), SAMPLES);
    assert_eq!(SAMPLES, 5);
    let values: Vec<f64> = times.iter().map(|t| t.to_text().unwrap().parse::<f64>().unwrap()).collect();
    assert_eq!(values, vec![1.25, 2.5, 3.75, 5.0, 6.25]);
}

#[test]
fn samples_ascend_and_stay_inside_the_duration() {
    for input in ["0.5", "1", "59.94", "7200.125", "0.000001"] {
        let duration = Decimal::parse(input).unwrap();
        let whole = input.parse::<f64>().unwrap();
        let values: Vec<f64> = sample_times(&duration)
            .iter()
            .map(|t| t.to_text().unwrap().parse::<f64>().unwrap())
            .collect();
        assert_eq!(values.len(), 5);
        let mut before = 0.0;
        for value in values {
            assert!(before < value && value < whole, "{:?}", input);
            before = value;
        }
    }
}

#[test]
fn exactly_the_white_space_characters_are_trimmed() {
    let white = |c: char| {
        let u = c as u32;
        (0x09..=0x0d).contains(&u)
            || u == 0x20
            || u == 0x85
            || u == 0xa0
            || u == 0x1680
            || (0x2000..=0x200a).contains(&u)
            || u == 0x2028
            || u == 0x2029
            || u == 0x202f
            || u == 0x205f
            || u == 0x3000
    };
    let mut trimmed = 0;
    let codes = (0..=0xffffu32).chain((0x10000..=0x10ffffu32).step_by(89));
    for code in codes {
        if let Some(c) = char::from_u32(code) {
            let text = format!("{}{}7.5{}", c, c, c);
            let read = read_duration_text(&text).map(|d| d.to_text().unwrap());
            if white(c) {
                trimmed += 1;
                assert_eq!(read, Some("7.5".to_string()), "{:x}", code);
            } else if c == '0' {
                assert_eq!(read, Some("7.5".to_string()));
            } else if c.is_ascii_digit() {
                assert_eq!(read, Some(format!("{}{}7.5{}", c, c, c)));
            } else {
                assert_eq!(read, None, "{:x}", code);
            }
        }
    }
    assert_eq!(trimmed, 25);
}

#[test]
fn text_in_any_script_is_decoded_before_it_is_read() {
    let printed = "\u{3000}42.125\u{2003}\n".as_bytes();
    assert_eq!(seconds(&Outcome::Exited { success: true, output: printed.to_vec() }),
        Some("42.125".to_string()));
}

#[test]
fn a_duration_with_an_exponent_is_read() {
    assert_eq!(seconds(&printed(b"1e3\n")), Some("1000".to_string()));
    assert_eq!(seconds(&printed(b" 1.25E+1 ")), Some("12.5".to_string()));
    assert_eq!(seconds(&printed(b"634166667e-6")), Some("634.166667".to_string()));
    let duration = read_duration(&printed(b"1e3")).unwrap();
    let offsets: Vec<String> =
        sample_times(&duration).iter().map(|t| t.to_text().unwrap()).collect();
    assert_eq!(offsets, vec!["100", "200", "300", "400", "500"]);
}

#[test]
fn a_duration_whose_offsets_are_not_written_out_is_none() {
    assert!(read_duration(&printed(b"1e1024")).is_some());
    assert!(read_duration(&printed(b"1e1026")).is_none());
    assert!(read_duration(&printed(b"1e-1023")).is_some());
    assert!(read_duration(&printed(b"1e-1030")).is_none());
    assert!(read_duration(&printed(b"1e99999999999999999999999999")).is_none());
}
