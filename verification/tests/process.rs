use video_preview::process::{
    duration_command, fallback_command, metadata_command, open_command, primary_command,
    tool_available, version_command, Outcome, Platform, Tool,
};

fn words(list: &[&str]) -> Vec<String> {
    list.iter().map(|word| word.to_string()).collect()
}

#[test]
fn version_queries_name_the_tools() {
    let encoder = version_command(Tool::Encoder);
    assert_eq!(encoder.program, "ffmpeg");
    assert_eq!(encoder.arguments, words(&["-version"]));
    let prober = version_command(Tool::Prober);
    assert_eq!(prober.program, "ffprobe");
    assert_eq!(prober.arguments, words(&["-version"]));
}

#[test]
fn duration_query_asks_for_one_value() {
    let command = duration_command("/videos/a b.mp4");
    assert_eq!(command.program, "ffprobe");
    assert_eq!(
        command.arguments,
        words(&[
            "-v",
            "quiet",
            "-show_entries",
            "format=duration",
            "-of",
            "csv=p=0",
            "/videos/a b.mp4"
        ])
    );
}

#[test]
fn metadata_query_asks_for_streams_and_format() {
    let command = metadata_command("clip.mkv");
    assert_eq!(command.program, "ffprobe");
    assert_eq!(
        command.arguments,
        words(&[
            "-v",
            "quiet",
            "-print_format",
            "json",
            "-show_streams",
            "-show_format",
            "clip.mkv"
        ])
    );
}

#[test]
fn primary_extraction_writes_motion_jpeg() {
    let command = primary_command("clip.mkv", "2.5");
    assert_eq!(command.program, "ffmpeg");
    assert_eq!(
        command.arguments,
        words(&[
            "-ss",
            "2.5",
            "-i",
            "clip.mkv",
            "-vframes",
            "1",
            "-f",
            "mjpeg",
            "-vf",
            "scale=320:240",
            "-q:v",
            "2",
            "-y",
            "-"
        ])
    );
}

#[test]
fn fallback_extraction_writes_a_plain_image() {
    let command = fallback_command("clip.mkv", "2.5");
    assert_eq!(command.program, "ffmpeg");
    assert_eq!(
        command.arguments,
        words(&[
            "-ss",
            "2.5",
            "-i",
            "clip.mkv",
            "-vframes",
            "1",
            "-f",
            "image2",
            "-vf",
            "scale=320:240",
            "-y",
            "-"
        ])
    );
}

#[test]
fn a_tool_is_available_wherever_it_started() {
    assert!(tool_available(&Outcome::Exited { success: true, output: Vec::new() }));
    assert!(tool_available(&Outcome::Exited { success: false, output: b"usage".to_vec() }));
    assert!(!tool_available(&Outcome::NotStarted { reason: "No such file".to_string() }));
}

#[test]
fn files_are_opened_by_the_system_program() {
    let windows = open_command(Platform::Windows, "C:\\a.mp4").unwrap();
    assert_eq!(windows.program, "cmd");
    assert_eq!(windows.arguments, words(&["/C", "start", "", "C:\\a.mp4"]));
    let mac = open_command(Platform::MacOs, "/a.mp4").unwrap();
    assert_eq!(mac.program, "open");
    assert_eq!(mac.arguments, words(&["/a.mp4"]));
    let linux = open_command(Platform::Linux, "/a.mp4").unwrap();
    assert_eq!(linux.program, "xdg-open");
    assert_eq!(linux.arguments, words(&["/a.mp4"]));
    assert!(open_command(Platform::Other, "/a.mp4").is_none());
}
