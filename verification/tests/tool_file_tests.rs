use stream_archive::tool_file::{apply_defaults, check_tool_updates, read_tool_settings, text_lines, updated_tool_file, ToolFileError};

fn pair(k: &str, v: &str) -> (String, String) {
    (k.to_string(), v.to_string())
}

#[test]
fn stores_and_loads_tool_paths() {
    let updates = vec![
        pair("FFMPEG_PATH", r"C:\Tools\ffmpeg.exe"),
        pair("YT_DLP_PATH", r"C:\Tools\yt-dlp.exe"),
    ];
    check_tool_updates(&updates).unwrap();
    let written = updated_tool_file("", &updates);
    let (yt, ff) = read_tool_settings(&written);
    assert_eq!(yt, r"C:\Tools\yt-dlp.exe");
    assert_eq!(ff, r"C:\Tools\ffmpeg.exe");
}

#[test]
fn new_file_gets_heading_and_keys_in_order() {
    let updates = vec![pair("FFMPEG_PATH", "ff"), pair("YT_DLP_PATH", "yt")];
    let written = updated_tool_file("", &updates);
    assert_eq!(written, "# SOOP VOD tool settings\nYT_DLP_PATH=yt\nFFMPEG_PATH=ff\n");
}

#[test]
fn update_rewrites_existing_line_and_keeps_others() {
    let original = "; comment\r\nYT_DLP_PATH = old\r\nOTHER=1\r\n";
    let written = updated_tool_file(original, &[pair("YT_DLP_PATH", "new")]);
    assert_eq!(written, "; comment\r\nYT_DLP_PATH=new\r\nOTHER=1\r\n");
}

#[test]
fn update_appends_missing_key_and_normalizes_lone_cr() {
    let written = updated_tool_file("A=1\rB=2", &[pair("FFMPEG_PATH", "x")]);
    assert_eq!(written, "A=1\nB=2\nFFMPEG_PATH=x\n");
}

#[test]
fn read_skips_comments_and_takes_last_trimmed_value() {
    let text = "# YT_DLP_PATH=no\n;FFMPEG_PATH=no\n YT_DLP_PATH = a \nYT_DLP_PATH=  b\r\nnoise\n";
    let (yt, ff) = read_tool_settings(text);
    assert_eq!(yt, "b");
    assert_eq!(ff, "");
}

#[test]
fn refuses_unknown_key_and_bad_paths() {
    assert_eq!(
        check_tool_updates(&[pair("OTHER", "x")]),
        Err(ToolFileError::UnsupportedKey("OTHER".to_string()))
    );
    assert_eq!(
        check_tool_updates(&[pair("FFMPEG_PATH", "a\nb")]),
        Err(ToolFileError::InvalidPath("FFMPEG_PATH".to_string()))
    );
    let long = "x".repeat(2049);
    assert_eq!(
        check_tool_updates(&[pair("YT_DLP_PATH", &long)]),
        Err(ToolFileError::InvalidPath("YT_DLP_PATH".to_string()))
    );
    let limit = "x".repeat(2048);
    assert_eq!(check_tool_updates(&[pair("YT_DLP_PATH", &limit)]), Ok(()));
}

#[test]
fn lines_drop_carriage_return_and_final_empty_line() {
    assert_eq!(text_lines("a\r\nb\n"), vec!["a".to_string(), "b".to_string()]);
    assert_eq!(text_lines("a\n\nb"), vec!["a".to_string(), String::new(), "b".to_string()]);
    assert!(text_lines("").is_empty());
}

#[test]
fn blank_tool_paths_take_the_file_defaults() {
    let text = "YT_DLP_PATH=/opt/yt-dlp\nFFMPEG_PATH=/opt/ffmpeg\n";
    let mut yt = "  ".to_string();
    let mut ff = "/usr/bin/ffmpeg".to_string();
    apply_defaults(text, &mut yt, &mut ff);
    assert_eq!(yt, "/opt/yt-dlp");
    assert_eq!(ff, "/usr/bin/ffmpeg");
    let mut yt2 = String::new();
    let mut ff2 = String::new();
    apply_defaults("", &mut yt2, &mut ff2);
    assert_eq!((yt2.as_str(), ff2.as_str()), ("", ""));
}
