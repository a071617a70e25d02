use dl_media::args::{check_format, Args, ArgsError, MediaType};
use dl_media::config::{
    config_file_content, current_version, default_audio_fmt, default_concurrency,
    default_empty_string, default_video_fmt, Config, CONFIG_HEADER,
};

fn args(url: Option<&str>, mt: Option<MediaType>, fmt: Option<&str>) -> Args {
    Args {
        url: url.map(|s| s.to_string()),
        media_type: mt,
        format: fmt.map(|s| s.to_string()),
        output: None,
        cookie: None,
        open_config: false,
        config: false,
        force_cookie: false,
    }
}

#[test]
fn media_type_codes() {
    assert_eq!(MediaType::Audio.code(), 1);
    assert_eq!(MediaType::VideoOnly.code(), 2);
    assert_eq!(MediaType::Video.code(), 3);
}

#[test]
fn fully_automated_needs_all_three() {
    assert!(args(Some("u"), Some(MediaType::Video), Some("mp4")).is_fully_automated());
    assert!(!args(None, Some(MediaType::Video), Some("mp4")).is_fully_automated());
    assert!(!args(Some("u"), None, Some("mp4")).is_fully_automated());
    assert!(!args(Some("u"), Some(MediaType::Video), None).is_fully_automated());
}

#[test]
fn validate_accepts_matching_formats() {
    assert!(args(None, Some(MediaType::Audio), Some("mp3")).validate().is_ok());
    assert!(args(None, Some(MediaType::Audio), Some("M4A")).validate().is_ok());
    assert!(args(None, Some(MediaType::Video), Some("MKV")).validate().is_ok());
    assert!(args(None, Some(MediaType::VideoOnly), Some("mp4")).validate().is_ok());
}

#[test]
fn validate_passes_when_something_is_missing() {
    assert!(args(None, None, Some("flac")).validate().is_ok());
    assert!(args(None, Some(MediaType::Audio), None).validate().is_ok());
}

#[test]
fn validate_refuses_audio_format_mismatch() {
    match args(None, Some(MediaType::Audio), Some("MP4")).validate() {
        Err(ArgsError::AudioFormat(f)) => assert_eq!(f, "mp4"),
        other => panic!("unexpected {:?}", other),
    }
}

#[test]
fn validate_refuses_video_format_mismatch() {
    match args(None, Some(MediaType::Video), Some("Mp3")).validate() {
        Err(e @ ArgsError::VideoFormat(_)) => {
            assert_eq!(e.message(), "❌ 格式 'mp3' 與影片類型不匹配。請使用 mp4 或 mkv。");
        }
        other => panic!("unexpected {:?}", other),
    }
}

#[test]
fn check_format_is_case_sensitive_on_lowered_input() {
    assert!(check_format(MediaType::Audio, "m4a").is_ok());
    let e = check_format(MediaType::Audio, "wav").unwrap_err();
    assert_eq!(e.message(), "❌ 格式 'wav' 與音訊類型不匹配。請使用 mp3 或 m4a。");
}

#[test]
fn defaults_match_default_config() {
    let c = Config::default();
    assert_eq!(c.version, current_version());
    assert_eq!(c.version, "0.2.1");
    assert_eq!(c.download_dir, default_empty_string());
    assert_eq!(c.cookie_dir, "");
    assert_eq!(c.default_video_format, default_video_fmt());
    assert_eq!(c.default_video_format, "mp4");
    assert_eq!(c.default_audio_format, default_audio_fmt());
    assert_eq!(c.default_audio_format, "m4a");
    assert_eq!(c.max_concurrent_downloads, default_concurrency());
    assert_eq!(c.max_concurrent_downloads, 3);
}

#[test]
fn upgrade_version_once() {
    let mut c = Config::default();
    c.version = "0.1.0".to_string();
    c.download_dir = "/tmp/x".to_string();
    assert!(c.upgrade_version());
    assert_eq!(c.version, "0.2.1");
    assert_eq!(c.download_dir, "/tmp/x");
    assert!(!c.upgrade_version());
}

#[test]
fn config_file_has_header_then_data() {
    let text = config_file_content("version = \"0.2.1\"\n");
    assert!(text.starts_with("# ======"));
    assert!(text.contains("dl-media 使用者設定檔"));
    assert!(text.contains("%APPDATA%\\dl-media\\"));
    assert!(text.ends_with("\n\nversion = \"0.2.1\"\n"));
    assert_eq!(text.len(), CONFIG_HEADER.len() + "version = \"0.2.1\"\n".len());
}
