use dl_media::processor::{
    audio_subtitle_name, build_merge_args, clean_vtt_name, extension_of, lang_label,
    merge_command, resolution_from_probe_output, strip_vtt_tags, subtitle_lang_suffix,
    subtitle_to_clean, subtitle_tracks, tmp_vtt_name, track_file, track_lang_tag, SubTrack,
};

#[test]
fn vtt_name_pattern() {
    assert!(tmp_vtt_name("tmp_20240101_120000.en.vtt"));
    assert!(tmp_vtt_name("x_tmp_.vtt"));
    assert!(!tmp_vtt_name("tmp_.vt"));
    assert!(!tmp_vtt_name("tmp.vtt"));
    assert!(!tmp_vtt_name("tmp_a\nb.vtt"));
    assert!(tmp_vtt_name("tmp_a\ntmp_b.vtt"));
    assert!(!tmp_vtt_name("tmp_a.vtt.bak"));
}

#[test]
fn subtitles_to_clean() {
    assert!(subtitle_to_clean("tmp_20240101_120000.en.vtt", "20240101_120000"));
    assert!(!subtitle_to_clean("tmp_20240101_120000.en.clean.vtt", "20240101_120000"));
    assert!(!subtitle_to_clean("tmp_20240101_120000.en.vtt", "20240202_000000"));
    assert!(!subtitle_to_clean("tmp_20240101_120000.en.ass", "20240101_120000"));
}

#[test]
fn tags_are_stripped() {
    assert_eq!(strip_vtt_tags("<c.colorE5E5E5>Hello</c> world"), "Hello world");
    assert_eq!(strip_vtt_tags("00:01.000 --> 00:02.000\n<00:00:01.500><c> hi</c>"), "00:01.000 --> 00:02.000\n hi");
    assert_eq!(strip_vtt_tags("a < b"), "a < b");
    assert_eq!(strip_vtt_tags("<<a>b>"), "b>");
    assert_eq!(strip_vtt_tags("x <multi\nline> y"), "x  y");
}

#[test]
fn stripping_twice_changes_nothing() {
    for s in ["<<a>b>", "a<b<c>d>e", "<x", "<>><<>", "plain"] {
        let once = strip_vtt_tags(s);
        assert_eq!(strip_vtt_tags(&once), once);
    }
}

#[test]
fn cleaned_copy_name() {
    assert_eq!(clean_vtt_name("tmp_123.zh-TW.vtt"), "tmp_123.zh-TW.clean.vtt");
    for name in ["a.en.srt", "noext", ".vtt", "x..vtt", "a."] {
        let expected = std::path::Path::new(name).with_extension("clean.vtt");
        assert_eq!(clean_vtt_name(name), expected.to_str().unwrap(), "{}", name);
    }
}

#[test]
fn lang_suffix_of_file() {
    assert_eq!(subtitle_lang_suffix("tmp_1.en.clean.vtt"), "clean");
    assert_eq!(subtitle_lang_suffix("tmp_1.ja.vtt"), "ja");
    assert_eq!(subtitle_lang_suffix("noext"), "sub");
}

#[test]
fn extensions() {
    assert_eq!(extension_of("a/b/movie.mp4").as_deref(), Some("mp4"));
    assert_eq!(extension_of("movie.tar.gz").as_deref(), Some("gz"));
    assert_eq!(extension_of(".hidden"), None);
    assert_eq!(extension_of("noext"), None);
    assert_eq!(extension_of("name."), Some(String::new()));
    assert_eq!(extension_of("dir/a.mkv/"), Some("mkv".to_string()));
    assert_eq!(extension_of("dir/a.mkv/."), Some("mkv".to_string()));
    assert_eq!(extension_of("dir/.."), None);
    assert_eq!(extension_of("/"), None);
}

#[test]
fn audio_subtitle_names() {
    assert_eq!(audio_subtitle_name("Song_20240101_120000.m4a", "en"), "Song_20240101_120000.en.vtt");
    assert_eq!(audio_subtitle_name("mp3 hits_1.mp3", "ja"), "ja.vtt hits_1.ja.vtt");
}

#[test]
fn track_names_and_languages() {
    assert!(track_file("tmp_TS.zh-TW.clean.vtt", "TS"));
    assert!(track_file("tmp_TS.danmaku.ass", "TS"));
    assert!(!track_file("tmp_TS.en.vtt", "TS"));
    assert!(!track_file("tmp_XX.en.ass", "TS"));
    assert_eq!(track_lang_tag("tmp_TS.zh-TW.clean.vtt"), "zh-TW");
    assert_eq!(track_lang_tag("tmp_TS.danmaku.ass"), "danmaku");
    assert_eq!(track_lang_tag("tmp_TS.ass"), "und");
    assert_eq!(lang_label("zh-HK"), ("chi".to_string(), "繁體中文".to_string()));
    assert_eq!(lang_label("zh"), ("zho".to_string(), "簡體中文".to_string()));
    assert_eq!(lang_label("en-GB"), ("eng".to_string(), "English".to_string()));
    assert_eq!(lang_label("ko"), ("kor".to_string(), "한국어".to_string()));
    assert_eq!(lang_label("danmaku"), ("cmn".to_string(), "中文彈幕".to_string()));
    assert_eq!(lang_label("fr"), ("und".to_string(), "fr".to_string()));
}

fn entry(path: &str, name: &str) -> (String, String) {
    (path.to_string(), name.to_string())
}

#[test]
fn tracks_are_sorted_stably_by_title() {
    let entries = vec![
        entry("/t/tmp_TS.zh-TW.clean.vtt", "tmp_TS.zh-TW.clean.vtt"),
        entry("/t/tmp_TS.en.clean.vtt", "tmp_TS.en.clean.vtt"),
        entry("/t/video.mp4", "tmp_TS.mp4"),
        entry("/t/tmp_TS.zh-HK.clean.vtt", "tmp_TS.zh-HK.clean.vtt"),
        entry("/t/tmp_TS.danmaku.ass", "tmp_TS.danmaku.ass"),
    ];
    let tracks = subtitle_tracks(&entries, "TS");
    let titles: Vec<&str> = tracks.iter().map(|t| t.title.as_str()).collect();
    assert_eq!(titles, vec!["English", "中文彈幕", "繁體中文", "繁體中文"]);
    assert_eq!(tracks[2].path, "/t/tmp_TS.zh-TW.clean.vtt");
    assert_eq!(tracks[3].path, "/t/tmp_TS.zh-HK.clean.vtt");
}

#[test]
fn merge_arguments_for_mp4() {
    let tracks = vec![
        SubTrack { path: "a.vtt".into(), title: "English".into(), iso: "eng".into() },
        SubTrack { path: "b.ass".into(), title: "中文彈幕".into(), iso: "cmn".into() },
    ];
    let args = build_merge_args("in.mp4", &tracks, "/out/final.mp4");
    let expected: Vec<&str> = vec![
        "-loglevel", "error", "-hide_banner", "-i", "in.mp4", "-i", "a.vtt", "-i", "b.ass",
        "-c:v", "copy", "-c:a", "copy", "-c:s", "mov_text", "-movflags", "+use_metadata_tags",
        "-map", "0", "-map", "1", "-map", "2",
        "-metadata:s:s:0", "language=eng", "-metadata:s:s:0", "title=English",
        "-metadata:s:s:0", "handler_name=English", "-metadata:s:s:0", "name=English",
        "-metadata:s:s:1", "language=cmn", "-metadata:s:s:1", "title=中文彈幕",
        "-metadata:s:s:1", "handler_name=中文彈幕", "-metadata:s:s:1", "name=中文彈幕",
        "-y", "/out/final.mp4",
    ];
    assert_eq!(args, expected);
}

#[test]
fn merge_arguments_for_mkv_and_no_tracks() {
    let tracks = vec![SubTrack { path: "a.vtt".into(), title: "fr".into(), iso: "und".into() }];
    let args = build_merge_args("in.webm", &tracks, "out.mkv");
    assert_eq!(&args[7..13], &["-c:v", "copy", "-c:a", "copy", "-c:s", "copy"]);
    let none = merge_command(&vec![entry("/t/x.mp4", "tmp_TS.mp4")], "TS", "v", "o.mkv");
    assert!(none.is_none());
    let some = merge_command(&vec![entry("/t/s.ass", "tmp_TS.danmaku.ass")], "TS", "v", "o.mkv")
        .expect("args");
    assert!(some.contains(&"title=中文彈幕".to_string()));
}

#[test]
fn resolution_output_is_trimmed() {
    assert_eq!(resolution_from_probe_output("  1920x1080\n"), "1920x1080");
    assert_eq!(resolution_from_probe_output("\u{3000}\t"), "");
}
