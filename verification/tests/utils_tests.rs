use dl_media::utils::{
    add_subtitle_args, apply_resolution_choice, build_download_args, choose_download_dir,
    download_steps, downloaded_entry, downloaded_media, duration_text, final_file_name, needs_rescan, output_template,
    playlist_dir_name, progress_update, resolution_note, resolve_cookie_dir, sanitize_title,
    session_id, should_suggest_cookie, tally, Mp4Note,
};

fn strs(v: &[String]) -> Vec<&str> {
    v.iter().map(|s| s.as_str()).collect()
}

const BASE: [&str; 14] = [
    "--newline", "--progress", "--no-colors", "--no-warnings", "--ignore-errors",
    "--no-overwrites", "--embed-thumbnail", "--embed-metadata", "--embed-chapters",
    "--convert-thumbnails", "jpg", "--restrict-filenames", "--sponsorblock-remove",
    "sponsor,intro,outro",
];

#[test]
fn download_args_for_mp3() {
    let a = build_download_args(1, "mp3", "u", &[]);
    assert_eq!(&strs(&a)[..14], &BASE);
    assert_eq!(&strs(&a)[14..], &["--extract-audio", "--audio-format", "mp3", "--audio-quality", "320k", "-f", "bestaudio"]);
}

#[test]
fn download_args_for_m4a_mkv_mp4() {
    let a = build_download_args(1, "m4a", "u", &[]);
    assert_eq!(&strs(&a)[14..], &["--extract-audio", "--audio-format", "m4a", "-f", "bestaudio[ext=m4a]/bestaudio"]);
    let b = build_download_args(3, "mkv", "u", &[]);
    assert_eq!(&strs(&b)[14..], &["--merge-output-format", "mkv", "-f", "bv*+ba/best"]);
    let c = build_download_args(3, "mp4", "u", &[]);
    assert_eq!(&strs(&c)[14..], &["--merge-output-format", "mp4", "-f", "bv*[vcodec^=avc]+ba[ext=m4a]/best[ext=mp4]/best"]);
}

#[test]
fn silent_video_selects_video_only_streams() {
    let a = build_download_args(2, "mp4", "u", &[]);
    assert_eq!(&strs(&a)[14..], &["--remux-video", "mp4", "-f", "bv[vcodec^=avc]/bv[ext=mp4]/bv"]);
    let b = build_download_args(2, "mkv", "u", &[]);
    assert_eq!(&strs(&b)[14..], &["--remux-video", "mkv", "-f", "bv"]);
    for sel in [strs(&a)[17], strs(&b)[17]] {
        assert!(!sel.contains("+ba") && !sel.contains("bestaudio") && !sel.contains("best"));
    }
    let mut c = b.clone();
    apply_resolution_choice(&mut c, 2, "299");
    assert_eq!(strs(&c)[17], "299");
}

#[test]
fn resolution_choice_replaces_selector() {
    let mut a = build_download_args(3, "mkv", "u", &[]);
    add_subtitle_args(&mut a, &vec!["en".to_string(), "ja".to_string()]);
    apply_resolution_choice(&mut a, 3, "401");
    let s = strs(&a);
    let f = s.iter().position(|x| *x == "-f").unwrap();
    assert_eq!(s[f + 1], "401+bestaudio/best");
    assert_eq!(&s[s.len() - 4..], &["--write-subs", "--write-auto-subs", "--sub-langs", "en,ja"]);
    let mut none = vec!["x".to_string()];
    apply_resolution_choice(&mut none, 3, "1");
    assert_eq!(none, vec!["x"]);
}

#[test]
fn no_subtitle_args_without_langs() {
    let mut a = vec!["x".to_string()];
    add_subtitle_args(&mut a, &vec![]);
    assert_eq!(a, vec!["x"]);
}

#[test]
fn sanitized_titles() {
    assert_eq!(sanitize_title("a/b\\c:d*e?f\"g<h>i|j"), "a_b_c_d_e_f_g_h_i_j");
    let once = sanitize_title("AC/DC: Live?");
    assert_eq!(sanitize_title(&once), once);
}

#[test]
fn playlist_folder_names() {
    assert_eq!(playlist_dir_name(&Some("  My: List \n".to_string())), "My_ List");
    assert_eq!(playlist_dir_name(&Some("NA\n".to_string())), "Playlist");
    assert_eq!(playlist_dir_name(&Some("null".to_string())), "Playlist");
    assert_eq!(playlist_dir_name(&Some("   ".to_string())), "Playlist");
    assert_eq!(playlist_dir_name(&None), "Playlist");
}

#[test]
fn final_names() {
    assert_eq!(final_file_name(true, 0, "T", "20240101_120000", "mp4"), "01-T_20240101_120000.mp4");
    assert_eq!(final_file_name(true, 9, "T", "ts", "mkv"), "10-T_ts.mkv");
    assert_eq!(final_file_name(true, 99, "T", "ts", "mkv"), "100-T_ts.mkv");
    assert_eq!(final_file_name(false, 5, "T", "ts", "m4a"), "T_ts.m4a");
}

#[test]
fn playlist_names_differ() {
    let names: Vec<String> = (0..120).map(|i| final_file_name(true, i, "t", "ts", "mp4")).collect();
    for i in 0..names.len() {
        for j in 0..i {
            assert_ne!(names[i], names[j]);
        }
    }
}

#[test]
fn session_and_template() {
    assert_eq!(session_id("20240101_120000", 4242, 7), "20240101_120000_pid4242_7");
    assert_eq!(output_template("/tmp/s", "TS"), "/tmp/s/tmp_TS.%(ext)s");
}

#[test]
fn downloaded_media_files() {
    assert!(downloaded_media("tmp_TS.mp4", "TS"));
    assert!(downloaded_media("tmp_TS.webm.part", "TS"));
    assert!(!downloaded_media("tmp_TS.en.vtt", "TS"));
    assert!(!downloaded_media("tmp_TS.danmaku.ass", "TS"));
    assert!(!downloaded_media("tmp_TS.srt", "TS"));
    assert!(!downloaded_media("other.mp4", "TS"));
}

#[test]
fn progress_lines() {
    let u = progress_update("[download]  42.5% of 10.00MiB at 1.00MiB/s ETA 00:05").expect("progress");
    assert_eq!(u.percent.as_deref(), Some("42.5"));
    assert_eq!(u.message, "42.5% of 10.00MiB at 1.00MiB/s ETA 00:05");
    assert!(progress_update("[download] Destination: x.mp4").is_none());
    assert!(progress_update("[info] 100%").is_none());
    let odd = progress_update("[download]%").expect("progress");
    assert_eq!(odd.percent.as_deref(), Some("[download]"));
    assert_eq!(odd.message, "%");
}

#[test]
fn durations() {
    assert_eq!(duration_text(0), "0 分 0 秒");
    assert_eq!(duration_text(125), "2 分 5 秒");
    assert_eq!(duration_text(3600), "60 分 0 秒");
}

#[test]
fn tallies_and_hints() {
    assert_eq!(tally(&vec![true, false, true]), (2, 1));
    assert_eq!(tally(&vec![]), (0, 0));
    assert!(should_suggest_cookie(1, false));
    assert!(!should_suggest_cookie(1, true));
    assert!(!should_suggest_cookie(0, false));
}

#[test]
fn notes_and_dirs() {
    assert_eq!(resolution_note(&Some("1920x1080".to_string())), " [畫質: 1920x1080]");
    assert_eq!(resolution_note(&None), "");
    assert_eq!(choose_download_dir(&Some("/o".to_string()), "/c"), Some("/o".to_string()));
    assert_eq!(choose_download_dir(&None, "/c"), Some("/c".to_string()));
    assert_eq!(choose_download_dir(&None, ""), None);
    assert_eq!(resolve_cookie_dir("", "/app"), "/app");
    assert_eq!(resolve_cookie_dir("/ck", "/app"), "/ck");
    assert!(needs_rescan(&vec!["--cookies".to_string()], true));
    assert!(!needs_rescan(&vec![], true));
    assert!(!needs_rescan(&vec!["--cookies".to_string()], false));
}

#[test]
fn steps_per_download() {
    let s = download_steps(3, "mkv", 1, false);
    assert!(s.ask_subtitles && s.ask_resolution && s.mux_subtitles && s.report_resolution);
    assert_eq!(s.mp4_note, Mp4Note::NoNote);
    let t = download_steps(3, "mp4", 1, false);
    assert!(!t.ask_resolution);
    assert_eq!(t.mp4_note, Mp4Note::UpTo1080);
    let u = download_steps(2, "mp4", 3, false);
    assert!(!u.ask_subtitles);
    assert_eq!(u.mp4_note, Mp4Note::BestCompatible);
    let a = download_steps(1, "mp3", 1, false);
    assert!(a.ask_subtitles && !a.ask_resolution && !a.mux_subtitles && !a.report_resolution);
}

#[test]
fn silent_run_asks_nothing() {
    let s = download_steps(3, "mkv", 1, true);
    assert!(!s.ask_subtitles && !s.ask_resolution);
    assert!(s.mux_subtitles && s.report_resolution);
    let t = download_steps(3, "mp4", 1, true);
    assert_eq!(t.mp4_note, Mp4Note::UpTo1080);
    let u = download_steps(3, "mp4", 2, true);
    assert_eq!(u.mp4_note, Mp4Note::BestCompatible);
}

#[test]
fn downloaded_entry_is_first_media_after_success() {
    let names = vec![
        "tmp_20240101_120000.en.vtt".to_string(),
        "other.mp4".to_string(),
        "tmp_20240101_120000.mp4".to_string(),
        "tmp_20240101_120000.webm".to_string(),
    ];
    assert_eq!(downloaded_entry(true, &names, "20240101_120000"), Some(2));
    assert_eq!(downloaded_entry(false, &names, "20240101_120000"), None);
    assert_eq!(downloaded_entry(true, &names[..2].to_vec(), "20240101_120000"), None);
    assert_eq!(downloaded_entry(true, &vec![], "x"), None);
}
