use dl_media::json::Json;
use dl_media::parser::probe_data_from_doc;
use dl_media::text::lines_of;
use dl_media::parser::{
    access_status, content_kind_text, extract_site_name, hidden_items_found, parse_rescan_output,
    parse_scan_output, probe_data_from_json, video_info_from_output, video_info_from_probe,
    AccessStatus, ProbeData, RawFormat,
};

#[test]
fn site_names_of_known_sites() {
    assert_eq!(extract_site_name("https://www.YouTube.com/watch?v=1"), "youtube");
    assert_eq!(extract_site_name("https://youtu.be/abc"), "youtube");
    assert_eq!(extract_site_name("https://lh3.googleusercontent.com/x"), "youtube");
    assert_eq!(extract_site_name("https://www.bilibili.com/video/BV1"), "bilibili");
    assert_eq!(extract_site_name("https://b23.tv/xyz"), "bilibili");
    assert_eq!(extract_site_name("https://twitter.com/a/status/1"), "twitter");
    assert_eq!(extract_site_name("https://X.com/a/status/1"), "twitter");
    assert_eq!(extract_site_name("https://www.facebook.com/watch"), "facebook");
    assert_eq!(extract_site_name("https://fb.watch/abc"), "facebook");
    assert_eq!(extract_site_name("https://www.instagram.com/p/1"), "instagram");
}

#[test]
fn site_name_of_other_hosts() {
    assert_eq!(extract_site_name("https://www.Vimeo.com/123"), "vimeo");
    assert_eq!(extract_site_name("https://soundcloud.com/a"), "soundcloud");
    assert_eq!(extract_site_name("https://localhost/a"), "unknown");
    assert_eq!(extract_site_name("not a url"), "unknown");
}

#[test]
fn site_names_match_whole_hosts() {
    assert_eq!(extract_site_name("https://www.netflix.com/title/1"), "netflix");
    assert_eq!(extract_site_name("https://x.com/a"), "twitter");
    assert_eq!(extract_site_name("https://mobile.twitter.com/a"), "twitter");
    assert_eq!(extract_site_name("https://m.youtube.com/watch?v=1"), "youtube");
    assert_eq!(extract_site_name("https://notyoutube.com/a"), "notyoutube");
    assert_eq!(extract_site_name("https://box.com/x.com"), "box");
    assert_eq!(extract_site_name("https://user@x.com:443/a"), "twitter");
    assert_eq!(extract_site_name("https://x.com?s=1"), "twitter");
    assert_eq!(extract_site_name("youtu.be/abc"), "youtube");
}

#[test]
fn site_names_ignore_case() {
    for url in ["https://WWW.YOUTUBE.COM/x", "https://Www.NetFlix.Com/t", "HTTPS://B23.TV/a"] {
        let once = extract_site_name(url);
        assert_eq!(extract_site_name(&url.to_lowercase()), once);
        assert_eq!(once.to_lowercase(), once);
    }
}

#[test]
fn scan_reads_playlist_and_items() {
    let out = "playlist:My List\nitem:First|https://a/1\nitem:Sec|ond|https://a/2\nnoise\n";
    let (videos, is_pl, restricted) = parse_scan_output(out, "", "https://a/list", false, "a");
    assert!(is_pl);
    assert!(!restricted);
    assert_eq!(videos.len(), 2);
    assert_eq!(videos[0].title, "First");
    assert_eq!(videos[0].url, "https://a/1");
    assert_eq!(videos[1].title, "Sec|ond");
    assert_eq!(videos[1].url, "https://a/2");
}

#[test]
fn scan_single_video_na_playlist() {
    let out = "playlist:NA\nitem:Clip|https://a/v\n";
    let (videos, is_pl, _) = parse_scan_output(out, "", "https://a/v", false, "a");
    assert!(!is_pl);
    assert_eq!(videos.len(), 1);
    let (_, is_pl2, _) = parse_scan_output("playlist:null\nplaylist:\n", "", "u", false, "a");
    assert!(!is_pl2);
}

#[test]
fn scan_falls_back_to_given_address() {
    let (videos, is_pl, restricted) = parse_scan_output("", "", "https://a/v", false, "a");
    assert!(!is_pl);
    assert!(!restricted);
    assert_eq!(videos.len(), 1);
    assert_eq!(videos[0].title, "Video");
    assert_eq!(videos[0].url, "https://a/v");
}

#[test]
fn scan_detects_restrictions() {
    let out = "item:[Private video]|https://a/1\nitem:Ok|https://a/2\n";
    let (videos, _, restricted) = parse_scan_output(out, "", "u", false, "a");
    assert!(restricted);
    assert_eq!(videos.len(), 1);
    assert_eq!(videos[0].title, "Ok");
    let (_, _, r2) = parse_scan_output("", "ERROR: Sign In to confirm", "u", false, "a");
    assert!(r2);
    let (_, _, r3) = parse_scan_output("", "", "u", true, "a");
    assert!(r3);
    let (_, _, r4) = parse_scan_output("", "", "u", false, "bilibili");
    assert!(r4);
    let (_, _, r5) = parse_scan_output("", "需要登錄", "u", false, "a");
    assert!(r5);
}

#[test]
fn rescan_skips_private_and_deleted_only() {
    let out = "item:[Deleted video]|https://a/0\nitem:Private talk|https://a/1\nitem:x|https://a/2\r\n";
    let videos = parse_rescan_output(out, "u");
    assert_eq!(videos.len(), 2);
    assert_eq!(videos[0].title, "Private talk");
    assert_eq!(videos[1].url, "https://a/2");
    let fallback = parse_rescan_output("nothing\n", "https://u");
    assert_eq!(fallback.len(), 1);
    assert_eq!(fallback[0].title, "Video");
}

#[test]
fn hidden_items_count() {
    assert_eq!(hidden_items_found(3, 5), 2);
    assert_eq!(hidden_items_found(5, 5), 0);
    assert_eq!(hidden_items_found(5, 2), 0);
}

#[test]
fn access_status_order() {
    assert_eq!(access_status(true, true), AccessStatus::ForcedCookie);
    assert_eq!(access_status(true, false), AccessStatus::Restricted);
    assert_eq!(access_status(false, false), AccessStatus::Public);
    assert_eq!(AccessStatus::Public.text(), "🔓 公開內容");
    assert_eq!(content_kind_text(true, 12), "【播放清單】(包含 12 部內容)");
    assert_eq!(content_kind_text(false, 1), "【單一內容】");
}

fn raw(id: Option<&str>, vcodec: Option<&str>, height: Option<u64>, ext: Option<&str>) -> RawFormat {
    RawFormat {
        format_id: id.map(|s| s.to_string()),
        vcodec: vcodec.map(|s| s.to_string()),
        height,
        ext: ext.map(|s| s.to_string()),
    }
}

#[test]
fn probe_sorts_langs_and_picks_formats() {
    let probe = ProbeData {
        subtitle_langs: vec!["zh-TW".into(), "en".into()],
        caption_langs: vec!["en".into(), "ja".into()],
        formats: vec![
            raw(Some("sb0"), Some("none"), Some(90), Some("mhtml")),
            raw(Some("137"), Some("avc1"), Some(1080), Some("mp4")),
            raw(Some("a1"), None, None, Some("m4a")),
            raw(Some("sb1"), Some("vp9"), Some(100), Some("mhtml")),
            raw(Some("313"), Some("vp9"), Some(2160), None),
        ],
    };
    let info = video_info_from_probe("https://www.bilibili.com/video/1", &Some(probe));
    assert_eq!(info.langs, vec!["danmaku", "en", "ja", "zh-TW"]);
    assert_eq!(info.formats.len(), 2);
    assert_eq!(info.formats[0].format_id, "137");
    assert_eq!(info.formats[1].format_id, "313");
    assert_eq!(info.formats[1].ext, "");
    assert_eq!(info.formats[1].height, 2160);
}

#[test]
fn probe_without_metadata() {
    let info = video_info_from_probe("https://youtube.com/x", &None);
    assert!(info.langs.is_empty());
    assert!(info.formats.is_empty());
    let b = video_info_from_probe("https://b23.tv/x", &None);
    assert_eq!(b.langs, vec!["danmaku"]);
}

#[test]
fn probe_height_is_cut_to_32_bits() {
    let probe = ProbeData {
        subtitle_langs: vec![],
        caption_langs: vec![],
        formats: vec![raw(Some("x"), Some("h264"), Some((1u64 << 32) + 720), Some("mp4"))],
    };
    let info = video_info_from_probe("u", &Some(probe));
    assert_eq!(info.formats[0].height, 720);
}

#[test]
fn probe_reads_json() {
    let json = br#"{"subtitles":{"en":[],"fr":[]},"automatic_captions":{"en":[]},
        "formats":[{"format_id":"18","vcodec":"avc1","height":360,"ext":"mp4"},
                   {"format_id":"140","vcodec":"none","ext":"m4a"}]}"#;
    let data = probe_data_from_json(json).expect("json");
    assert_eq!(data.subtitle_langs, vec!["en", "fr"]);
    assert_eq!(data.caption_langs, vec!["en"]);
    assert_eq!(data.formats.len(), 2);
    assert_eq!(data.formats[1].height, None);
    let info = video_info_from_output("https://youtube.com/x", json).expect("info");
    assert_eq!(info.langs, vec!["en", "fr"]);
    assert_eq!(info.formats.len(), 1);
    assert_eq!(info.formats[0].format_id, "18");
}

#[test]
fn probe_with_bad_json_or_missing_id() {
    assert!(probe_data_from_json(b"not json").is_none());
    let info = video_info_from_output("https://www.bilibili.com/v", b"oops").expect("info");
    assert_eq!(info.langs, vec!["danmaku"]);
    let json = br#"{"formats":[{"vcodec":"avc1","height":720,"ext":"mp4"}]}"#;
    assert!(video_info_from_output("u", json).is_none());
}

#[test]
fn probe_reads_only_well_typed_fields() {
    let json = br#"{"subtitles":["en"],"automatic_captions":{"de":1,"ja":{}},
        "formats":[7,{"format_id":5,"vcodec":"vp9","height":1080.5,"ext":"webm"},
                   {"format_id":"248","vcodec":"vp9","height":-1,"ext":"webm"},
                   {"format_id":"sb0","vcodec":"vp9","height":90,"ext":"mhtml"},
                   {"format_id":"399","vcodec":"av01","height":1080,"ext":"mp4"}]}"#;
    let data = probe_data_from_json(json).expect("json");
    assert!(data.subtitle_langs.is_empty());
    assert_eq!(data.caption_langs, vec!["de", "ja"]);
    assert_eq!(data.formats.len(), 5);
    assert_eq!(data.formats[0].format_id, None);
    assert_eq!(data.formats[0].vcodec, None);
    assert_eq!(data.formats[1].format_id, None);
    assert_eq!(data.formats[1].height, None);
    assert_eq!(data.formats[2].height, None);
    assert_eq!(data.formats[4].height, Some(1080));
    let info = video_info_from_output("https://youtube.com/x", json).expect("info");
    assert_eq!(info.langs, vec!["de", "ja"]);
    assert_eq!(info.formats.len(), 1);
    assert_eq!(info.formats[0].format_id, "399");
    assert_eq!(info.formats[0].vcodec, "av01");
}

#[test]
fn probe_of_json_that_is_no_object() {
    let data = probe_data_from_json(b"[1,2]").expect("json");
    assert!(data.subtitle_langs.is_empty() && data.caption_langs.is_empty() && data.formats.is_empty());
    let info = video_info_from_output("https://b23.tv/x", b"\"text\"").expect("info");
    assert_eq!(info.langs, vec!["danmaku"]);
    assert!(info.formats.is_empty());
    assert!(probe_data_from_json(b"{\"formats\":").is_none());
}

#[test]
fn lines_follow_str_lines() {
    for s in ["", "\n", "a", "a\n", "a\r\nb", "a\r\nb\r\n", "a\n\nb", "a\rb\n", "x\r", "\r\n\r\n", "a\n\r"] {
        let expected: Vec<String> = s.lines().map(|l| l.to_string()).collect();
        assert_eq!(lines_of(s), expected, "{:?}", s);
    }
}

#[test]
fn scan_reads_crlf_lines() {
    let out = "playlist:L\r\nitem:T|https://a/1\r\n";
    let (videos, is_pl, _) = parse_scan_output(out, "", "https://a/list", false, "a");
    assert!(is_pl);
    assert_eq!(videos[0].url, "https://a/1");
}

#[test]
fn probe_reads_a_built_document() {
    let entry = Json::Object(vec![
        ("format_id".to_string(), Json::Str("22".to_string())),
        ("vcodec".to_string(), Json::Str("avc1".to_string())),
        ("height".to_string(), Json::Number(Some(720))),
        ("ext".to_string(), Json::Str("mp4".to_string())),
    ]);
    let doc = Json::Object(vec![
        ("automatic_captions".to_string(), Json::Object(vec![("ko".to_string(), Json::Null)])),
        ("formats".to_string(), Json::Array(vec![entry, Json::Bool(true)])),
        ("subtitles".to_string(), Json::Object(vec![
            ("en".to_string(), Json::Array(vec![])),
            ("es".to_string(), Json::Null),
        ])),
    ]);
    let data = probe_data_from_doc(&doc);
    assert_eq!(data.subtitle_langs, vec!["en", "es"]);
    assert_eq!(data.caption_langs, vec!["ko"]);
    assert_eq!(data.formats.len(), 2);
    assert_eq!(data.formats[0].format_id.as_deref(), Some("22"));
    assert_eq!(data.formats[0].height, Some(720));
    assert_eq!(data.formats[1].vcodec, None);
    let none = probe_data_from_doc(&Json::Str("x".to_string()));
    assert!(none.subtitle_langs.is_empty() && none.formats.is_empty());
}
