use dl_media::args::MediaType;
use dl_media::config::Config;
use dl_media::parser::VideoFormat;
use dl_media::setup::{
    apply_path_setting, clean_dropped_path, cookie_args_for, cookie_file_name, cookie_plan,
    missing_tools_message, required_tools, settings_menu, settings_step, CookiePlan, SettingsStep,
};
use dl_media::ui::{
    format_choices, format_from_choice, format_id_for_answer, langs_for_answers,
    media_type_for_choice, resolution_labels, resolution_options, subtitle_menu, urls_from_input,
};

fn vf(id: &str, h: u32) -> VideoFormat {
    VideoFormat { format_id: id.into(), height: h, vcodec: "vp9".into(), ext: "webm".into() }
}

#[test]
fn media_type_choices() {
    assert_eq!(media_type_for_choice(0), MediaType::Audio);
    assert_eq!(media_type_for_choice(1), MediaType::VideoOnly);
    assert_eq!(media_type_for_choice(2), MediaType::Video);
    assert_eq!(media_type_for_choice(9), MediaType::Video);
}

#[test]
fn format_menu_and_choice() {
    assert_eq!(format_choices(MediaType::Audio), vec!["m4a", "mp3"]);
    let v = format_choices(MediaType::Video);
    assert_eq!(v, vec!["mp4 (最高 1080p，相容性佳)", "mkv (解鎖 4K/8K 畫質)"]);
    assert_eq!(format_from_choice(&v[0]), "mp4");
    assert_eq!(format_from_choice(&v[1]), "mkv");
    assert_eq!(format_from_choice("m4a"), "m4a");
}

#[test]
fn urls_split_on_white_space() {
    assert_eq!(urls_from_input("  https://a  https://b\thttps://c \n"), vec!["https://a", "https://b", "https://c"]);
    assert!(urls_from_input("   ").is_empty());
}

#[test]
fn resolution_menu_above_1080() {
    let formats = vec![vf("a", 720), vf("b", 2160), vf("c", 1080), vf("d", 1440), vf("e", 2160), vf("f", 1080)];
    let menu = resolution_options(&formats);
    let ids: Vec<&str> = menu.iter().map(|f| f.format_id.as_str()).collect();
    assert_eq!(ids, vec!["b", "d", "f"]);
    let labels = resolution_labels(&menu);
    assert_eq!(labels[0], "2160p (編碼: vp9), 來源：webm)");
    assert_eq!(format_id_for_answer(&menu, &labels, &labels[1]), Some("d".to_string()));
    assert_eq!(format_id_for_answer(&menu, &labels, "nothing"), None);
}

#[test]
fn no_resolution_menu_without_high_formats() {
    assert!(resolution_options(&vec![vf("a", 720), vf("b", 1080)]).is_empty());
    let only_high = resolution_options(&vec![vf("x", 4320)]);
    assert_eq!(only_high.len(), 1);
}

#[test]
fn subtitle_menu_entries() {
    let langs = vec!["en-US".to_string(), "zh-Hant".to_string(), "jpn".to_string()];
    assert_eq!(subtitle_menu(&langs), vec!["中文 (繁/簡/彈幕)", "英文 (English)", "日文 (日本語)"]);
    assert!(subtitle_menu(&vec!["fr".to_string(), "de".to_string()]).is_empty());
    assert_eq!(subtitle_menu(&vec!["danmaku".to_string(), "chi".to_string()]), vec!["中文 (繁/簡/彈幕)"]);
}

#[test]
fn subtitle_answers_to_langs() {
    let answers = vec!["日文 (日本語)".to_string(), "英文 (English)".to_string(), "?".to_string()];
    assert_eq!(langs_for_answers(&answers), vec!["ja", "jpn", "en", "en-US", "en-GB"]);
    let zh = langs_for_answers(&vec!["中文 (繁/簡/彈幕)".to_string()]);
    assert_eq!(zh, vec!["zh-Hant", "zh-TW", "zh-HK", "zh-Hans", "zh", "chi", "danmaku"]);
}

#[test]
fn tools_and_missing_message() {
    let tools = required_tools();
    let names: Vec<&str> = tools.iter().map(|t| t.0.as_str()).collect();
    assert_eq!(names, vec!["yt-dlp", "ffmpeg", "ffprobe", "danmaku2ass"]);
    let missing = vec![tools[0].clone(), tools[3].clone()];
    let mac = missing_tools_message(&missing, true);
    assert_eq!(
        mac,
        "❌ 偵測到缺少必要組件，請先安裝以下工具：\n\n  📌 [yt-dlp]\n     👉 下載：https://github.com/yt-dlp/yt-dlp#installation\n     💻 Mac 指令：brew install yt-dlp\n  📌 [danmaku2ass]\n     👉 下載：https://github.com/m13253/danmaku2ass\n"
    );
    let linux = missing_tools_message(&missing, false);
    assert!(!linux.contains("brew"));
}

#[test]
fn dropped_paths_are_cleaned() {
    assert_eq!(clean_dropped_path("  '/Users/me/My\\ Movies'  \n"), "/Users/me/My Movies");
    assert_eq!(clean_dropped_path("\"C:\\Videos\""), "C:\\Videos");
    assert_eq!(clean_dropped_path("'\"x\"'"), "\"x\"");
}

#[test]
fn settings_menu_and_steps() {
    let mut c = Config::default();
    let m = settings_menu(&c);
    assert_eq!(m[0], "📂 下載目錄 [目前: 預設 (Downloads)]");
    assert_eq!(m[1], "🍪 Cookie 目錄 [目前: 預設 (App設定夾)]");
    assert_eq!(m[2], "⚡ 最大並行下載數 [目前: 3]");
    assert_eq!(m[3], "✅ 完成並退出");
    assert_eq!(settings_step(0), SettingsStep::AskDownloadDir);
    assert_eq!(settings_step(3), SettingsStep::Finish);
    assert_eq!(settings_step(7), SettingsStep::AskIgnoredPath);
    apply_path_setting(&mut c, SettingsStep::AskCookieDir, " '/ck' ");
    assert_eq!(c.cookie_dir, "/ck");
    assert_eq!(settings_menu(&c)[1], "🍪 Cookie 目錄 [目前: /ck]");
    apply_path_setting(&mut c, SettingsStep::AskIgnoredPath, "/nope");
    assert_eq!(c.download_dir, "");
    assert_eq!(c.cookie_dir, "/ck");
}

#[test]
fn cookie_files_and_plan() {
    assert_eq!(cookie_file_name("youtube"), "cookie_youtube.txt");
    assert_eq!(cookie_file_name("bilibili"), "cookie_bilibili.txt");
    assert_eq!(cookie_args_for("/c/cookie_x.txt"), vec!["--cookies", "/c/cookie_x.txt"]);
    assert_eq!(cookie_plan(true, true, true, false), CookiePlan::UseManual);
    assert_eq!(cookie_plan(false, true, true, false), CookiePlan::UseSiteFile);
    assert_eq!(cookie_plan(false, false, true, false), CookiePlan::WarnAndAsk);
    assert_eq!(cookie_plan(false, false, true, true), CookiePlan::WarnOnly);
    assert_eq!(cookie_plan(false, false, false, false), CookiePlan::NoCookies);
}
