use vstd::prelude::*;

use crate::config::Config;
use crate::text::{
    chars_of, concat_text, decimal, decimal_chars, push_chars, push_string, push_text,
    replace_all, replace_chars, string_of, strings_view, text_eq, trim, trim_chars, CharClass,
};

verus! {

// ---------------------------------------------------------------------------
// The tools the program runs
// ---------------------------------------------------------------------------

/// The outside tools the program needs, each with where to get it.
pub open spec fn tool_list() -> Seq<(Seq<char>, Seq<char>)> {
    seq![
        ("yt-dlp"@, "https://github.com/yt-dlp/yt-dlp#installation"@),
        ("ffmpeg"@, "https://ffmpeg.org/download.html"@),
        ("ffprobe"@, "https://ffmpeg.org/download.html"@),
        ("danmaku2ass"@, "https://github.com/m13253/danmaku2ass"@),
    ]
}

/// A list of name and address pairs as texts.
pub open spec fn pairs_view(s: Seq<(String, String)>) -> Seq<(Seq<char>, Seq<char>)> {
    s.map_values(|p: (String, String)| (p.0@, p.1@))
}

fn push_pair(list: &mut Vec<(String, String)>, a: &str, b: &str)
    ensures
        pairs_view(final(list)@) == pairs_view(old(list)@).push((a@, b@)),
{
    let ghost before = list@;
    list.push((a.to_owned(), b.to_owned()));
    proof {
        assert(pairs_view(list@) =~= pairs_view(before).push((a@, b@)));
    }
}

/// The outside tools the program needs: yt-dlp, ffmpeg, ffprobe and danmaku2ass, each
/// with the address to install it from.
pub fn required_tools() -> (res: Vec<(String, String)>)
    ensures
        pairs_view(res@) == tool_list(),
{
    let mut v: Vec<(String, String)> = Vec::new();
    push_pair(&mut v, "yt-dlp", "https://github.com/yt-dlp/yt-dlp#installation");
    push_pair(&mut v, "ffmpeg", "https://ffmpeg.org/download.html");
    push_pair(&mut v, "ffprobe", "https://ffmpeg.org/download.html");
    push_pair(&mut v, "danmaku2ass", "https://github.com/m13253/danmaku2ass");
    proof {
        assert(pairs_view(v@) =~= tool_list());
    }
    v
}

/// The lines about one missing tool: its name and where to get it, and on macOS the
/// Homebrew command (danmaku2ass has none).
pub open spec fn missing_tool_text(name: Seq<char>, url: Seq<char>, on_macos: bool) -> Seq<char> {
    let base = "  📌 ["@ + name + "]\n     👉 下載："@ + url + "\n"@;
    if on_macos && name != "danmaku2ass"@ {
        base + "     💻 Mac 指令：brew install "@ + name + "\n"@
    } else {
        base
    }
}

/// The text about all the missing tools, in order.
pub open spec fn missing_tools_text(missing: Seq<(Seq<char>, Seq<char>)>, on_macos: bool) -> Seq<char>
    decreases missing.len(),
{
    if missing.len() == 0 {
        Seq::empty()
    } else {
        missing_tools_text(missing.drop_last(), on_macos) + missing_tool_text(
            missing.last().0,
            missing.last().1,
            on_macos,
        )
    }
}

/// The error message for missing tools: a heading, then each tool with where to get
/// it (and its Homebrew command on macOS).
pub fn missing_tools_message(missing: &Vec<(String, String)>, on_macos: bool) -> (res: String)
    ensures
        res@ == "❌ 偵測到缺少必要組件，請先安裝以下工具：\n\n"@ + missing_tools_text(
            pairs_view(missing@),
            on_macos,
        ),
{
    let ghost mv = pairs_view(missing@);
    let mut out = chars_of("❌ 偵測到缺少必要組件，請先安裝以下工具：\n\n");
    let ghost head = out@;
    let mut i: usize = 0;
    while i < missing.len()
        invariant
            i <= missing.len(),
            mv == pairs_view(missing@),
            out@ == head + missing_tools_text(mv.take(i as int), on_macos),
        decreases missing.len() - i,
    {
        proof {
            assert(mv.take(i + 1).drop_last() =~= mv.take(i as int));
            assert(mv.take(i + 1).last() == mv[i as int]);
        }
        let name = missing[i].0.as_str();
        let url = missing[i].1.as_str();
        let ghost before = out@;
        push_text(&mut out, "  📌 [");
        push_text(&mut out, name);
        push_text(&mut out, "]\n     👉 下載：");
        push_text(&mut out, url);
        push_text(&mut out, "\n");
        if on_macos && !text_eq(name, "danmaku2ass") {
            push_text(&mut out, "     💻 Mac 指令：brew install ");
            push_text(&mut out, name);
            push_text(&mut out, "\n");
        }
        proof {
            assert(out@ =~= before + missing_tool_text(mv[i as int].0, mv[i as int].1, on_macos));
            assert(out@ =~= head + missing_tools_text(mv.take(i + 1), on_macos));
        }
        i += 1;
    }
    proof {
        assert(mv.take(missing@.len() as int) =~= mv);
    }
    string_of(&out)
}

// ---------------------------------------------------------------------------
// The settings menu
// ---------------------------------------------------------------------------

/// A folder path dropped into the terminal, cleaned: white space trimmed, then
/// surrounding double quotes, then single quotes, and escaped spaces unescaped.
pub open spec fn cleaned_path(input: Seq<char>) -> Seq<char> {
    replace_all(
        trim(trim(trim(input, CharClass::WhiteSpace), CharClass::Exactly('"')), CharClass::Exactly('\'')),
        "\\ "@,
        " "@,
    )
}

/// Cleans a folder path dropped into the terminal.
pub fn clean_dropped_path(input: &str) -> (res: String)
    ensures
        res@ == cleaned_path(input@),
{
    let a = trim_chars(&chars_of(input), &CharClass::WhiteSpace);
    let b = trim_chars(&a, &CharClass::Exactly('"'));
    let c = trim_chars(&b, &CharClass::Exactly('\''));
    string_of(&replace_chars(&c, &chars_of("\\ "), &chars_of(" ")))
}

/// How a folder setting is shown: the folder, or the default's description when unset.
pub open spec fn shown_dir(dir: Seq<char>, default_text: Seq<char>) -> Seq<char> {
    if dir.len() == 0 {
        default_text
    } else {
        dir
    }
}

/// The entries of the settings menu for the current settings.
pub open spec fn settings_menu_spec(c: Config) -> Seq<Seq<char>> {
    seq![
        "📂 下載目錄 [目前: "@ + shown_dir(c.download_dir@, "預設 (Downloads)"@) + "]"@,
        "🍪 Cookie 目錄 [目前: "@ + shown_dir(c.cookie_dir@, "預設 (App設定夾)"@) + "]"@,
        "⚡ 最大並行下載數 [目前: "@ + decimal(c.max_concurrent_downloads as nat) + "]"@,
        "✅ 完成並退出"@,
    ]
}

/// The entries of the settings menu: the download folder, the cookie folder, the
/// concurrency (each with its current value) and leaving.
pub fn settings_menu(config: &Config) -> (res: Vec<String>)
    ensures
        strings_view(res@) == settings_menu_spec(*config),
{
    let mut menu: Vec<String> = Vec::new();
    let mut a = chars_of("📂 下載目錄 [目前: ");
    if config.download_dir.as_str().is_empty() {
        push_text(&mut a, "預設 (Downloads)");
    } else {
        push_text(&mut a, config.download_dir.as_str());
    }
    push_text(&mut a, "]");
    crate::text::push_chars_string(&mut menu, &a);
    let mut b = chars_of("🍪 Cookie 目錄 [目前: ");
    if config.cookie_dir.as_str().is_empty() {
        push_text(&mut b, "預設 (App設定夾)");
    } else {
        push_text(&mut b, config.cookie_dir.as_str());
    }
    push_text(&mut b, "]");
    crate::text::push_chars_string(&mut menu, &b);
    let mut c = chars_of("⚡ 最大並行下載數 [目前: ");
    push_chars(&mut c, &decimal_chars(config.max_concurrent_downloads as u64));
    push_text(&mut c, "]");
    crate::text::push_chars_string(&mut menu, &c);
    push_string(&mut menu, "✅ 完成並退出");
    proof {
        assert(strings_view(menu@) =~= settings_menu_spec(*config));
    }
    menu
}

/// What a choice in the settings menu leads to.
#[derive(Clone, Copy, Debug, PartialEq, Eq, Structural)]
pub enum SettingsStep {
    /// Ask for the download folder.
    AskDownloadDir,
    /// Ask for the cookie folder.
    AskCookieDir,
    /// Ask for the concurrency.
    AskConcurrency,
    /// Leave the menu.
    Finish,
    /// Ask for a folder and keep nothing (a choice past the menu's entries).
    AskIgnoredPath,
}

/// What a choice in the settings menu leads to (0, 1, 2 and 3 are its entries).
pub fn settings_step(selection: usize) -> (r: SettingsStep)
    ensures
        r == if selection == 0 {
            SettingsStep::AskDownloadDir
        } else if selection == 1 {
            SettingsStep::AskCookieDir
        } else if selection == 2 {
            SettingsStep::AskConcurrency
        } else if selection == 3 {
            SettingsStep::Finish
        } else {
            SettingsStep::AskIgnoredPath
        },
{
    if selection == 0 {
        SettingsStep::AskDownloadDir
    } else if selection == 1 {
        SettingsStep::AskCookieDir
    } else if selection == 2 {
        SettingsStep::AskConcurrency
    } else if selection == 3 {
        SettingsStep::Finish
    } else {
        SettingsStep::AskIgnoredPath
    }
}

/// Stores the folder the user dropped (cleaned) in the setting the step asked for.
pub fn apply_path_setting(config: &mut Config, step: SettingsStep, input: &str)
    ensures
        step == SettingsStep::AskDownloadDir ==> final(config).download_dir@ == cleaned_path(input@)
            && final(config).cookie_dir == old(config).cookie_dir,
        step == SettingsStep::AskCookieDir ==> final(config).cookie_dir@ == cleaned_path(input@)
            && final(config).download_dir == old(config).download_dir,
        step != SettingsStep::AskDownloadDir && step != SettingsStep::AskCookieDir
            ==> final(config).download_dir == old(config).download_dir
            && final(config).cookie_dir == old(config).cookie_dir,
        final(config).version == old(config).version,
        final(config).default_video_format == old(config).default_video_format,
        final(config).default_audio_format == old(config).default_audio_format,
        final(config).max_concurrent_downloads == old(config).max_concurrent_downloads,
{
    let cleaned = clean_dropped_path(input);
    match step {
        SettingsStep::AskDownloadDir => {
            config.download_dir = cleaned;
        },
        SettingsStep::AskCookieDir => {
            config.cookie_dir = cleaned;
        },
        _ => {},
    }
}

// ---------------------------------------------------------------------------
// Cookies
// ---------------------------------------------------------------------------

/// The name of a site's cookie file: "cookie_", the site and ".txt".
pub fn cookie_file_name(site: &str) -> (res: String)
    ensures
        res@ == "cookie_"@ + site@ + ".txt"@,
{
    let mut out = concat_text("cookie_", site);
    push_text(&mut out, ".txt");
    string_of(&out)
}

/// The yt-dlp arguments that use a cookie file.
pub fn cookie_args_for(path: &str) -> (res: Vec<String>)
    ensures
        strings_view(res@) == seq!["--cookies"@, path@],
{
    let mut v: Vec<String> = Vec::new();
    push_string(&mut v, "--cookies");
    push_string(&mut v, path);
    proof {
        assert(strings_view(v@) =~= seq!["--cookies"@, path@]);
    }
    v
}

/// How the cookies for a download are found.
#[derive(Clone, Copy, Debug, PartialEq, Eq, Structural)]
pub enum CookiePlan {
    /// Use the cookie file given on the command line.
    UseManual,
    /// Use the site's cookie file in the cookie folder.
    UseSiteFile,
    /// Warn that the site's file is missing and ask whether to wait for it.
    WarnAndAsk,
    /// Warn that the site's file is missing; asking is off.
    WarnOnly,
    /// Go on without cookies.
    NoCookies,
}

/// How the cookies are found: a cookie file given on the command line wins if it
/// exists, then the site's file in the cookie folder; without either, content that
/// needs permission gets a warning, and a question unless the run is silent.
pub fn cookie_plan(manual_exists: bool, site_file_exists: bool, restricted: bool, silent: bool) -> (r:
    CookiePlan)
    ensures
        r == if manual_exists {
            CookiePlan::UseManual
        } else if site_file_exists {
            CookiePlan::UseSiteFile
        } else if restricted {
            if silent {
                CookiePlan::WarnOnly
            } else {
                CookiePlan::WarnAndAsk
            }
        } else {
            CookiePlan::NoCookies
        },
{
    if manual_exists {
        CookiePlan::UseManual
    } else if site_file_exists {
        CookiePlan::UseSiteFile
    } else if restricted {
        if silent {
            CookiePlan::WarnOnly
        } else {
            CookiePlan::WarnAndAsk
        }
    } else {
        CookiePlan::NoCookies
    }
}

} // verus!
