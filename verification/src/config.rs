use vstd::prelude::*;

use crate::text::{chars_of, push_text, string_of};

verus! {

/// The version of this program, which the settings file records.
pub const APP_VERSION: &'static str = "0.2.1";

/// The notes written at the top of every settings file.
pub const CONFIG_HEADER: &'static str = "# ======================================================\n# dl-media 使用者設定檔 (自動同步更新版)\n# ======================================================\n# 💡 提示：本檔案在版本更新時會自動重構結構。\n#\n# 📍 download_dir:\n#    預設下載目錄。留空則使用系統「下載」資料夾。\n#   - Mac:     ~/Library/Application Support/dl-media/\n#   - Linux:   ~/.config/dl-media/\n#   - Windows: %APPDATA%\\dl-media\\\n#    範例: \"/Users/username/Movies\"\n#\n# 🍪 cookie_dir:\n#    存放 cookie_youtube.txt 等檔案的目錄。\n#    留空則使用本程式的設定資料夾。\n#\n# 🎬 default_video_format / default_audio_format:\n#    預設封裝格式。影片可選: mp4, mkv / 音訊可選: mp3, m4a\n#\n# ⚡ max_concurrent_downloads:\n#    最大並行下載數。建議範圍 1-5，設太高可能導致 IP 被封鎖。\n#\n# ⚠️ version: 版本追蹤標籤，請勿手動修改。\n# ======================================================\n\n";

/// The user's settings, kept in `config.toml`.
#[derive(Clone, Debug)]
pub struct Config {
    /// The program version that last wrote the file.
    pub version: String,
    /// Where downloads go; empty for the system download folder.
    pub download_dir: String,
    /// Where the cookie files are; empty for the settings folder.
    pub cookie_dir: String,
    /// The preferred video container.
    pub default_video_format: String,
    /// The preferred audio container.
    pub default_audio_format: String,
    /// How many downloads may run at once.
    pub max_concurrent_downloads: u32,
}

/// The version that a settings file missing one gets: this program's.
pub fn current_version() -> (r: String)
    ensures
        r@ == APP_VERSION@,
{
    APP_VERSION.to_owned()
}

/// The value of a missing directory setting: empty.
pub fn default_empty_string() -> (r: String)
    ensures
        r@ == Seq::<char>::empty(),
{
    String::new()
}

/// The value of a missing concurrency setting.
pub fn default_concurrency() -> (r: u32)
    ensures
        r == 3,
{
    3
}

/// The value of a missing video format setting.
pub fn default_video_fmt() -> (r: String)
    ensures
        r@ == "mp4"@,
{
    "mp4".to_owned()
}

/// The value of a missing audio format setting.
pub fn default_audio_fmt() -> (r: String)
    ensures
        r@ == "m4a"@,
{
    "m4a".to_owned()
}

/// The settings are those of a fresh install: every field has the value that a file
/// missing it gets.
pub open spec fn is_default_config(c: Config) -> bool {
    &&& c.version@ == APP_VERSION@
    &&& c.download_dir@ == Seq::<char>::empty()
    &&& c.cookie_dir@ == Seq::<char>::empty()
    &&& c.default_video_format@ == "mp4"@
    &&& c.default_audio_format@ == "m4a"@
    &&& c.max_concurrent_downloads == 3
}

impl Default for Config {
    fn default() -> (r: Self)
        ensures
            is_default_config(r),
    {
        Config {
            version: current_version(),
            download_dir: default_empty_string(),
            cookie_dir: default_empty_string(),
            default_video_format: default_video_fmt(),
            default_audio_format: default_audio_fmt(),
            max_concurrent_downloads: default_concurrency(),
        }
    }
}

impl Config {
    /// Brings the recorded version up to this program's; says whether it changed, in
    /// which case the file is to be written again.
    pub fn upgrade_version(&mut self) -> (changed: bool)
        ensures
            changed == (old(self).version@ != APP_VERSION@),
            final(self).version@ == APP_VERSION@,
            final(self).download_dir == old(self).download_dir,
            final(self).cookie_dir == old(self).cookie_dir,
            final(self).default_video_format == old(self).default_video_format,
            final(self).default_audio_format == old(self).default_audio_format,
            final(self).max_concurrent_downloads == old(self).max_concurrent_downloads,
    {
        if crate::text::text_eq(self.version.as_str(), APP_VERSION) {
            false
        } else {
            self.version = current_version();
            true
        }
    }
}

/// The text of a settings file: the notes, then the serialised settings `data`.
pub fn config_file_content(data: &str) -> (r: String)
    ensures
        r@ == CONFIG_HEADER@ + data@,
{
    let mut text = chars_of(CONFIG_HEADER);
    push_text(&mut text, data);
    string_of(&text)
}

} // verus!
