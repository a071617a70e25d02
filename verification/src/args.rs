use vstd::prelude::*;

use crate::text::{
    ascii_lower, chars_of, is_ascii_text, lowercase, push_text, spec_lowercase, string_of, text_eq,
};

verus! {

/// What to download.
#[derive(Clone, Copy, Debug, PartialEq, Eq, Structural)]
pub enum MediaType {
    /// Audio only.
    Audio,
    /// Video without sound.
    VideoOnly,
    /// Video with sound.
    Video,
}

impl MediaType {
    /// The number by which the command line and the download logic know this type.
    pub open spec fn spec_code(self) -> u8 {
        match self {
            MediaType::Audio => 1,
            MediaType::VideoOnly => 2,
            MediaType::Video => 3,
        }
    }

    /// The number by which the command line and the download logic know this type.
    pub fn code(&self) -> (r: u8)
        ensures
            r == self.spec_code(),
    {
        match self {
            MediaType::Audio => 1,
            MediaType::VideoOnly => 2,
            MediaType::Video => 3,
        }
    }
}

/// The command-line arguments.
pub struct Args {
    /// The video or playlist address.
    pub url: Option<String>,
    /// What to download.
    pub media_type: Option<MediaType>,
    /// The container format (mp3, m4a, mp4, mkv).
    pub format: Option<String>,
    /// The output directory.
    pub output: Option<String>,
    /// A cookie file given by hand.
    pub cookie: Option<String>,
    /// Open the settings folder instead of downloading.
    pub open_config: bool,
    /// Run the settings menu instead of downloading.
    pub config: bool,
    /// Use the saved cookies whatever the scan finds.
    pub force_cookie: bool,
}

/// Why the arguments were refused; each variant holds the lowercased format.
#[derive(Debug)]
pub enum ArgsError {
    /// The format does not suit audio: it is neither mp3 nor m4a.
    AudioFormat(String),
    /// The format does not suit video: it is neither mp4 nor mkv.
    VideoFormat(String),
}

impl ArgsError {
    /// The lowercased format that was refused.
    pub open spec fn spec_format(self) -> Seq<char> {
        match self {
            ArgsError::AudioFormat(f) => f@,
            ArgsError::VideoFormat(f) => f@,
        }
    }
}

impl ArgsError {
    /// The message shown for the refusal: which format does not suit which kind of
    /// download, and what to use instead.
    pub fn message(&self) -> (r: String)
        ensures
            r@ == match self {
                ArgsError::AudioFormat(f) => "❌ 格式 '"@ + f@ + "' 與音訊類型不匹配。請使用 mp3 或 m4a。"@,
                ArgsError::VideoFormat(f) => "❌ 格式 '"@ + f@ + "' 與影片類型不匹配。請使用 mp4 或 mkv。"@,
            },
    {
        let mut out = chars_of("❌ 格式 '");
        match self {
            ArgsError::AudioFormat(f) => {
                push_text(&mut out, f.as_str());
                push_text(&mut out, "' 與音訊類型不匹配。請使用 mp3 或 m4a。");
            },
            ArgsError::VideoFormat(f) => {
                push_text(&mut out, f.as_str());
                push_text(&mut out, "' 與影片類型不匹配。請使用 mp4 或 mkv。");
            },
        }
        string_of(&out)
    }
}

/// The (lowercased) format `fmt` suits media type `mt`.
pub open spec fn format_fits(mt: MediaType, fmt: Seq<char>) -> bool {
    match mt {
        MediaType::Audio => fmt == "mp3"@ || fmt == "m4a"@,
        _ => fmt == "mp4"@ || fmt == "mkv"@,
    }
}

/// Formats are matched strictly: for audio exactly "mp3" and "m4a" are accepted, for
/// silent video and video exactly "mp4" and "mkv"; any other format (such as "webm",
/// "wav" or "mp4 ") is refused.
pub proof fn law_formats_strictly_matched(mt: MediaType, fmt: Seq<char>)
    ensures
        mt == MediaType::Audio ==> (format_fits(mt, fmt) <==> (fmt == "mp3"@ || fmt == "m4a"@)),
        mt == MediaType::VideoOnly ==> (format_fits(mt, fmt) <==> (fmt == "mp4"@ || fmt
            == "mkv"@)),
        mt == MediaType::Video ==> (format_fits(mt, fmt) <==> (fmt == "mp4"@ || fmt == "mkv"@)),
{
}

/// Checks a lowercased format against a media type.
pub fn check_format(mt: MediaType, lowered: &str) -> (r: Result<(), ArgsError>)
    ensures
        r is Ok <==> format_fits(mt, lowered@),
        r matches Err(e) ==> e.spec_format() == lowered@ && (e is AudioFormat <==> mt
            == MediaType::Audio),
{
    match mt {
        MediaType::Audio => {
            if !text_eq(lowered, "mp3") && !text_eq(lowered, "m4a") {
                return Err(ArgsError::AudioFormat(lowered.to_owned()));
            }
        },
        _ => {
            if !text_eq(lowered, "mp4") && !text_eq(lowered, "mkv") {
                return Err(ArgsError::VideoFormat(lowered.to_owned()));
            }
        },
    }
    Ok(())
}

impl Args {
    /// Address, media type and format are all given, so no question needs asking.
    pub fn is_fully_automated(&self) -> (r: bool)
        ensures
            r == (self.url is Some && self.media_type is Some && self.format is Some),
    {
        self.url.is_some() && self.media_type.is_some() && self.format.is_some()
    }

    /// Checks that the given format suits the given media type, comparing the
    /// format in lower case; passes when either is missing.
    pub fn validate(&self) -> (r: Result<(), ArgsError>)
        ensures
            (self.media_type is Some && self.format is Some) ==> {
                &&& (r is Ok <==> format_fits(
                    self.media_type->0,
                    spec_lowercase(self.format->0@),
                ))
                &&& r matches Err(e) ==> e.spec_format() == spec_lowercase(self.format->0@) && (
                e is AudioFormat <==> self.media_type->0 == MediaType::Audio)
            },
            (self.media_type is Some && self.format is Some && is_ascii_text(self.format->0@))
                ==> {
                &&& (r is Ok <==> format_fits(self.media_type->0, ascii_lower(self.format->0@)))
                &&& r matches Err(e) ==> e.spec_format() == ascii_lower(self.format->0@)
            },
            !(self.media_type is Some && self.format is Some) ==> r is Ok,
    {
        match (&self.media_type, &self.format) {
            (Some(mt), Some(fmt)) => {
                let lowered = lowercase(fmt.as_str());
                check_format(*mt, lowered.as_str())
            },
            _ => Ok(()),
        }
    }
}

} // verus!
