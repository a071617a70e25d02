use vstd::prelude::*;

use crate::text::{
    chars_of, chars_contain, concat_text, decimal, decimal2, decimal2_chars, decimal_chars,
    has_infix, push_chars, push_chars_string, push_string, push_text, replace_all, replace_chars,
    string_of, strings_view, text_contains, text_ends_with, text_eq, text_replace,
    text_starts_with, text_trim, trim, words, words_of, CharClass,
};

verus! {

// ---------------------------------------------------------------------------
// The yt-dlp download arguments
// ---------------------------------------------------------------------------

/// The arguments every download gets: line-wise progress without colours or warnings,
/// no overwriting, embedded thumbnail, metadata and chapters, safe file names, and
/// sponsor segments cut.
pub open spec fn base_download_args() -> Seq<Seq<char>> {
    seq![
        "--newline"@,
        "--progress"@,
        "--no-colors"@,
        "--no-warnings"@,
        "--ignore-errors"@,
        "--no-overwrites"@,
        "--embed-thumbnail"@,
        "--embed-metadata"@,
        "--embed-chapters"@,
        "--convert-thumbnails"@,
        "jpg"@,
        "--restrict-filenames"@,
        "--sponsorblock-remove"@,
        "sponsor,intro,outro"@,
    ]
}

/// The arguments that choose the streams: audio extraction for media type 1 (320k best
/// audio for mp3, m4a audio preferred otherwise); for media type 2 a silent video, the
/// best video-only stream remuxed into the container (AVC preferred for anything but
/// mkv); else a merged video (best video and audio for mkv, AVC video with m4a audio for
/// anything else).
pub open spec fn format_args(media_type: u8, ext: Seq<char>) -> Seq<Seq<char>> {
    if media_type == 1 {
        seq!["--extract-audio"@, "--audio-format"@, ext] + if ext == "mp3"@ {
            seq!["--audio-quality"@, "320k"@, "-f"@, "bestaudio"@]
        } else {
            seq!["-f"@, "bestaudio[ext=m4a]/bestaudio"@]
        }
    } else if media_type == 2 {
        seq!["--remux-video"@, ext] + if ext == "mkv"@ {
            seq!["-f"@, "bv"@]
        } else {
            seq!["-f"@, "bv[vcodec^=avc]/bv[ext=mp4]/bv"@]
        }
    } else {
        seq!["--merge-output-format"@, ext] + if ext == "mkv"@ {
            seq!["-f"@, "bv*+ba/best"@]
        } else {
            seq!["-f"@, "bv*[vcodec^=avc]+ba[ext=m4a]/best[ext=mp4]/best"@]
        }
    }
}

/// Builds the yt-dlp download arguments for a media type (1 audio, 2 silent video, 3
/// video with sound) and container.
pub fn build_download_args(
    media_type: u8,
    target_ext: &str,
    _input_url: &str,
    _cookie_args: &[String],
) -> (res: Vec<String>)
    ensures
        strings_view(res@) == base_download_args() + format_args(media_type, target_ext@),
{
    let mut a: Vec<String> = Vec::new();
    push_string(&mut a, "--newline");
    push_string(&mut a, "--progress");
    push_string(&mut a, "--no-colors");
    push_string(&mut a, "--no-warnings");
    push_string(&mut a, "--ignore-errors");
    push_string(&mut a, "--no-overwrites");
    push_string(&mut a, "--embed-thumbnail");
    push_string(&mut a, "--embed-metadata");
    push_string(&mut a, "--embed-chapters");
    push_string(&mut a, "--convert-thumbnails");
    push_string(&mut a, "jpg");
    push_string(&mut a, "--restrict-filenames");
    push_string(&mut a, "--sponsorblock-remove");
    push_string(&mut a, "sponsor,intro,outro");
    if media_type == 1 {
        push_string(&mut a, "--extract-audio");
        push_string(&mut a, "--audio-format");
        push_string(&mut a, target_ext);
        if text_eq(target_ext, "mp3") {
            push_string(&mut a, "--audio-quality");
            push_string(&mut a, "320k");
            push_string(&mut a, "-f");
            push_string(&mut a, "bestaudio");
        } else {
            push_string(&mut a, "-f");
            push_string(&mut a, "bestaudio[ext=m4a]/bestaudio");
        }
    } else if media_type == 2 {
        push_string(&mut a, "--remux-video");
        push_string(&mut a, target_ext);
        push_string(&mut a, "-f");
        if text_eq(target_ext, "mkv") {
            push_string(&mut a, "bv");
        } else {
            push_string(&mut a, "bv[vcodec^=avc]/bv[ext=mp4]/bv");
        }
    } else {
        push_string(&mut a, "--merge-output-format");
        push_string(&mut a, target_ext);
        if text_eq(target_ext, "mkv") {
            push_string(&mut a, "-f");
            push_string(&mut a, "bv*+ba/best");
        } else {
            push_string(&mut a, "-f");
            push_string(&mut a, "bv*[vcodec^=avc]+ba[ext=m4a]/best[ext=mp4]/best");
        }
    }
    proof {
        assert(strings_view(a@) =~= base_download_args() + format_args(media_type, target_ext@));
    }
    a
}

/// The position of the first `x` in `list`, if any (as `Iterator::position`).
pub open spec fn first_position(list: Seq<Seq<char>>, x: Seq<char>) -> Option<int>
    decreases list.len(),
{
    if list.len() == 0 {
        None
    } else if list[0] == x {
        Some(0)
    } else {
        match first_position(list.drop_first(), x) {
            Some(k) => Some(k + 1),
            None => None,
        }
    }
}

/// A position found by `first_position` holds `x` and nothing before it does.
pub proof fn lemma_first_position(list: Seq<Seq<char>>, x: Seq<char>)
    ensures
        first_position(list, x) matches Some(k) ==> 0 <= k < list.len() && list[k] == x && forall|
            j: int,
        | 0 <= j < k ==> list[j] != x,
        first_position(list, x) is None ==> forall|j: int| 0 <= j < list.len() ==> list[j] != x,
    decreases list.len(),
{
    if list.len() > 0 {
        lemma_first_position(list.drop_first(), x);
        assert forall|j: int| 1 <= j < list.len() implies list.drop_first()[j - 1] == list[j] by {}
    }
}

/// The download arguments end with a format selector and hold an `-f` option, so the
/// first `-f` is always followed by the selector that a resolution choice replaces.
pub proof fn law_download_args_select_format(media_type: u8, ext: Seq<char>)
    ensures
        ({
            let args = base_download_args() + format_args(media_type, ext);
            &&& first_position(args, "-f"@) is Some
            &&& first_position(args, "-f"@)->0 + 1 < args.len()
        }),
{
    let args = base_download_args() + format_args(media_type, ext);
    reveal_strlit("-f");
    reveal_strlit("bestaudio");
    reveal_strlit("bestaudio[ext=m4a]/bestaudio");
    reveal_strlit("bv");
    reveal_strlit("bv[vcodec^=avc]/bv[ext=mp4]/bv");
    reveal_strlit("bv*+ba/best");
    reveal_strlit("bv*[vcodec^=avc]+ba[ext=m4a]/best[ext=mp4]/best");
    lemma_first_position(args, "-f"@);
    assert(args[args.len() - 2] == "-f"@);
    assert("bv"@[0] != "-f"@[0]);
    assert(args[args.len() - 1] != "-f"@);
}

/// The format selector that a chosen resolution puts in place: for a silent video (media
/// type 2) that video format alone, else that video format with the best audio, falling
/// back to the best single file.
pub open spec fn resolution_selector(media_type: u8, vid_id: Seq<char>) -> Seq<char> {
    if media_type == 2 {
        vid_id
    } else {
        vid_id + "+bestaudio/best"@
    }
}

/// Puts the chosen video format in place of the selector that follows the first `-f`.
pub fn apply_resolution_choice(args: &mut Vec<String>, media_type: u8, vid_id: &str)
    requires
        forall|p: int|
            0 <= p < old(args)@.len() && old(args)@[p]@ == "-f"@ ==> p + 1 < old(args)@.len(),
    ensures
        match first_position(strings_view(old(args)@), "-f"@) {
            Some(p) => strings_view(final(args)@) == strings_view(old(args)@).update(
                p + 1,
                resolution_selector(media_type, vid_id@),
            ),
            None => final(args)@ == old(args)@,
        },
{
    let ghost sv = strings_view(args@);
    let flag = chars_of("-f");
    let mut p: usize = 0;
    proof {
        assert(sv.skip(0) =~= sv);
    }
    while p < args.len() && !crate::text::same_chars(&chars_of(args[p].as_str()), &flag)
        invariant
            p <= args.len(),
            sv == strings_view(args@),
            args@ == old(args)@,
            flag@ == "-f"@,
            first_position(sv.skip(p as int), "-f"@) matches Some(k) ==> first_position(sv, "-f"@)
                == Some(k + p),
            first_position(sv.skip(p as int), "-f"@) is None ==> first_position(sv, "-f"@) is None,
        decreases args.len() - p,
    {
        proof {
            assert(sv.skip(p as int).drop_first() =~= sv.skip(p + 1));
            assert(sv.skip(p as int)[0] == sv[p as int]);
        }
        p += 1;
    }
    if p < args.len() {
        proof {
            assert(sv.skip(p as int)[0] == sv[p as int]);
            assert(first_position(sv, "-f"@) == Some(p as int));
        }
        let mut sel = chars_of(vid_id);
        if media_type != 2 {
            push_text(&mut sel, "+bestaudio/best");
        }
        let ghost before = args@;
        args.set(p + 1, string_of(&sel));
        proof {
            assert(strings_view(args@) =~= strings_view(before).update(
                p + 1,
                resolution_selector(media_type, vid_id@),
            ));
        }
    } else {
        proof {
            assert(sv.skip(p as int) =~= Seq::<Seq<char>>::empty());
        }
    }
}

/// `list` joined with `sep` between items (as `[String]::join`).
pub open spec fn join(list: Seq<Seq<char>>, sep: Seq<char>) -> Seq<char>
    decreases list.len(),
{
    if list.len() == 0 {
        Seq::empty()
    } else if list.len() == 1 {
        list[0]
    } else {
        join(list.drop_last(), sep) + sep + list.last()
    }
}

/// Joins strings with a separator.
pub fn join_strings(list: &Vec<String>, sep: &str) -> (res: Vec<char>)
    ensures
        res@ == join(strings_view(list@), sep@),
{
    let ghost lv = strings_view(list@);
    let mut res: Vec<char> = Vec::new();
    let mut i: usize = 0;
    while i < list.len()
        invariant
            i <= list.len(),
            lv == strings_view(list@),
            res@ == join(lv.take(i as int), sep@),
        decreases list.len() - i,
    {
        proof {
            assert(lv.take(i + 1).drop_last() =~= lv.take(i as int));
            assert(lv.take(i + 1).last() == lv[i as int]);
        }
        if i > 0 {
            push_text(&mut res, sep);
        }
        push_text(&mut res, list[i].as_str());
        proof {
            if i == 0 {
                assert(res@ =~= join(lv.take(1), sep@));
            } else {
                assert(res@ =~= join(lv.take(i + 1), sep@));
            }
        }
        i += 1;
    }
    proof {
        assert(lv.take(list@.len() as int) =~= lv);
    }
    res
}

/// Asks for the chosen subtitle languages (as well as automatic captions) when there
/// are any: adds `--write-subs --write-auto-subs --sub-langs` and the languages joined
/// with commas.
pub fn add_subtitle_args(args: &mut Vec<String>, langs: &Vec<String>)
    ensures
        langs@.len() == 0 ==> final(args)@ == old(args)@,
        langs@.len() > 0 ==> strings_view(final(args)@) == strings_view(old(args)@) + seq![
            "--write-subs"@,
            "--write-auto-subs"@,
            "--sub-langs"@,
            join(strings_view(langs@), ","@),
        ],
{
    if langs.len() > 0 {
        push_string(args, "--write-subs");
        push_string(args, "--write-auto-subs");
        push_string(args, "--sub-langs");
        push_chars_string(args, &join_strings(langs, ","));
        proof {
            assert(strings_view(args@) =~= strings_view(old(args)@) + seq![
                "--write-subs"@,
                "--write-auto-subs"@,
                "--sub-langs"@,
                join(strings_view(langs@), ","@),
            ]);
        }
    }
}

// ---------------------------------------------------------------------------
// File and folder names
// ---------------------------------------------------------------------------

/// The characters that file names cannot hold on some systems.
pub open spec fn is_unsafe_name_char(c: char) -> bool {
    c == '/' || c == '\\' || c == ':' || c == '*' || c == '?' || c == '"' || c == '<' || c == '>'
        || c == '|'
}

/// `s` with every unsafe file name character replaced by `_`.
pub open spec fn sanitize(s: Seq<char>) -> Seq<char>
    decreases s.len(),
{
    if s.len() == 0 {
        s
    } else {
        sanitize(s.drop_last()).push(
            if is_unsafe_name_char(s.last()) {
                '_'
            } else {
                s.last()
            },
        )
    }
}

/// A sanitised title keeps its length and holds no unsafe character.
pub proof fn lemma_sanitize(s: Seq<char>)
    ensures
        sanitize(s).len() == s.len(),
        forall|i: int| 0 <= i < s.len() ==> !is_unsafe_name_char(#[trigger] sanitize(s)[i]),
        forall|i: int|
            0 <= i < s.len() ==> sanitize(s)[i] == if is_unsafe_name_char(s[i]) {
                '_'
            } else {
                s[i]
            },
    decreases s.len(),
{
    if s.len() > 0 {
        lemma_sanitize(s.drop_last());
    }
}

/// Sanitising a title that was already sanitised changes nothing.
pub proof fn law_sanitize_idempotent(s: Seq<char>)
    ensures
        sanitize(sanitize(s)) == sanitize(s),
{
    lemma_sanitize(s);
    lemma_sanitize(sanitize(s));
    assert(sanitize(sanitize(s)) =~= sanitize(s));
}

/// Replaces the characters that file names cannot hold (`/ \ : * ? " < > |`) by `_`.
pub fn sanitize_title(title: &str) -> (res: String)
    ensures
        res@ == sanitize(title@),
{
    let s = chars_of(title);
    let mut out: Vec<char> = Vec::new();
    let mut i: usize = 0;
    while i < s.len()
        invariant
            i <= s.len(),
            out@ == sanitize(s@.take(i as int)),
        decreases s.len() - i,
    {
        proof {
            assert(s@.take(i + 1).drop_last() =~= s@.take(i as int));
        }
        let c = s[i];
        if c == '/' || c == '\\' || c == ':' || c == '*' || c == '?' || c == '"' || c == '<' || c
            == '>' || c == '|' {
            out.push('_');
        } else {
            out.push(c);
        }
        i += 1;
    }
    proof {
        assert(s@.take(s@.len() as int) =~= s@);
    }
    string_of(&out)
}

/// The title of the playlist folder: what yt-dlp printed, trimmed, unless nothing was
/// printed or it is empty, "NA" or "null", in which case "Playlist"; sanitised.
pub open spec fn playlist_folder(printed: Option<Seq<char>>) -> Seq<char> {
    let title = match printed {
        Some(p) => {
            let t = trim(p, CharClass::WhiteSpace);
            if t.len() > 0 && t != "NA"@ && t != "null"@ {
                t
            } else {
                "Playlist"@
            }
        },
        None => "Playlist"@,
    };
    sanitize(title)
}

/// The name of the folder a playlist is saved in, from what `yt-dlp --print
/// playlist_title` printed (`None` when it could not run).
pub fn playlist_dir_name(printed: &Option<String>) -> (res: String)
    ensures
        res@ == playlist_folder(match printed {
            Some(p) => Some(p@),
            None => None,
        }),
{
    let title = match printed {
        Some(p) => {
            let t = text_trim(p.as_str());
            if !t.as_str().is_empty() && !text_eq(t.as_str(), "NA") && !text_eq(t.as_str(), "null") {
                t
            } else {
                "Playlist".to_owned()
            }
        },
        None => "Playlist".to_owned(),
    };
    sanitize_title(title.as_str())
}

/// The file name a download is saved under: for a playlist item the item number (from
/// 1, at least two digits) and a dash first; then the title, `_`, the timestamp, `.`
/// and the container.
pub open spec fn download_file_name(
    is_playlist: bool,
    idx: nat,
    safe_title: Seq<char>,
    ts: Seq<char>,
    ext: Seq<char>,
) -> Seq<char> {
    let body = safe_title + "_"@ + ts + "."@ + ext;
    if is_playlist {
        decimal2(idx + 1) + "-"@ + body
    } else {
        body
    }
}

/// The file name a download is saved under (`idx` counts from 0).
pub fn final_file_name(is_playlist: bool, idx: usize, safe_title: &str, ts: &str, ext: &str) -> (res:
    String)
    requires
        idx < usize::MAX,
    ensures
        res@ == download_file_name(is_playlist, idx as nat, safe_title@, ts@, ext@),
{
    let mut out: Vec<char> = Vec::new();
    if is_playlist {
        out = decimal2_chars(idx as u64 + 1);
        push_text(&mut out, "-");
    }
    push_text(&mut out, safe_title);
    push_text(&mut out, "_");
    push_text(&mut out, ts);
    push_text(&mut out, ".");
    push_text(&mut out, ext);
    proof {
        assert(out@ =~= download_file_name(is_playlist, idx as nat, safe_title@, ts@, ext@));
    }
    string_of(&out)
}

/// Items of one playlist never share a file name: different item numbers give
/// different names, whatever the titles.
pub proof fn law_playlist_names_distinct(
    i: nat,
    j: nat,
    title_i: Seq<char>,
    title_j: Seq<char>,
    ts: Seq<char>,
    ext: Seq<char>,
)
    requires
        i != j,
    ensures
        download_file_name(true, i, title_i, ts, ext) != download_file_name(true, j, title_j, ts, ext),
{
    reveal_strlit("-");
    let a = download_file_name(true, i, title_i, ts, ext);
    let b = download_file_name(true, j, title_j, ts, ext);
    let da = decimal2(i + 1);
    let db = decimal2(j + 1);
    crate::text::lemma_decimal2(i + 1, j + 1);
    crate::text::lemma_decimal2(j + 1, i + 1);
    if a == b {
        if da.len() == db.len() {
            assert(a.take(da.len() as int) =~= da);
            assert(b.take(db.len() as int) =~= db);
        } else if da.len() < db.len() {
            assert(a[da.len() as int] == '-');
            assert(b[da.len() as int] == db[da.len() as int]);
        } else {
            assert(b[db.len() as int] == '-');
            assert(a[db.len() as int] == da[db.len() as int]);
        }
    }
}

/// The name of a download's own temporary folder: the timestamp, "_pid", the process
/// id, "_" and the item's index.
pub open spec fn session_name(ts: Seq<char>, pid: nat, idx: nat) -> Seq<char> {
    ts + "_pid"@ + decimal(pid) + "_"@ + decimal(idx)
}

/// The name of a download's own temporary folder.
pub fn session_id(ts: &str, pid: u32, idx: usize) -> (res: String)
    ensures
        res@ == session_name(ts@, pid as nat, idx as nat),
{
    let mut out = chars_of(ts);
    push_text(&mut out, "_pid");
    push_chars(&mut out, &decimal_chars(pid as u64));
    push_text(&mut out, "_");
    push_chars(&mut out, &decimal_chars(idx as u64));
    proof {
        assert(out@ =~= session_name(ts@, pid as nat, idx as nat));
    }
    string_of(&out)
}

/// The yt-dlp output template: `tmp_` and the timestamp in the session folder, with the
/// extension yt-dlp picks.
pub fn output_template(session_dir: &str, ts: &str) -> (res: String)
    ensures
        res@ == session_dir@ + "/tmp_"@ + ts@ + ".%(ext)s"@,
{
    let mut out = chars_of(session_dir);
    push_text(&mut out, "/tmp_");
    push_text(&mut out, ts);
    push_text(&mut out, ".%(ext)s");
    string_of(&out)
}

/// The file in the session folder is the downloaded media: it begins with "tmp_" and
/// the timestamp and is not a subtitle (`.vtt`, `.ass`, `.srt`).
pub open spec fn is_downloaded_media(name: Seq<char>, ts: Seq<char>) -> bool {
    ("tmp_"@ + ts).is_prefix_of(name) && !".vtt"@.is_suffix_of(name) && !".ass"@.is_suffix_of(name)
        && !".srt"@.is_suffix_of(name)
}

/// Whether the file in the session folder is the downloaded media.
pub fn downloaded_media(name: &str, ts: &str) -> (r: bool)
    ensures
        r == is_downloaded_media(name@, ts@),
{
    let prefix = string_of(&concat_text("tmp_", ts));
    text_starts_with(name, prefix.as_str()) && !text_ends_with(name, ".vtt") && !text_ends_with(
        name,
        ".ass",
    ) && !text_ends_with(name, ".srt")
}

/// The position of the first name that is the downloaded media, if any.
pub open spec fn first_media(names: Seq<Seq<char>>, ts: Seq<char>) -> Option<int>
    decreases names.len(),
{
    if names.len() == 0 {
        None
    } else if is_downloaded_media(names[0], ts) {
        Some(0)
    } else {
        match first_media(names.drop_first(), ts) {
            Some(k) => Some(k + 1),
            None => None,
        }
    }
}

/// Which file of the session folder the download left, given whether yt-dlp succeeded
/// and the folder's file names in listing order: the first that is the downloaded media
/// (its position), or `None`, when yt-dlp failed or no file is the media, which makes
/// the download a failure.
pub fn downloaded_entry(succeeded: bool, names: &Vec<String>, ts: &str) -> (r: Option<usize>)
    ensures
        match r {
            Some(k) => succeeded && first_media(strings_view(names@), ts@) == Some(k as int),
            None => !succeeded || first_media(strings_view(names@), ts@) is None,
        },
{
    if !succeeded {
        return None;
    }
    let ghost nv = strings_view(names@);
    proof {
        assert(nv.skip(0) =~= nv);
    }
    let mut i: usize = 0;
    while i < names.len()
        invariant
            succeeded,
            i <= names.len(),
            nv == strings_view(names@),
            first_media(nv.skip(i as int), ts@) matches Some(k) ==> first_media(nv, ts@) == Some(
                k + i,
            ),
            first_media(nv.skip(i as int), ts@) is None ==> first_media(nv, ts@) is None,
        decreases names.len() - i,
    {
        proof {
            assert(nv.skip(i as int)[0] == nv[i as int]);
            assert(nv.skip(i as int).drop_first() =~= nv.skip(i + 1));
            assert(nv[i as int] == names@[i as int]@);
        }
        if downloaded_media(names[i].as_str(), ts) {
            return Some(i);
        }
        i += 1;
    }
    proof {
        assert(nv.skip(i as int) =~= Seq::<Seq<char>>::empty());
    }
    None
}

// ---------------------------------------------------------------------------
// Progress lines of yt-dlp
// ---------------------------------------------------------------------------

/// What a progress line of yt-dlp updates: the percentage text, if a word holds one,
/// and the message to show.
pub struct ProgressUpdate {
    /// The first word holding `%`, without its `%` signs.
    pub percent: Option<String>,
    /// The line without "[download]", trimmed.
    pub message: String,
}

/// The first of `ws` that holds a `%`.
pub open spec fn first_percent_word(ws: Seq<Seq<char>>) -> Option<Seq<char>>
    decreases ws.len(),
{
    if ws.len() == 0 {
        None
    } else if has_infix(ws[0], "%"@) {
        Some(ws[0])
    } else {
        first_percent_word(ws.drop_first())
    }
}

/// The line is a download progress line: it holds "[download]" and a `%`.
pub open spec fn is_progress_line(line: Seq<char>) -> bool {
    has_infix(line, "[download]"@) && has_infix(line, "%"@)
}

/// Reads a line of yt-dlp's output: for a progress line, the percentage text (the
/// first word with a `%`, the signs removed) and the message (the line without
/// "[download]", trimmed); `None` for any other line.
pub fn progress_update(line: &str) -> (res: Option<ProgressUpdate>)
    ensures
        !is_progress_line(line@) ==> res is None,
        is_progress_line(line@) ==> (res matches Some(u) && u.message@ == trim(
            replace_all(line@, "[download]"@, Seq::<char>::empty()),
            CharClass::WhiteSpace,
        ) && match first_percent_word(words(line@)) {
            Some(w) => (u.percent matches Some(p) && p@ == replace_all(
                w,
                "%"@,
                Seq::<char>::empty(),
            )),
            None => u.percent is None,
        }),
{
    if !(text_contains(line, "[download]") && text_contains(line, "%")) {
        return None;
    }
    let ws = words_of(&chars_of(line));
    let pct = chars_of("%");
    let ghost wv = crate::text::pieces_view(ws@);
    let mut k: usize = 0;
    let mut found: Option<String> = None;
    proof {
        assert(wv.skip(0) =~= wv);
    }
    while k < ws.len() && found.is_none()
        invariant
            k <= ws.len(),
            wv == crate::text::pieces_view(ws@),
            wv == words(line@),
            pct@ == "%"@,
            found is None ==> first_percent_word(wv.skip(k as int)) == first_percent_word(wv),
            found matches Some(p) ==> (first_percent_word(wv) matches Some(w) && p@ == replace_all(
                w,
                "%"@,
                Seq::<char>::empty(),
            )),
        decreases ws.len() - k,
    {
        proof {
            assert(wv.skip(k as int)[0] == ws@[k as int]@);
            assert(wv.skip(k as int).drop_first() =~= wv.skip(k + 1));
        }
        if chars_contain(&ws[k], &pct) {
            let nothing: Vec<char> = Vec::new();
            proof {
                assert(nothing@ =~= Seq::<char>::empty());
            }
            found = Some(string_of(&replace_chars(&ws[k], &pct, &nothing)));
        }
        k += 1;
    }
    proof {
        if found is None {
            assert(wv.skip(k as int) =~= Seq::<Seq<char>>::empty());
        }
    }
    let without_tag = text_replace(line, "[download]", "");
    proof {
        reveal_strlit("");
        assert(""@ =~= Seq::<char>::empty());
    }
    let message = text_trim(without_tag.as_str());
    Some(ProgressUpdate { percent: found, message })
}

// ---------------------------------------------------------------------------
// The end of a run
// ---------------------------------------------------------------------------

/// A duration in seconds as minutes and seconds: "M 分 S 秒".
pub fn duration_text(secs: u64) -> (res: String)
    ensures
        res@ == decimal((secs / 60) as nat) + " 分 "@ + decimal((secs % 60) as nat) + " 秒"@,
{
    let mut out = decimal_chars(secs / 60);
    push_text(&mut out, " 分 ");
    push_chars(&mut out, &decimal_chars(secs % 60));
    push_text(&mut out, " 秒");
    string_of(&out)
}

/// How many of the outcomes are successes.
pub open spec fn count_true(s: Seq<bool>) -> nat
    decreases s.len(),
{
    if s.len() == 0 {
        0
    } else {
        count_true(s.drop_last()) + if s.last() {
            1nat
        } else {
            0nat
        }
    }
}

/// Counts the successes and failures among the downloads' outcomes; together they
/// are all the downloads.
pub fn tally(outcomes: &Vec<bool>) -> (res: (usize, usize))
    ensures
        res.0 == count_true(outcomes@),
        res.0 + res.1 == outcomes@.len(),
{
    let mut ok: usize = 0;
    let mut failed: usize = 0;
    let mut i: usize = 0;
    while i < outcomes.len()
        invariant
            i <= outcomes.len(),
            ok == count_true(outcomes@.take(i as int)),
            ok + failed == i,
        decreases outcomes.len() - i,
    {
        proof {
            assert(outcomes@.take(i + 1).drop_last() =~= outcomes@.take(i as int));
        }
        if outcomes[i] {
            ok += 1;
        } else {
            failed += 1;
        }
        i += 1;
    }
    proof {
        assert(outcomes@.take(outcomes@.len() as int) =~= outcomes@);
    }
    (ok, failed)
}

/// The run ends with the hint to try the saved cookies: some download failed and they
/// were not already forced.
pub fn should_suggest_cookie(fail_count: usize, force_cookie: bool) -> (r: bool)
    ensures
        r == (fail_count > 0 && !force_cookie),
{
    fail_count > 0 && !force_cookie
}

/// The note on the saved file's resolution: " [畫質: R]" when ffprobe reported one.
pub fn resolution_note(resolution: &Option<String>) -> (res: String)
    ensures
        res@ == match resolution {
            Some(r) => " [畫質: "@ + r@ + "]"@,
            None => Seq::<char>::empty(),
        },
{
    match resolution {
        Some(r) => {
            let mut out = chars_of(" [畫質: ");
            push_text(&mut out, r.as_str());
            push_text(&mut out, "]");
            string_of(&out)
        },
        None => String::new(),
    }
}

// ---------------------------------------------------------------------------
// Where things go
// ---------------------------------------------------------------------------

/// The download folder: the one given on the command line, else the one in the
/// settings if set, else (`None`) the system download folder.
pub fn choose_download_dir(output: &Option<String>, config_dir: &str) -> (res: Option<String>)
    ensures
        match output {
            Some(o) => res matches Some(d) && d@ == o@,
            None => if config_dir@.len() == 0 {
                res is None
            } else {
                res matches Some(d) && d@ == config_dir@
            },
        },
{
    match output {
        Some(o) => Some(o.clone()),
        None => if config_dir.is_empty() {
            None
        } else {
            Some(config_dir.to_owned())
        },
    }
}

/// The cookie folder: the one in the settings if set, else the settings folder.
pub fn resolve_cookie_dir(config_cookie_dir: &str, app_dir: &str) -> (res: String)
    ensures
        res@ == if config_cookie_dir@.len() == 0 {
            app_dir@
        } else {
            config_cookie_dir@
        },
{
    if config_cookie_dir.is_empty() {
        app_dir.to_owned()
    } else {
        config_cookie_dir.to_owned()
    }
}

/// A playlist found with cookies at hand is scanned again with them, to find what only
/// they unlock.
pub fn needs_rescan(cookie_args: &Vec<String>, is_playlist: bool) -> (r: bool)
    ensures
        r == (cookie_args@.len() > 0 && is_playlist),
{
    cookie_args.len() > 0 && is_playlist
}

/// The note shown about the mp4 picture quality, if any.
#[derive(Clone, Copy, Debug, PartialEq, Eq, Structural)]
pub enum Mp4Note {
    /// No note.
    NoNote,
    /// The one-at-a-time note: mp4 downloads the best compatible quality up to 1080p.
    UpTo1080,
    /// The parallel note: mp4 downloads the best compatible quality.
    BestCompatible,
}

/// What the download of one video does besides downloading.
pub struct DownloadSteps {
    /// Probe the video and ask which subtitles to keep.
    pub ask_subtitles: bool,
    /// Ask which resolution to download.
    pub ask_resolution: bool,
    /// The note about mp4 quality.
    pub mp4_note: Mp4Note,
    /// Mux the subtitles into the video afterwards.
    pub mux_subtitles: bool,
    /// Report the resolution of the saved file.
    pub report_resolution: bool,
}

/// What the download of one video does besides downloading. Questions are only asked
/// when one download runs at a time and the run is not silent (a silent run, given its
/// address, media type and format, shows no menu); the resolution question is only for
/// mkv video; the mp4 note tells of the up-to-1080p quality when one download runs at
/// a time and of the best compatible quality otherwise; videos (not audio, media type
/// 1) get their subtitles muxed and their resolution reported.
pub fn download_steps(media_type: u8, target_ext: &str, max_concurrent: u32, silent: bool) -> (r:
    DownloadSteps)
    ensures
        r.ask_subtitles == (max_concurrent == 1 && !silent),
        r.ask_resolution == (max_concurrent == 1 && !silent && media_type != 1 && target_ext@
            == "mkv"@),
        r.mp4_note == if media_type != 1 && target_ext@ == "mp4"@ {
            if max_concurrent == 1 {
                Mp4Note::UpTo1080
            } else {
                Mp4Note::BestCompatible
            }
        } else {
            Mp4Note::NoNote
        },
        r.mux_subtitles == (media_type != 1),
        r.report_resolution == (media_type != 1),
{
    let interactive = max_concurrent == 1 && !silent;
    let video = media_type != 1;
    let mkv = text_eq(target_ext, "mkv");
    let mp4 = text_eq(target_ext, "mp4");
    let mp4_note = if video && mp4 {
        if max_concurrent == 1 {
            Mp4Note::UpTo1080
        } else {
            Mp4Note::BestCompatible
        }
    } else {
        Mp4Note::NoNote
    };
    DownloadSteps {
        ask_subtitles: interactive,
        ask_resolution: interactive && video && mkv,
        mp4_note,
        mux_subtitles: video,
        report_resolution: video,
    }
}

} // verus!
