use vstd::prelude::*;

use crate::parser::second_last;
use crate::text::{
    chars_of, concat_text, decimal, decimal_chars, has_infix, occurs_at,
    push_chars_string, push_string, push_text, replace_all, replace_chars, split_chars, split_on,
    string_of, strings_view, text_contains, text_ends_with, text_eq, CharClass,
};

verus! {

// ---------------------------------------------------------------------------
// Subtitle files that yt-dlp leaves in the session folder
// ---------------------------------------------------------------------------

/// `s` holds no line feed.
pub open spec fn no_line_feed(s: Seq<char>) -> bool {
    forall|j: int| 0 <= j < s.len() ==> s[j] != '\n'
}

/// The file name matches the pattern `tmp_.*\.vtt$`: it ends with ".vtt", and some
/// "tmp_" before that ending is followed by no line feed up to it.
pub open spec fn is_tmp_vtt_name(name: Seq<char>) -> bool {
    ".vtt"@.is_suffix_of(name) && exists|i: int|
        #[trigger] occurs_at(name, "tmp_"@, i) && i + 8 <= name.len() && no_line_feed(
            name.subrange(i + 4, name.len() - 4),
        )
}

/// Calls `regex::Regex::new` with `pattern` and then `Regex::is_match` on `text`. The
/// pattern must be `tmp_.*\.vtt$`; the regex documentation gives what it matches: `.`
/// is any character but a line feed, `\.` a dot and `$` the end of the text, so the
/// claim is `is_tmp_vtt_name`. A pattern that does not compile (this one does) would
/// give `false`.
#[verifier::external_body]
fn regex_is_match(pattern: &str, text: &str) -> (r: bool)
    requires
        pattern@ == "tmp_.*\\.vtt$"@,
    ensures
        r == is_tmp_vtt_name(text@),
{
    match regex::Regex::new(pattern) {
        Ok(re) => re.is_match(text),
        Err(_) => false,
    }
}

/// Whether the file name matches the pattern `tmp_.*\.vtt$`.
pub fn tmp_vtt_name(name: &str) -> (r: bool)
    ensures
        r == is_tmp_vtt_name(name@),
{
    regex_is_match("tmp_.*\\.vtt$", name)
}

/// The position of the first `c` in `s`, if any.
pub open spec fn first_index_of(s: Seq<char>, c: char) -> Option<int>
    decreases s.len(),
{
    if s.len() == 0 {
        None
    } else if s[0] == c {
        Some(0)
    } else {
        match first_index_of(s.drop_first(), c) {
            Some(k) => Some(k + 1),
            None => None,
        }
    }
}

/// A position found by `first_index_of` holds `c` and nothing before it does.
pub proof fn lemma_first_index_of(s: Seq<char>, c: char)
    ensures
        first_index_of(s, c) matches Some(k) ==> 0 <= k < s.len() && s[k] == c && forall|j: int|
            0 <= j < k ==> s[j] != c,
        first_index_of(s, c) is None ==> forall|j: int| 0 <= j < s.len() ==> s[j] != c,
    decreases s.len(),
{
    if s.len() > 0 {
        lemma_first_index_of(s.drop_first(), c);
        assert forall|j: int| 1 <= j < s.len() implies s.drop_first()[j - 1] == s[j] by {}
    }
}

/// `s` without its markup tags: what replacing every match of `<[^>]*>` with nothing
/// leaves. Scanning from the left, a `<` that some later `>` follows starts a tag that
/// runs to the first such `>`.
pub open spec fn strip_tags(s: Seq<char>) -> Seq<char>
    decreases s.len(),
{
    if s.len() == 0 {
        s
    } else if s[0] == '<' && first_index_of(s.drop_first(), '>') is Some {
        let k = first_index_of(s.drop_first(), '>')->0;
        proof {
            lemma_first_index_of(s.drop_first(), '>');
        }
        strip_tags(s.skip(k + 2))
    } else {
        seq![s[0]] + strip_tags(s.drop_first())
    }
}

/// Calls `regex::Regex::new` with `pattern` and then `Regex::replace_all` on `text`
/// with `replacement`. The pattern must be `<[^>]*>` and the replacement empty; the regex
/// documentation gives the result: every non-overlapping match, leftmost first, is
/// removed, and a match runs from a `<` to the first `>` after it (`[^>]` takes line
/// feeds too), so the claim is `strip_tags`. A pattern that does not compile (this one
/// does) would leave the text as it is.
#[verifier::external_body]
fn regex_replace_all(pattern: &str, text: &str, replacement: &str) -> (res: String)
    requires
        pattern@ == "<[^>]*>"@,
        replacement@.len() == 0,
    ensures
        res@ == strip_tags(text@),
{
    match regex::Regex::new(pattern) {
        Ok(re) => re.replace_all(text, replacement).into_owned(),
        Err(_) => text.to_string(),
    }
}

/// Removes the markup tags (`<...>`) of a subtitle text, as the cleaning of `.vtt`
/// files does.
pub fn strip_vtt_tags(content: &str) -> (res: String)
    ensures
        res@ == strip_tags(content@),
{
    proof {
        reveal_strlit("");
    }
    regex_replace_all("<[^>]*>", content, "")
}

/// `s` holds no `<` that a later `>` follows: there is no tag left to strip.
pub open spec fn tag_free(s: Seq<char>) -> bool {
    forall|i: int, j: int| 0 <= i < j < s.len() && s[i] == '<' ==> s[j] != '>'
}

/// A text without `>` is left as it is.
pub proof fn lemma_strip_without_close(s: Seq<char>)
    requires
        forall|j: int| 0 <= j < s.len() ==> s[j] != '>',
    ensures
        strip_tags(s) == s,
    decreases s.len(),
{
    if s.len() > 0 {
        assert forall|j: int| 0 <= j < s.len() - 1 implies s.drop_first()[j] != '>' by {
            assert(s.drop_first()[j] == s[j + 1]);
        }
        lemma_strip_without_close(s.drop_first());
        if s[0] == '<' {
            lemma_first_index_of(s.drop_first(), '>');
        }
        assert(s =~= seq![s[0]] + s.drop_first());
    }
}

/// A text without tags is left as it is.
pub proof fn lemma_strip_tag_free(s: Seq<char>)
    requires
        tag_free(s),
    ensures
        strip_tags(s) == s,
    decreases s.len(),
{
    if s.len() > 0 {
        let rest = s.drop_first();
        assert(tag_free(rest)) by {
            assert forall|i: int, j: int| 0 <= i < j < rest.len() && rest[i] == '<' implies rest[j]
                != '>' by {
                assert(s[i + 1] == '<');
            }
        }
        lemma_strip_tag_free(rest);
        if s[0] == '<' {
            lemma_first_index_of(rest, '>');
            if first_index_of(rest, '>') is Some {
                let k = first_index_of(rest, '>')->0;
                assert(s[k + 1] == '>');
            }
        }
        assert(s =~= seq![s[0]] + rest);
    }
}

/// What stripping leaves has no tag left.
pub proof fn lemma_strip_tags_tag_free(s: Seq<char>)
    ensures
        tag_free(strip_tags(s)),
    decreases s.len(),
{
    if s.len() > 0 {
        let rest = s.drop_first();
        lemma_first_index_of(rest, '>');
        if s[0] == '<' && first_index_of(rest, '>') is Some {
            let k = first_index_of(rest, '>')->0;
            lemma_strip_tags_tag_free(s.skip(k + 2));
        } else {
            lemma_strip_tags_tag_free(rest);
            let t = strip_tags(rest);
            let r = seq![s[0]] + t;
            assert(r == strip_tags(s));
            if s[0] == '<' {
                lemma_strip_without_close(rest);
                assert(t == rest);
            }
            assert forall|i: int, j: int| 0 <= i < j < r.len() && r[i] == '<' implies r[j]
                != '>' by {
                if i == 0 {
                    assert(r[j] == rest[j - 1]);
                } else {
                    assert(r[i] == t[i - 1]);
                    assert(r[j] == t[j - 1]);
                }
            }
        }
    }
}

/// Cleaning a subtitle text a second time changes nothing.
pub proof fn law_strip_tags_idempotent(s: Seq<char>)
    ensures
        strip_tags(strip_tags(s)) == strip_tags(s),
{
    lemma_strip_tags_tag_free(s);
    lemma_strip_tag_free(strip_tags(s));
}

/// The file is a downloaded subtitle of this session still to be cleaned: it matches
/// `tmp_.*\.vtt$`, holds the session timestamp, and is not a cleaned copy.
pub open spec fn is_subtitle_to_clean(name: Seq<char>, ts: Seq<char>) -> bool {
    is_tmp_vtt_name(name) && has_infix(name, ts) && !has_infix(name, ".clean.vtt"@)
}

/// Whether the file is a downloaded subtitle of this session still to be cleaned.
pub fn subtitle_to_clean(name: &str, ts: &str) -> (r: bool)
    ensures
        r == is_subtitle_to_clean(name@, ts@),
{
    tmp_vtt_name(name) && text_contains(name, ts) && !text_contains(name, ".clean.vtt")
}

/// The last piece of a split, and the separators before it, fit in the text.
proof fn lemma_split_on_last_len(s: Seq<char>, class: CharClass)
    ensures
        split_on(s, class).len() >= 1,
        split_on(s, class).last().len() + split_on(s, class).len() - 1 <= s.len(),
    decreases s.len(),
{
    if s.len() > 0 {
        lemma_split_on_last_len(s.drop_last(), class);
    }
}

/// The name of the cleaned copy of a file, as `Path::with_extension("clean.vtt")` gives
/// it for a file name: its extension, if it has one, becomes "clean.vtt", else
/// ".clean.vtt" is added.
pub open spec fn clean_copy_name(name: Seq<char>) -> Seq<char> {
    match name_extension(name) {
        Some(e) => name.take(name.len() - e.len() - 1) + ".clean.vtt"@,
        None => name + ".clean.vtt"@,
    }
}

/// The name of the cleaned copy of a subtitle file named `name` (a single file name, as
/// a folder listing gives it).
pub fn clean_vtt_name(name: &str) -> (r: String)
    requires
        path_file_name(name@) == Some(name@),
    ensures
        r@ == clean_copy_name(name@),
{
    let s = chars_of(name);
    let parts = split_chars(&s, &CharClass::Exactly('.'));
    proof {
        lemma_split_on_last_len(name@, CharClass::Exactly('.'));
        assert(parts@[parts.len() - 1]@ == split_on(name@, CharClass::Exactly('.')).last());
        if parts.len() == 2 {
            assert(parts@[0]@ == split_on(name@, CharClass::Exactly('.'))[0]);
        }
    }
    let mut out = if parts.len() < 2 || (parts.len() == 2 && parts[0].len() == 0) {
        crate::text::slice_chars(&s, 0, s.len())
    } else {
        let ext_len = parts[parts.len() - 1].len();
        crate::text::slice_chars(&s, 0, s.len() - ext_len - 1)
    };
    push_text(&mut out, ".clean.vtt");
    proof {
        assert(out@ =~= clean_copy_name(name@));
    }
    string_of(&out)
}

/// The language part of a subtitle file name: its second to last `.`-piece, "sub"
/// where there is none.
pub open spec fn lang_suffix(name: Seq<char>) -> Seq<char> {
    match second_last(split_on(name, CharClass::Exactly('.'))) {
        Some(l) => l,
        None => "sub"@,
    }
}

/// The language part of a subtitle file name.
pub fn subtitle_lang_suffix(name: &str) -> (r: String)
    ensures
        r@ == lang_suffix(name@),
{
    let parts = split_chars(&chars_of(name), &CharClass::Exactly('.'));
    if parts.len() >= 2 {
        proof {
            assert(parts@[parts.len() - 2]@ == split_on(name@, CharClass::Exactly('.'))[parts.len()
                - 2]);
        }
        string_of(&parts[parts.len() - 2])
    } else {
        "sub".to_owned()
    }
}

/// The piece is a name component of a path: not empty, and not the `.` that stands
/// for the current folder.
pub open spec fn is_name_component(piece: Seq<char>) -> bool {
    piece.len() > 0 && piece != "."@
}

/// The last name component among the `/`-pieces of a path.
pub open spec fn last_component(pieces: Seq<Seq<char>>) -> Option<Seq<char>>
    decreases pieces.len(),
{
    if pieces.len() == 0 {
        None
    } else if is_name_component(pieces.last()) {
        Some(pieces.last())
    } else {
        last_component(pieces.drop_last())
    }
}

/// The file name of a path (as `Path::file_name`): its last component, unless there is
/// none or it is `..`.
pub open spec fn path_file_name(path: Seq<char>) -> Option<Seq<char>> {
    match last_component(split_on(path, CharClass::Exactly('/'))) {
        Some(c) => if c == ".."@ {
            None
        } else {
            Some(c)
        },
        None => None,
    }
}

/// The extension of a file name (as `Path::extension` documents it): none without a
/// `.`, none for a name that begins with its only `.`, else what follows the last `.`.
pub open spec fn name_extension(name: Seq<char>) -> Option<Seq<char>> {
    let parts = split_on(name, CharClass::Exactly('.'));
    if parts.len() < 2 || (parts.len() == 2 && parts[0].len() == 0) {
        None
    } else {
        Some(parts.last())
    }
}

/// The extension of a path (as `Path::extension`).
pub open spec fn path_extension(path: Seq<char>) -> Option<Seq<char>> {
    match path_file_name(path) {
        Some(n) => name_extension(n),
        None => None,
    }
}

/// The extension of a path.
pub fn extension_of(path: &str) -> (r: Option<String>)
    ensures
        match path_extension(path@) {
            Some(e) => r matches Some(x) && x@ == e,
            None => r is None,
        },
{
    let pieces = split_chars(&chars_of(path), &CharClass::Exactly('/'));
    let ghost pv = crate::text::pieces_view(pieces@);
    let mut k: usize = pieces.len();
    proof {
        assert(pv.take(pv.len() as int) =~= pv);
    }
    while k > 0 && !(pieces[k - 1].len() > 0 && !crate::text::same_chars(
        &pieces[k - 1],
        &chars_of("."),
    ))
        invariant
            k <= pieces.len(),
            pv == crate::text::pieces_view(pieces@),
            last_component(pv.take(k as int)) == last_component(pv),
        decreases k,
    {
        proof {
            assert(pv.take(k as int).drop_last() =~= pv.take(k - 1));
            assert(pv.take(k as int).last() == pieces@[k - 1]@);
        }
        k -= 1;
    }
    proof {
        assert(pv.take(pv.len() as int) =~= pv);
    }
    if k == 0 {
        proof {
            assert(pv.take(0) =~= Seq::<Seq<char>>::empty());
        }
        return None;
    }
    let name = &pieces[k - 1];
    proof {
        assert(pv.take(k as int).last() == name@);
    }
    if crate::text::same_chars(name, &chars_of("..")) {
        return None;
    }
    let parts = split_chars(name, &CharClass::Exactly('.'));
    if parts.len() < 2 || (parts.len() == 2 && parts[0].len() == 0) {
        proof {
            if parts.len() == 2 {
                assert(parts@[0]@ == split_on(name@, CharClass::Exactly('.'))[0]);
            }
        }
        None
    } else {
        proof {
            assert(parts@[parts.len() - 1]@ == split_on(name@, CharClass::Exactly('.')).last());
            if parts.len() == 2 {
                assert(parts@[0]@ == split_on(name@, CharClass::Exactly('.'))[0]);
            }
        }
        Some(string_of(&parts[parts.len() - 1]))
    }
}

/// The name under which an audio download's subtitle is kept: the download's file
/// name with every occurrence of its extension replaced by the language and ".vtt"
/// (as `str::replace` does, so a title holding the extension changes too).
pub fn audio_subtitle_name(final_name: &str, lang: &str) -> (r: String)
    requires
        path_extension(final_name@) is Some,
    ensures
        r@ == replace_all(final_name@, path_extension(final_name@)->0, lang@ + ".vtt"@),
{
    let ext = extension_of(final_name);
    match ext {
        Some(e) => {
            let mut to = chars_of(lang);
            push_text(&mut to, ".vtt");
            string_of(&replace_chars(&chars_of(final_name), &chars_of(e.as_str()), &to))
        },
        None => String::new(),
    }
}

// ---------------------------------------------------------------------------
// Muxing the subtitles into the video with ffmpeg
// ---------------------------------------------------------------------------

/// A subtitle file to mux: its path, the title the player shows, and its ISO 639 code.
#[derive(Clone, Debug)]
pub struct SubTrack {
    pub path: String,
    pub title: String,
    pub iso: String,
}

/// A subtitle track as its path, title and language code.
pub open spec fn track_view(t: SubTrack) -> (Seq<char>, Seq<char>, Seq<char>) {
    (t.path@, t.title@, t.iso@)
}

/// A list of subtitle tracks as tuples.
pub open spec fn tracks_view(s: Seq<SubTrack>) -> Seq<(Seq<char>, Seq<char>, Seq<char>)> {
    s.map_values(|t: SubTrack| track_view(t))
}

/// A folder entry (its path and file name) as a pair of texts.
pub open spec fn entries_view(s: Seq<(String, String)>) -> Seq<(Seq<char>, Seq<char>)> {
    s.map_values(|e: (String, String)| (e.0@, e.1@))
}

/// The language code and title of a language tag.
pub open spec fn lang_code_and_title(raw: Seq<char>) -> (Seq<char>, Seq<char>) {
    if raw == "zh-Hant"@ || raw == "zh-TW"@ || raw == "zh-HK"@ {
        ("chi"@, "繁體中文"@)
    } else if raw == "zh-Hans"@ || raw == "zh-CN"@ || raw == "zh"@ {
        ("zho"@, "簡體中文"@)
    } else if raw == "en"@ || raw == "en-US"@ || raw == "en-GB"@ {
        ("eng"@, "English"@)
    } else if raw == "ja"@ {
        ("jpn"@, "日本語"@)
    } else if raw == "ko"@ {
        ("kor"@, "한국어"@)
    } else if raw == "danmaku"@ {
        ("cmn"@, "中文彈幕"@)
    } else {
        ("und"@, raw)
    }
}

/// The language tag in a subtitle file name: the third to last `.`-piece of a cleaned
/// copy with four pieces at least, else the second to last piece, else "und".
pub open spec fn raw_track_lang(name: Seq<char>) -> Seq<char> {
    let parts = split_on(name, CharClass::Exactly('.'));
    if ".clean.vtt"@.is_suffix_of(name) && parts.len() >= 4 {
        parts[parts.len() - 3]
    } else if parts.len() >= 3 {
        parts[parts.len() - 2]
    } else {
        "und"@
    }
}

/// The file is a subtitle of this session to mux: it begins with "tmp_" and the
/// session timestamp, and is an `.ass` file or a cleaned `.vtt` copy.
pub open spec fn is_track_file(name: Seq<char>, ts: Seq<char>) -> bool {
    ("tmp_"@ + ts).is_prefix_of(name) && (".ass"@.is_suffix_of(name) || ".clean.vtt"@.is_suffix_of(
        name,
    ))
}

/// The track that a folder entry contributes.
pub open spec fn entry_track(entry: (Seq<char>, Seq<char>), ts: Seq<char>) -> Option<
    (Seq<char>, Seq<char>, Seq<char>),
> {
    if is_track_file(entry.1, ts) {
        let (iso, title) = lang_code_and_title(raw_track_lang(entry.1));
        Some((entry.0, title, iso))
    } else {
        None
    }
}

/// The tracks that the folder entries contribute, in folder order.
pub open spec fn found_tracks(entries: Seq<(Seq<char>, Seq<char>)>, ts: Seq<char>) -> Seq<
    (Seq<char>, Seq<char>, Seq<char>),
>
    decreases entries.len(),
{
    if entries.len() == 0 {
        Seq::empty()
    } else {
        let rest = found_tracks(entries.drop_last(), ts);
        match entry_track(entries.last(), ts) {
            Some(t) => rest.push(t),
            None => rest,
        }
    }
}

/// The known language tags are told apart by their letters.
proof fn lemma_lang_codes(tag: Seq<char>)
    ensures
        tag == "ja"@ ==> lang_code_and_title(tag) == ("jpn"@, "日本語"@),
        tag == "zh-Hans"@ || tag == "zh-CN"@ || tag == "zh"@ ==> lang_code_and_title(tag) == (
            "zho"@,
            "簡體中文"@,
        ),
        tag == "en"@ || tag == "en-US"@ || tag == "en-GB"@ ==> lang_code_and_title(tag) == (
            "eng"@,
            "English"@,
        ),
        tag == "ko"@ ==> lang_code_and_title(tag) == ("kor"@, "한국어"@),
        tag == "danmaku"@ ==> lang_code_and_title(tag) == ("cmn"@, "中文彈幕"@),
{
    reveal_strlit("ja");
    reveal_strlit("zh-Hant");
    reveal_strlit("zh-TW");
    reveal_strlit("zh-HK");
    reveal_strlit("zh-Hans");
    reveal_strlit("zh-CN");
    reveal_strlit("zh");
    reveal_strlit("en");
    reveal_strlit("en-US");
    reveal_strlit("en-GB");
    reveal_strlit("ko");
    reveal_strlit("danmaku");
    if tag.len() > 0 {
        let c = tag[0];
        if c == 'j' || c == 'k' || c == 'd' {
            assert(tag != "zh-Hant"@ && tag != "zh-TW"@ && tag != "zh-HK"@);
            assert(tag != "zh-Hans"@ && tag != "zh-CN"@ && tag != "zh"@);
            assert(tag != "en"@ && tag != "en-US"@ && tag != "en-GB"@);
        }
        if c == 'k' || c == 'd' {
            assert(tag != "ja"@);
        }
        if c == 'd' {
            assert(tag != "ko"@);
        }
        if tag == "zh-Hans"@ {
            assert(tag[6] != "zh-Hant"@[6]);
        }
        if tag == "zh-CN"@ {
            assert(tag[3] != "zh-TW"@[3] && tag[3] != "zh-HK"@[3]);
        }
        if c == 'e' {
            assert(tag != "zh-Hant"@ && tag != "zh-TW"@ && tag != "zh-HK"@);
            assert(tag != "zh-Hans"@ && tag != "zh-CN"@ && tag != "zh"@);
        }
    }
}

/// Every subtitle file of the session is muxed as a track under its known language: a
/// track file whose language tag is "ja" is a Japanese track (ISO code "jpn", title
/// "日本語"); "zh-Hant", "zh-TW" and "zh-HK" are traditional Chinese ("chi", "繁體中文");
/// "zh-Hans", "zh-CN" and "zh" simplified Chinese ("zho", "簡體中文"); "en", "en-US" and
/// "en-GB" English ("eng", "English"); "ko" Korean ("kor", "한국어"); "danmaku" bilibili
/// danmaku ("cmn", "中文彈幕"); any other tag is of undetermined language ("und") and
/// titled by the tag itself. The track keeps the file's path and is among the tracks
/// found in the folder.
pub proof fn law_track_languages(entries: Seq<(Seq<char>, Seq<char>)>, ts: Seq<char>, i: int)
    requires
        0 <= i < entries.len(),
        is_track_file(entries[i].1, ts),
    ensures
        ({
            let tag = raw_track_lang(entries[i].1);
            let t = entry_track(entries[i], ts);
            let (path, title, iso) = t->0;
            &&& t is Some
            &&& found_tracks(entries, ts).contains(t->0)
            &&& path == entries[i].0
            &&& tag == "ja"@ ==> iso == "jpn"@ && title == "日本語"@
            &&& (tag == "zh-Hant"@ || tag == "zh-TW"@ || tag == "zh-HK"@) ==> iso == "chi"@ && title
                == "繁體中文"@
            &&& (tag == "zh-Hans"@ || tag == "zh-CN"@ || tag == "zh"@) ==> iso == "zho"@ && title
                == "簡體中文"@
            &&& (tag == "en"@ || tag == "en-US"@ || tag == "en-GB"@) ==> iso == "eng"@ && title
                == "English"@
            &&& tag == "ko"@ ==> iso == "kor"@ && title == "한국어"@
            &&& tag == "danmaku"@ ==> iso == "cmn"@ && title == "中文彈幕"@
            &&& !(tag == "ja"@ || tag == "zh-Hant"@ || tag == "zh-TW"@ || tag == "zh-HK"@ || tag
                == "zh-Hans"@ || tag == "zh-CN"@ || tag == "zh"@ || tag == "en"@ || tag == "en-US"@
                || tag == "en-GB"@ || tag == "ko"@ || tag == "danmaku"@) ==> iso == "und"@ && title
                == tag
        }),
    decreases entries.len(),
{
    lemma_lang_codes(raw_track_lang(entries[i].1));
    let rest = found_tracks(entries.drop_last(), ts);
    let t = entry_track(entries[i], ts)->0;
    if i < entries.len() - 1 {
        law_track_languages(entries.drop_last(), ts, i);
        assert(entries.drop_last()[i] == entries[i]);
        let k = choose|k: int| 0 <= k < rest.len() && rest[k] == t;
        match entry_track(entries.last(), ts) {
            Some(u) => {
                assert(rest.push(u)[k] == t);
            },
            None => {},
        }
    } else {
        assert(entries.last() == entries[i]);
        assert(rest.push(t)[rest.len() as int] == t);
    }
}

/// Where a track with this title goes in a list sorted by title: after every track
/// whose title does not come after it.
pub open spec fn insert_position(sorted: Seq<(Seq<char>, Seq<char>, Seq<char>)>, title: Seq<char>) -> int
    decreases sorted.len(),
{
    if sorted.len() == 0 {
        0
    } else if crate::order::text_less(title, sorted[0].1) {
        0
    } else {
        1 + insert_position(sorted.drop_first(), title)
    }
}

/// The tracks sorted by title, keeping the folder order of equal titles (what the
/// stable `sort_by` on titles gives).
pub open spec fn sort_by_title(s: Seq<(Seq<char>, Seq<char>, Seq<char>)>) -> Seq<
    (Seq<char>, Seq<char>, Seq<char>),
>
    decreases s.len(),
{
    if s.len() == 0 {
        s
    } else {
        let sorted = sort_by_title(s.drop_last());
        sorted.insert(insert_position(sorted, s.last().1), s.last())
    }
}

/// The titles of the tracks do not decrease.
pub open spec fn sorted_by_title(s: Seq<(Seq<char>, Seq<char>, Seq<char>)>) -> bool {
    forall|i: int, j: int|
        0 <= i < j < s.len() ==> !crate::order::text_less(#[trigger] s[j].1, #[trigger] s[i].1)
}

/// The language tag in a subtitle file name.
pub fn track_lang_tag(name: &str) -> (r: String)
    ensures
        r@ == raw_track_lang(name@),
{
    let parts = split_chars(&chars_of(name), &CharClass::Exactly('.'));
    let ghost pv = split_on(name@, CharClass::Exactly('.'));
    proof {
        assert(crate::text::pieces_view(parts@) == pv);
    }
    if text_ends_with(name, ".clean.vtt") && parts.len() >= 4 {
        proof {
            assert(parts@[parts.len() - 3]@ == pv[parts.len() - 3]);
        }
        string_of(&parts[parts.len() - 3])
    } else if parts.len() >= 3 {
        proof {
            assert(parts@[parts.len() - 2]@ == pv[parts.len() - 2]);
        }
        string_of(&parts[parts.len() - 2])
    } else {
        "und".to_owned()
    }
}

/// The language code and title of a language tag: Chinese (traditional, simplified),
/// English, Japanese, Korean and bilibili danmaku by name, any other tag as "und" with
/// the tag as its title.
pub fn lang_label(raw: &str) -> (r: (String, String))
    ensures
        (r.0@, r.1@) == lang_code_and_title(raw@),
{
    if text_eq(raw, "zh-Hant") || text_eq(raw, "zh-TW") || text_eq(raw, "zh-HK") {
        ("chi".to_owned(), "繁體中文".to_owned())
    } else if text_eq(raw, "zh-Hans") || text_eq(raw, "zh-CN") || text_eq(raw, "zh") {
        ("zho".to_owned(), "簡體中文".to_owned())
    } else if text_eq(raw, "en") || text_eq(raw, "en-US") || text_eq(raw, "en-GB") {
        ("eng".to_owned(), "English".to_owned())
    } else if text_eq(raw, "ja") {
        ("jpn".to_owned(), "日本語".to_owned())
    } else if text_eq(raw, "ko") {
        ("kor".to_owned(), "한국어".to_owned())
    } else if text_eq(raw, "danmaku") {
        ("cmn".to_owned(), "中文彈幕".to_owned())
    } else {
        ("und".to_owned(), raw.to_owned())
    }
}

/// Whether the file is a subtitle of this session to mux.
pub fn track_file(name: &str, ts: &str) -> (r: bool)
    ensures
        r == is_track_file(name@, ts@),
{
    let mut prefix = chars_of("tmp_");
    push_text(&mut prefix, ts);
    let p = string_of(&prefix);
    crate::text::text_starts_with(name, p.as_str()) && (text_ends_with(name, ".ass")
        || text_ends_with(name, ".clean.vtt"))
}

/// The subtitle tracks to mux among the entries (path, file name) of the session
/// folder, sorted by title with folder order kept among equal titles.
pub fn subtitle_tracks(entries: &Vec<(String, String)>, ts: &str) -> (res: Vec<SubTrack>)
    ensures
        tracks_view(res@) == sort_by_title(found_tracks(entries_view(entries@), ts@)),
        sorted_by_title(tracks_view(res@)),
{
    let ghost ev = entries_view(entries@);
    let mut res: Vec<SubTrack> = Vec::new();
    let mut k: usize = 0;
    while k < entries.len()
        invariant
            k <= entries.len(),
            ev == entries_view(entries@),
            tracks_view(res@) == sort_by_title(found_tracks(ev.take(k as int), ts@)),
            sorted_by_title(tracks_view(res@)),
        decreases entries.len() - k,
    {
        proof {
            assert(ev.take(k + 1).drop_last() =~= ev.take(k as int));
            assert(ev.take(k + 1).last() == ev[k as int]);
            assert(ev[k as int] == (entries@[k as int].0@, entries@[k as int].1@));
        }
        let path = &entries[k].0;
        let name = &entries[k].1;
        if track_file(name.as_str(), ts) {
            let raw = track_lang_tag(name.as_str());
            let (iso, title) = lang_label(raw.as_str());
            let ghost rv = tracks_view(res@);
            let ghost t = (path@, title@, iso@);
            let tc = chars_of(title.as_str());
            let mut p: usize = 0;
            proof {
                assert(rv.skip(0) =~= rv);
            }
            while p < res.len() && !crate::order::chars_less(&tc, &chars_of(res[p].title.as_str()))
                invariant
                    p <= res.len(),
                    rv == tracks_view(res@),
                    tc@ == title@,
                    insert_position(rv.skip(p as int), title@) + p == insert_position(rv, title@),
                    forall|q: int| 0 <= q < p ==> !crate::order::text_less(title@, #[trigger] rv[q].1),
                decreases res.len() - p,
            {
                proof {
                    assert(rv.skip(p as int).drop_first() =~= rv.skip(p + 1));
                    assert(rv.skip(p as int)[0] == rv[p as int]);
                }
                p += 1;
            }
            proof {
                if p < rv.len() {
                    assert(rv.skip(p as int)[0] == rv[p as int]);
                }
                assert(insert_position(rv, title@) == p);
            }
            let track = SubTrack { path: path.clone(), title, iso };
            res.insert(p, track);
            proof {
                let nv = tracks_view(res@);
                assert(nv =~= rv.insert(p as int, t));
                assert forall|i: int, j: int| 0 <= i < j < nv.len() implies !crate::order::text_less(
                    #[trigger] nv[j].1,
                    #[trigger] nv[i].1,
                ) by {
                    if j < p {
                    } else if j == p {
                    } else if i < p {
                        assert(nv[j] == rv[j - 1]);
                        assert(nv[i] == rv[i]);
                    } else if i == p {
                        assert(nv[j] == rv[j - 1]);
                        if crate::order::text_less(rv[j - 1].1, title@) {
                            if j - 1 > p {
                                crate::order::lemma_text_less_transitive(
                                    rv[j - 1].1,
                                    title@,
                                    rv[p as int].1,
                                );
                            }
                            crate::order::lemma_text_less_total(rv[p as int].1, title@);
                            if j - 1 == p {
                                crate::order::lemma_text_less_total(rv[j - 1].1, title@);
                            }
                        }
                    } else {
                        assert(nv[j] == rv[j - 1]);
                        assert(nv[i] == rv[i - 1]);
                    }
                }
                let f = found_tracks(ev.take(k as int), ts@);
                assert(entry_track(ev[k as int], ts@) == Some(t));
                assert(found_tracks(ev.take(k + 1), ts@) == f.push(t));
                assert(f.push(t).drop_last() =~= f);
                assert(sort_by_title(f.push(t)) == rv.insert(p as int, t));
            }
        } else {
            proof {
                assert(found_tracks(ev.take(k + 1), ts@) == found_tracks(ev.take(k as int), ts@));
            }
        }
        k += 1;
    }
    proof {
        assert(ev.take(entries@.len() as int) =~= ev);
    }
    res
}

/// The option key that sets metadata of subtitle stream `i`.
pub open spec fn metadata_key(i: nat) -> Seq<char> {
    "-metadata:s:s:"@ + decimal(i)
}

/// One `-i` input per track, in order.
pub open spec fn input_args(tracks: Seq<(Seq<char>, Seq<char>, Seq<char>)>) -> Seq<Seq<char>>
    decreases tracks.len(),
{
    if tracks.len() == 0 {
        Seq::empty()
    } else {
        input_args(tracks.drop_last()) + seq!["-i"@, tracks.last().0]
    }
}

/// `-map 1` up to `-map n`.
pub open spec fn map_args(n: nat) -> Seq<Seq<char>>
    decreases n,
{
    if n == 0 {
        Seq::empty()
    } else {
        map_args((n - 1) as nat) + seq!["-map"@, decimal(n)]
    }
}

/// The language, title, handler name and name metadata of each subtitle stream.
pub open spec fn metadata_args(tracks: Seq<(Seq<char>, Seq<char>, Seq<char>)>) -> Seq<Seq<char>>
    decreases tracks.len(),
{
    if tracks.len() == 0 {
        Seq::empty()
    } else {
        let key = metadata_key((tracks.len() - 1) as nat);
        let t = tracks.last();
        metadata_args(tracks.drop_last()) + seq![
            key,
            "language="@ + t.2,
            key,
            "title="@ + t.1,
            key,
            "handler_name="@ + t.1,
            key,
            "name="@ + t.1,
        ]
    }
}

/// The subtitle codec options: `mov_text` with metadata tags for an `.mp4` output,
/// else a plain copy.
pub open spec fn subtitle_codec_args(final_path: Seq<char>) -> Seq<Seq<char>> {
    if path_extension(final_path) == Some("mp4"@) {
        seq!["-c:s"@, "mov_text"@, "-movflags"@, "+use_metadata_tags"@]
    } else {
        seq!["-c:s"@, "copy"@]
    }
}

/// The ffmpeg arguments that mux the tracks into the video, copying the audio and video
/// streams, and write the result to `final_path`.
pub open spec fn merge_args(
    video: Seq<char>,
    tracks: Seq<(Seq<char>, Seq<char>, Seq<char>)>,
    final_path: Seq<char>,
) -> Seq<Seq<char>> {
    seq!["-loglevel"@, "error"@, "-hide_banner"@, "-i"@, video] + input_args(tracks) + seq![
        "-c:v"@,
        "copy"@,
        "-c:a"@,
        "copy"@,
    ] + subtitle_codec_args(final_path) + seq!["-map"@, "0"@] + map_args(tracks.len()) + metadata_args(
        tracks,
    ) + seq!["-y"@, final_path]
}

/// The ffmpeg arguments that mux `tracks` into `video`, written to `final_path`.
pub fn build_merge_args(video: &str, tracks: &Vec<SubTrack>, final_path: &str) -> (res: Vec<String>)
    ensures
        strings_view(res@) == merge_args(video@, tracks_view(tracks@), final_path@),
{
    let ghost tv = tracks_view(tracks@);
    let mut args: Vec<String> = Vec::new();
    push_string(&mut args, "-loglevel");
    push_string(&mut args, "error");
    push_string(&mut args, "-hide_banner");
    push_string(&mut args, "-i");
    push_string(&mut args, video);
    let ghost head = strings_view(args@);
    proof {
        assert(head =~= seq!["-loglevel"@, "error"@, "-hide_banner"@, "-i"@, video@]);
    }
    let mut i: usize = 0;
    while i < tracks.len()
        invariant
            i <= tracks.len(),
            tv == tracks_view(tracks@),
            strings_view(args@) == head + input_args(tv.take(i as int)),
        decreases tracks.len() - i,
    {
        proof {
            assert(tv.take(i + 1).drop_last() =~= tv.take(i as int));
            assert(tv.take(i + 1).last() == tv[i as int]);
        }
        push_string(&mut args, "-i");
        push_string(&mut args, tracks[i].path.as_str());
        proof {
            assert(strings_view(args@) =~= head + input_args(tv.take(i + 1)));
        }
        i += 1;
    }
    proof {
        assert(tv.take(tracks@.len() as int) =~= tv);
    }
    push_string(&mut args, "-c:v");
    push_string(&mut args, "copy");
    push_string(&mut args, "-c:a");
    push_string(&mut args, "copy");
    let is_mp4 = match extension_of(final_path) {
        Some(e) => text_eq(e.as_str(), "mp4"),
        None => false,
    };
    if is_mp4 {
        push_string(&mut args, "-c:s");
        push_string(&mut args, "mov_text");
        push_string(&mut args, "-movflags");
        push_string(&mut args, "+use_metadata_tags");
    } else {
        push_string(&mut args, "-c:s");
        push_string(&mut args, "copy");
    }
    push_string(&mut args, "-map");
    push_string(&mut args, "0");
    let ghost head2 = strings_view(args@);
    proof {
        assert(head2 =~= head + input_args(tv) + seq!["-c:v"@, "copy"@, "-c:a"@, "copy"@]
            + subtitle_codec_args(final_path@) + seq!["-map"@, "0"@]);
    }
    let mut n: usize = 0;
    while n < tracks.len()
        invariant
            n <= tracks.len(),
            tv == tracks_view(tracks@),
            strings_view(args@) == head2 + map_args(n as nat),
        decreases tracks.len() - n,
    {
        n += 1;
        push_string(&mut args, "-map");
        push_chars_string(&mut args, &decimal_chars(n as u64));
        proof {
            assert(strings_view(args@) =~= head2 + map_args(n as nat));
        }
    }
    let ghost head3 = strings_view(args@);
    let mut j: usize = 0;
    while j < tracks.len()
        invariant
            j <= tracks.len(),
            tv == tracks_view(tracks@),
            strings_view(args@) == head3 + metadata_args(tv.take(j as int)),
        decreases tracks.len() - j,
    {
        proof {
            assert(tv.take(j + 1).drop_last() =~= tv.take(j as int));
            assert(tv.take(j + 1).last() == tv[j as int]);
        }
        let mut key = chars_of("-metadata:s:s:");
        crate::text::push_chars(&mut key, &decimal_chars(j as u64));
        let t = &tracks[j];
        push_chars_string(&mut args, &key);
        push_chars_string(&mut args, &concat_text("language=", t.iso.as_str()));
        push_chars_string(&mut args, &key);
        push_chars_string(&mut args, &concat_text("title=", t.title.as_str()));
        push_chars_string(&mut args, &key);
        push_chars_string(&mut args, &concat_text("handler_name=", t.title.as_str()));
        push_chars_string(&mut args, &key);
        push_chars_string(&mut args, &concat_text("name=", t.title.as_str()));
        proof {
            assert(strings_view(args@) =~= head3 + metadata_args(tv.take(j + 1)));
        }
        j += 1;
    }
    proof {
        assert(tv.take(tracks@.len() as int) =~= tv);
    }
    push_string(&mut args, "-y");
    push_string(&mut args, final_path);
    proof {
        assert(strings_view(args@) =~= merge_args(video@, tv, final_path@));
    }
    args
}

/// The ffmpeg arguments that mux the session's subtitles into the downloaded video, or
/// `None` when the session folder (entries as path and file name) holds no subtitle
/// to mux.
pub fn merge_command(entries: &Vec<(String, String)>, ts: &str, video: &str, final_path: &str) -> (res:
    Option<Vec<String>>)
    ensures
        ({
            let tracks = sort_by_title(found_tracks(entries_view(entries@), ts@));
            match res {
                Some(args) => tracks.len() > 0 && strings_view(args@) == merge_args(
                    video@,
                    tracks,
                    final_path@,
                ),
                None => tracks.len() == 0,
            }
        }),
{
    let tracks = subtitle_tracks(entries, ts);
    if tracks.len() == 0 {
        None
    } else {
        Some(build_merge_args(video, &tracks, final_path))
    }
}

/// The resolution that ffprobe printed (as `WIDTHxHEIGHT`), without surrounding white
/// space.
pub fn resolution_from_probe_output(stdout: &str) -> (r: String)
    ensures
        r@ == crate::text::trim(stdout@, CharClass::WhiteSpace),
{
    crate::text::text_trim(stdout)
}

} // verus!
