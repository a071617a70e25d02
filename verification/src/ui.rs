use vstd::prelude::*;

use crate::args::MediaType;
use crate::parser::{format_view, formats_view, VideoFormat};
use crate::text::{
    chars_of, decimal, decimal_chars, has_infix, pieces_view, push_string, push_text, string_of,
    strings_view, text_contains, text_eq, text_starts_with, words, words_of,
};

verus! {

// ---------------------------------------------------------------------------
// The questions asked before a download
// ---------------------------------------------------------------------------

/// The media type for the answer to "what to download" (0 audio, 1 silent video,
/// anything else video with sound).
pub fn media_type_for_choice(selection: usize) -> (r: MediaType)
    ensures
        r == if selection == 0 {
            MediaType::Audio
        } else if selection == 1 {
            MediaType::VideoOnly
        } else {
            MediaType::Video
        },
{
    if selection == 0 {
        MediaType::Audio
    } else if selection == 1 {
        MediaType::VideoOnly
    } else {
        MediaType::Video
    }
}

/// The container choices offered for a media type.
pub open spec fn format_menu(mt: MediaType) -> Seq<Seq<char>> {
    match mt {
        MediaType::Audio => seq!["m4a"@, "mp3"@],
        _ => seq!["mp4 (最高 1080p，相容性佳)"@, "mkv (解鎖 4K/8K 畫質)"@],
    }
}

/// The container choices offered for a media type: m4a and mp3 for audio, mp4 and mkv
/// (with a note on each) for video.
pub fn format_choices(mt: MediaType) -> (res: Vec<String>)
    ensures
        strings_view(res@) == format_menu(mt),
{
    let mut v: Vec<String> = Vec::new();
    match mt {
        MediaType::Audio => {
            push_string(&mut v, "m4a");
            push_string(&mut v, "mp3");
        },
        _ => {
            push_string(&mut v, "mp4 (最高 1080p，相容性佳)");
            push_string(&mut v, "mkv (解鎖 4K/8K 畫質)");
        },
    }
    proof {
        assert(strings_view(v@) =~= format_menu(mt));
    }
    v
}

/// The container named by a chosen menu entry: its first word.
pub fn format_from_choice(choice: &str) -> (res: String)
    requires
        words(choice@).len() > 0,
    ensures
        res@ == words(choice@)[0],
{
    let ws = words_of(&chars_of(choice));
    proof {
        assert(pieces_view(ws@)[0] == ws@[0]@);
    }
    string_of(&ws[0])
}

/// The addresses typed in answer to the address question: its white-space separated
/// words.
pub fn urls_from_input(input: &str) -> (res: Vec<String>)
    ensures
        strings_view(res@) == words(input@),
{
    let ws = words_of(&chars_of(input));
    let mut res: Vec<String> = Vec::new();
    let mut i: usize = 0;
    while i < ws.len()
        invariant
            i <= ws.len(),
            strings_view(res@) == pieces_view(ws@).take(i as int),
        decreases ws.len() - i,
    {
        crate::text::push_chars_string(&mut res, &ws[i]);
        proof {
            assert(strings_view(res@) =~= pieces_view(ws@).take(i + 1));
        }
        i += 1;
    }
    proof {
        assert(pieces_view(ws@).take(ws@.len() as int) =~= pieces_view(ws@));
    }
    res
}

// ---------------------------------------------------------------------------
// The resolution menu
// ---------------------------------------------------------------------------

/// The formats above 1080 lines, in order.
pub open spec fn high_formats(fs: Seq<(Seq<char>, u32, Seq<char>, Seq<char>)>) -> Seq<
    (Seq<char>, u32, Seq<char>, Seq<char>),
>
    decreases fs.len(),
{
    if fs.len() == 0 {
        fs
    } else if fs.last().1 > 1080 {
        high_formats(fs.drop_last()).push(fs.last())
    } else {
        high_formats(fs.drop_last())
    }
}

/// The tallest format of at most 1080 lines, the last of them on a tie (as
/// `max_by_key` picks).
pub open spec fn best_full_hd(fs: Seq<(Seq<char>, u32, Seq<char>, Seq<char>)>) -> Option<
    (Seq<char>, u32, Seq<char>, Seq<char>),
>
    decreases fs.len(),
{
    if fs.len() == 0 {
        None
    } else {
        let b = best_full_hd(fs.drop_last());
        let f = fs.last();
        if f.1 <= 1080 && (b is None || f.1 >= (b->0).1) {
            Some(f)
        } else {
            b
        }
    }
}

/// The formats the menu picks from: those above 1080 lines, then the best one up to
/// 1080; nothing when no format is above 1080 lines (then there is no menu).
pub open spec fn menu_candidates(fs: Seq<(Seq<char>, u32, Seq<char>, Seq<char>)>) -> Seq<
    (Seq<char>, u32, Seq<char>, Seq<char>),
> {
    let high = high_formats(fs);
    if high.len() == 0 {
        high
    } else {
        match best_full_hd(fs) {
            Some(b) => high.push(b),
            None => high,
        }
    }
}

/// The first of `cs` with height `h`.
pub open spec fn first_with_height(cs: Seq<(Seq<char>, u32, Seq<char>, Seq<char>)>, h: u32) -> Option<
    (Seq<char>, u32, Seq<char>, Seq<char>),
>
    decreases cs.len(),
{
    if cs.len() == 0 {
        None
    } else {
        match first_with_height(cs.drop_last(), h) {
            Some(x) => Some(x),
            None => if cs.last().1 == h {
                Some(cs.last())
            } else {
                None
            },
        }
    }
}

/// `menu` is the resolution menu for the candidates `cs`: one entry per height, tallest
/// first, each the first candidate of that height (what sorting by height, tallest
/// first and stably, then dropping repeated heights gives).
pub open spec fn is_resolution_menu(
    menu: Seq<(Seq<char>, u32, Seq<char>, Seq<char>)>,
    cs: Seq<(Seq<char>, u32, Seq<char>, Seq<char>)>,
) -> bool {
    &&& forall|i: int, j: int| 0 <= i < j < menu.len() ==> #[trigger] menu[i].1 > #[trigger] menu[j].1
    &&& forall|i: int| 0 <= i < menu.len() ==> first_with_height(cs, #[trigger] menu[i].1) == Some(menu[i])
    &&& forall|k: int| 0 <= k < cs.len() ==> exists|i: int| 0 <= i < menu.len() && #[trigger] menu[i].1 == #[trigger] cs[k].1
}

/// A height that some of `cs` has is found by `first_with_height`, and what it finds is
/// one of them.
pub proof fn lemma_first_with_height(cs: Seq<(Seq<char>, u32, Seq<char>, Seq<char>)>, h: u32)
    ensures
        (exists|k: int| 0 <= k < cs.len() && cs[k].1 == h) <==> first_with_height(cs, h) is Some,
        first_with_height(cs, h) matches Some(x) ==> x.1 == h,
    decreases cs.len(),
{
    if cs.len() > 0 {
        lemma_first_with_height(cs.drop_last(), h);
        if exists|k: int| 0 <= k < cs.len() && cs[k].1 == h {
            let k = choose|k: int| 0 <= k < cs.len() && cs[k].1 == h;
            if k < cs.len() - 1 {
                assert(cs.drop_last()[k].1 == h);
            }
        }
        if first_with_height(cs.drop_last(), h) is Some {
            let k = choose|k: int| 0 <= k < cs.drop_last().len() && cs.drop_last()[k].1 == h;
            assert(cs[k].1 == h);
        }
    }
}

fn copy_format(f: &VideoFormat) -> (r: VideoFormat)
    ensures
        format_view(r) == format_view(*f),
{
    VideoFormat {
        format_id: f.format_id.clone(),
        height: f.height,
        vcodec: f.vcodec.clone(),
        ext: f.ext.clone(),
    }
}

/// The formats the resolution menu picks from.
pub fn resolution_candidates(formats: &Vec<VideoFormat>) -> (res: Vec<VideoFormat>)
    ensures
        formats_view(res@) == menu_candidates(formats_view(formats@)),
{
    let ghost fv = formats_view(formats@);
    let mut high: Vec<VideoFormat> = Vec::new();
    let mut best: Option<VideoFormat> = None;
    let mut i: usize = 0;
    while i < formats.len()
        invariant
            i <= formats.len(),
            fv == formats_view(formats@),
            formats_view(high@) == high_formats(fv.take(i as int)),
            match best_full_hd(fv.take(i as int)) {
                Some(b) => best matches Some(x) && format_view(x) == b,
                None => best is None,
            },
        decreases formats.len() - i,
    {
        proof {
            assert(fv.take(i + 1).drop_last() =~= fv.take(i as int));
            assert(fv.take(i + 1).last() == fv[i as int]);
            assert(fv[i as int] == format_view(formats@[i as int]));
        }
        let f = &formats[i];
        if f.height > 1080 {
            high.push(copy_format(f));
        } else {
            let take = match &best {
                Some(b) => f.height >= b.height,
                None => true,
            };
            if take {
                best = Some(copy_format(f));
            }
        }
        proof {
            assert(formats_view(high@) =~= high_formats(fv.take(i + 1)));
        }
        i += 1;
    }
    proof {
        assert(fv.take(formats@.len() as int) =~= fv);
    }
    if high.len() == 0 {
        return high;
    }
    match best {
        Some(b) => {
            high.push(b);
            proof {
                assert(formats_view(high@) =~= menu_candidates(fv));
            }
        },
        None => {},
    }
    high
}

/// The entries of the resolution menu: one per height among the candidates, tallest
/// first, each the first candidate of its height.
pub fn resolution_options(formats: &Vec<VideoFormat>) -> (res: Vec<VideoFormat>)
    ensures
        is_resolution_menu(formats_view(res@), menu_candidates(formats_view(formats@))),
{
    let cands = resolution_candidates(formats);
    let ghost cv = formats_view(cands@);
    let mut menu: Vec<VideoFormat> = Vec::new();
    let mut k: usize = 0;
    while k < cands.len()
        invariant
            k <= cands.len(),
            cv == formats_view(cands@),
            is_resolution_menu(formats_view(menu@), cv.take(k as int)),
        decreases cands.len() - k,
    {
        let c = &cands[k];
        let ghost mv = formats_view(menu@);
        let ghost cs = cv.take(k as int);
        let ghost cs1 = cv.take(k + 1);
        proof {
            assert(cs1.drop_last() =~= cs);
            assert(cs1.last() == cv[k as int]);
            assert(cv[k as int] == format_view(cands@[k as int]));
            lemma_first_with_height(cs, c.height);
        }
        let mut p: usize = 0;
        while p < menu.len() && menu[p].height > c.height
            invariant
                p <= menu.len(),
                mv == formats_view(menu@),
                forall|q: int| 0 <= q < p ==> #[trigger] mv[q].1 > c.height,
            decreases menu.len() - p,
        {
            proof {
                assert(mv[p as int].1 == menu@[p as int].height);
            }
            p += 1;
        }
        proof {
            if p < menu.len() {
                assert(mv[p as int].1 == menu@[p as int].height);
            }
        }
        if p < menu.len() && menu[p].height == c.height {
            proof {
                assert(mv[p as int].1 == c.height);
                assert forall|i: int| 0 <= i < mv.len() implies first_with_height(cs1, #[trigger] mv[i].1)
                    == Some(mv[i]) by {
                    assert(first_with_height(cs, mv[i].1) == Some(mv[i]));
                }
                assert forall|q: int| 0 <= q < cs1.len() implies exists|i: int|
                    0 <= i < mv.len() && #[trigger] mv[i].1 == #[trigger] cs1[q].1 by {
                    if q < cs.len() {
                        assert(cs1[q] == cs[q]);
                    } else {
                        assert(mv[p as int].1 == cs1[q].1);
                    }
                }
            }
        } else {
            proof {
                assert forall|i: int| 0 <= i < mv.len() implies #[trigger] mv[i].1 != c.height by {
                    if i < p {
                    } else if i == p {
                    } else {
                        assert(mv[p as int].1 > mv[i].1);
                    }
                }
                assert(first_with_height(cs, c.height) is None) by {
                    if first_with_height(cs, c.height) is Some {
                        let q = choose|q: int| 0 <= q < cs.len() && cs[q].1 == c.height;
                        let i = choose|i: int| 0 <= i < mv.len() && #[trigger] mv[i].1 == #[trigger] cs[q].1;
                    }
                }
            }
            menu.insert(p, copy_format(c));
            proof {
                let nv = formats_view(menu@);
                let cc = cv[k as int];
                assert(nv =~= mv.insert(p as int, cc));
                assert(first_with_height(cs1, c.height) == Some(cc));
                assert forall|i: int, j: int| 0 <= i < j < nv.len() implies #[trigger] nv[i].1
                    > #[trigger] nv[j].1 by {
                    if j < p {
                    } else if j == p {
                    } else if i < p {
                        assert(nv[j] == mv[j - 1]);
                        if j - 1 > p {
                            assert(mv[p as int].1 > mv[j - 1].1);
                        }
                    } else if i == p {
                        assert(nv[j] == mv[j - 1]);
                        if j - 1 > p {
                            assert(mv[p as int].1 > mv[j - 1].1);
                        }
                    } else {
                        assert(nv[j] == mv[j - 1]);
                        assert(nv[i] == mv[i - 1]);
                    }
                }
                assert forall|i: int| 0 <= i < nv.len() implies first_with_height(cs1, #[trigger] nv[i].1)
                    == Some(nv[i]) by {
                    if i < p {
                        assert(first_with_height(cs, mv[i].1) == Some(mv[i]));
                    } else if i > p {
                        assert(nv[i] == mv[i - 1]);
                        assert(first_with_height(cs, mv[i - 1].1) == Some(mv[i - 1]));
                    }
                }
                assert forall|q: int| 0 <= q < cs1.len() implies exists|i: int|
                    0 <= i < nv.len() && #[trigger] nv[i].1 == #[trigger] cs1[q].1 by {
                    if q < cs.len() {
                        assert(cs1[q] == cs[q]);
                        let i = choose|i: int| 0 <= i < mv.len() && #[trigger] mv[i].1 == #[trigger] cs[q].1;
                        if i < p {
                            assert(nv[i] == mv[i]);
                        } else {
                            assert(nv[i + 1] == mv[i]);
                        }
                    } else {
                        assert(nv[p as int].1 == cs1[q].1);
                    }
                }
            }
        }
        k += 1;
    }
    proof {
        assert(cv.take(cands@.len() as int) =~= cv);
    }
    menu
}

/// The menu text of a resolution: its height, codec and source container.
pub open spec fn resolution_label_text(f: (Seq<char>, u32, Seq<char>, Seq<char>)) -> Seq<char> {
    decimal(f.1 as nat) + "p (編碼: "@ + f.2 + "), 來源："@ + f.3 + ")"@
}

/// The menu texts of the resolution entries, in order.
pub fn resolution_labels(options: &Vec<VideoFormat>) -> (res: Vec<String>)
    ensures
        res@.len() == options@.len(),
        forall|i: int|
            0 <= i < options@.len() ==> (#[trigger] res@[i])@ == resolution_label_text(
                format_view(options@[i]),
            ),
{
    let mut res: Vec<String> = Vec::new();
    let mut i: usize = 0;
    while i < options.len()
        invariant
            i <= options.len(),
            res@.len() == i,
            forall|j: int|
                0 <= j < i ==> (#[trigger] res@[j])@ == resolution_label_text(
                    format_view(options@[j]),
                ),
        decreases options.len() - i,
    {
        let f = &options[i];
        let mut t = decimal_chars(f.height as u64);
        push_text(&mut t, "p (編碼: ");
        push_text(&mut t, f.vcodec.as_str());
        push_text(&mut t, "), 來源：");
        push_text(&mut t, f.ext.as_str());
        push_text(&mut t, ")");
        res.push(string_of(&t));
        i += 1;
    }
    res
}

/// The format identifier of the menu entry whose text is the answer (the first such
/// entry), if any.
pub fn format_id_for_answer(options: &Vec<VideoFormat>, labels: &Vec<String>, answer: &str) -> (res:
    Option<String>)
    requires
        labels@.len() == options@.len(),
    ensures
        match crate::utils::first_position(strings_view(labels@), answer@) {
            Some(p) => res matches Some(id) && id@ == options@[p].format_id@,
            None => res is None,
        },
{
    let ghost lv = strings_view(labels@);
    let mut p: usize = 0;
    proof {
        assert(lv.skip(0) =~= lv);
    }
    while p < labels.len() && !text_eq(labels[p].as_str(), answer)
        invariant
            p <= labels.len(),
            lv == strings_view(labels@),
            crate::utils::first_position(lv.skip(p as int), answer@) matches Some(k)
                ==> crate::utils::first_position(lv, answer@) == Some(k + p),
            crate::utils::first_position(lv.skip(p as int), answer@) is None
                ==> crate::utils::first_position(lv, answer@) is None,
        decreases labels.len() - p,
    {
        proof {
            assert(lv.skip(p as int).drop_first() =~= lv.skip(p + 1));
            assert(lv.skip(p as int)[0] == lv[p as int]);
        }
        p += 1;
    }
    if p < labels.len() {
        proof {
            assert(lv.skip(p as int)[0] == lv[p as int]);
        }
        Some(options[p].format_id.clone())
    } else {
        proof {
            assert(lv.skip(p as int) =~= Seq::<Seq<char>>::empty());
        }
        None
    }
}

// ---------------------------------------------------------------------------
// The subtitle menu
// ---------------------------------------------------------------------------

/// A Chinese subtitle: its tag holds "zh" or "chi".
pub open spec fn is_chinese_tag(l: Seq<char>) -> bool {
    has_infix(l, "zh"@) || has_infix(l, "chi"@)
}

/// An English subtitle: its tag begins with "en".
pub open spec fn is_english_tag(l: Seq<char>) -> bool {
    "en"@.is_prefix_of(l)
}

/// A Japanese subtitle: its tag begins with "ja" or "jpn".
pub open spec fn is_japanese_tag(l: Seq<char>) -> bool {
    "ja"@.is_prefix_of(l) || "jpn"@.is_prefix_of(l)
}

/// The subtitle menu for the languages found: Chinese, English and Japanese, each where
/// some tag is of that language, in that order.
pub open spec fn subtitle_menu_spec(langs: Seq<Seq<char>>) -> Seq<Seq<char>> {
    let zh = if exists|i: int| 0 <= i < langs.len() && #[trigger] is_chinese_tag(langs[i]) {
        seq!["中文 (繁/簡/彈幕)"@]
    } else {
        Seq::empty()
    };
    let en = if exists|i: int| 0 <= i < langs.len() && #[trigger] is_english_tag(langs[i]) {
        seq!["英文 (English)"@]
    } else {
        Seq::empty()
    };
    let ja = if exists|i: int| 0 <= i < langs.len() && #[trigger] is_japanese_tag(langs[i]) {
        seq!["日文 (日本語)"@]
    } else {
        Seq::empty()
    };
    zh + en + ja
}

/// The subtitle menu offers every language found: a tag that begins with "ja" or "jpn"
/// brings the Japanese entry "日文 (日本語)", one that begins with "en" the English entry
/// "英文 (English)", and one that holds "zh" or "chi" the Chinese entry
/// "中文 (繁/簡/彈幕)"; and choosing an entry of the menu asks for that language's
/// tags ("ja" for Japanese, "en" for English, "zh" for Chinese among them).
pub proof fn law_subtitle_menu_offers_found_languages(langs: Seq<Seq<char>>, i: int)
    requires
        0 <= i < langs.len(),
    ensures
        "ja"@.is_prefix_of(langs[i]) || "jpn"@.is_prefix_of(langs[i]) ==> subtitle_menu_spec(
            langs,
        ).contains("日文 (日本語)"@),
        "en"@.is_prefix_of(langs[i]) ==> subtitle_menu_spec(langs).contains("英文 (English)"@),
        has_infix(langs[i], "zh"@) || has_infix(langs[i], "chi"@) ==> subtitle_menu_spec(
            langs,
        ).contains("中文 (繁/簡/彈幕)"@),
        answer_langs("日文 (日本語)"@).contains("ja"@),
        answer_langs("英文 (English)"@).contains("en"@),
        answer_langs("中文 (繁/簡/彈幕)"@).contains("zh"@),
{
    let menu = subtitle_menu_spec(langs);
    if "ja"@.is_prefix_of(langs[i]) || "jpn"@.is_prefix_of(langs[i]) {
        assert(is_japanese_tag(langs[i]));
        assert(menu[menu.len() - 1] == "日文 (日本語)"@);
    }
    if "en"@.is_prefix_of(langs[i]) {
        assert(is_english_tag(langs[i]));
        let zh = if exists|j: int| 0 <= j < langs.len() && #[trigger] is_chinese_tag(langs[j]) {
            seq!["中文 (繁/簡/彈幕)"@]
        } else {
            Seq::empty()
        };
        assert(menu[zh.len() as int] == "英文 (English)"@);
    }
    if has_infix(langs[i], "zh"@) || has_infix(langs[i], "chi"@) {
        assert(is_chinese_tag(langs[i]));
        assert(menu[0] == "中文 (繁/簡/彈幕)"@);
    }
    reveal_strlit("日文 (日本語)");
    reveal_strlit("英文 (English)");
    reveal_strlit("中文 (繁/簡/彈幕)");
    assert("中文 (繁/簡/彈幕)"@ != "英文 (English)"@ && "中文 (繁/簡/彈幕)"@ != "日文 (日本語)"@) by {
        assert("中文 (繁/簡/彈幕)"@[0] != "英文 (English)"@[0]);
        assert("中文 (繁/簡/彈幕)"@[0] != "日文 (日本語)"@[0]);
    }
    assert("英文 (English)"@ != "日文 (日本語)"@) by {
        assert("英文 (English)"@[0] != "日文 (日本語)"@[0]);
    }
    assert(answer_langs("日文 (日本語)"@)[0] == "ja"@);
    assert(answer_langs("英文 (English)"@)[0] == "en"@);
    assert(answer_langs("中文 (繁/簡/彈幕)"@)[4] == "zh"@);
}

/// The entries of the subtitle menu for the languages found; empty when none of them
/// is Chinese, English or Japanese (then nothing is asked).
pub fn subtitle_menu(langs: &Vec<String>) -> (res: Vec<String>)
    ensures
        strings_view(res@) == subtitle_menu_spec(strings_view(langs@)),
{
    let ghost lv = strings_view(langs@);
    let mut zh = false;
    let mut en = false;
    let mut ja = false;
    let mut i: usize = 0;
    while i < langs.len()
        invariant
            i <= langs.len(),
            lv == strings_view(langs@),
            zh == exists|j: int| 0 <= j < i && #[trigger] is_chinese_tag(lv[j]),
            en == exists|j: int| 0 <= j < i && #[trigger] is_english_tag(lv[j]),
            ja == exists|j: int| 0 <= j < i && #[trigger] is_japanese_tag(lv[j]),
        decreases langs.len() - i,
    {
        let l = langs[i].as_str();
        proof {
            assert(lv[i as int] == l@);
        }
        if text_contains(l, "zh") || text_contains(l, "chi") {
            zh = true;
        }
        if text_starts_with(l, "en") {
            en = true;
        }
        if text_starts_with(l, "ja") || text_starts_with(l, "jpn") {
            ja = true;
        }
        proof {
            assert(zh == exists|j: int| 0 <= j < i + 1 && #[trigger] is_chinese_tag(lv[j])) by {
                if zh && !is_chinese_tag(lv[i as int]) {
                    let j = choose|j: int| 0 <= j < i && #[trigger] is_chinese_tag(lv[j]);
                }
            }
            assert(en == exists|j: int| 0 <= j < i + 1 && #[trigger] is_english_tag(lv[j])) by {
                if en && !is_english_tag(lv[i as int]) {
                    let j = choose|j: int| 0 <= j < i && #[trigger] is_english_tag(lv[j]);
                }
            }
            assert(ja == exists|j: int| 0 <= j < i + 1 && #[trigger] is_japanese_tag(lv[j])) by {
                if ja && !is_japanese_tag(lv[i as int]) {
                    let j = choose|j: int| 0 <= j < i && #[trigger] is_japanese_tag(lv[j]);
                }
            }
        }
        i += 1;
    }
    let mut menu: Vec<String> = Vec::new();
    if zh {
        push_string(&mut menu, "中文 (繁/簡/彈幕)");
    }
    if en {
        push_string(&mut menu, "英文 (English)");
    }
    if ja {
        push_string(&mut menu, "日文 (日本語)");
    }
    proof {
        assert(strings_view(menu@) =~= subtitle_menu_spec(lv));
    }
    menu
}

/// The language tags that a chosen subtitle menu entry stands for.
pub open spec fn answer_langs(answer: Seq<char>) -> Seq<Seq<char>> {
    if answer == "中文 (繁/簡/彈幕)"@ {
        seq!["zh-Hant"@, "zh-TW"@, "zh-HK"@, "zh-Hans"@, "zh"@, "chi"@, "danmaku"@]
    } else if answer == "英文 (English)"@ {
        seq!["en"@, "en-US"@, "en-GB"@]
    } else if answer == "日文 (日本語)"@ {
        seq!["ja"@, "jpn"@]
    } else {
        Seq::empty()
    }
}

/// The language tags for all the chosen entries, in the order chosen.
pub open spec fn answers_langs(answers: Seq<Seq<char>>) -> Seq<Seq<char>>
    decreases answers.len(),
{
    if answers.len() == 0 {
        Seq::empty()
    } else {
        answers_langs(answers.drop_last()) + answer_langs(answers.last())
    }
}

/// The subtitle language tags to download for the chosen menu entries.
pub fn langs_for_answers(answers: &Vec<String>) -> (res: Vec<String>)
    ensures
        strings_view(res@) == answers_langs(strings_view(answers@)),
{
    let ghost av = strings_view(answers@);
    let mut res: Vec<String> = Vec::new();
    let mut i: usize = 0;
    while i < answers.len()
        invariant
            i <= answers.len(),
            av == strings_view(answers@),
            strings_view(res@) == answers_langs(av.take(i as int)),
        decreases answers.len() - i,
    {
        proof {
            assert(av.take(i + 1).drop_last() =~= av.take(i as int));
            assert(av.take(i + 1).last() == av[i as int]);
        }
        let a = answers[i].as_str();
        let ghost before = strings_view(res@);
        if text_eq(a, "中文 (繁/簡/彈幕)") {
            push_string(&mut res, "zh-Hant");
            push_string(&mut res, "zh-TW");
            push_string(&mut res, "zh-HK");
            push_string(&mut res, "zh-Hans");
            push_string(&mut res, "zh");
            push_string(&mut res, "chi");
            push_string(&mut res, "danmaku");
        } else if text_eq(a, "英文 (English)") {
            push_string(&mut res, "en");
            push_string(&mut res, "en-US");
            push_string(&mut res, "en-GB");
        } else if text_eq(a, "日文 (日本語)") {
            push_string(&mut res, "ja");
            push_string(&mut res, "jpn");
        }
        proof {
            assert(strings_view(res@) =~= before + answer_langs(av[i as int]));
        }
        i += 1;
    }
    proof {
        assert(av.take(answers@.len() as int) =~= av);
    }
    res
}

} // verus!
