use vstd::prelude::*;

use crate::json::{
    json_field, json_get, json_items, json_keys, json_keys_field, json_seq_view, json_text,
    json_text_field, json_u64, json_u64_field, json_view, lemma_json_seq_view, opt_text_view,
    parse_json, spec_json, Json, JsonV,
};
use crate::order::{sorted_distinct, strictly_sorted};
use crate::text::{
    append_strings, chars_contain, chars_of, chars_occur_at, has_infix, lines_of, lowercase,
    pieces_view, push_chars, same_chars, text_lines, ascii_lower, is_ascii_char, is_ascii_text,
    is_ascii_upper, lemma_ascii_lower, lemma_split_on_chars,
    spec_lowercase, split_at_last, split_chars, split_last, split_on, string_of, strings_view,
    strip_prefix_chars, text_contains, text_eq, CharClass,
};

verus! {

/// One video to download: its title and address.
#[derive(Clone, Debug)]
pub struct VideoItem {
    pub title: String,
    pub url: String,
}

/// One picture format that a video offers.
#[derive(Clone, Debug)]
pub struct VideoFormat {
    pub format_id: String,
    pub height: u32,
    pub vcodec: String,
    pub ext: String,
}

/// What probing one video found: its subtitle languages and picture formats.
pub struct VideoInfo {
    pub langs: Vec<String>,
    pub formats: Vec<VideoFormat>,
}

/// A video as the pair of its title and address.
pub open spec fn item_view(v: VideoItem) -> (Seq<char>, Seq<char>) {
    (v.title@, v.url@)
}

/// A list of videos as title and address pairs.
pub open spec fn items_view(s: Seq<VideoItem>) -> Seq<(Seq<char>, Seq<char>)> {
    s.map_values(|v: VideoItem| item_view(v))
}

// ---------------------------------------------------------------------------
// Which site an address belongs to
// ---------------------------------------------------------------------------

/// The second to last of `pieces`, if there are two at least (as `.rev().nth(1)`).
pub open spec fn second_last(pieces: Seq<Seq<char>>) -> Option<Seq<char>> {
    if pieces.len() >= 2 {
        Some(pieces[pieces.len() - 2])
    } else {
        None
    }
}

/// The label before the top-level domain in the host part of an address: the third
/// `/`-piece, then its second to last `.`-piece; "unknown" where either is missing.
pub open spec fn domain_label(lower: Seq<char>) -> Seq<char> {
    let parts = split_on(lower, CharClass::Exactly('/'));
    if parts.len() >= 3 {
        match second_last(split_on(parts[2], CharClass::Exactly('.'))) {
            Some(label) => label,
            None => "unknown"@,
        }
    } else {
        "unknown"@
    }
}

/// The authority part of an address: the third `/`-piece after a scheme such as
/// `https://`, else (an address written without a scheme) the first `/`-piece.
pub open spec fn authority(lower: Seq<char>) -> Seq<char> {
    let parts = split_on(lower, CharClass::Exactly('/'));
    if parts.len() >= 3 && parts[0].len() > 0 && parts[0].last() == ':' && parts[1].len() == 0 {
        parts[2]
    } else {
        parts[0]
    }
}

/// The host name of an address: its authority up to a query or fragment, after any user
/// name (the last `@`), and before any port (`:`).
pub open spec fn host_of(lower: Seq<char>) -> Seq<char> {
    let no_query = split_on(authority(lower), CharClass::Exactly('?'))[0];
    let no_fragment = split_on(no_query, CharClass::Exactly('#'))[0];
    let after_user = split_on(no_fragment, CharClass::Exactly('@')).last();
    split_on(after_user, CharClass::Exactly(':'))[0]
}

/// The host `h` is the host `name` or a host under it (`www.name`, `m.name`, ...).
pub open spec fn on_host(h: Seq<char>, name: Seq<char>) -> bool {
    h == name || (seq!['.'] + name).is_suffix_of(h)
}

/// The site name of a lowercased address: five well-known sites recognised by their whole
/// host names (each with the hosts under it), any other by its domain label.
pub open spec fn site_name(lower: Seq<char>) -> Seq<char> {
    let h = host_of(lower);
    if on_host(h, "youtube.com"@) || on_host(h, "youtu.be"@) || on_host(
        h,
        "googleusercontent.com"@,
    ) {
        "youtube"@
    } else if on_host(h, "bilibili.com"@) || on_host(h, "b23.tv"@) {
        "bilibili"@
    } else if on_host(h, "twitter.com"@) || on_host(h, "x.com"@) {
        "twitter"@
    } else if on_host(h, "facebook.com"@) || on_host(h, "fb.watch"@) {
        "facebook"@
    } else if on_host(h, "instagram.com"@) {
        "instagram"@
    } else {
        domain_label(lower)
    }
}

/// The first piece of `s` split at `c`.
fn first_piece(s: &Vec<char>, c: char) -> (r: Vec<char>)
    ensures
        r@ == split_on(s@, CharClass::Exactly(c))[0],
{
    let mut pieces = split_chars(s, &CharClass::Exactly(c));
    proof {
        assert(pieces_view(pieces@)[0] == pieces@[0]@);
    }
    pieces.swap_remove(0)
}

/// The host name of a lowercased address.
fn host_chars(lower: &str) -> (r: Vec<char>)
    ensures
        r@ == host_of(lower@),
{
    let parts = split_chars(&chars_of(lower), &CharClass::Exactly('/'));
    let ghost ps = split_on(lower@, CharClass::Exactly('/'));
    proof {
        assert(pieces_view(parts@)[0] == parts@[0]@);
    }
    let mut use_third = false;
    if parts.len() >= 3 && parts[0].len() > 0 && parts[1].len() == 0 {
        let p0 = &parts[0];
        if p0[p0.len() - 1] == ':' {
            use_third = true;
        }
    }
    proof {
        if parts@.len() >= 3 {
            assert(pieces_view(parts@)[1] == parts@[1]@);
            assert(pieces_view(parts@)[2] == parts@[2]@);
        }
    }
    let auth: &Vec<char> = if use_third {
        &parts[2]
    } else {
        &parts[0]
    };
    assert(auth@ == authority(lower@));
    let no_query = first_piece(auth, '?');
    let no_fragment = first_piece(&no_query, '#');
    let mut users = split_chars(&no_fragment, &CharClass::Exactly('@'));
    let ghost uv = pieces_view(users@);
    proof {
        assert(uv[uv.len() - 1] == users@[users@.len() - 1]@);
    }
    let after_user = users.pop().unwrap();
    first_piece(&after_user, ':')
}

/// Whether the host `h` is the host `name` or one under it.
fn host_is(h: &Vec<char>, name: &str) -> (r: bool)
    ensures
        r == on_host(h@, name@),
{
    let n = chars_of(name);
    if same_chars(h, &n) {
        return true;
    }
    let mut dn: Vec<char> = Vec::new();
    dn.push('.');
    push_chars(&mut dn, &n);
    assert(dn@ == seq!['.'] + name@);
    if dn.len() > h.len() {
        return false;
    }
    let r = chars_occur_at(h, &dn, h.len() - dn.len());
    proof {
        let start = h@.len() - dn@.len();
        if dn@.is_suffix_of(h@) {
            assert(h@.subrange(start, h@.len() as int) =~= dn@);
        }
        if r {
            assert forall|j: int| 0 <= j < dn@.len() implies dn@[j] == h@[start + j] by {
                assert(h@.subrange(start, h@.len() as int)[j] == h@[start + j]);
            }
        }
    }
    r
}

/// The site name of an address that is already in lower case.
pub fn site_name_of_lowered(lower: &str) -> (r: String)
    ensures
        r@ == site_name(lower@),
{
    let h = host_chars(lower);
    if host_is(&h, "youtube.com") || host_is(&h, "youtu.be") || host_is(
        &h,
        "googleusercontent.com",
    ) {
        return "youtube".to_owned();
    }
    if host_is(&h, "bilibili.com") || host_is(&h, "b23.tv") {
        return "bilibili".to_owned();
    }
    if host_is(&h, "twitter.com") || host_is(&h, "x.com") {
        return "twitter".to_owned();
    }
    if host_is(&h, "facebook.com") || host_is(&h, "fb.watch") {
        return "facebook".to_owned();
    }
    if host_is(&h, "instagram.com") {
        return "instagram".to_owned();
    }
    let parts = split_chars(&chars_of(lower), &CharClass::Exactly('/'));
    if parts.len() >= 3 {
        let labels = split_chars(&parts[2], &CharClass::Exactly('.'));
        proof {
            assert(parts@[2]@ == split_on(lower@, CharClass::Exactly('/'))[2]);
        }
        if labels.len() >= 2 {
            proof {
                assert(labels@[labels.len() - 2]@ == split_on(
                    parts@[2]@,
                    CharClass::Exactly('.'),
                )[labels.len() - 2]);
            }
            return string_of(&labels[labels.len() - 2]);
        }
    }
    "unknown".to_owned()
}

/// The site name of an address, compared case-insensitively: "youtube", "bilibili",
/// "twitter", "facebook" or "instagram" for those sites, else the domain label of the
/// host ("unknown" where there is none).
pub fn extract_site_name(url: &str) -> (r: String)
    ensures
        r@ == site_name(spec_lowercase(url@)),
        is_ascii_text(url@) ==> r@ == site_name(ascii_lower(url@)),
{
    let lower = lowercase(url);
    site_name_of_lowered(lower.as_str())
}

/// Text of ASCII characters none of which is a capital letter is its own ASCII lowercase.
proof fn lemma_lower_text_fixed(s: Seq<char>)
    requires
        forall|k: int| 0 <= k < s.len() ==> is_lower_ascii_char(#[trigger] s[k]),
    ensures
        is_ascii_text(s),
        ascii_lower(s) == s,
{
    assert forall|k: int| 0 <= k < s.len() implies is_ascii_char(#[trigger] s[k]) by {
        assert(is_lower_ascii_char(s[k]));
    }
    assert(ascii_lower(s) =~= s);
}

/// `c` is ASCII and not a capital letter.
pub open spec fn is_lower_ascii_char(c: char) -> bool {
    is_ascii_char(c) && !is_ascii_upper(c)
}

/// Site detection ignores letter case: for an address in ASCII, lowercasing it once more
/// finds the same site, and the site name found is ASCII with no capital letter, so
/// lowercasing the name changes nothing.
pub proof fn law_site_name_ignores_case(url: Seq<char>)
    requires
        is_ascii_text(url),
    ensures
        site_name(ascii_lower(ascii_lower(url))) == site_name(ascii_lower(url)),
        is_ascii_text(site_name(ascii_lower(url))),
        ascii_lower(site_name(ascii_lower(url))) == site_name(ascii_lower(url)),
{
    lemma_ascii_lower(url);
    let l = ascii_lower(url);
    let p = |c: char| is_lower_ascii_char(c);
    assert forall|k: int| 0 <= k < l.len() implies p(#[trigger] l[k]) by {
        assert(is_ascii_char(l[k]));
    }
    let r = site_name(l);
    reveal_strlit("youtube");
    reveal_strlit("bilibili");
    reveal_strlit("twitter");
    reveal_strlit("facebook");
    reveal_strlit("instagram");
    reveal_strlit("unknown");
    let parts = split_on(l, CharClass::Exactly('/'));
    lemma_split_on_chars(l, CharClass::Exactly('/'), p);
    if parts.len() >= 3 {
        assert forall|k: int| 0 <= k < parts[2].len() implies p(#[trigger] parts[2][k]) by {
            assert(p(parts[2][k]));
        }
        lemma_split_on_chars(parts[2], CharClass::Exactly('.'), p);
        let labels = split_on(parts[2], CharClass::Exactly('.'));
        if labels.len() >= 2 {
            let label = labels[labels.len() - 2];
            assert forall|k: int| 0 <= k < label.len() implies is_lower_ascii_char(
                #[trigger] label[k],
            ) by {
                assert(p(labels[labels.len() - 2][k]));
            }
        }
    }
    assert forall|k: int| 0 <= k < r.len() implies is_lower_ascii_char(#[trigger] r[k]) by {}
    lemma_lower_text_fixed(r);
}

// ---------------------------------------------------------------------------
// Reading the listing that yt-dlp prints
// ---------------------------------------------------------------------------

/// The address used when a listing names no video: the address given.
pub open spec fn fallback_videos(found: Seq<(Seq<char>, Seq<char>)>, input_url: Seq<char>) -> Seq<
    (Seq<char>, Seq<char>),
> {
    if found.len() == 0 {
        seq![("Video"@, input_url)]
    } else {
        found
    }
}

/// A playlist title that names a real playlist.
pub open spec fn playlist_title_valid(t: Seq<char>) -> bool {
    t != "NA"@ && t.len() > 0 && t != "null"@
}

/// The line reports a playlist title that names a real playlist.
pub open spec fn line_marks_playlist(line: Seq<char>) -> bool {
    "playlist:"@.is_prefix_of(line) && playlist_title_valid(line.skip("playlist:"@.len() as int))
}

/// The item that a line reports, if it is an item line.
pub open spec fn line_item(line: Seq<char>) -> Option<Seq<char>> {
    if "playlist:"@.is_prefix_of(line) {
        None
    } else if "item:"@.is_prefix_of(line) {
        Some(line.skip("item:"@.len() as int))
    } else {
        None
    }
}

/// The first scan treats an item as needing permission.
pub open spec fn item_restricted(item: Seq<char>) -> bool {
    has_infix(item, "[Private video]"@) || has_infix(item, "[Deleted video]"@) || has_infix(
        item,
        "Private"@,
    )
}

/// The video that a line of the first scan contributes.
pub open spec fn scan_line_video(line: Seq<char>) -> Option<(Seq<char>, Seq<char>)> {
    match line_item(line) {
        Some(item) => if item_restricted(item) {
            None
        } else {
            split_last(item, '|')
        },
        None => None,
    }
}

/// The line of the first scan reports an item that needs permission.
pub open spec fn scan_line_restricted(line: Seq<char>) -> bool {
    line_item(line) matches Some(item) && item_restricted(item)
}

/// The videos that the lines of the first scan list, in order.
pub open spec fn scan_videos(lines: Seq<Seq<char>>) -> Seq<(Seq<char>, Seq<char>)>
    decreases lines.len(),
{
    if lines.len() == 0 {
        Seq::empty()
    } else {
        let rest = scan_videos(lines.drop_last());
        match scan_line_video(lines.last()) {
            Some(v) => rest.push(v),
            None => rest,
        }
    }
}

/// The videos of two runs of lines in a row are those of each.
proof fn lemma_scan_videos_append(a: Seq<Seq<char>>, b: Seq<Seq<char>>)
    ensures
        scan_videos(a + b) == scan_videos(a) + scan_videos(b),
    decreases b.len(),
{
    if b.len() == 0 {
        assert(a + b =~= a);
        assert(scan_videos(a) + scan_videos(b) =~= scan_videos(a));
    } else {
        lemma_scan_videos_append(a, b.drop_last());
        assert((a + b).drop_last() =~= a + b.drop_last());
        assert((a + b).last() == b.last());
        assert(scan_videos(a + b) =~= scan_videos(a) + scan_videos(b));
    }
}

/// An item that yt-dlp lists as deleted or private (its text holds "[Deleted video]",
/// "[Private video]" or "Private") is not downloaded and marks the scan as needing
/// permission: its line is a restricted one, and the videos of the scan are those of
/// the other lines.
pub proof fn law_scan_skips_unavailable_items(lines: Seq<Seq<char>>, i: int, item: Seq<char>)
    requires
        0 <= i < lines.len(),
        lines[i] == "item:"@ + item,
        has_infix(item, "[Deleted video]"@) || has_infix(item, "[Private video]"@) || has_infix(
            item,
            "Private"@,
        ),
    ensures
        scan_line_restricted(lines[i]),
        scan_line_video(lines[i]) is None,
        scan_videos(lines) == scan_videos(lines.remove(i)),
{
    reveal_strlit("item:");
    reveal_strlit("playlist:");
    let line = lines[i];
    assert(line[0] == 'i');
    assert(!"playlist:"@.is_prefix_of(line)) by {
        if "playlist:"@.is_prefix_of(line) {
            assert(line.subrange(0, 9)[0] == line[0]);
            assert("playlist:"@[0] == 'p');
        }
    }
    assert("item:"@.is_prefix_of(line)) by {
        assert(line.subrange(0, 5) =~= "item:"@);
    }
    assert(line.skip(5) =~= item);
    assert(line_item(line) == Some(item));
    let a = lines.take(i);
    let b = lines.skip(i + 1);
    let one = seq![line];
    assert(lines =~= a + one + b);
    assert(lines.remove(i) =~= a + b);
    lemma_scan_videos_append(a + one, b);
    lemma_scan_videos_append(a, one);
    lemma_scan_videos_append(a, b);
    assert(one.drop_last() =~= Seq::<Seq<char>>::empty());
    assert(one.last() == line);
    assert(scan_videos(one.drop_last()) =~= Seq::empty());
    assert(scan_videos(one) =~= Seq::empty());
}

/// The error output of a scan hints that the content needs permission.
pub open spec fn stderr_hints_restriction(stderr_lower: Seq<char>) -> bool {
    has_infix(stderr_lower, "sign in"@) || has_infix(stderr_lower, "login"@) || has_infix(
        stderr_lower,
        "cookie"@,
    ) || has_infix(stderr_lower, "登錄"@) || has_infix(stderr_lower, "private"@)
}

/// Whether the lowercased error output hints that the content needs permission.
pub fn stderr_mentions_restriction(stderr_lower: &str) -> (r: bool)
    ensures
        r == stderr_hints_restriction(stderr_lower@),
{
    text_contains(stderr_lower, "sign in") || text_contains(stderr_lower, "login")
        || text_contains(stderr_lower, "cookie") || text_contains(stderr_lower, "登錄")
        || text_contains(stderr_lower, "private")
}

/// Reads the lines of the first scan: the videos listed (the given address when none
/// is), whether a playlist was found, and whether cookies seem needed (forced, hinted by
/// the error output, a private or deleted item, or the site is bilibili).
pub fn parse_scan_lines(
    lines: &Vec<String>,
    stderr_lower: &str,
    input_url: &str,
    force_cookie: bool,
    site_target: &str,
) -> (res: (Vec<VideoItem>, bool, bool))
    ensures
        items_view(res.0@) == fallback_videos(scan_videos(strings_view(lines@)), input_url@),
        res.1 == exists|i: int|
            0 <= i < lines@.len() && #[trigger] line_marks_playlist(strings_view(lines@)[i]),
        res.2 == (force_cookie || stderr_hints_restriction(stderr_lower@) || (exists|i: int|
            0 <= i < lines@.len() && #[trigger] scan_line_restricted(strings_view(lines@)[i]))
            || site_target@ == "bilibili"@),
{
    let ghost lv = strings_view(lines@);
    let mut videos: Vec<VideoItem> = Vec::new();
    let mut is_playlist = false;
    let mut restricted_item = false;
    let mut i: usize = 0;
    while i < lines.len()
        invariant
            i <= lines.len(),
            lv == strings_view(lines@),
            items_view(videos@) == scan_videos(lv.take(i as int)),
            is_playlist == exists|j: int| 0 <= j < i && #[trigger] line_marks_playlist(lv[j]),
            restricted_item == exists|j: int|
                0 <= j < i && #[trigger] scan_line_restricted(lv[j]),
        decreases lines.len() - i,
    {
        let line = chars_of(lines[i].as_str());
        proof {
            assert(line@ == lv[i as int]);
            assert(lv.take(i + 1).drop_last() =~= lv.take(i as int));
            assert(lv.take(i + 1).last() == lv[i as int]);
        }
        let ghost before = videos@;
        match strip_prefix_chars(&line, "playlist:") {
            Some(title) => {
                let t = string_of(&title);
                if !text_eq(t.as_str(), "NA") && title.len() > 0 && !text_eq(t.as_str(), "null") {
                    is_playlist = true;
                }
                proof {
                    assert(line_marks_playlist(lv[i as int]) == playlist_title_valid(title@));
                }
            },
            None => {
                match strip_prefix_chars(&line, "item:") {
                    Some(item) => {
                        let restricted = chars_contain(&item, &chars_of("[Private video]"))
                            || chars_contain(&item, &chars_of("[Deleted video]")) || chars_contain(
                            &item,
                            &chars_of("Private"),
                        );
                        if restricted {
                            restricted_item = true;
                        } else {
                            match split_at_last(&item, '|') {
                                Some((title, url)) => {
                                    videos.push(
                                        VideoItem { title: string_of(&title), url: string_of(&url) },
                                    );
                                },
                                None => {},
                            }
                        }
                    },
                    None => {},
                }
            },
        }
        proof {
            assert(items_view(videos@) =~= scan_videos(lv.take(i + 1)));
            assert(is_playlist == exists|j: int| 0 <= j < i + 1 && #[trigger] line_marks_playlist(lv[j])) by {
                if is_playlist {
                    if !line_marks_playlist(lv[i as int]) {
                        let j = choose|j: int| 0 <= j < i && #[trigger] line_marks_playlist(lv[j]);
                    }
                }
            }
            assert(restricted_item == exists|j: int| 0 <= j < i + 1 && #[trigger] scan_line_restricted(lv[j])) by {
                if restricted_item {
                    if !scan_line_restricted(lv[i as int]) {
                        let j = choose|j: int| 0 <= j < i && #[trigger] scan_line_restricted(lv[j]);
                    }
                }
            }
        }
        i += 1;
    }
    proof {
        assert(lv.take(lines@.len() as int) =~= lv);
    }
    let has_videos = videos.len() > 0;
    if !has_videos {
        videos.push(VideoItem { title: "Video".to_owned(), url: input_url.to_owned() });
        proof {
            assert(items_view(videos@) =~= seq![("Video"@, input_url@)]);
        }
    }
    let restricted = force_cookie || stderr_mentions_restriction(stderr_lower) || restricted_item
        || text_eq(site_target, "bilibili");
    (videos, is_playlist, restricted)
}

/// Reads the output of the first scan, given the standard output and error output as
/// text; see `parse_scan_lines`, to which this hands the lines of `stdout` and the
/// lowercased `stderr`.
pub fn parse_scan_output(
    stdout: &str,
    stderr: &str,
    input_url: &str,
    force_cookie: bool,
    site_target: &str,
) -> (res: (Vec<VideoItem>, bool, bool))
    ensures
        items_view(res.0@) == fallback_videos(scan_videos(text_lines(stdout@)), input_url@),
        res.1 == exists|i: int|
            0 <= i < text_lines(stdout@).len() && #[trigger] line_marks_playlist(
                text_lines(stdout@)[i],
            ),
        res.2 == (force_cookie || stderr_hints_restriction(spec_lowercase(stderr@)) || (exists|
            i: int,
        |
            0 <= i < text_lines(stdout@).len() && #[trigger] scan_line_restricted(
                text_lines(stdout@)[i],
            )) || site_target@ == "bilibili"@),
{
    let lines = lines_of(stdout);
    let stderr_lower = lowercase(stderr);
    proof {
        assert(strings_view(lines@).len() == lines@.len());
    }
    parse_scan_lines(&lines, stderr_lower.as_str(), input_url, force_cookie, site_target)
}

/// The video that a line of the scan with cookies contributes: private and deleted
/// items are skipped.
pub open spec fn rescan_line_video(line: Seq<char>) -> Option<(Seq<char>, Seq<char>)> {
    if "item:"@.is_prefix_of(line) {
        let item = line.skip("item:"@.len() as int);
        if has_infix(item, "[Private video]"@) || has_infix(item, "[Deleted video]"@) {
            None
        } else {
            split_last(item, '|')
        }
    } else {
        None
    }
}

/// The videos that the lines of the scan with cookies list, in order.
pub open spec fn rescan_videos(lines: Seq<Seq<char>>) -> Seq<(Seq<char>, Seq<char>)>
    decreases lines.len(),
{
    if lines.len() == 0 {
        Seq::empty()
    } else {
        let rest = rescan_videos(lines.drop_last());
        match rescan_line_video(lines.last()) {
            Some(v) => rest.push(v),
            None => rest,
        }
    }
}

/// Reads the lines of the scan with cookies: the videos listed, or the given address
/// when none is.
pub fn parse_rescan_lines(lines: &Vec<String>, input_url: &str) -> (res: Vec<VideoItem>)
    ensures
        items_view(res@) == fallback_videos(rescan_videos(strings_view(lines@)), input_url@),
{
    let ghost lv = strings_view(lines@);
    let mut videos: Vec<VideoItem> = Vec::new();
    let mut i: usize = 0;
    while i < lines.len()
        invariant
            i <= lines.len(),
            lv == strings_view(lines@),
            items_view(videos@) == rescan_videos(lv.take(i as int)),
        decreases lines.len() - i,
    {
        let line = chars_of(lines[i].as_str());
        proof {
            assert(line@ == lv[i as int]);
            assert(lv.take(i + 1).drop_last() =~= lv.take(i as int));
            assert(lv.take(i + 1).last() == lv[i as int]);
        }
        match strip_prefix_chars(&line, "item:") {
            Some(item) => {
                if !chars_contain(&item, &chars_of("[Private video]")) && !chars_contain(
                    &item,
                    &chars_of("[Deleted video]"),
                ) {
                    match split_at_last(&item, '|') {
                        Some((title, url)) => {
                            videos.push(VideoItem { title: string_of(&title), url: string_of(&url) });
                        },
                        None => {},
                    }
                }
            },
            None => {},
        }
        proof {
            assert(items_view(videos@) =~= rescan_videos(lv.take(i + 1)));
        }
        i += 1;
    }
    proof {
        assert(lv.take(lines@.len() as int) =~= lv);
    }
    if videos.len() == 0 {
        videos.push(VideoItem { title: "Video".to_owned(), url: input_url.to_owned() });
        proof {
            assert(items_view(videos@) =~= seq![("Video"@, input_url@)]);
        }
    }
    videos
}

/// Reads the standard output of the scan with cookies; see `parse_rescan_lines`.
pub fn parse_rescan_output(stdout: &str, input_url: &str) -> (res: Vec<VideoItem>)
    ensures
        items_view(res@) == fallback_videos(rescan_videos(text_lines(stdout@)), input_url@),
{
    let lines = lines_of(stdout);
    parse_rescan_lines(&lines, input_url)
}

/// How many more videos the scan with cookies found than the first scan (none when it
/// found as many or fewer).
pub fn hidden_items_found(original_total: usize, new_total: usize) -> (r: usize)
    ensures
        r == if new_total > original_total {
            new_total - original_total
        } else {
            0
        },
{
    if new_total > original_total {
        new_total - original_total
    } else {
        0
    }
}

/// What the scan report says of the content's permissions.
#[derive(Clone, Copy, Debug, PartialEq, Eq, Structural)]
pub enum AccessStatus {
    /// The saved cookies are used because the user asked for them.
    ForcedCookie,
    /// The content seems to need cookies.
    Restricted,
    /// The content is public.
    Public,
}

impl AccessStatus {
    /// The text the scan report shows for the status.
    pub fn text(&self) -> (r: String)
        ensures
            r@ == match self {
                AccessStatus::ForcedCookie => "⚠️ 強制調用 Cookie 模式"@,
                AccessStatus::Restricted => "⚠️ 偵測到限制內容 (需 Cookie)"@,
                AccessStatus::Public => "🔓 公開內容"@,
            },
    {
        match self {
            AccessStatus::ForcedCookie => "⚠️ 強制調用 Cookie 模式".to_owned(),
            AccessStatus::Restricted => "⚠️ 偵測到限制內容 (需 Cookie)".to_owned(),
            AccessStatus::Public => "🔓 公開內容".to_owned(),
        }
    }
}

/// The kind of content the scan report shows: a playlist with its number of items, or
/// a single item.
pub fn content_kind_text(is_playlist: bool, count: usize) -> (r: String)
    ensures
        r@ == if is_playlist {
            "【播放清單】(包含 "@ + crate::text::decimal(count as nat) + " 部內容)"@
        } else {
            "【單一內容】"@
        },
{
    if is_playlist {
        let mut out = chars_of("【播放清單】(包含 ");
        crate::text::push_chars(&mut out, &crate::text::decimal_chars(count as u64));
        crate::text::push_text(&mut out, " 部內容)");
        string_of(&out)
    } else {
        "【單一內容】".to_owned()
    }
}

/// A scan always yields a video to download: the given address when the listing
/// names none.
pub proof fn law_scan_never_empty(found: Seq<(Seq<char>, Seq<char>)>, input_url: Seq<char>)
    ensures
        fallback_videos(found, input_url).len() >= 1,
        found.len() > 0 ==> fallback_videos(found, input_url) == found,
{
}

/// The access status of a scan: forcing the cookies wins over a detected restriction.
pub fn access_status(restricted: bool, forced: bool) -> (r: AccessStatus)
    ensures
        r == if forced {
            AccessStatus::ForcedCookie
        } else if restricted {
            AccessStatus::Restricted
        } else {
            AccessStatus::Public
        },
{
    if forced {
        AccessStatus::ForcedCookie
    } else if restricted {
        AccessStatus::Restricted
    } else {
        AccessStatus::Public
    }
}

// ---------------------------------------------------------------------------
// Reading the metadata that yt-dlp dumps for one video
// ---------------------------------------------------------------------------

/// One entry of the `formats` list of the metadata, as plain values; a field is `None`
/// where the entry lacks it or holds a value of another JSON type.
#[derive(Clone, Debug)]
pub struct RawFormat {
    pub format_id: Option<String>,
    pub vcodec: Option<String>,
    pub height: Option<u64>,
    pub ext: Option<String>,
}

/// What the metadata of one video holds that the program reads: the language keys of
/// its `subtitles` and `automatic_captions` objects, and its `formats` list.
#[derive(Clone, Debug)]
pub struct ProbeData {
    pub subtitle_langs: Vec<String>,
    pub caption_langs: Vec<String>,
    pub formats: Vec<RawFormat>,
}

/// The fields of a format entry that the program reads.
pub struct FormatFields {
    pub format_id: Option<Seq<char>>,
    pub vcodec: Option<Seq<char>>,
    pub height: Option<u64>,
    pub ext: Option<Seq<char>>,
}

/// The fields of a format entry held as plain values.
pub open spec fn raw_fields(f: RawFormat) -> FormatFields {
    FormatFields {
        format_id: opt_text_view(f.format_id),
        vcodec: opt_text_view(f.vcodec),
        height: f.height,
        ext: opt_text_view(f.ext),
    }
}

/// The fields of a list of format entries held as plain values.
pub open spec fn raws_fields(fs: Seq<RawFormat>) -> Seq<FormatFields> {
    Seq::new(fs.len(), |i: int| raw_fields(fs[i]))
}

/// The fields of a format entry of the metadata: the strings under `format_id`,
/// `vcodec` and `ext` and the unsigned integer under `height`, each `None` where the
/// entry has no such value.
pub open spec fn entry_fields(e: JsonV) -> FormatFields {
    FormatFields {
        format_id: json_text(json_field(e, "format_id"@)),
        vcodec: json_text(json_field(e, "vcodec"@)),
        height: json_u64(json_field(e, "height"@)),
        ext: json_text(json_field(e, "ext"@)),
    }
}

/// The fields of a list of format entries of the metadata.
pub open spec fn entries_fields(es: Seq<JsonV>) -> Seq<FormatFields> {
    Seq::new(es.len(), |i: int| entry_fields(es[i]))
}

/// The entries of the `formats` list of a metadata document (none where it has no
/// such list).
pub open spec fn doc_formats(doc: JsonV) -> Seq<FormatFields> {
    entries_fields(json_items(json_field(doc, "formats"@)))
}

/// `p` holds what the metadata document `doc` says: the keys of its `subtitles` and
/// `automatic_captions` objects in order, and the fields of its format entries.
pub open spec fn probe_read_from(p: ProbeData, doc: JsonV) -> bool {
    &&& strings_view(p.subtitle_langs@) == json_keys(json_field(doc, "subtitles"@))
    &&& strings_view(p.caption_langs@) == json_keys(json_field(doc, "automatic_captions"@))
    &&& raws_fields(p.formats@) == doc_formats(doc)
}

/// The codec of a format entry, "none" when it is not given.
pub open spec fn raw_vcodec(f: FormatFields) -> Seq<char> {
    match f.vcodec {
        Some(v) => v,
        None => "none"@,
    }
}

/// The file extension of a format entry, empty when it is not given.
pub open spec fn raw_ext(f: FormatFields) -> Seq<char> {
    match f.ext {
        Some(e) => e,
        None => Seq::<char>::empty(),
    }
}

/// The entry is a picture format the resolution menu can offer: it has a video codec,
/// a height, and is not a storyboard (`mhtml`).
pub open spec fn format_qualifies(f: FormatFields) -> bool {
    raw_vcodec(f) != "none"@ && f.height is Some && raw_ext(f) != "mhtml"@
}

/// Every entry the menu could offer names its format.
pub open spec fn format_ids_present(fs: Seq<FormatFields>) -> bool {
    forall|i: int| 0 <= i < fs.len() && #[trigger] format_qualifies(fs[i]) ==> fs[i].format_id is Some
}

/// A picture format as its identifier, height, codec and extension.
pub open spec fn format_view(f: VideoFormat) -> (Seq<char>, u32, Seq<char>, Seq<char>) {
    (f.format_id@, f.height, f.vcodec@, f.ext@)
}

/// A list of picture formats as tuples.
pub open spec fn formats_view(s: Seq<VideoFormat>) -> Seq<(Seq<char>, u32, Seq<char>, Seq<char>)> {
    s.map_values(|f: VideoFormat| format_view(f))
}

/// The picture formats taken from a list of entries, in order (the height is cut to
/// 32 bits, as an `as u32` cast does).
pub open spec fn picked_formats(fs: Seq<FormatFields>) -> Seq<(Seq<char>, u32, Seq<char>, Seq<char>)>
    decreases fs.len(),
{
    if fs.len() == 0 {
        Seq::empty()
    } else {
        let rest = picked_formats(fs.drop_last());
        let f = fs.last();
        if format_qualifies(f) {
            rest.push(
                (
                    match f.format_id {
                        Some(id) => id,
                        None => Seq::<char>::empty(),
                    },
                    f.height->0 as u32,
                    raw_vcodec(f),
                    raw_ext(f),
                ),
            )
        } else {
            rest
        }
    }
}

/// The formats picked from two lists in a row are those picked from each.
proof fn lemma_picked_formats_append(a: Seq<FormatFields>, b: Seq<FormatFields>)
    ensures
        picked_formats(a + b) == picked_formats(a) + picked_formats(b),
    decreases b.len(),
{
    if b.len() == 0 {
        assert(a + b =~= a);
        assert(picked_formats(a) + picked_formats(b) =~= picked_formats(a));
    } else {
        lemma_picked_formats_append(a, b.drop_last());
        assert((a + b).drop_last() =~= a + b.drop_last());
        assert((a + b).last() == b.last());
        if format_qualifies(b.last()) {
            assert(picked_formats(a + b) =~= picked_formats(a) + picked_formats(b));
        } else {
            assert(picked_formats(a + b) =~= picked_formats(a) + picked_formats(b));
        }
    }
}

/// The resolution menu is offered only picture formats: an entry that names no video
/// codec (its `vcodec` missing or not a string), names the codec "none", has no height,
/// or is an `mhtml` storyboard is never picked, wherever it stands in the list; and
/// every picked format has a codec other than "none" and an extension other than
/// "mhtml".
pub proof fn law_picked_formats_are_pictures(fs: Seq<FormatFields>, i: int)
    requires
        0 <= i < fs.len(),
        fs[i].vcodec is None || fs[i].vcodec == Some("none"@) || fs[i].height is None
            || fs[i].ext == Some("mhtml"@),
    ensures
        picked_formats(fs) == picked_formats(fs.remove(i)),
        forall|k: int|
            0 <= k < picked_formats(fs).len() ==> (#[trigger] picked_formats(fs)[k]).2 != "none"@
                && picked_formats(fs)[k].3 != "mhtml"@,
{
    let a = fs.take(i);
    let b = fs.skip(i + 1);
    let one = seq![fs[i]];
    assert(fs =~= a + one + b);
    assert(fs.remove(i) =~= a + b);
    lemma_picked_formats_append(a + one, b);
    lemma_picked_formats_append(a, one);
    lemma_picked_formats_append(a, b);
    assert(one.drop_last() =~= Seq::<FormatFields>::empty());
    assert(one.last() == fs[i]);
    assert(picked_formats(one.drop_last()) =~= Seq::empty());
    assert(!format_qualifies(fs[i]));
    assert(picked_formats(one) =~= Seq::empty());
    lemma_picked_formats_offered(fs);
}

/// Every picked format has a codec other than "none" and an extension other than "mhtml".
proof fn lemma_picked_formats_offered(fs: Seq<FormatFields>)
    ensures
        forall|k: int|
            0 <= k < picked_formats(fs).len() ==> (#[trigger] picked_formats(fs)[k]).2 != "none"@
                && picked_formats(fs)[k].3 != "mhtml"@,
    decreases fs.len(),
{
    if fs.len() > 0 {
        lemma_picked_formats_offered(fs.drop_last());
        let rest = picked_formats(fs.drop_last());
        assert forall|k: int| 0 <= k < picked_formats(fs).len() implies (
        #[trigger] picked_formats(fs)[k]).2 != "none"@ && picked_formats(fs)[k].3 != "mhtml"@ by {
            if k < rest.len() {
                assert(picked_formats(fs)[k] == rest[k]);
            }
        }
    }
}

/// The address is a bilibili one (compared as given, not lowercased).
pub open spec fn is_bilibili_address(url: Seq<char>) -> bool {
    has_infix(url, "bilibili.com"@) || has_infix(url, "b23.tv"@)
}

/// The subtitle languages found, before sorting: those listed, then "danmaku" for
/// bilibili.
pub open spec fn with_danmaku(listed: Seq<Seq<char>>, url: Seq<char>) -> Seq<Seq<char>> {
    if is_bilibili_address(url) {
        listed.push("danmaku"@)
    } else {
        listed
    }
}

/// The subtitle languages found, before sorting: those of the metadata, then
/// "danmaku" for bilibili.
pub open spec fn found_langs(probe: Option<ProbeData>, url: Seq<char>) -> Seq<Seq<char>> {
    with_danmaku(
        match probe {
            Some(p) => strings_view(p.subtitle_langs@) + strings_view(p.caption_langs@),
            None => Seq::<Seq<char>>::empty(),
        },
        url,
    )
}

/// The subtitle languages that a metadata document lists, before sorting: the keys of
/// its `subtitles` object, then those of its `automatic_captions` object, then
/// "danmaku" for bilibili.
pub open spec fn doc_langs(doc: Option<JsonV>, url: Seq<char>) -> Seq<Seq<char>> {
    with_danmaku(
        match doc {
            Some(d) => json_keys(json_field(d, "subtitles"@)) + json_keys(
                json_field(d, "automatic_captions"@),
            ),
            None => Seq::<Seq<char>>::empty(),
        },
        url,
    )
}

/// Whether every entry the menu could offer names its format.
pub fn all_format_ids_present(fs: &Vec<RawFormat>) -> (r: bool)
    ensures
        r == format_ids_present(raws_fields(fs@)),
{
    let ghost rf = raws_fields(fs@);
    let mut i: usize = 0;
    while i < fs.len()
        invariant
            i <= fs.len(),
            rf == raws_fields(fs@),
            forall|j: int| 0 <= j < i && #[trigger] format_qualifies(rf[j]) ==> rf[j].format_id is Some,
        decreases fs.len() - i,
    {
        if qualifies(&fs[i]) && fs[i].format_id.is_none() {
            proof {
                assert(rf[i as int] == raw_fields(fs@[i as int]));
            }
            return false;
        }
        proof {
            assert(rf[i as int] == raw_fields(fs@[i as int]));
        }
        i += 1;
    }
    true
}

fn qualifies(f: &RawFormat) -> (r: bool)
    ensures
        r == format_qualifies(raw_fields(*f)),
{
    let vcodec_none = match &f.vcodec {
        Some(v) => text_eq(v.as_str(), "none"),
        None => true,
    };
    let ext_mhtml = match &f.ext {
        Some(e) => text_eq(e.as_str(), "mhtml"),
        None => false,
    };
    proof {
        reveal_strlit("mhtml");
        assert(Seq::<char>::empty() != "mhtml"@) by {
            assert("mhtml"@.len() == 5);
        }
    }
    !vcodec_none && f.height.is_some() && !ext_mhtml
}

/// What probing a video found, from its metadata (`None` when the metadata could not be
/// read): the subtitle languages, sorted and without repeats, with "danmaku" added for
/// bilibili addresses; and the picture formats the resolution menu can offer, in order.
pub fn video_info_from_probe(url: &str, probe: &Option<ProbeData>) -> (res: VideoInfo)
    requires
        probe matches Some(p) ==> format_ids_present(raws_fields(p.formats@)),
    ensures
        is_info_from_probe(res, *probe, url@),
{
    let mut langs: Vec<String> = Vec::new();
    let mut formats: Vec<VideoFormat> = Vec::new();
    match probe {
        Some(p) => {
            append_strings(&mut langs, &p.subtitle_langs);
            append_strings(&mut langs, &p.caption_langs);
            let ghost rf = raws_fields(p.formats@);
            let mut i: usize = 0;
            while i < p.formats.len()
                invariant
                    i <= p.formats.len(),
                    rf == raws_fields(p.formats@),
                    format_ids_present(rf),
                    formats_view(formats@) == picked_formats(rf.take(i as int)),
                decreases p.formats.len() - i,
            {
                let f = &p.formats[i];
                proof {
                    assert(rf.take(i + 1).drop_last() =~= rf.take(i as int));
                    assert(rf.take(i + 1).last() == raw_fields(p.formats@[i as int]));
                }
                if qualifies(f) {
                    let vcodec = match &f.vcodec {
                        Some(v) => v.clone(),
                        None => "none".to_owned(),
                    };
                    let ext = match &f.ext {
                        Some(e) => e.clone(),
                        None => String::new(),
                    };
                    let height: u64 = match f.height {
                        Some(h) => h,
                        None => 0,
                    };
                    let id = match &f.format_id {
                        Some(id) => id.clone(),
                        None => String::new(),
                    };
                    proof {
                        assert(format_qualifies(rf[i as int]));
                    }
                    formats.push(VideoFormat { format_id: id, height: height as u32, vcodec, ext });
                }
                proof {
                    assert(formats_view(formats@) =~= picked_formats(rf.take(i + 1)));
                }
                i += 1;
            }
            proof {
                assert(rf.take(rf.len() as int) =~= rf);
            }
        },
        None => {},
    }
    if text_contains(url, "bilibili.com") || text_contains(url, "b23.tv") {
        langs.push("danmaku".to_owned());
    }
    proof {
        assert(strings_view(langs@) =~= found_langs(*probe, url@));
        if probe.is_none() {
            assert(formats_view(formats@) =~= Seq::empty());
        }
    }
    let info = VideoInfo { langs: sorted_distinct(&langs), formats };
    proof {
        assert(strictly_sorted(strings_view(info.langs@)));
        assert(strings_view(info.langs@).to_set() == found_langs(*probe, url@).to_set());
    }
    info
}

/// Reads the metadata that `yt-dlp --dump-json` printed into plain values: `None` when
/// it is not JSON, else the keys of its `subtitles` and `automatic_captions` objects and
/// the fields of its `formats` entries (missing or mistyped parts read as empty lists
/// and `None` fields).
pub fn probe_data_from_json(stdout: &[u8]) -> (res: Option<ProbeData>)
    ensures
        match spec_json(stdout@) {
            None => res is None,
            Some(doc) => res matches Some(p) && probe_read_from(p, doc),
        },
{
    match parse_json(stdout) {
        Some(doc) => Some(probe_data_from_doc(&doc)),
        None => None,
    }
}

/// Reads a metadata document into plain values: the keys of its `subtitles` and
/// `automatic_captions` objects and the fields of its `formats` entries (missing or
/// mistyped parts read as empty lists and `None` fields).
pub fn probe_data_from_doc(doc: &Json) -> (res: ProbeData)
    ensures
        probe_read_from(res, doc@),
{
    let subtitle_langs = json_keys_field(doc, "subtitles");
    let caption_langs = json_keys_field(doc, "automatic_captions");
    let mut formats: Vec<RawFormat> = Vec::new();
    let ghost entries = json_items(json_field(doc@, "formats"@));
    match json_get(doc, "formats") {
        Some(fv) => match fv {
            Json::Array(items) => {
                proof {
                    lemma_json_seq_view(items@);
                    assert(entries == json_seq_view(items@));
                }
                let mut i: usize = 0;
                while i < items.len()
                    invariant
                        i <= items.len(),
                        entries == json_seq_view(items@),
                        entries.len() == items@.len(),
                        forall|m: int| 0 <= m < items@.len() ==> #[trigger] entries[m] == json_view(items@[m]),
                        raws_fields(formats@) == entries_fields(entries.take(i as int)),
                    decreases items.len() - i,
                {
                    let e = &items[i];
                    proof {
                        assert(e@ == entries[i as int]);
                    }
                    let f = RawFormat {
                        format_id: json_text_field(e, "format_id"),
                        vcodec: json_text_field(e, "vcodec"),
                        height: json_u64_field(e, "height"),
                        ext: json_text_field(e, "ext"),
                    };
                    let ghost before = formats@;
                    proof {
                        assert(raws_fields(before).len() == i);
                    }
                    formats.push(f);
                    proof {
                        assert(raw_fields(f) == entry_fields(entries[i as int]));
                        assert(formats@ == before.push(f));
                        assert(entries.take(i + 1) =~= entries.take(i as int).push(entries[i as int]));
                        assert forall|k: int| 0 <= k < i + 1 implies #[trigger] raws_fields(
                            formats@,
                        )[k] == entries_fields(entries.take(i + 1))[k] by {
                            assert(before.len() == i);
                            assert(entries.take(i + 1)[k] == entries[k]);
                            assert(raws_fields(formats@)[k] == raw_fields(formats@[k]));
                            assert(entries_fields(entries.take(i + 1))[k] == entry_fields(
                                entries[k],
                            ));
                            if k < i {
                                assert(formats@[k] == before[k]);
                                assert(raws_fields(before)[k] == raw_fields(before[k]));
                                assert(entries_fields(entries.take(i as int))[k] == entry_fields(
                                    entries[k],
                                ));
                                assert(raws_fields(before)[k] == entries_fields(
                                    entries.take(i as int),
                                )[k]);
                            }
                        }
                        assert(raws_fields(formats@) =~= entries_fields(entries.take(i + 1)));
                    }
                    i += 1;
                }
                proof {
                    assert(entries.take(items@.len() as int) =~= entries);
                }
            },
            _ => {
                proof {
                    assert(raws_fields(formats@) =~= entries_fields(entries));
                }
            },
        },
        None => {
            proof {
                assert(raws_fields(formats@) =~= entries_fields(entries));
            }
        },
    }
    ProbeData { subtitle_langs, caption_langs, formats }
}

/// `info` is what `video_info_from_probe` gives for the metadata `probe` and the
/// address `url`: the languages sorted, distinct and those found, and the offered
/// formats in order.
pub open spec fn is_info_from_probe(info: VideoInfo, probe: Option<ProbeData>, url: Seq<char>) -> bool {
    &&& strictly_sorted(strings_view(info.langs@))
    &&& strings_view(info.langs@).to_set() == found_langs(probe, url).to_set()
    &&& formats_view(info.formats@) == match probe {
        Some(p) => picked_formats(raws_fields(p.formats@)),
        None => Seq::empty(),
    }
}

/// `info` is what probing the address `url` finds in the metadata document `doc`
/// (`None` for no metadata): the languages sorted, distinct and those the document lists
/// (with "danmaku" for bilibili), and the formats the document offers, in order.
pub open spec fn is_info_from_doc(info: VideoInfo, doc: Option<JsonV>, url: Seq<char>) -> bool {
    &&& strictly_sorted(strings_view(info.langs@))
    &&& strings_view(info.langs@).to_set() == doc_langs(doc, url).to_set()
    &&& formats_view(info.formats@) == match doc {
        Some(d) => picked_formats(doc_formats(d)),
        None => Seq::empty(),
    }
}

/// What probing a video found, from the metadata `yt-dlp --dump-json` printed (see
/// `is_info_from_doc`), with no metadata when it is not JSON. `None` exactly for JSON in
/// which a format the menu could offer has no identifier, on which the download cannot
/// go on.
pub fn video_info_from_output(url: &str, stdout: &[u8]) -> (res: Option<VideoInfo>)
    ensures
        match spec_json(stdout@) {
            None => res matches Some(info) && is_info_from_doc(info, None, url@),
            Some(doc) => (res is None <==> !format_ids_present(doc_formats(doc))) && (
            res matches Some(info) ==> is_info_from_doc(info, Some(doc), url@)),
        },
        res matches Some(info) ==> strictly_sorted(strings_view(info.langs@)) && (
        is_bilibili_address(url@) ==> strings_view(info.langs@).contains("danmaku"@)),
{
    let probe = probe_data_from_json(stdout);
    let usable = match &probe {
        Some(p) => all_format_ids_present(&p.formats),
        None => true,
    };
    if !usable {
        return None;
    }
    let info = video_info_from_probe(url, &probe);
    proof {
        let doc = spec_json(stdout@);
        assert(found_langs(probe, url@) == doc_langs(doc, url@));
        assert(is_info_from_doc(info, doc, url@));
        if is_bilibili_address(url@) {
            let found = found_langs(probe, url@);
            assert(found.contains("danmaku"@)) by {
                assert(found[found.len() - 1] == "danmaku"@);
            }
            assert(found.to_set().contains("danmaku"@));
        }
    }
    Some(info)
}

} // verus!
