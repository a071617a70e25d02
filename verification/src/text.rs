use vstd::prelude::*;

verus! {

/// `pat` occurs in `s` starting at position `i`.
pub open spec fn occurs_at(s: Seq<char>, pat: Seq<char>, i: int) -> bool {
    0 <= i && i + pat.len() <= s.len() && s.subrange(i, i + pat.len()) == pat
}

/// `pat` occurs somewhere in `s` (as `str::contains` with a string pattern).
pub open spec fn has_infix(s: Seq<char>, pat: Seq<char>) -> bool {
    exists|i: int| #[trigger] occurs_at(s, pat, i)
}

/// The characters of `s`, in order.
pub fn chars_of(s: &str) -> (res: Vec<char>)
    ensures
        res@ == s@,
{
    let mut res: Vec<char> = Vec::new();
    for c in it: s.chars()
        invariant
            it.seq() == s@,
            res@ == it.seq().take(it.index()),
    {
        res.push(c);
    }
    res
}

/// Collects characters into a `String` (std's `FromIterator<&char>` for `String`, which
/// appends each character in turn).
#[verifier::external_body]
pub(crate) fn string_of(chars: &Vec<char>) -> (res: String)
    ensures
        res@ == chars@,
{
    chars.iter().collect()
}

/// Whether two character sequences are equal.
pub fn same_chars(a: &Vec<char>, b: &Vec<char>) -> (r: bool)
    ensures
        r == (a@ == b@),
{
    if a.len() != b.len() {
        return false;
    }
    let mut i: usize = 0;
    while i < a.len()
        invariant
            a.len() == b.len(),
            i <= a.len(),
            forall|j: int| 0 <= j < i ==> a@[j] == b@[j],
        decreases a.len() - i,
    {
        if a[i] != b[i] {
            return false;
        }
        i += 1;
    }
    assert(a@ =~= b@);
    true
}

/// Whether two strings hold the same characters.
pub fn text_eq(a: &str, b: &str) -> (r: bool)
    ensures
        r == (a@ == b@),
{
    same_chars(&chars_of(a), &chars_of(b))
}

/// Whether `pat` occurs in `s` at position `i`.
pub fn chars_occur_at(s: &Vec<char>, pat: &Vec<char>, i: usize) -> (r: bool)
    ensures
        r == occurs_at(s@, pat@, i as int),
{
    if i > s.len() || pat.len() > s.len() - i {
        return false;
    }
    let mut k: usize = 0;
    while k < pat.len()
        invariant
            i + pat.len() <= s.len(),
            k <= pat.len(),
            forall|j: int| 0 <= j < k ==> s@[i + j] == pat@[j],
        decreases pat.len() - k,
    {
        if s[i + k] != pat[k] {
            assert(s@.subrange(i as int, i + pat.len())[k as int] != pat@[k as int]);
            return false;
        }
        k += 1;
    }
    assert(s@.subrange(i as int, i + pat.len()) =~= pat@);
    true
}

/// Whether `pat` occurs anywhere in `s`.
pub fn chars_contain(s: &Vec<char>, pat: &Vec<char>) -> (r: bool)
    ensures
        r == has_infix(s@, pat@),
{
    if pat.len() > s.len() {
        return false;
    }
    let last = s.len() - pat.len();
    let mut i: usize = 0;
    loop
        invariant
            last == s.len() - pat.len(),
            i <= last,
            forall|j: int| 0 <= j < i ==> !occurs_at(s@, pat@, j),
        ensures
            forall|j: int| 0 <= j <= last ==> !occurs_at(s@, pat@, j),
        decreases last - i,
    {
        if chars_occur_at(s, pat, i) {
            return true;
        }
        if i == last {
            break;
        }
        i += 1;
    }
    assert forall|j: int| !occurs_at(s@, pat@, j) by {
        if 0 <= j && j <= last {
        }
    }
    false
}

/// Whether `pat` occurs in `s` (as `str::contains`).
pub fn text_contains(s: &str, pat: &str) -> (r: bool)
    ensures
        r == has_infix(s@, pat@),
{
    chars_contain(&chars_of(s), &chars_of(pat))
}

/// Whether `s` begins with `pat` (as `str::starts_with`).
pub fn text_starts_with(s: &str, pat: &str) -> (r: bool)
    ensures
        r == pat@.is_prefix_of(s@),
{
    let r = chars_occur_at(&chars_of(s), &chars_of(pat), 0);
    proof {
        if pat@.is_prefix_of(s@) {
            assert(s@.subrange(0, pat@.len() as int) =~= pat@);
        }
        if r {
            assert forall|j: int| 0 <= j < pat@.len() implies pat@[j] == s@[j] by {
                assert(s@.subrange(0, pat@.len() as int)[j] == s@[j]);
            }
        }
    }
    r
}

/// Whether `s` ends with `pat` (as `str::ends_with`).
pub fn text_ends_with(s: &str, pat: &str) -> (r: bool)
    ensures
        r == pat@.is_suffix_of(s@),
{
    let sc = chars_of(s);
    let pc = chars_of(pat);
    if pc.len() > sc.len() {
        return false;
    }
    let r = chars_occur_at(&sc, &pc, sc.len() - pc.len());
    proof {
        let start = s@.len() - pat@.len();
        if pat@.is_suffix_of(s@) {
            assert(s@.subrange(start, s@.len() as int) =~= pat@);
        }
        if r {
            assert forall|j: int| 0 <= j < pat@.len() implies pat@[j] == s@[start + j] by {
                assert(s@.subrange(start, s@.len() as int)[j] == s@[start + j]);
            }
        }
    }
    r
}

/// A set of characters that a split or a trim works on.
pub enum CharClass {
    /// The characters with Unicode's `White_Space` property (`char::is_whitespace`).
    WhiteSpace,
    /// One given character.
    Exactly(char),
}

/// `c` has Unicode's `White_Space` property, which is what `char::is_whitespace` tests.
pub open spec fn is_white_space(c: char) -> bool {
    let u = c as u32;
    (0x9 <= u && u <= 0xd) || u == 0x20 || u == 0x85 || u == 0xa0 || u == 0x1680 || (0x2000 <= u
        && u <= 0x200a) || u == 0x2028 || u == 0x2029 || u == 0x202f || u == 0x205f || u == 0x3000
}

/// `c` belongs to `class`.
pub open spec fn in_class(c: char, class: CharClass) -> bool {
    match class {
        CharClass::WhiteSpace => is_white_space(c),
        CharClass::Exactly(x) => c == x,
    }
}

/// Whether `c` has Unicode's `White_Space` property.
pub fn char_is_white_space(c: char) -> (r: bool)
    ensures
        r == is_white_space(c),
{
    let u = c as u32;
    (0x9 <= u && u <= 0xd) || u == 0x20 || u == 0x85 || u == 0xa0 || u == 0x1680 || (0x2000 <= u
        && u <= 0x200a) || u == 0x2028 || u == 0x2029 || u == 0x202f || u == 0x205f || u == 0x3000
}

/// Whether `c` belongs to `class`.
pub fn char_in_class(c: char, class: &CharClass) -> (r: bool)
    ensures
        r == in_class(c, *class),
{
    match class {
        CharClass::WhiteSpace => char_is_white_space(c),
        CharClass::Exactly(x) => c == *x,
    }
}

/// The pieces of `s` between the characters of `class`, as `str::split` with a `char`
/// (or `char::is_whitespace`) pattern yields them; there is always at least one piece.
pub open spec fn split_on(s: Seq<char>, class: CharClass) -> Seq<Seq<char>>
    decreases s.len(),
{
    if s.len() == 0 {
        seq![Seq::<char>::empty()]
    } else {
        let pieces = split_on(s.drop_last(), class);
        if in_class(s.last(), class) {
            pieces.push(Seq::<char>::empty())
        } else {
            pieces.update(pieces.len() - 1, pieces.last().push(s.last()))
        }
    }
}

/// `split_on` always yields at least one piece.
pub proof fn lemma_split_on_nonempty(s: Seq<char>, class: CharClass)
    ensures
        split_on(s, class).len() >= 1,
    decreases s.len(),
{
    if s.len() > 0 {
        lemma_split_on_nonempty(s.drop_last(), class);
    }
}

/// A property that every character of `s` has, every character of every piece of
/// `split_on(s, class)` has too.
pub proof fn lemma_split_on_chars(s: Seq<char>, class: CharClass, p: spec_fn(char) -> bool)
    requires
        forall|k: int| 0 <= k < s.len() ==> p(#[trigger] s[k]),
    ensures
        forall|i: int, j: int|
            0 <= i < split_on(s, class).len() && 0 <= j < split_on(s, class)[i].len() ==> p(
                #[trigger] split_on(s, class)[i][j],
            ),
    decreases s.len(),
{
    if s.len() > 0 {
        let prev = split_on(s.drop_last(), class);
        lemma_split_on_chars(s.drop_last(), class, p);
        lemma_split_on_nonempty(s.drop_last(), class);
        assert(p(s[s.len() - 1]));
        let pieces = split_on(s, class);
        assert forall|i: int, j: int| 0 <= i < pieces.len() && 0 <= j < pieces[i].len() implies p(
            #[trigger] pieces[i][j],
        ) by {
            if i < prev.len() - 1 {
                assert(pieces[i] == prev[i]);
            } else if i == prev.len() - 1 {
                if !in_class(s.last(), class) && j == prev[i].len() {
                    assert(pieces[i][j] == s.last());
                } else {
                    assert(pieces[i][j] == prev[i][j]);
                }
            }
        }
    }
}

/// The views of a list of character vectors.
pub open spec fn pieces_view(v: Seq<Vec<char>>) -> Seq<Seq<char>> {
    v.map_values(|p: Vec<char>| p@)
}

/// Splits `s` at every character of `class`.
pub fn split_chars(s: &Vec<char>, class: &CharClass) -> (res: Vec<Vec<char>>)
    ensures
        pieces_view(res@) == split_on(s@, *class),
        res@.len() >= 1,
{
    let mut done: Vec<Vec<char>> = Vec::new();
    let mut cur: Vec<char> = Vec::new();
    let mut i: usize = 0;
    while i < s.len()
        invariant
            i <= s.len(),
            pieces_view(done@).push(cur@) == split_on(s@.take(i as int), *class),
        decreases s.len() - i,
    {
        proof {
            assert(s@.take(i + 1).drop_last() =~= s@.take(i as int));
            lemma_split_on_nonempty(s@.take(i as int), *class);
        }
        let c = s[i];
        if char_in_class(c, class) {
            let finished = cur;
            cur = Vec::new();
            let ghost before = done@;
            done.push(finished);
            proof {
                assert(pieces_view(done@) =~= pieces_view(before).push(finished@));
                assert(pieces_view(done@).push(cur@) =~= split_on(s@.take(i + 1), *class));
            }
        } else {
            let ghost old_cur = cur@;
            cur.push(c);
            proof {
                let prev = split_on(s@.take(i as int), *class);
                assert(prev.last() == old_cur);
                assert(pieces_view(done@).push(cur@) =~= prev.update(prev.len() - 1, old_cur.push(c)));
            }
        }
        i += 1;
    }
    proof {
        assert(s@.take(s@.len() as int) =~= s@);
    }
    let ghost before = done@;
    done.push(cur);
    proof {
        assert(pieces_view(done@) =~= pieces_view(before).push(cur@));
    }
    done
}

/// `s` without the characters of `class` at its start (as `str::trim_start_matches`).
pub open spec fn trim_start(s: Seq<char>, class: CharClass) -> Seq<char>
    decreases s.len(),
{
    if s.len() > 0 && in_class(s[0], class) {
        trim_start(s.drop_first(), class)
    } else {
        s
    }
}

/// `s` without the characters of `class` at its end (as `str::trim_end_matches`).
pub open spec fn trim_end(s: Seq<char>, class: CharClass) -> Seq<char>
    decreases s.len(),
{
    if s.len() > 0 && in_class(s.last(), class) {
        trim_end(s.drop_last(), class)
    } else {
        s
    }
}

/// `s` without the characters of `class` at either end (as `str::trim` for white
/// space, and `str::trim_matches` for one character).
pub open spec fn trim(s: Seq<char>, class: CharClass) -> Seq<char> {
    trim_end(trim_start(s, class), class)
}

/// The characters of `s` from `from` up to `to`.
pub fn slice_chars(s: &Vec<char>, from: usize, to: usize) -> (res: Vec<char>)
    requires
        from <= to <= s.len(),
    ensures
        res@ == s@.subrange(from as int, to as int),
{
    let mut res: Vec<char> = Vec::new();
    let mut i = from;
    while i < to
        invariant
            from <= i <= to <= s.len(),
            res@ == s@.subrange(from as int, i as int),
        decreases to - i,
    {
        res.push(s[i]);
        i += 1;
        proof {
            assert(res@ =~= s@.subrange(from as int, i as int));
        }
    }
    res
}

/// Removes the characters of `class` at both ends of `s`.
pub fn trim_chars(s: &Vec<char>, class: &CharClass) -> (res: Vec<char>)
    ensures
        res@ == trim(s@, *class),
{
    let mut i: usize = 0;
    proof {
        assert(s@.skip(0) =~= s@);
    }
    while i < s.len() && char_in_class(s[i], class)
        invariant
            i <= s.len(),
            trim_start(s@.skip(i as int), *class) == trim_start(s@, *class),
        decreases s.len() - i,
    {
        proof {
            assert(s@.skip(i as int).drop_first() =~= s@.skip(i + 1));
        }
        i += 1;
    }
    proof {
        assert(s@.skip(s@.len() as int) =~= Seq::<char>::empty());
    }
    let ghost t = s@.skip(i as int);
    let mut j: usize = s.len() - i;
    proof {
        assert(t.take(t.len() as int) =~= t);
    }
    while j > 0 && char_in_class(s[i + j - 1], class)
        invariant
            i <= s.len(),
            t == s@.skip(i as int),
            j <= t.len(),
            trim_end(t.take(j as int), *class) == trim_end(t, *class),
        decreases j,
    {
        proof {
            assert(t.take(j as int).drop_last() =~= t.take(j - 1));
        }
        j -= 1;
    }
    proof {
        assert(t.take(j as int) =~= s@.subrange(i as int, i + j));
    }
    slice_chars(s, i, i + j)
}

/// Removes white space at both ends of `s` (as `str::trim`).
pub fn text_trim(s: &str) -> (res: String)
    ensures
        res@ == trim(s@, CharClass::WhiteSpace),
{
    string_of(&trim_chars(&chars_of(s), &CharClass::WhiteSpace))
}

/// The non-empty pieces of `s` between runs of white space (as `str::split_whitespace`).
pub open spec fn words(s: Seq<char>) -> Seq<Seq<char>> {
    split_on(s, CharClass::WhiteSpace).filter(|p: Seq<char>| p.len() > 0)
}

/// Splits `s` into its white-space separated words.
pub fn words_of(s: &Vec<char>) -> (res: Vec<Vec<char>>)
    ensures
        pieces_view(res@) == words(s@),
{
    let pieces = split_chars(s, &CharClass::WhiteSpace);
    let ghost nonempty = |p: Seq<char>| p.len() > 0;
    let mut res: Vec<Vec<char>> = Vec::new();
    let mut i: usize = 0;
    while i < pieces.len()
        invariant
            i <= pieces.len(),
            pieces_view(pieces@) == split_on(s@, CharClass::WhiteSpace),
            nonempty == (|p: Seq<char>| p.len() > 0),
            pieces_view(res@) == pieces_view(pieces@).take(i as int).filter(nonempty),
        decreases pieces.len() - i,
    {
        let ghost pv = pieces_view(pieces@);
        proof {
            assert(pv.take(i + 1) =~= pv.take(i as int).push(pv[i as int]));
            pv.take(i as int).lemma_filter_push(pv[i as int], nonempty);
            assert(pv[i as int] == pieces@[i as int]@);
            assert(nonempty(pv[i as int]) == (pieces@[i as int]@.len() > 0));
        }
        if pieces[i].len() > 0 {
            let ghost before = res@;
            let piece = pieces[i].clone();
            proof {
                assert(piece@ =~= pieces@[i as int]@);
            }
            res.push(piece);
            proof {
                assert(pieces_view(res@) =~= pieces_view(before).push(pv[i as int]));
            }
        }
        i += 1;
    }
    proof {
        assert(pieces_view(pieces@).take(pieces@.len() as int) =~= pieces_view(pieces@));
    }
    res
}

/// `s` with every occurrence of `from` replaced by `to`, scanning from the left
/// (as `str::replace`; an empty `from` matches before every character and at the end).
pub open spec fn replace_all(s: Seq<char>, from: Seq<char>, to: Seq<char>) -> Seq<char>
    decreases s.len(),
{
    if from.len() == 0 {
        if s.len() == 0 {
            to
        } else {
            to + seq![s[0]] + replace_all(s.drop_first(), from, to)
        }
    } else if s.len() < from.len() {
        s
    } else if s.take(from.len() as int) == from {
        to + replace_all(s.skip(from.len() as int), from, to)
    } else {
        seq![s[0]] + replace_all(s.drop_first(), from, to)
    }
}

/// Appends `extra` to `v`.
pub fn push_chars(v: &mut Vec<char>, extra: &Vec<char>)
    ensures
        final(v)@ == old(v)@ + extra@,
{
    let mut i: usize = 0;
    while i < extra.len()
        invariant
            i <= extra.len(),
            v@ == old(v)@ + extra@.take(i as int),
        decreases extra.len() - i,
    {
        v.push(extra[i]);
        i += 1;
        proof {
            assert(v@ =~= old(v)@ + extra@.take(i as int));
        }
    }
    proof {
        assert(extra@.take(extra@.len() as int) =~= extra@);
    }
}

/// Appends the characters of `extra` to `v`.
pub fn push_text(v: &mut Vec<char>, extra: &str)
    ensures
        final(v)@ == old(v)@ + extra@,
{
    push_chars(v, &chars_of(extra));
}

/// Replaces every occurrence of `from` in `s` by `to`.
pub fn replace_chars(s: &Vec<char>, from: &Vec<char>, to: &Vec<char>) -> (res: Vec<char>)
    ensures
        res@ == replace_all(s@, from@, to@),
{
    let mut res: Vec<char> = Vec::new();
    let mut i: usize = 0;
    proof {
        assert(s@.skip(0) =~= s@);
    }
    while i < s.len()
        invariant
            i <= s.len(),
            res@ + replace_all(s@.skip(i as int), from@, to@) == replace_all(s@, from@, to@),
        decreases s.len() - i,
    {
        let ghost rest = s@.skip(i as int);
        if from.len() == 0 {
            let ghost before = res@;
            push_chars(&mut res, to);
            res.push(s[i]);
            proof {
                assert(rest.drop_first() =~= s@.skip(i + 1));
                assert(res@ + replace_all(s@.skip(i + 1), from@, to@) =~= before + replace_all(rest, from@, to@));
            }
            i += 1;
        } else if from.len() <= s.len() - i && chars_occur_at(s, from, i) {
            let ghost before = res@;
            push_chars(&mut res, to);
            proof {
                assert(rest.take(from@.len() as int) =~= s@.subrange(i as int, i + from@.len()));
                assert(rest.skip(from@.len() as int) =~= s@.skip(i + from@.len()));
                assert(res@ + replace_all(s@.skip(i + from@.len()), from@, to@) =~= before + replace_all(rest, from@, to@));
            }
            i += from.len();
        } else {
            let ghost before = res@;
            res.push(s[i]);
            proof {
                if from@.len() <= rest.len() {
                    assert(rest.take(from@.len() as int) =~= s@.subrange(i as int, i + from@.len()));
                    assert(rest.drop_first() =~= s@.skip(i + 1));
                    assert(res@ + replace_all(s@.skip(i + 1), from@, to@) =~= before + replace_all(rest, from@, to@));
                } else {
                    assert(replace_all(rest, from@, to@) == rest);
                    assert(rest.drop_first() =~= s@.skip(i + 1));
                    lemma_replace_short(s@.skip(i + 1), from@, to@);
                    assert(res@ + replace_all(s@.skip(i + 1), from@, to@) =~= before + replace_all(rest, from@, to@));
                }
            }
            i += 1;
        }
    }
    proof {
        assert(s@.skip(s@.len() as int) =~= Seq::<char>::empty());
    }
    if from.len() == 0 {
        push_chars(&mut res, to);
    }
    proof {
        if from@.len() == 0 {
            assert(res@ =~= replace_all(s@, from@, to@));
        } else {
            assert(replace_all(Seq::<char>::empty(), from@, to@) == Seq::<char>::empty());
            assert(res@ =~= replace_all(s@, from@, to@));
        }
    }
    res
}

/// A text shorter than a non-empty pattern is left as it is.
pub proof fn lemma_replace_short(s: Seq<char>, from: Seq<char>, to: Seq<char>)
    requires
        from.len() > 0,
        s.len() < from.len(),
    ensures
        replace_all(s, from, to) == s,
{
}

/// Replaces every occurrence of `from` in `s` by `to` (as `str::replace`).
pub fn text_replace(s: &str, from: &str, to: &str) -> (res: String)
    ensures
        res@ == replace_all(s@, from@, to@),
{
    string_of(&replace_chars(&chars_of(s), &chars_of(from), &chars_of(to)))
}

/// The decimal digit for `d` (`0 <= d < 10`).
pub open spec fn digit_char(d: int) -> char {
    if d == 0 {
        '0'
    } else if d == 1 {
        '1'
    } else if d == 2 {
        '2'
    } else if d == 3 {
        '3'
    } else if d == 4 {
        '4'
    } else if d == 5 {
        '5'
    } else if d == 6 {
        '6'
    } else if d == 7 {
        '7'
    } else if d == 8 {
        '8'
    } else {
        '9'
    }
}

/// The decimal notation of `n`, without leading zeros (as `{}` formats an unsigned integer).
pub open spec fn decimal(n: nat) -> Seq<char>
    decreases n,
{
    if n < 10 {
        seq![digit_char(n as int)]
    } else {
        decimal(n / 10).push(digit_char((n % 10) as int))
    }
}

/// The decimal notation of `n`, padded with zeros to at least two digits (as `{:02}`).
pub open spec fn decimal2(n: nat) -> Seq<char> {
    if n < 10 {
        seq!['0', digit_char(n as int)]
    } else {
        decimal(n)
    }
}

fn digit(d: u64) -> (c: char)
    requires
        d < 10,
    ensures
        c == digit_char(d as int),
{
    if d == 0 {
        '0'
    } else if d == 1 {
        '1'
    } else if d == 2 {
        '2'
    } else if d == 3 {
        '3'
    } else if d == 4 {
        '4'
    } else if d == 5 {
        '5'
    } else if d == 6 {
        '6'
    } else if d == 7 {
        '7'
    } else if d == 8 {
        '8'
    } else {
        '9'
    }
}

/// The decimal digits of `n`.
pub fn decimal_chars(n: u64) -> (res: Vec<char>)
    ensures
        res@ == decimal(n as nat),
    decreases n,
{
    if n < 10 {
        let mut v: Vec<char> = Vec::new();
        v.push(digit(n));
        proof {
            assert(v@ =~= decimal(n as nat));
        }
        v
    } else {
        let mut v = decimal_chars(n / 10);
        v.push(digit(n % 10));
        v
    }
}

/// The decimal digits of `n`, padded with zeros to two digits at least.
pub fn decimal2_chars(n: u64) -> (res: Vec<char>)
    ensures
        res@ == decimal2(n as nat),
{
    if n < 10 {
        let mut v: Vec<char> = Vec::new();
        v.push('0');
        v.push(digit(n));
        proof {
            assert(v@ =~= decimal2(n as nat));
        }
        v
    } else {
        decimal_chars(n)
    }
}

/// What `str::to_lowercase` returns for `s`: the Unicode lowercase mapping of its
/// characters, which this library does not restate beyond ASCII text.
pub uninterp spec fn spec_lowercase(s: Seq<char>) -> Seq<char>;

/// `c` is an ASCII character.
pub open spec fn is_ascii_char(c: char) -> bool {
    (c as u32) < 128
}

/// Every character of `s` is ASCII.
pub open spec fn is_ascii_text(s: Seq<char>) -> bool {
    forall|i: int| 0 <= i < s.len() ==> is_ascii_char(#[trigger] s[i])
}

/// `c` is an ASCII capital letter, `A` to `Z`.
pub open spec fn is_ascii_upper(c: char) -> bool {
    'A' <= c && c <= 'Z'
}

/// The ASCII lowercase of `c`: a capital letter becomes its small letter, any other
/// character stays (as `char::to_ascii_lowercase`).
pub open spec fn ascii_lower_char(c: char) -> char {
    if is_ascii_upper(c) {
        ((c as u32) + 32) as char
    } else {
        c
    }
}

/// `s` with each character in ASCII lowercase.
pub open spec fn ascii_lower(s: Seq<char>) -> Seq<char> {
    Seq::new(s.len(), |i: int| ascii_lower_char(s[i]))
}

/// Calls `str::to_lowercase`. Claims that the result is a function of the characters of
/// `s`, named `spec_lowercase`, and, for ASCII text, what std documents of it there:
/// Unicode's lowercase mapping of an ASCII character is its ASCII lowercase (the mapping
/// that `char::to_ascii_lowercase` applies), so `A` to `Z` become `a` to `z` and every
/// other character stays. Of other text nothing more is stated.
#[verifier::external_body]
pub(crate) fn lowercase(s: &str) -> (res: String)
    ensures
        res@ == spec_lowercase(s@),
        is_ascii_text(s@) ==> res@ == ascii_lower(s@),
{
    s.to_lowercase()
}

/// ASCII text stays ASCII in lowercase, holds no capital letter, and lowercasing it
/// again changes nothing.
pub proof fn lemma_ascii_lower(s: Seq<char>)
    requires
        is_ascii_text(s),
    ensures
        is_ascii_text(ascii_lower(s)),
        forall|i: int| 0 <= i < s.len() ==> !is_ascii_upper(#[trigger] ascii_lower(s)[i]),
        ascii_lower(ascii_lower(s)) == ascii_lower(s),
{
    assert forall|i: int| 0 <= i < s.len() implies is_ascii_char(#[trigger] ascii_lower(s)[i])
        && !is_ascii_upper(ascii_lower(s)[i]) by {
        let c = s[i];
        assert(is_ascii_char(c));
        if is_ascii_upper(c) {
            assert(65 <= c as u32 <= 90);
            assert((((c as u32) + 32) as char) as u32 == (c as u32) + 32);
        }
    }
    assert(ascii_lower(ascii_lower(s)) =~= ascii_lower(s));
}

/// The views of a list of strings.
pub open spec fn strings_view(v: Seq<String>) -> Seq<Seq<char>> {
    v.map_values(|l: String| l@)
}

/// A line without the carriage return that ends it, if any.
pub open spec fn strip_cr(line: Seq<char>) -> Seq<char> {
    if line.len() > 0 && line.last() == '\r' {
        line.drop_last()
    } else {
        line
    }
}

/// The lines of `s`, as `str::lines` yields them: `s` is split at each `\n`, a line that a
/// `\n` ends loses one `\r` before it, and the text after the last `\n` is a line only
/// when it is not empty (so a final line ending adds no empty line).
pub open spec fn text_lines(s: Seq<char>) -> Seq<Seq<char>> {
    let pieces = split_on(s, CharClass::Exactly('\n'));
    let ended = Seq::new((pieces.len() - 1) as nat, |i: int| strip_cr(pieces[i]));
    if pieces.last().len() > 0 {
        ended.push(pieces.last())
    } else {
        ended
    }
}

/// The lines of `s`, without their line endings.
pub fn lines_of(s: &str) -> (res: Vec<String>)
    ensures
        strings_view(res@) == text_lines(s@),
{
    let pieces = split_chars(&chars_of(s), &CharClass::Exactly('\n'));
    let ghost pv = pieces_view(pieces@);
    let last = pieces.len() - 1;
    let mut res: Vec<String> = Vec::new();
    let mut i: usize = 0;
    while i < last
        invariant
            last == pieces@.len() - 1,
            i <= last,
            pv == pieces_view(pieces@),
            pv == split_on(s@, CharClass::Exactly('\n')),
            strings_view(res@) == Seq::new(i as nat, |k: int| strip_cr(pv[k])),
        decreases last - i,
    {
        let p = &pieces[i];
        proof {
            assert(p@ == pv[i as int]);
        }
        let line = if p.len() > 0 && p[p.len() - 1] == '\r' {
            slice_chars(p, 0, p.len() - 1)
        } else {
            slice_chars(p, 0, p.len())
        };
        proof {
            assert(line@ =~= strip_cr(p@));
        }
        let ghost before = res@;
        push_chars_string(&mut res, &line);
        proof {
            assert(strings_view(res@) =~= Seq::new((i + 1) as nat, |k: int| strip_cr(pv[k])));
        }
        i += 1;
    }
    let p = &pieces[last];
    proof {
        assert(p@ == pv.last());
    }
    if p.len() > 0 {
        push_chars_string(&mut res, p);
    }
    proof {
        assert(strings_view(res@) =~= text_lines(s@));
    }
    res
}

/// The position of the last `c` in `s`, if any.
pub open spec fn last_index_of(s: Seq<char>, c: char) -> Option<int>
    decreases s.len(),
{
    if s.len() == 0 {
        None
    } else if s.last() == c {
        Some(s.len() - 1)
    } else {
        last_index_of(s.drop_last(), c)
    }
}

/// `s` split at its last `c` (as `str::rsplit_once` with a `char`).
pub open spec fn split_last(s: Seq<char>, c: char) -> Option<(Seq<char>, Seq<char>)> {
    match last_index_of(s, c) {
        Some(k) => Some((s.take(k), s.skip(k + 1))),
        None => None,
    }
}

/// Splits `s` at its last `c`.
pub fn split_at_last(s: &Vec<char>, c: char) -> (res: Option<(Vec<char>, Vec<char>)>)
    ensures
        match split_last(s@, c) {
            Some((a, b)) => res matches Some((x, y)) && x@ == a && y@ == b,
            None => res is None,
        },
{
    let mut j: usize = s.len();
    proof {
        assert(s@.take(s@.len() as int) =~= s@);
    }
    while j > 0 && s[j - 1] != c
        invariant
            j <= s.len(),
            last_index_of(s@.take(j as int), c) == last_index_of(s@, c),
        decreases j,
    {
        proof {
            assert(s@.take(j as int).drop_last() =~= s@.take(j - 1));
        }
        j -= 1;
    }
    proof {
        assert(s@.take(s@.len() as int) =~= s@);
    }
    if j == 0 {
        proof {
            assert(s@.take(0) =~= Seq::<char>::empty());
        }
        None
    } else {
        proof {
            assert(s@.take(j as int).last() == s@[j - 1]);
        }
        Some((slice_chars(s, 0, j - 1), slice_chars(s, j, s.len())))
    }
}

/// The rest of `s` after `pre`, when `s` begins with `pre` (as `str::strip_prefix`).
pub fn strip_prefix_chars(s: &Vec<char>, pre: &str) -> (res: Option<Vec<char>>)
    ensures
        res is Some <==> pre@.is_prefix_of(s@),
        res matches Some(r) ==> r@ == s@.skip(pre@.len() as int),
{
    let pc = chars_of(pre);
    if chars_occur_at(s, &pc, 0) {
        proof {
            assert forall|j: int| 0 <= j < pre@.len() implies pre@[j] == s@[j] by {
                assert(s@.subrange(0, pre@.len() as int)[j] == s@[j]);
            }
        }
        Some(slice_chars(s, pc.len(), s.len()))
    } else {
        proof {
            if pre@.is_prefix_of(s@) {
                assert(s@.subrange(0, pre@.len() as int) =~= pre@);
            }
        }
        None
    }
}

/// Appends copies of the strings of `src` to `dst`.
pub fn append_strings(dst: &mut Vec<String>, src: &Vec<String>)
    ensures
        strings_view(final(dst)@) == strings_view(old(dst)@) + strings_view(src@),
{
    let mut i: usize = 0;
    while i < src.len()
        invariant
            i <= src.len(),
            strings_view(dst@) == strings_view(old(dst)@) + strings_view(src@).take(i as int),
        decreases src.len() - i,
    {
        let x = src[i].clone();
        let ghost before = dst@;
        dst.push(x);
        proof {
            assert(dst@ == before.push(x));
            assert(x@ == src@[i as int]@);
            assert(strings_view(dst@) =~= strings_view(before).push(x@));
            assert(strings_view(src@).take(i + 1) =~= strings_view(src@).take(i as int).push(src@[i as int]@));
        }
        i += 1;
        proof {
            assert(strings_view(dst@) =~= strings_view(old(dst)@) + strings_view(src@).take(
                i as int,
            ));
        }
    }
    proof {
        assert(strings_view(src@).take(src@.len() as int) =~= strings_view(src@));
    }
}

/// Appends a copy of `s` to a list of strings.
pub fn push_string(list: &mut Vec<String>, s: &str)
    ensures
        strings_view(final(list)@) == strings_view(old(list)@).push(s@),
{
    let ghost before = list@;
    let x = s.to_owned();
    list.push(x);
    proof {
        assert(strings_view(list@) =~= strings_view(before).push(s@));
    }
}

/// Appends the characters of `chars` as a string to a list of strings.
pub fn push_chars_string(list: &mut Vec<String>, chars: &Vec<char>)
    ensures
        strings_view(final(list)@) == strings_view(old(list)@).push(chars@),
{
    let ghost before = list@;
    let x = string_of(chars);
    list.push(x);
    proof {
        assert(strings_view(list@) =~= strings_view(before).push(chars@));
    }
}

/// The characters of `a` followed by those of `b`.
pub fn concat_text(a: &str, b: &str) -> (r: Vec<char>)
    ensures
        r@ == a@ + b@,
{
    let mut v = chars_of(a);
    push_text(&mut v, b);
    v
}

/// `c` is a decimal digit.
pub open spec fn is_digit(c: char) -> bool {
    '0' <= c && c <= '9'
}

/// A decimal notation is made of digits, and starts with a non-zero digit unless it is
/// the number zero.
pub proof fn lemma_decimal_digits(n: nat)
    ensures
        decimal(n).len() >= 1,
        forall|i: int| 0 <= i < decimal(n).len() ==> is_digit(#[trigger] decimal(n)[i]),
        n >= 1 ==> decimal(n)[0] != '0',
        n >= 10 ==> decimal(n).len() >= 2,
    decreases n,
{
    if n >= 10 {
        lemma_decimal_digits(n / 10);
        assert(decimal(n)[0] == decimal(n / 10)[0]);
    }
}

/// Different numbers have different decimal notations.
pub proof fn lemma_decimal_injective(a: nat, b: nat)
    requires
        decimal(a) == decimal(b),
    ensures
        a == b,
    decreases a,
{
    lemma_decimal_digits(a);
    lemma_decimal_digits(b);
    if a >= 10 && b >= 10 {
        assert(decimal(a / 10) == decimal(a).drop_last());
        assert(decimal(b / 10) == decimal(b).drop_last());
        lemma_decimal_injective(a / 10, b / 10);
        assert(decimal(a).last() == digit_char((a % 10) as int));
        assert(decimal(b).last() == digit_char((b % 10) as int));
    } else if a < 10 && b < 10 {
        assert(decimal(a)[0] == digit_char(a as int));
        assert(decimal(b)[0] == digit_char(b as int));
    } else {
        assert(decimal(a).len() != decimal(b).len());
    }
}

/// A two-digit padded notation is made of digits, and different numbers have different
/// padded notations.
pub proof fn lemma_decimal2(a: nat, b: nat)
    ensures
        decimal2(a).len() >= 1,
        forall|i: int| 0 <= i < decimal2(a).len() ==> is_digit(#[trigger] decimal2(a)[i]),
        decimal2(a) == decimal2(b) ==> a == b,
{
    lemma_decimal_digits(a);
    lemma_decimal_digits(b);
    if decimal2(a) == decimal2(b) {
        if a < 10 && b < 10 {
            assert(decimal2(a)[1] == digit_char(a as int));
            assert(decimal2(b)[1] == digit_char(b as int));
        } else if a >= 10 && b >= 10 {
            lemma_decimal_injective(a, b);
        } else if a < 10 {
            assert(decimal2(a)[0] == '0');
        } else {
            assert(decimal2(b)[0] == '0');
        }
    }
}

} // verus!
