use vstd::prelude::*;

use crate::text::{chars_of, strings_view};

verus! {

/// `a` comes before `b` in lexicographic order of code points, which is the order of
/// `String`'s `Ord` (UTF-8 byte order agrees with code point order).
pub open spec fn text_less(a: Seq<char>, b: Seq<char>) -> bool
    decreases a.len(),
{
    if a.len() == 0 {
        b.len() > 0
    } else if b.len() == 0 {
        false
    } else if a[0] != b[0] {
        (a[0] as int) < (b[0] as int)
    } else {
        text_less(a.drop_first(), b.drop_first())
    }
}

/// The order is transitive.
pub proof fn lemma_text_less_transitive(a: Seq<char>, b: Seq<char>, c: Seq<char>)
    requires
        text_less(a, b),
        text_less(b, c),
    ensures
        text_less(a, c),
    decreases a.len(),
{
    if a.len() > 0 && b.len() > 0 && c.len() > 0 && a[0] == b[0] && b[0] == c[0] {
        lemma_text_less_transitive(a.drop_first(), b.drop_first(), c.drop_first());
    }
}

/// Two different texts are ordered one way or the other, and not both.
pub proof fn lemma_text_less_total(a: Seq<char>, b: Seq<char>)
    ensures
        a != b ==> (text_less(a, b) || text_less(b, a)),
        !(text_less(a, b) && text_less(b, a)),
    decreases a.len(),
{
    if a.len() > 0 && b.len() > 0 {
        lemma_text_less_total(a.drop_first(), b.drop_first());
        if a[0] == b[0] && a.drop_first() == b.drop_first() {
            assert(a =~= seq![a[0]] + a.drop_first());
            assert(b =~= seq![b[0]] + b.drop_first());
        }
        if a[0] != b[0] {
            assert((a[0] as int) != (b[0] as int));
        }
    } else if a.len() == 0 && b.len() == 0 {
        assert(a =~= b);
    }
}

/// Whether `a` comes before `b`.
pub fn chars_less(a: &Vec<char>, b: &Vec<char>) -> (r: bool)
    ensures
        r == text_less(a@, b@),
{
    let mut i: usize = 0;
    proof {
        assert(a@.skip(0) =~= a@);
        assert(b@.skip(0) =~= b@);
    }
    while i < a.len() && i < b.len() && a[i] == b[i]
        invariant
            i <= a.len(),
            i <= b.len(),
            text_less(a@.skip(i as int), b@.skip(i as int)) == text_less(a@, b@),
        decreases a.len() - i,
    {
        proof {
            assert(a@.skip(i as int).drop_first() =~= a@.skip(i + 1));
            assert(b@.skip(i as int).drop_first() =~= b@.skip(i + 1));
        }
        i += 1;
    }
    if i == a.len() {
        i < b.len()
    } else if i == b.len() {
        false
    } else {
        a[i] < b[i]
    }
}

/// Each text comes strictly before every later one: sorted, with no repeats.
pub open spec fn strictly_sorted(s: Seq<Seq<char>>) -> bool {
    forall|i: int, j: int| 0 <= i < j < s.len() ==> text_less(#[trigger] s[i], #[trigger] s[j])
}

/// The distinct texts of `items` in ascending order (what sorting a `Vec<String>` and
/// then removing adjacent repeats leaves).
pub fn sorted_distinct(items: &Vec<String>) -> (res: Vec<String>)
    ensures
        strictly_sorted(strings_view(res@)),
        strings_view(res@).to_set() == strings_view(items@).to_set(),
{
    let mut res: Vec<String> = Vec::new();
    let mut k: usize = 0;
    while k < items.len()
        invariant
            k <= items.len(),
            strictly_sorted(strings_view(res@)),
            strings_view(res@).to_set() == strings_view(items@.take(k as int)).to_set(),
        decreases items.len() - k,
    {
        let x = items[k].clone();
        let xc = chars_of(x.as_str());
        let ghost rv = strings_view(res@);
        let mut p: usize = 0;
        while p < res.len() && chars_less(&chars_of(res[p].as_str()), &xc)
            invariant
                p <= res.len(),
                rv == strings_view(res@),
                xc@ == x@,
                forall|q: int| 0 <= q < p ==> text_less(#[trigger] rv[q], x@),
            decreases res.len() - p,
        {
            p += 1;
        }
        proof {
            assert(strings_view(items@.take(k + 1)) =~= strings_view(items@.take(k as int)).push(
                x@,
            ));
        }
        if p < res.len() && crate::text::same_chars(&chars_of(res[p].as_str()), &xc) {
            proof {
                assert(rv[p as int] == x@);
                strings_view(items@.take(k as int)).lemma_push_to_set_commute(x@);
                assert(rv.to_set().contains(x@));
                assert(rv.to_set().insert(x@) =~= rv.to_set());
            }
        } else {
            proof {
                if p < rv.len() {
                    lemma_text_less_total(rv[p as int], x@);
                }
            }
            res.insert(p, x);
            proof {
                let nv = strings_view(res@);
                assert(nv =~= rv.insert(p as int, x@));
                assert forall|i: int, j: int| 0 <= i < j < nv.len() implies text_less(
                    #[trigger] nv[i],
                    #[trigger] nv[j],
                ) by {
                    if j < p {
                    } else if j == p {
                    } else if i < p {
                        if j == p + 1 {
                            lemma_text_less_transitive(nv[i], x@, nv[j]);
                        } else {
                            lemma_text_less_transitive(nv[i], x@, rv[p as int]);
                            lemma_text_less_transitive(nv[i], rv[p as int], nv[j]);
                        }
                    } else if i == p {
                        if j > p + 1 {
                            lemma_text_less_transitive(x@, rv[p as int], nv[j]);
                        }
                    } else {
                    }
                }
                assert(nv.to_set() =~= rv.to_set().insert(x@)) by {
                    assert forall|t: Seq<char>| nv.contains(t) <==> (rv.contains(t) || t == x@) by {
                        if nv.contains(t) {
                            let i = nv.index_of(t);
                            if i != p {
                                if i < p {
                                    assert(rv[i] == t);
                                } else {
                                    assert(rv[i - 1] == t);
                                }
                            }
                        }
                        if rv.contains(t) {
                            let i = rv.index_of(t);
                            if i < p {
                                assert(nv[i] == t);
                            } else {
                                assert(nv[i + 1] == t);
                            }
                        }
                        if t == x@ {
                            assert(nv[p as int] == t);
                        }
                    }
                }
                strings_view(items@.take(k as int)).lemma_push_to_set_commute(x@);
            }
        }
        k += 1;
    }
    proof {
        assert(items@.take(items@.len() as int) =~= items@);
    }
    res
}

} // verus!
