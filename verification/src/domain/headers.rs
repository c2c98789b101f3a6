//! The HTTP response headers that rate limiting reads, picked out of all the headers
//! the host received. Other headers (cookies among them) are never kept.
use vstd::prelude::*;
use crate::domain::models::copy_string;
use crate::text::{
    chars_of, lemma_text_less_irreflexive, lemma_text_less_total, lemma_text_less_transitive,
    same_text, text_before, text_less,
};

verus! {

/// The code of `c` with ASCII upper-case letters taken to lower case, as
/// `char::to_ascii_lowercase` does; every other character keeps its code.
pub open spec fn ascii_lower_code(c: char) -> int {
    if 65 <= (c as u32) && (c as u32) <= 90 { (c as u32) + 32 } else { c as u32 as int }
}

/// `str::eq_ignore_ascii_case`: the same characters, up to the case of ASCII letters.
pub open spec fn eq_ignore_ascii_case(a: Seq<char>, b: Seq<char>) -> bool {
    &&& a.len() == b.len()
    &&& forall|i: int| 0 <= i < a.len() ==> ascii_lower_code(#[trigger] a[i]) == ascii_lower_code(b[i])
}

/// Whether a header named `name` is one that rate limiting reads.
pub open spec fn is_rate_limit_header(name: Seq<char>) -> bool {
    ||| eq_ignore_ascii_case(name, "Retry-After"@)
    ||| eq_ignore_ascii_case(name, "X-RateLimit-Remaining"@)
    ||| eq_ignore_ascii_case(name, "X-RateLimit-Reset-After"@)
}

/// A header as the host read it: its name, and its value where that value is text.
pub open spec fn entry_view(e: (String, Option<String>)) -> (Seq<char>, Option<Seq<char>>) {
    (e.0@, match e.1 { Some(s) => Some(s@), None => None })
}

/// The headers kept from `entries`, by name: each rate-limit header with a text value,
/// a later entry of the same name replacing an earlier one.
pub open spec fn rate_limit_map(entries: Seq<(Seq<char>, Option<Seq<char>>)>) -> Map<Seq<char>, Seq<char>>
    decreases entries.len(),
{
    if entries.len() == 0 {
        Map::empty()
    } else {
        let m = rate_limit_map(entries.drop_last());
        let e = entries.last();
        if is_rate_limit_header(e.0) && e.1 is Some {
            m.insert(e.0, e.1->0)
        } else {
            m
        }
    }
}

/// The pairs `pairs` list the map `m`: each name once, with its value, and every name of `m`.
pub open spec fn lists_map(pairs: Seq<(Seq<char>, Seq<char>)>, m: Map<Seq<char>, Seq<char>>) -> bool {
    &&& forall|a: int, b: int| 0 <= a < b < pairs.len() ==> #[trigger] pairs[a].0 != #[trigger] pairs[b].0
    &&& forall|a: int| 0 <= a < pairs.len() ==> m.dom().contains(#[trigger] pairs[a].0) && m[pairs[a].0] == pairs[a].1
    &&& forall|k: Seq<char>| #[trigger] m.dom().contains(k) ==> exists|a: int| 0 <= a < pairs.len() && pairs[a].0 == k
}

/// The pairs of strings as plain values.
pub open spec fn pairs_view(pairs: Seq<(String, String)>) -> Seq<(Seq<char>, Seq<char>)> {
    pairs.map_values(|p: (String, String)| (p.0@, p.1@))
}

/// Whether `a` and `b` are equal up to the case of ASCII letters.
pub fn same_ignoring_ascii_case(a: &str, b: &str) -> (res: bool)
    ensures
        res == eq_ignore_ascii_case(a@, b@),
{
    let x = chars_of(a);
    let y = chars_of(b);
    if x.len() != y.len() {
        return false;
    }
    let mut i: usize = 0;
    while i < x.len()
        invariant
            x@ == a@,
            y@ == b@,
            x@.len() == y@.len(),
            i <= x@.len(),
            forall|k: int| 0 <= k < i ==> ascii_lower_code(#[trigger] x@[k]) == ascii_lower_code(y@[k]),
        decreases x@.len() - i,
    {
        let p = x[i] as u32;
        let q = y[i] as u32;
        let lp = if 65 <= p && p <= 90 { p + 32 } else { p };
        let lq = if 65 <= q && q <= 90 { q + 32 } else { q };
        if lp != lq {
            assert(ascii_lower_code(x@[i as int]) != ascii_lower_code(y@[i as int]));
            return false;
        }
        i = i + 1;
    }
    true
}

/// Whether a header named `name` is one that rate limiting reads.
pub fn rate_limit_header(name: &str) -> (res: bool)
    ensures
        res == is_rate_limit_header(name@),
{
    same_ignoring_ascii_case(name, "Retry-After")
        || same_ignoring_ascii_case(name, "X-RateLimit-Remaining")
        || same_ignoring_ascii_case(name, "X-RateLimit-Reset-After")
}

/// The names of `pairs` come in strictly ascending order of `Ord` on strings, the order in
/// which a `BTreeMap` keyed by name lists them.
pub open spec fn names_ascending(pairs: Seq<(Seq<char>, Seq<char>)>) -> bool {
    forall|a: int, b: int| 0 <= a < b < pairs.len() ==> text_less(#[trigger] pairs[a].0, #[trigger] pairs[b].0)
}

/// Where the pair named `name` stands in `pairs`, or would stand: the first position whose
/// name does not come before `name`, and whether the name there is `name`.
fn insertion_point(pairs: &Vec<(String, String)>, name: &str) -> (res: (usize, bool))
    requires
        names_ascending(pairs_view(pairs@)),
    ensures
        res.0 <= pairs@.len(),
        forall|a: int| 0 <= a < res.0 ==> text_less((#[trigger] pairs@[a]).0@, name@),
        res.1 ==> res.0 < pairs@.len() && pairs@[res.0 as int].0@ == name@,
        !res.1 && res.0 < pairs@.len() ==> text_less(name@, pairs@[res.0 as int].0@),
{
    let mut j: usize = 0;
    while j < pairs.len()
        invariant
            j <= pairs@.len(),
            forall|a: int| 0 <= a < j ==> text_less((#[trigger] pairs@[a]).0@, name@),
        decreases pairs@.len() - j,
    {
        if !text_before(pairs[j].0.as_str(), name) {
            if same_text(pairs[j].0.as_str(), name) {
                return (j, true);
            }
            proof { lemma_text_less_total(pairs@[j as int].0@, name@); }
            return (j, false);
        }
        j = j + 1;
    }
    (j, false)
}

/// The rate-limit headers among `entries` (`Retry-After`, `X-RateLimit-Remaining`,
/// `X-RateLimit-Reset-After`, in any ASCII case) whose value is text, each name once with
/// the value of its last entry, in ascending order of name. Any other header, and one whose
/// value is not text, is left out.
pub fn rate_limit_headers(entries: &[(String, Option<String>)]) -> (res: Vec<(String, String)>)
    ensures
        lists_map(pairs_view(res@), rate_limit_map(entries@.map_values(|e: (String, Option<String>)| entry_view(e)))),
        names_ascending(pairs_view(res@)),
{
    let ghost ev = entries@.map_values(|e: (String, Option<String>)| entry_view(e));
    let mut res: Vec<(String, String)> = Vec::new();
    let mut i: usize = 0;
    assert(ev.take(0) =~= Seq::<(Seq<char>, Option<Seq<char>>)>::empty());
    while i < entries.len()
        invariant
            ev == entries@.map_values(|e: (String, Option<String>)| entry_view(e)),
            i <= entries@.len(),
            lists_map(pairs_view(res@), rate_limit_map(ev.take(i as int))),
            names_ascending(pairs_view(res@)),
        decreases entries@.len() - i,
    {
        let ghost m = rate_limit_map(ev.take(i as int));
        assert(ev.take(i + 1).drop_last() =~= ev.take(i as int));
        assert(ev.take(i + 1).last() == ev[i as int]);
        assert(ev[i as int] == entry_view(entries@[i as int]));
        let name = &entries[i].0;
        if rate_limit_header(name.as_str()) {
            if let Some(value) = &entries[i].1 {
                let ghost n = name@;
                let ghost t = value@;
                assert(ev[i as int] == (n, Some(t)));
                let (pos, found) = insertion_point(&res, name.as_str());
                let ghost before = pairs_view(res@);
                assert forall|a: int| 0 <= a < pos implies text_less(#[trigger] before[a].0, n) by {
                    assert(before[a].0 == res@[a].0@);
                }
                let pair = (copy_string(name), copy_string(value));
                if found {
                    res.set(pos, pair);
                    let ghost after = pairs_view(res@);
                    assert(after =~= before.update(pos as int, (n, t)));
                    assert(before[pos as int].0 == n);
                    assert forall|a: int, b: int| 0 <= a < b < after.len() implies
                        text_less(#[trigger] after[a].0, #[trigger] after[b].0) by {
                        assert(text_less(before[a].0, before[b].0));
                    }
                    assert forall|a: int, b: int| 0 <= a < b < after.len() implies
                        #[trigger] after[a].0 != #[trigger] after[b].0 by {
                        assert(text_less(after[a].0, after[b].0));
                        lemma_text_less_irreflexive(after[a].0);
                    }
                    assert forall|a: int| 0 <= a < after.len() implies
                        m.insert(n, t).dom().contains(#[trigger] after[a].0)
                        && m.insert(n, t)[after[a].0] == after[a].1 by {
                        if a != pos {
                            assert(before[a].0 != before[pos as int].0);
                        }
                    }
                    assert forall|k: Seq<char>| #[trigger] m.insert(n, t).dom().contains(k) implies
                        exists|a: int| 0 <= a < after.len() && after[a].0 == k by {
                        if k == n {
                            assert(after[pos as int].0 == k);
                        } else {
                            let a = choose|a: int| 0 <= a < before.len() && before[a].0 == k;
                            assert(after[a].0 == k);
                        }
                    }
                    assert(lists_map(after, m.insert(n, t)));
                } else {
                    res.insert(pos, pair);
                    let ghost after = pairs_view(res@);
                    assert(after =~= before.insert(pos as int, (n, t)));
                    assert(pos < before.len() ==> text_less(n, before[pos as int].0)) by {
                        if pos < before.len() {
                            assert(before[pos as int].0 == res@[pos as int + 1].0@);
                        }
                    }
                    assert forall|a: int, b: int| 0 <= a < b < after.len() implies
                        text_less(#[trigger] after[a].0, #[trigger] after[b].0) by {
                        if b < pos {
                            assert(text_less(before[a].0, before[b].0));
                        } else if b == pos {
                            assert(text_less(before[a].0, n));
                        } else if a < pos {
                            assert(text_less(before[a].0, n));
                            assert(text_less(n, before[pos as int].0));
                            if b - 1 > pos {
                                assert(text_less(before[pos as int].0, before[b - 1].0));
                                lemma_text_less_transitive(n, before[pos as int].0, before[b - 1].0);
                            }
                            lemma_text_less_transitive(before[a].0, n, before[b - 1].0);
                        } else if a == pos {
                            assert(text_less(n, before[pos as int].0));
                            if b - 1 > pos {
                                assert(text_less(before[pos as int].0, before[b - 1].0));
                                lemma_text_less_transitive(n, before[pos as int].0, before[b - 1].0);
                            }
                        } else {
                            assert(text_less(before[a - 1].0, before[b - 1].0));
                        }
                    }
                    assert forall|a: int, b: int| 0 <= a < b < after.len() implies
                        #[trigger] after[a].0 != #[trigger] after[b].0 by {
                        assert(text_less(after[a].0, after[b].0));
                        lemma_text_less_irreflexive(after[a].0);
                    }
                    assert forall|a: int| 0 <= a < before.len() implies (#[trigger] before[a]).0 != n by {
                        if a < pos {
                            assert(text_less(before[a].0, n));
                            lemma_text_less_irreflexive(n);
                        } else {
                            assert(text_less(n, before[pos as int].0));
                            if a > pos {
                                assert(text_less(before[pos as int].0, before[a].0));
                                lemma_text_less_transitive(n, before[pos as int].0, before[a].0);
                            }
                            lemma_text_less_irreflexive(n);
                        }
                    }
                    assert forall|a: int| 0 <= a < after.len() implies
                        m.insert(n, t).dom().contains(#[trigger] after[a].0)
                        && m.insert(n, t)[after[a].0] == after[a].1 by {
                        if a < pos {
                            assert(after[a] == before[a]);
                        } else if a > pos {
                            assert(after[a] == before[a - 1]);
                        }
                    }
                    assert forall|k: Seq<char>| #[trigger] m.insert(n, t).dom().contains(k) implies
                        exists|a: int| 0 <= a < after.len() && after[a].0 == k by {
                        if k == n {
                            assert(after[pos as int].0 == k);
                        } else {
                            let a = choose|a: int| 0 <= a < before.len() && before[a].0 == k;
                            if a < pos {
                                assert(after[a].0 == k);
                            } else {
                                assert(after[a + 1].0 == k);
                            }
                        }
                    }
                    assert(lists_map(after, m.insert(n, t)));
                }
                assert(rate_limit_map(ev.take(i + 1)) == m.insert(n, t));
            } else {
                assert(rate_limit_map(ev.take(i + 1)) == m);
            }
        } else {
            assert(rate_limit_map(ev.take(i + 1)) == m);
        }
        i = i + 1;
    }
    assert(ev.take(entries@.len() as int) =~= ev);
    res
}

} // verus!
