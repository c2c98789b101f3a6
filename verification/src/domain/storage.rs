//! Where clippings are saved, and which of them are already saved.
use vstd::prelude::*;
use crate::domain::dates::{local_view_of, two, year_text, CivilTime};
use crate::domain::messages::file_name_suffix_spec;
use crate::domain::models::ProcessedMessage;
use crate::text::{chars_of, push_char, string_from_range};

verus! {

/// The clippings to save, into which folder, and the ids of clippings already saved.
#[derive(Debug, Clone)]
pub struct StorageInput {
    pub clipping_directory: String,
    pub messages: Vec<ProcessedMessage>,
    pub existing_ids: Vec<String>,
}

/// One file to create.
#[derive(Debug, Clone)]
pub struct Write {
    pub path: String,
    pub content: String,
}

/// The files to create, in order.
#[derive(Debug, Clone)]
pub struct StoragePlan {
    pub writes: Vec<Write>,
}

/// What a `Write` holds, as character sequences.
pub ghost struct WriteView {
    pub path: Seq<char>,
    pub content: Seq<char>,
}

impl View for Write {
    type V = WriteView;

    open spec fn view(&self) -> WriteView {
        WriteView { path: self.path@, content: self.content@ }
    }
}

impl DeepView for Write {
    type V = WriteView;

    open spec fn deep_view(&self) -> WriteView {
        self@
    }
}

/// Whether `c` is an ASCII digit.
pub open spec fn is_digit(c: char) -> bool {
    '0' <= c && c <= '9'
}

/// Whether every character of `s` from `from` up to `to` is an ASCII digit.
pub open spec fn digits_between(s: Seq<char>, from: int, to: int) -> bool {
    forall|k: int| from <= k < to ==> is_digit(#[trigger] s[k])
}

/// The message id in the name of an individual clipping file,
/// `<8 digits>_<6 digits>_<digits>.md`, if the name has that shape.
pub open spec fn individual_id_spec(s: Seq<char>) -> Option<Seq<char>> {
    if s.len() >= 20 && digits_between(s, 0, 8) && s[8] == '_' && digits_between(s, 9, 15)
        && s[15] == '_' && digits_between(s, 16, s.len() - 3)
        && s.subrange(s.len() - 3, s.len() as int) == seq!['.', 'm', 'd'] {
        Some(s.subrange(16, s.len() - 3))
    } else {
        None
    }
}

fn digits(cs: &Vec<char>, from: usize, to: usize) -> (res: bool)
    requires
        from <= to <= cs@.len(),
    ensures
        res == digits_between(cs@, from as int, to as int),
{
    let mut k = from;
    while k < to
        invariant
            from <= k <= to <= cs@.len(),
            digits_between(cs@, from as int, k as int),
        decreases to - k,
    {
        if !('0' <= cs[k] && cs[k] <= '9') {
            return false;
        }
        k = k + 1;
    }
    true
}

/// The message id of an individual clipping file name, if the name has that shape.
pub fn individual_id(name: &str) -> (res: Option<String>)
    ensures
        match res {
            Some(id) => individual_id_spec(name@) == Some(id@),
            None => individual_id_spec(name@) is None,
        },
{
    let cs = chars_of(name);
    let n = cs.len();
    if n < 20 {
        return None;
    }
    let ok = digits(&cs, 0, 8) && cs[8] == '_' && digits(&cs, 9, 15) && cs[15] == '_'
        && digits(&cs, 16, n - 3) && cs[n - 3] == '.' && cs[n - 2] == 'm' && cs[n - 1] == 'd';
    proof {
        let tail = cs@.subrange(n - 3, n as int);
        if cs@[n - 3] == '.' && cs@[n - 2] == 'm' && cs@[n - 1] == 'd' {
            assert(tail =~= seq!['.', 'm', 'd']);
        }
        if tail == seq!['.', 'm', 'd'] {
            assert(tail[0] == cs@[n - 3] && tail[1] == cs@[n - 2] && tail[2] == cs@[n - 1]);
        }
    }
    if ok {
        Some(string_from_range(&cs, 16, n - 3))
    } else {
        None
    }
}

fn contains_text(xs: &Vec<String>, s: &String) -> (res: bool)
    ensures
        res == xs.deep_view().contains(s@),
{
    let mut k: usize = 0;
    while k < xs.len()
        invariant
            k <= xs@.len(),
            forall|q: int| 0 <= q < k ==> (#[trigger] xs.deep_view()[q]) != s@,
        decreases xs@.len() - k,
    {
        if xs[k] == *s {
            assert(xs.deep_view()[k as int] == s@);
            return true;
        }
        k = k + 1;
    }
    false
}

/// Whether `id` is among the ids of the first `end` messages.
pub open spec fn id_before(ms: Seq<ProcessedMessage>, end: int, id: Seq<char>) -> bool {
    exists|k: int| 0 <= k < end && (#[trigger] ms[k]).message_id@ == id
}

/// The file of one clipping: `<directory>/<file name>.md` with its Markdown.
pub open spec fn write_of(directory: Seq<char>, m: ProcessedMessage) -> WriteView {
    WriteView {
        path: directory + seq!['/'] + m.file_name@ + seq!['.', 'm', 'd'],
        content: m.markdown@,
    }
}

/// The files for `ms`, in order, skipping each message whose id is already saved or
/// appeared earlier in `ms`.
pub open spec fn plan_spec(directory: Seq<char>, ms: Seq<ProcessedMessage>, existing: Seq<Seq<char>>) -> Seq<WriteView>
    decreases ms.len(),
{
    if ms.len() == 0 {
        Seq::empty()
    } else {
        let before = plan_spec(directory, ms.drop_last(), existing);
        let m = ms.last();
        if existing.contains(m.message_id@) || id_before(ms, ms.len() - 1, m.message_id@) {
            before
        } else {
            before.push(write_of(directory, m))
        }
    }
}

proof fn lemma_plan_step(directory: Seq<char>, ms: Seq<ProcessedMessage>, existing: Seq<Seq<char>>, i: int)
    requires
        0 <= i < ms.len(),
    ensures
        plan_spec(directory, ms.take(i + 1), existing) == if existing.contains(ms[i].message_id@)
            || id_before(ms, i, ms[i].message_id@) {
            plan_spec(directory, ms.take(i), existing)
        } else {
            plan_spec(directory, ms.take(i), existing).push(write_of(directory, ms[i]))
        },
{
    let t = ms.take(i + 1);
    assert(t.drop_last() =~= ms.take(i));
    assert(id_before(t, i, ms[i].message_id@) == id_before(ms, i, ms[i].message_id@)) by {
        if id_before(t, i, ms[i].message_id@) {
            let k = choose|k: int| 0 <= k < i && (#[trigger] t[k]).message_id@ == ms[i].message_id@;
            assert(ms[k] == t[k]);
        }
        if id_before(ms, i, ms[i].message_id@) {
            let k = choose|k: int| 0 <= k < i && (#[trigger] ms[k]).message_id@ == ms[i].message_id@;
            assert(ms[k] == t[k]);
        }
    }
}

/// Plans one file per clipping, skipping clippings whose message id is already saved
/// or repeated within `input.messages`.
pub fn plan(input: StorageInput) -> (res: StoragePlan)
    ensures
        res.writes.deep_view() == plan_spec(
            input.clipping_directory@,
            input.messages@,
            input.existing_ids.deep_view(),
        ),
{
    let ghost existing = input.existing_ids.deep_view();
    let ghost ms = input.messages@;
    let ghost dir = input.clipping_directory@;
    let mut ids: Vec<String> = Vec::new();
    let mut j: usize = 0;
    while j < input.existing_ids.len()
        invariant
            existing == input.existing_ids.deep_view(),
            j <= existing.len(),
            ids.deep_view() == existing.take(j as int),
        decreases existing.len() - j,
    {
        let ghost prev = ids.deep_view();
        ids.push(input.existing_ids[j].clone());
        assert(ids.deep_view() =~= prev.push(existing[j as int]));
        j = j + 1;
        assert(ids.deep_view() =~= existing.take(j as int));
    }
    assert(existing.take(existing.len() as int) =~= existing);
    let mut writes: Vec<Write> = Vec::new();
    let mut i: usize = 0;
    assert(ms.take(0) =~= Seq::<ProcessedMessage>::empty());
    assert(writes.deep_view() =~= Seq::<WriteView>::empty());
    while i < input.messages.len()
        invariant
            existing == input.existing_ids.deep_view(),
            ms == input.messages@,
            dir == input.clipping_directory@,
            i <= ms.len(),
            forall|s: Seq<char>| #[trigger] ids.deep_view().contains(s) <==> (existing.contains(s) || id_before(ms, i as int, s)),
            writes.deep_view() == plan_spec(dir, ms.take(i as int), existing),
        decreases ms.len() - i,
    {
        let m = &input.messages[i];
        let found = contains_text(&ids, &m.message_id);
        proof {
            lemma_plan_step(dir, ms, existing, i as int);
        }
        let ghost old_ids = ids.deep_view();
        if !found {
            let mut path = input.clipping_directory.clone();
            push_char(&mut path, '/');
            path.append(m.file_name.as_str());
            path.append(".md");
            proof { reveal_strlit(".md"); }
            let w = Write { path, content: m.markdown.clone() };
            assert(w@.path =~= write_of(dir, ms[i as int]).path);
            let ghost prev_writes = writes.deep_view();
            writes.push(w);
            assert(writes.deep_view() =~= prev_writes.push(write_of(dir, ms[i as int])));
            ids.push(m.message_id.clone());
            assert(ids.deep_view() =~= old_ids.push(ms[i as int].message_id@));
        }
        proof {
            assert forall|s: Seq<char>| #[trigger] ids.deep_view().contains(s) <==> (existing.contains(s) || id_before(ms, i + 1, s)) by {
                assert(old_ids.contains(s) <==> (existing.contains(s) || id_before(ms, i as int, s)));
                if found {
                    assert(ids.deep_view() == old_ids);
                    assert(old_ids.contains(ms[i as int].message_id@));
                }
                if id_before(ms, i + 1, s) {
                    let q = choose|q: int| 0 <= q < i + 1 && (#[trigger] ms[q]).message_id@ == s;
                    if q < i {
                        assert(id_before(ms, i as int, s));
                    }
                }
                if id_before(ms, i as int, s) {
                    let q = choose|q: int| 0 <= q < i && (#[trigger] ms[q]).message_id@ == s;
                    assert(id_before(ms, i + 1, s));
                }
                if s == ms[i as int].message_id@ {
                    assert(id_before(ms, i + 1, s));
                    if !found {
                        assert(ids.deep_view()[old_ids.len() as int] == s);
                    }
                }
                if ids.deep_view().contains(s) && s != ms[i as int].message_id@ {
                    let q = choose|q: int| 0 <= q < ids.deep_view().len() && ids.deep_view()[q] == s;
                    assert(q < old_ids.len());
                    assert(old_ids[q] == s);
                }
                if old_ids.contains(s) {
                    let q = choose|q: int| 0 <= q < old_ids.len() && old_ids[q] == s;
                    assert(ids.deep_view()[q] == s);
                }
            }
        }
        i = i + 1;
    }
    assert(ms.take(ms.len() as int) =~= ms);
    StoragePlan { writes }
}

/// Law: the name `<8 digits>_<6 digits>_<id>.md` of a clipping gives back its id when the
/// id is all digits, as Discord ids are.
pub proof fn law_individual_id_of_file_name(stamp: Seq<char>, id: Seq<char>)
    requires
        stamp.len() == 15,
        digits_between(stamp, 0, 8),
        stamp[8] == '_',
        digits_between(stamp, 9, 15),
        id.len() > 0,
        digits_between(id, 0, id.len() as int),
    ensures
        individual_id_spec(stamp + seq!['_'] + id + seq!['.', 'm', 'd']) == Some(id),
{
    let s = stamp + seq!['_'] + id + seq!['.', 'm', 'd'];
    assert(s.len() == 19 + id.len());
    assert(digits_between(s, 0, 8)) by {
        assert forall|k: int| 0 <= k < 8 implies is_digit(#[trigger] s[k]) by { assert(s[k] == stamp[k]); }
    }
    assert(digits_between(s, 9, 15)) by {
        assert forall|k: int| 9 <= k < 15 implies is_digit(#[trigger] s[k]) by { assert(s[k] == stamp[k]); }
    }
    assert(digits_between(s, 16, s.len() - 3)) by {
        assert forall|k: int| 16 <= k < s.len() - 3 implies is_digit(#[trigger] s[k]) by {
            assert(s[k] == id[k - 16]);
        }
    }
    assert(s[8] == stamp[8]);
    assert(s[15] == '_');
    assert(s.subrange(s.len() - 3, s.len() as int) =~= seq!['.', 'm', 'd']);
    assert(s.subrange(16, s.len() - 3) =~= id);
}

/// Law: the file of a clipping without a usable title is found again by its message id,
/// for dates in the years 0 to 9999 and ids made of digits.
pub proof fn law_untitled_clipping_is_found_by_id(c: CivilTime, message_id: Seq<char>)
    requires
        0 <= c.year <= 9999,
        c.month < 100,
        c.day < 100,
        c.hour < 100,
        c.minute < 100,
        c.second < 100,
        message_id.len() > 0,
        digits_between(message_id, 0, message_id.len() as int),
    ensures
        individual_id_spec(local_view_of(c).file_timestamp + seq!['_']
            + file_name_suffix_spec(None, message_id) + seq!['.', 'm', 'd']) == Some(message_id),
{
    crate::text::lemma_decimal_len_bound(c.year as nat);
    crate::text::lemma_decimal_len_bound(c.month as nat);
    crate::text::lemma_decimal_len_bound(c.day as nat);
    crate::text::lemma_decimal_len_bound(c.hour as nat);
    crate::text::lemma_decimal_len_bound(c.minute as nat);
    crate::text::lemma_decimal_len_bound(c.second as nat);
    crate::text::lemma_padded_digits(c.year as nat, 4);
    crate::text::lemma_padded_digits(c.month as nat, 2);
    crate::text::lemma_padded_digits(c.day as nat, 2);
    crate::text::lemma_padded_digits(c.hour as nat, 2);
    crate::text::lemma_padded_digits(c.minute as nat, 2);
    crate::text::lemma_padded_digits(c.second as nat, 2);
    let y = year_text(c.year as int);
    let date = y + two(c.month) + two(c.day);
    let time = two(c.hour) + two(c.minute) + two(c.second);
    let stamp = local_view_of(c).file_timestamp;
    assert(stamp =~= date + seq!['_'] + time);
    assert(digits_between(stamp, 0, 8)) by {
        assert forall|k: int| 0 <= k < 8 implies is_digit(#[trigger] stamp[k]) by {
            if k < 4 {
                assert(stamp[k] == y[k]);
            } else if k < 6 {
                assert(stamp[k] == two(c.month)[k - 4]);
            } else {
                assert(stamp[k] == two(c.day)[k - 6]);
            }
        }
    }
    assert(digits_between(stamp, 9, 15)) by {
        assert forall|k: int| 9 <= k < 15 implies is_digit(#[trigger] stamp[k]) by {
            if k < 11 {
                assert(stamp[k] == two(c.hour)[k - 9]);
            } else if k < 13 {
                assert(stamp[k] == two(c.minute)[k - 11]);
            } else {
                assert(stamp[k] == two(c.second)[k - 13]);
            }
        }
    }
    law_individual_id_of_file_name(stamp, message_id);
}

/// Law: a plan writes nothing for messages that are all saved already.
pub proof fn law_plan_skips_saved_messages(directory: Seq<char>, ms: Seq<ProcessedMessage>, existing: Seq<Seq<char>>)
    requires
        forall|k: int| 0 <= k < ms.len() ==> existing.contains(#[trigger] ms[k].message_id@),
    ensures
        plan_spec(directory, ms, existing) == Seq::<WriteView>::empty(),
    decreases ms.len(),
{
    if ms.len() > 0 {
        assert(existing.contains(ms[ms.len() - 1].message_id@));
        assert forall|k: int| 0 <= k < ms.drop_last().len() implies existing.contains(#[trigger] ms.drop_last()[k].message_id@) by {
            assert(ms.drop_last()[k] == ms[k]);
        }
        law_plan_skips_saved_messages(directory, ms.drop_last(), existing);
    }
}

/// Law: messages with distinct ids, none of them saved, each get exactly one file, in order.
pub proof fn law_plan_writes_each_new_message(directory: Seq<char>, ms: Seq<ProcessedMessage>, existing: Seq<Seq<char>>)
    requires
        forall|k: int| 0 <= k < ms.len() ==> !existing.contains(#[trigger] ms[k].message_id@),
        forall|a: int, b: int| 0 <= a < b < ms.len() ==> ms[a].message_id@ != ms[b].message_id@,
    ensures
        plan_spec(directory, ms, existing) == ms.map_values(|m: ProcessedMessage| write_of(directory, m)),
    decreases ms.len(),
{
    if ms.len() > 0 {
        let p = ms.drop_last();
        assert forall|k: int| 0 <= k < p.len() implies !existing.contains(#[trigger] p[k].message_id@) by {
            assert(p[k] == ms[k]);
        }
        assert forall|a: int, b: int| 0 <= a < b < p.len() implies p[a].message_id@ != p[b].message_id@ by {
            assert(p[a] == ms[a] && p[b] == ms[b]);
        }
        law_plan_writes_each_new_message(directory, p, existing);
        assert(!existing.contains(ms[ms.len() - 1].message_id@));
        if id_before(ms, ms.len() - 1, ms.last().message_id@) {
            let k = choose|k: int| 0 <= k < ms.len() - 1 && (#[trigger] ms[k]).message_id@ == ms.last().message_id@;
            assert(ms[k].message_id@ != ms[ms.len() - 1].message_id@);
        }
        assert(plan_spec(directory, ms, existing) =~= ms.map_values(|m: ProcessedMessage| write_of(directory, m)));
    }
}

/// Law: a plan never has more files than there are messages.
pub proof fn law_plan_is_no_longer_than_input(directory: Seq<char>, ms: Seq<ProcessedMessage>, existing: Seq<Seq<char>>)
    ensures
        plan_spec(directory, ms, existing).len() <= ms.len(),
    decreases ms.len(),
{
    if ms.len() > 0 {
        law_plan_is_no_longer_than_input(directory, ms.drop_last(), existing);
    }
}

} // verus!
