//! Channel names, their folders, and folder collisions.
use vstd::prelude::*;
use unicode_normalization::UnicodeNormalization;
use crate::domain::models::{ChannelView, DiscordChannelSettings, copy_channel, copy_channels};
use crate::domain::{
    is_forbidden_path_char, forbidden_path_char, sanitize_path_segment, sanitize_spec, trim, trim_spec,
};
use crate::text::{chars_of, has_char, same_text};

verus! {

/// The message shown for a channel name that cannot be a folder name.
pub const INVALID_NAME: &'static str = "Channel name is invalid. Forbidden characters are: \\ / : * ? \" < > | # ^ [ ]. The names \".\" and \"..\" are also not allowed.";

/// The name a channel is shown by: its name, or its id when the name is empty.
pub open spec fn display_name_spec(c: ChannelView) -> Seq<char> {
    if c.name.len() == 0 { c.id } else { c.name }
}

/// The name a channel is shown by.
pub fn display_name(channel: &DiscordChannelSettings) -> (res: &str)
    ensures
        res@ == display_name_spec(channel@),
{
    if channel.name.as_str().is_empty() {
        channel.id.as_str()
    } else {
        channel.name.as_str()
    }
}

/// Whether `s` is `.` or `..`.
pub open spec fn is_dot_name(s: Seq<char>) -> bool {
    s == seq!['.'] || s == seq!['.', '.']
}

/// A channel name that cannot name a folder: `.`, `..`, or one with a forbidden character.
pub open spec fn is_invalid_name(s: Seq<char>) -> bool {
    is_dot_name(s) || exists|i: int| 0 <= i < s.len() && is_forbidden_path_char(#[trigger] s[i])
}

fn dot_name(s: &str) -> (res: bool)
    ensures
        res == is_dot_name(s@),
{
    let cs = chars_of(s);
    if cs.len() == 1 {
        let r = cs[0] == '.';
        assert(r ==> cs@ =~= seq!['.']);
        r
    } else if cs.len() == 2 {
        let r = cs[0] == '.' && cs[1] == '.';
        assert(r ==> cs@ =~= seq!['.', '.']);
        r
    } else {
        false
    }
}

/// The error for a channel name that cannot be used, if any.
pub fn validation_error(name: &str) -> (res: Option<&'static str>)
    ensures
        res is Some <==> is_invalid_name(name@),
        res matches Some(m) ==> m@ == INVALID_NAME@,
{
    if dot_name(name) {
        return Some(INVALID_NAME);
    }
    let cs = chars_of(name);
    let mut i: usize = 0;
    while i < cs.len()
        invariant
            cs@ == name@,
            i <= cs@.len(),
            forall|k: int| 0 <= k < i ==> !is_forbidden_path_char(#[trigger] cs@[k]),
        decreases cs@.len() - i,
    {
        if forbidden_path_char(cs[i]) {
            return Some(INVALID_NAME);
        }
        i = i + 1;
    }
    None
}

/// The folder name of a channel: its sanitized name, else its sanitized id, else `channel`.
pub open spec fn path_segment_spec(c: ChannelView) -> Seq<char> {
    let name = sanitize_spec(c.name);
    if name.len() > 0 && !is_dot_name(name) {
        name
    } else {
        let id = sanitize_spec(c.id);
        if id.len() == 0 { seq!['c', 'h', 'a', 'n', 'n', 'e', 'l'] } else { id }
    }
}

/// The folder name of a channel.
pub fn path_segment(channel: &DiscordChannelSettings) -> (res: String)
    ensures
        res@ == path_segment_spec(channel@),
{
    let name = sanitize_path_segment(channel.name.as_str());
    if !name.as_str().is_empty() && !dot_name(name.as_str()) {
        return name;
    }
    let id = sanitize_path_segment(channel.id.as_str());
    if id.as_str().is_empty() {
        let res = String::from_str("channel");
        proof { reveal_strlit("channel"); }
        assert(res@ =~= seq!['c', 'h', 'a', 'n', 'n', 'e', 'l']);
        res
    } else {
        id
    }
}

/// The Unicode NFC form of `s`, as the `unicode-normalization` crate computes it.
pub uninterp spec fn nfc_form(s: Seq<char>) -> Seq<char>;

/// The lowercase form of `s`, as `str::to_lowercase` computes it.
pub uninterp spec fn lowercase_form(s: Seq<char>) -> Seq<char>;

/// `UnicodeNormalization::nfc` of the `unicode-normalization` crate, collected into a string:
/// the result is named `nfc_form` of the input and nothing more is claimed.
#[verifier::external_body]
fn nfc(s: &str) -> (res: String)
    ensures
        res@ == nfc_form(s@),
{
    s.nfc().collect::<String>()
}

/// `str::to_lowercase` from std: the result is named `lowercase_form` of the input.
#[verifier::external_body]
fn to_lowercase(s: &str) -> (res: String)
    ensures
        res@ == lowercase_form(s@),
{
    s.to_lowercase()
}

/// The form under which two folder names count as the same folder.
pub open spec fn canonical_path_spec(s: Seq<char>) -> Seq<char> {
    lowercase_form(nfc_form(s))
}

fn canonical_path(value: &str) -> (res: String)
    ensures
        res@ == canonical_path_spec(value@),
{
    let n = nfc(value);
    to_lowercase(n.as_str())
}

/// Whether some channel among the first `end` has the same canonical folder as `c`.
pub open spec fn collides_before(cs: Seq<ChannelView>, end: int, c: ChannelView) -> bool {
    exists|i: int| 0 <= i < end && canonical_path_spec(path_segment_spec(#[trigger] cs[i]))
        == canonical_path_spec(path_segment_spec(c))
}

/// The folder of the first channel whose folder collides with an earlier channel's, if any.
pub open spec fn duplicate_path_spec(cs: Seq<ChannelView>) -> Option<Seq<char>>
    decreases cs.len(),
{
    if cs.len() == 0 {
        None
    } else {
        match duplicate_path_spec(cs.drop_last()) {
            Some(p) => Some(p),
            None => if collides_before(cs, cs.len() - 1, cs.last()) {
                Some(path_segment_spec(cs.last()))
            } else {
                None
            },
        }
    }
}

proof fn lemma_duplicate_prefix(cs: Seq<ChannelView>, i: int)
    requires
        0 <= i < cs.len(),
    ensures
        duplicate_path_spec(cs.take(i + 1)) == match duplicate_path_spec(cs.take(i)) {
            Some(p) => Some(p),
            None => if collides_before(cs, i, cs[i]) { Some(path_segment_spec(cs[i])) } else { None },
        },
{
    let t = cs.take(i + 1);
    assert(t.drop_last() =~= cs.take(i));
    assert(t.last() == cs[i]);
    assert(collides_before(t, i, cs[i]) == collides_before(cs, i, cs[i])) by {
        if collides_before(t, i, cs[i]) {
            let k = choose|k: int| 0 <= k < i && canonical_path_spec(path_segment_spec(#[trigger] t[k]))
                == canonical_path_spec(path_segment_spec(cs[i]));
            assert(t[k] == cs[k]);
        }
        if collides_before(cs, i, cs[i]) {
            let k = choose|k: int| 0 <= k < i && canonical_path_spec(path_segment_spec(#[trigger] cs[k]))
                == canonical_path_spec(path_segment_spec(cs[i]));
            assert(t[k] == cs[k]);
        }
    }
}

/// The first folder name that collides with an earlier channel's folder, if any.
pub fn duplicate_path(channels: &[DiscordChannelSettings]) -> (res: Option<String>)
    ensures
        match res {
            Some(p) => duplicate_path_spec(channels.deep_view()) == Some(p@),
            None => duplicate_path_spec(channels.deep_view()) is None,
        },
{
    let mut seen: Vec<String> = Vec::new();
    let mut i: usize = 0;
    while i < channels.len()
        invariant
            i <= channels@.len(),
            seen@.len() == i,
            forall|k: int| 0 <= k < i ==> (#[trigger] seen@[k])@
                == canonical_path_spec(path_segment_spec(channels@[k]@)),
            duplicate_path_spec(channels.deep_view().take(i as int)) is None,
        decreases channels@.len() - i,
    {
        let path = path_segment(&channels[i]);
        let canonical = canonical_path(path.as_str());
        let mut j: usize = 0;
        while j < seen.len()
            invariant
                i < channels@.len(),
                j <= seen@.len(),
                path@ == path_segment_spec(channels@[i as int]@),
                canonical@ == canonical_path_spec(path@),
                duplicate_path_spec(channels.deep_view().take(i as int)) is None,
                seen@.len() == i,
                forall|k: int| 0 <= k < i ==> (#[trigger] seen@[k])@
                    == canonical_path_spec(path_segment_spec(channels@[k]@)),
                forall|k: int| 0 <= k < j ==> (#[trigger] seen@[k])@ != canonical@,
            decreases seen@.len() - j,
        {
            if seen[j] == canonical {
                proof {
                    assert(channels.deep_view()[j as int] == channels@[j as int]@);
                    assert(seen@[j as int]@ == canonical@);
                    lemma_duplicate_prefix(channels.deep_view(), i as int);
                    assert(collides_before(channels.deep_view(), i as int, channels@[i as int]@));
                    lemma_duplicate_stays(channels.deep_view(), i as int + 1);
                    assert(channels.deep_view().take(i + 1).last() == channels@[i as int]@);
                }
                return Some(path);
            }
            j = j + 1;
        }
        proof {
            lemma_duplicate_prefix(channels.deep_view(), i as int);
            assert(!collides_before(channels.deep_view(), i as int, channels@[i as int]@)) by {
                if collides_before(channels.deep_view(), i as int, channels@[i as int]@) {
                    let k = choose|k: int| 0 <= k < i && canonical_path_spec(path_segment_spec(#[trigger] channels.deep_view()[k]))
                        == canonical_path_spec(path_segment_spec(channels@[i as int]@));
                    assert(seen@[k]@ == canonical@);
                }
            }
        }
        seen.push(canonical);
        i = i + 1;
    }
    assert(channels.deep_view().take(channels@.len() as int) =~= channels.deep_view());
    None
}

/// Once a prefix has a duplicate, every longer prefix reports the same one.
proof fn lemma_duplicate_stays(cs: Seq<ChannelView>, n: int)
    requires
        0 <= n <= cs.len(),
        duplicate_path_spec(cs.take(n)) is Some,
    ensures
        duplicate_path_spec(cs) == duplicate_path_spec(cs.take(n)),
    decreases cs.len() - n,
{
    if n < cs.len() {
        lemma_duplicate_prefix(cs, n);
        lemma_duplicate_stays(cs, n + 1);
    } else {
        assert(cs.take(n) =~= cs);
    }
}

/// `s` without trailing `/` characters.
pub open spec fn trim_end_slashes(s: Seq<char>) -> Seq<char>
    decreases s.len(),
{
    if s.len() > 0 && s.last() == '/' { trim_end_slashes(s.drop_last()) } else { s }
}

/// The folder of a channel below `base`.
pub open spec fn directory_spec(base: Seq<char>, c: ChannelView) -> Seq<char> {
    let b = trim_end_slashes(base);
    if b.len() == 0 { path_segment_spec(c) } else { b + seq!['/'] + path_segment_spec(c) }
}

/// The folder of a channel below `base`.
pub fn directory(base: &str, channel: &DiscordChannelSettings) -> (res: String)
    ensures
        res@ == directory_spec(base@, channel@),
{
    let cs = chars_of(base);
    let mut end: usize = cs.len();
    assert(cs@.take(end as int) =~= cs@);
    while end > 0 && cs[end - 1] == '/'
        invariant
            cs@ == base@,
            end <= cs@.len(),
            trim_end_slashes(base@) == trim_end_slashes(cs@.take(end as int)),
        decreases end,
    {
        assert(cs@.take(end as int).drop_last() =~= cs@.take(end - 1));
        end = end - 1;
    }
    assert(cs@.take(end as int) =~= base@.subrange(0, end as int));
    let segment = path_segment(channel);
    if end == 0 {
        segment
    } else {
        let mut res = String::from_str(base.substring_char(0, end));
        res.append("/");
        res.append(segment.as_str());
        proof { reveal_strlit("/"); }
        res
    }
}

/// The channels with the name of channel `index` replaced by `name`.
pub open spec fn renamed(cs: Seq<ChannelView>, index: int, name: Seq<char>) -> Seq<ChannelView> {
    cs.update(index, ChannelView { name: name, ..cs[index] })
}

/// The outcome of renaming channel `index` to `value`: the trimmed name, or why it is refused.
pub open spec fn rename_spec(cs: Seq<ChannelView>, index: int, value: Seq<char>) -> Result<Seq<char>, Seq<char>> {
    let name = trim_spec(value);
    if is_invalid_name(name) {
        Err(INVALID_NAME@)
    } else if !(0 <= index < cs.len()) {
        Err("Channel no longer exists."@)
    } else {
        match duplicate_path_spec(renamed(cs, index, name)) {
            Some(d) => Err("Channel name is already in use as folder \""@ + d
                + "\". Enter a unique channel name."@),
            None => Ok(name),
        }
    }
}

/// Checks a new name for channel `index` without changing `channels`.
pub fn rename(channels: &[DiscordChannelSettings], index: usize, value: &str) -> (res: Result<String, String>)
    ensures
        match res {
            Ok(n) => rename_spec(channels.deep_view(), index as int, value@) == Ok::<Seq<char>, Seq<char>>(n@),
            Err(e) => rename_spec(channels.deep_view(), index as int, value@) == Err::<Seq<char>, Seq<char>>(e@),
        },
{
    let name = trim(value);
    if let Some(error) = validation_error(name) {
        return Err(String::from_str(error));
    }
    if index >= channels.len() {
        return Err(String::from_str("Channel no longer exists."));
    }
    let mut updated = copy_channels(channels);
    let mut changed = copy_channel(&channels[index]);
    changed.name = String::from_str(name);
    updated.set(index, changed);
    assert(updated.deep_view() =~= renamed(channels.deep_view(), index as int, name@));
    if let Some(duplicate) = duplicate_path(updated.as_slice()) {
        let mut message = String::from_str("Channel name is already in use as folder \"");
        message.append(duplicate.as_str());
        message.append("\". Enter a unique channel name.");
        return Err(message);
    }
    Ok(String::from_str(name))
}

/// Law: a channel's folder name is always a single safe path segment: never empty,
/// never `.` or `..`, and free of the forbidden characters. (An id that itself
/// sanitizes to `.` or `..` is the one exception, and is left out.)
pub proof fn law_path_segment_is_safe(c: ChannelView)
    requires
        !is_dot_name(sanitize_spec(c.id)),
    ensures
        path_segment_spec(c).len() > 0,
        !is_dot_name(path_segment_spec(c)),
        !is_invalid_name(path_segment_spec(c)),
{
    crate::domain::lemma_sanitize_allowed(c.name);
    crate::domain::lemma_sanitize_allowed(c.id);
    let p = path_segment_spec(c);
    let fallback = seq!['c', 'h', 'a', 'n', 'n', 'e', 'l'];
    if p == fallback {
        assert(p[0] == 'c' && p.len() == 7);
        assert(!is_dot_name(p));
        assert forall|i: int| 0 <= i < p.len() implies !is_forbidden_path_char(#[trigger] p[i]) by {}
    }
}

/// Law: a name that passes validation and is already trimmed is used as the folder name unchanged.
pub proof fn law_valid_name_is_its_folder(c: ChannelView)
    requires
        c.name.len() > 0,
        trim_spec(c.name) == c.name,
        !is_invalid_name(c.name),
    ensures
        path_segment_spec(c) == c.name,
{
    crate::domain::lemma_sanitize_clean(c.name);
}

/// Law: a rename that succeeds gives the trimmed name, which is valid, and leaves no two
/// channels sharing a folder.
pub proof fn law_rename_accepts_only_unique_valid_names(cs: Seq<ChannelView>, index: int, value: Seq<char>)
    requires
        rename_spec(cs, index, value) is Ok,
    ensures
        rename_spec(cs, index, value) == Ok::<Seq<char>, Seq<char>>(trim_spec(value)),
        0 <= index < cs.len(),
        !is_invalid_name(trim_spec(value)),
        duplicate_path_spec(renamed(cs, index, trim_spec(value))) is None,
{
}

/// The folder of channel `c` in NFC and then lower case, the form under which folder names
/// are compared.
pub open spec fn folded_folder(c: ChannelView) -> Seq<char> {
    lowercase_form(nfc_form(path_segment_spec(c)))
}

/// A collision is reported exactly when two channels' folders are equal after NFC
/// normalization and lower-casing. With no such pair there is no duplicate; otherwise the
/// reported folder is that of the first channel `j` whose folder equals an earlier one's,
/// and the channels before `j` all have distinct folders.
pub proof fn law_duplicate_iff_same_folded_folder(cs: Seq<ChannelView>)
    ensures
        duplicate_path_spec(cs) is None <==> forall|i: int, j: int|
            0 <= i < j < cs.len() ==> #[trigger] folded_folder(cs[i]) != #[trigger] folded_folder(cs[j]),
        duplicate_path_spec(cs) matches Some(p) ==> exists|j: int| {
            &&& 0 <= j < cs.len()
            &&& p == path_segment_spec(#[trigger] cs[j])
            &&& exists|i: int| 0 <= i < j && folded_folder(#[trigger] cs[i]) == folded_folder(cs[j])
            &&& forall|i2: int, j2: int| 0 <= i2 < j2 < j
                ==> #[trigger] folded_folder(cs[i2]) != #[trigger] folded_folder(cs[j2])
        },
    decreases cs.len(),
{
    if cs.len() > 0 {
        let d = cs.drop_last();
        let n = cs.len() - 1;
        law_duplicate_iff_same_folded_folder(d);
        assert forall|k: int| 0 <= k < n implies #[trigger] d[k] == cs[k] by {}
        match duplicate_path_spec(d) {
            Some(p) => {
                let j = choose|j: int| {
                    &&& 0 <= j < d.len()
                    &&& p == path_segment_spec(#[trigger] d[j])
                    &&& exists|i: int| 0 <= i < j && folded_folder(#[trigger] d[i]) == folded_folder(d[j])
                    &&& forall|i2: int, j2: int| 0 <= i2 < j2 < j
                        ==> #[trigger] folded_folder(d[i2]) != #[trigger] folded_folder(d[j2])
                };
                let i = choose|i: int| 0 <= i < j && folded_folder(#[trigger] d[i]) == folded_folder(d[j]);
                assert(d[i] == cs[i] && d[j] == cs[j]);
                assert forall|i2: int, j2: int| 0 <= i2 < j2 < j implies
                    #[trigger] folded_folder(cs[i2]) != #[trigger] folded_folder(cs[j2]) by {
                    assert(d[i2] == cs[i2] && d[j2] == cs[j2]);
                    assert(folded_folder(d[i2]) != folded_folder(d[j2]));
                }
                assert(exists|i: int| 0 <= i < j && folded_folder(#[trigger] cs[i]) == folded_folder(cs[j]));
            },
            None => {
                assert forall|i2: int, j2: int| 0 <= i2 < j2 < n implies
                    #[trigger] folded_folder(cs[i2]) != #[trigger] folded_folder(cs[j2]) by {
                    assert(d[i2] == cs[i2] && d[j2] == cs[j2]);
                    assert(folded_folder(d[i2]) != folded_folder(d[j2]));
                }
                if collides_before(cs, n, cs.last()) {
                    let i = choose|i: int| 0 <= i < n && canonical_path_spec(path_segment_spec(#[trigger] cs[i]))
                        == canonical_path_spec(path_segment_spec(cs.last()));
                    assert(folded_folder(cs[i]) == folded_folder(cs[n]));
                    assert(exists|i: int| 0 <= i < n && folded_folder(#[trigger] cs[i]) == folded_folder(cs[n]));
                } else {
                    assert forall|i: int, j: int| 0 <= i < j < cs.len() implies
                        #[trigger] folded_folder(cs[i]) != #[trigger] folded_folder(cs[j]) by {
                        if j == n {
                            if folded_folder(cs[i]) == folded_folder(cs[j]) {
                                assert(canonical_path_spec(path_segment_spec(cs[i]))
                                    == canonical_path_spec(path_segment_spec(cs.last())));
                            }
                        }
                    }
                }
            },
        }
    }
}

/// Law: when no duplicate is reported, every two channels have different folders,
/// compared in NFC and lower case.
pub proof fn law_no_duplicate_means_distinct_folders(cs: Seq<ChannelView>, i: int, j: int)
    requires
        duplicate_path_spec(cs) is None,
        0 <= i < j < cs.len(),
    ensures
        canonical_path_spec(path_segment_spec(cs[i])) != canonical_path_spec(path_segment_spec(cs[j])),
    decreases cs.len(),
{
    if j < cs.len() - 1 {
        assert(cs.drop_last()[i] == cs[i] && cs.drop_last()[j] == cs[j]);
        law_no_duplicate_means_distinct_folders(cs.drop_last(), i, j);
    } else {
        if canonical_path_spec(path_segment_spec(cs[i])) == canonical_path_spec(path_segment_spec(cs[j])) {
            assert(collides_before(cs, cs.len() - 1, cs.last()));
        }
    }
}

} // verus!
