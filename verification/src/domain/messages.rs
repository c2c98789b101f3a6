//! The URL of a message, and the clipping that a message becomes.
use vstd::prelude::*;
use crate::domain::dates::{local, local_spec, LocalView};
use crate::domain::models::{DiscordMessage, ProcessedMessage};
use crate::domain::{sanitize_path_segment, sanitize_spec, trim, trim_spec, truncate_path_segment, truncate_spec};
use crate::text::{chars_of, push_char, string_from_range};

verus! {

/// The longest title, in characters, that a clipping's file name keeps.
pub const MAX_TITLE_LENGTH: usize = 100;

/// Whitespace in the sense of a regex `\s`: tab, line feed, vertical tab, form feed,
/// carriage return and space.
pub open spec fn is_url_space(c: char) -> bool {
    c == '\t' || c == '\n' || c == '\u{b}' || c == '\u{c}' || c == '\r' || c == ' '
}

fn url_space(c: char) -> (res: bool)
    ensures
        res == is_url_space(c),
{
    c == '\t' || c == '\n' || c == '\u{b}' || c == '\u{c}' || c == '\r' || c == ' '
}

/// Number of consecutive non-space characters of `t` from position `j`.
pub open spec fn run_len(t: Seq<char>, j: int) -> nat
    decreases t.len() - j,
{
    if 0 <= j < t.len() && !is_url_space(t[j]) {
        1 + run_len(t, j + 1)
    } else {
        0
    }
}

/// Whether `t` holds `p` at position `i`.
pub open spec fn has_at(t: Seq<char>, i: int, p: Seq<char>) -> bool {
    0 <= i && i + p.len() <= t.len() && t.subrange(i, i + p.len()) == p
}

/// Length of the URL (`https?://` and at least one non-space character) at position `i`, or 0.
pub open spec fn url_len_at(t: Seq<char>, i: int) -> nat {
    if has_at(t, i, seq!['h', 't', 't', 'p', 's', ':', '/', '/']) && run_len(t, i + 8) > 0 {
        8 + run_len(t, i + 8)
    } else if has_at(t, i, seq!['h', 't', 't', 'p', ':', '/', '/']) && run_len(t, i + 7) > 0 {
        7 + run_len(t, i + 7)
    } else {
        0
    }
}

/// The leftmost URL of `t` at or after position `i`.
pub open spec fn first_url_from(t: Seq<char>, i: int) -> Option<Seq<char>>
    decreases t.len() - i,
{
    if i < 0 || i >= t.len() {
        None
    } else if url_len_at(t, i) > 0 {
        Some(t.subrange(i, i + url_len_at(t, i)))
    } else {
        first_url_from(t, i + 1)
    }
}

/// The first URL of a message: the leftmost `https?://\S+` of the trimmed text.
pub open spec fn extract_url_spec(input: Seq<char>) -> Option<Seq<char>> {
    first_url_from(trim_spec(input), 0)
}

fn run_from(cs: &Vec<char>, j: usize) -> (res: usize)
    requires
        j <= cs@.len(),
    ensures
        res == run_len(cs@, j as int),
        j + res <= cs@.len(),
{
    let mut k = j;
    while k < cs.len() && !url_space(cs[k])
        invariant
            j <= k <= cs@.len(),
            run_len(cs@, j as int) == (k - j) + run_len(cs@, k as int),
        decreases cs@.len() - k,
    {
        k = k + 1;
    }
    k - j
}

fn at(cs: &Vec<char>, i: usize, p: &[char]) -> (res: bool)
    ensures
        res == has_at(cs@, i as int, p@),
{
    if i > cs.len() || p.len() > cs.len() - i {
        return false;
    }
    let mut k: usize = 0;
    while k < p.len()
        invariant
            i + p@.len() <= cs@.len(),
            cs@.len() <= usize::MAX,
            k <= p@.len(),
            forall|m: int| 0 <= m < k ==> cs@[i + m] == p@[m],
        decreases p@.len() - k,
    {
        if cs[i + k] != p[k] {
            assert(cs@.subrange(i as int, i + p@.len())[k as int] != p@[k as int]);
            return false;
        }
        k = k + 1;
    }
    assert(cs@.subrange(i as int, i + p@.len()) =~= p@);
    true
}

/// Every message in the channel is expected to be a link; messages without one are ignored.
pub fn extract_url(input: &str) -> (res: Option<String>)
    ensures
        match res {
            Some(u) => extract_url_spec(input@) == Some(u@),
            None => extract_url_spec(input@) is None,
        },
{
    let cs = chars_of(trim(input));
    let https: [char; 8] = ['h', 't', 't', 'p', 's', ':', '/', '/'];
    let http: [char; 7] = ['h', 't', 't', 'p', ':', '/', '/'];
    assert(https@ == seq!['h', 't', 't', 'p', 's', ':', '/', '/']);
    assert(http@ == seq!['h', 't', 't', 'p', ':', '/', '/']);
    let mut i: usize = 0;
    while i < cs.len()
        invariant
            cs@ == trim_spec(input@),
            i <= cs@.len(),
            https@ == seq!['h', 't', 't', 'p', 's', ':', '/', '/'],
            http@ == seq!['h', 't', 't', 'p', ':', '/', '/'],
            first_url_from(cs@, 0) == first_url_from(cs@, i as int),
        decreases cs@.len() - i,
    {
        let mut len: usize = 0;
        if at(&cs, i, &https) {
            let r = run_from(&cs, i + 8);
            if r > 0 {
                len = 8 + r;
            }
        }
        if len == 0 && at(&cs, i, &http) {
            let r = run_from(&cs, i + 7);
            if r > 0 {
                len = 7 + r;
            }
        }
        assert(len == url_len_at(cs@, i as int));
        if len > 0 {
            return Some(string_from_range(&cs, i, i + len));
        }
        i = i + 1;
    }
    None
}

/// The part of a clipping's file name after the timestamp: the sanitized and shortened
/// title, or the message id when there is no usable title.
pub open spec fn file_name_suffix_spec(title: Option<Seq<char>>, message_id: Seq<char>) -> Seq<char> {
    match title {
        Some(t) => {
            let slug = truncate_spec(sanitize_spec(t), MAX_TITLE_LENGTH as nat);
            if slug.len() > 0 { slug } else { message_id }
        },
        None => message_id,
    }
}

/// Falls back to the message id when there is no usable article title, so
/// every clipping still gets a unique, non-empty file name.
fn file_name_suffix(title: Option<&str>, message_id: &str) -> (res: String)
    ensures
        res@ == file_name_suffix_spec(
            match title { Some(t) => Some(t@), None => None },
            message_id@,
        ),
{
    match title {
        Some(t) => {
            let sanitized = sanitize_path_segment(t);
            let slug = truncate_path_segment(sanitized.as_str(), MAX_TITLE_LENGTH);
            if slug.as_str().is_empty() {
                String::from_str(message_id)
            } else {
                slug
            }
        },
        None => String::from_str(message_id),
    }
}

/// The trimmed text of an optional name, if it is not blank.
pub open spec fn usable(name: Option<String>) -> Option<Seq<char>> {
    match name {
        Some(n) => if trim_spec(n@).len() > 0 { Some(trim_spec(n@)) } else { None },
        None => None,
    }
}

/// The member nickname of a message's author, if any.
pub open spec fn nick_of(m: DiscordMessage) -> Option<String> {
    match m.member {
        Some(member) => member.nick,
        None => None,
    }
}

/// The author's display name, if any.
pub open spec fn global_name_of(m: DiscordMessage) -> Option<String> {
    match m.author {
        Some(a) => a.global_name,
        None => None,
    }
}

/// The author's user name, if any.
pub open spec fn username_of(m: DiscordMessage) -> Option<String> {
    match m.author {
        Some(a) => a.username,
        None => None,
    }
}

/// The author's id, if any.
pub open spec fn author_id_of(m: DiscordMessage) -> Option<String> {
    match m.author {
        Some(a) => a.id,
        None => None,
    }
}

/// The name a clipping credits: the first non-blank of nickname, display name and
/// user name (trimmed), else the non-empty author id, else `Unknown`.
pub open spec fn author_name_spec(m: DiscordMessage) -> Seq<char> {
    if usable(nick_of(m)) is Some {
        usable(nick_of(m))->0
    } else if usable(global_name_of(m)) is Some {
        usable(global_name_of(m))->0
    } else if usable(username_of(m)) is Some {
        usable(username_of(m))->0
    } else if author_id_of(m) matches Some(id) && id@.len() > 0 {
        author_id_of(m)->0@
    } else {
        "Unknown"@
    }
}

fn usable_name(name: &Option<String>) -> (res: Option<&str>)
    ensures
        match res {
            Some(r) => usable(*name) == Some(r@),
            None => usable(*name) is None,
        },
{
    match name {
        Some(n) => {
            let t = trim(n.as_str());
            if t.is_empty() { None } else { Some(t) }
        },
        None => None,
    }
}

fn author_name(message: &DiscordMessage) -> (res: String)
    ensures
        res@ == author_name_spec(*message),
{
    let nick: &Option<String> = match &message.member {
        Some(member) => &member.nick,
        None => &None,
    };
    if let Some(n) = usable_name(nick) {
        return String::from_str(n);
    }
    let (global, user, id): (&Option<String>, &Option<String>, &Option<String>) = match &message.author {
        Some(a) => (&a.global_name, &a.username, &a.id),
        None => (&None, &None, &None),
    };
    if let Some(n) = usable_name(global) {
        return String::from_str(n);
    }
    if let Some(n) = usable_name(user) {
        return String::from_str(n);
    }
    if let Some(i) = id {
        if !i.as_str().is_empty() {
            return i.clone();
        }
    }
    String::from_str("Unknown")
}

/// What a processed message holds, given the local time of its timestamp.
pub open spec fn processed_fields(
    p: ProcessedMessage,
    markdown: Seq<char>,
    title: Option<Seq<char>>,
    message: DiscordMessage,
    l: LocalView,
) -> bool {
    &&& p.file_name@ == l.file_timestamp + seq!['_'] + file_name_suffix_spec(title, message.id@)
    &&& p.message_id@ == message.id@
    &&& p.timestamp@ == message.timestamp@
    &&& p.author_id@ == (match author_id_of(message) { Some(id) => id@, None => Seq::<char>::empty() })
    &&& p.author_name@ == author_name_spec(message)
    &&& p.markdown@ == markdown
}

/// Turns a message and its page's Markdown into a clipping named
/// `YYYYMMDD_HHMMSS_<title or message id>` in the zone `zone`.
pub fn processed(
    markdown: String,
    title: Option<&str>,
    message: DiscordMessage,
    zone: &str,
) -> (res: Result<ProcessedMessage, String>)
    ensures
        match res {
            Ok(p) => local_spec(message.timestamp@, zone@) matches Ok(l) && processed_fields(
                p,
                markdown@,
                match title { Some(t) => Some(t@), None => None },
                message,
                l,
            ),
            Err(e) => local_spec(message.timestamp@, zone@) == Err::<LocalView, Seq<char>>(e@),
        },
{
    let name = author_name(&message);
    let local_time = match local(message.timestamp.as_str(), zone) {
        Ok(l) => l,
        Err(e) => return Err(e),
    };
    let mut file_name = local_time.file_timestamp.clone();
    push_char(&mut file_name, '_');
    let suffix = file_name_suffix(title, message.id.as_str());
    file_name.append(suffix.as_str());
    let author_id = match &message.author {
        Some(a) => match &a.id {
            Some(id) => id.clone(),
            None => String::new(),
        },
        None => String::new(),
    };
    let ghost m = message;
    let res = ProcessedMessage {
        message_id: message.id,
        timestamp: message.timestamp,
        author_id,
        author_name: name,
        markdown,
        file_name,
    };
    assert(res.file_name@ =~= local_time@.file_timestamp + seq!['_'] + file_name_suffix_spec(
        match title { Some(t) => Some(t@), None => None },
        m.id@,
    ));
    Ok(res)
}

/// Whether `u` occurs in `t` at position `a`.
pub open spec fn piece_at(u: Seq<char>, t: Seq<char>, a: int) -> bool {
    0 <= a && a + u.len() <= t.len() && u == t.subrange(a, a + u.len())
}

proof fn lemma_run_is_non_space(t: Seq<char>, j: int)
    requires
        0 <= j,
    ensures
        j + run_len(t, j) <= t.len() || run_len(t, j) == 0,
        forall|k: int| j <= k < j + run_len(t, j) ==> 0 <= k < t.len() && !is_url_space(#[trigger] t[k]),
    decreases t.len() - j,
{
    if 0 <= j < t.len() && !is_url_space(t[j]) {
        lemma_run_is_non_space(t, j + 1);
    }
}

proof fn lemma_first_url_shape(t: Seq<char>, i: int)
    requires
        0 <= i,
    ensures
        first_url_from(t, i) matches Some(u) ==> {
            &&& exists|a: int| #[trigger] piece_at(u, t, a)
            &&& (has_at(u, 0, seq!['h', 't', 't', 'p', 's', ':', '/', '/']) && u.len() > 8)
                || (has_at(u, 0, seq!['h', 't', 't', 'p', ':', '/', '/']) && u.len() > 7)
        },
    decreases t.len() - i,
{
    if 0 <= i < t.len() {
        if url_len_at(t, i) > 0 {
            let n = url_len_at(t, i);
            let u = t.subrange(i, i + n);
            if has_at(t, i, seq!['h', 't', 't', 'p', 's', ':', '/', '/']) && run_len(t, i + 8) > 0 {
                lemma_run_is_non_space(t, i + 8);
                assert(u.subrange(0, 8) =~= t.subrange(i, i + 8));
            } else {
                lemma_run_is_non_space(t, i + 7);
                assert(u.subrange(0, 7) =~= t.subrange(i, i + 7));
            }
            assert(piece_at(u, t, i));
        } else {
            lemma_first_url_shape(t, i + 1);
        }
    }
}

/// Law: an extracted URL is a piece of the trimmed message that begins with `http://`
/// or `https://` followed by at least one more character.
pub proof fn law_extracted_url_is_a_link(input: Seq<char>)
    ensures
        extract_url_spec(input) matches Some(u) ==> {
            &&& exists|a: int| #[trigger] piece_at(u, trim_spec(input), a)
            &&& (has_at(u, 0, seq!['h', 't', 't', 'p', 's', ':', '/', '/']) && u.len() > 8)
                || (has_at(u, 0, seq!['h', 't', 't', 'p', ':', '/', '/']) && u.len() > 7)
        },
{
    lemma_first_url_shape(trim_spec(input), 0);
}

/// Whitespace as the regex class `\s` matches it in ASCII text: tab, line feed, vertical
/// tab, form feed, carriage return and space.
pub open spec fn is_regex_space(c: char) -> bool {
    c == '\u{9}' || c == '\u{a}' || c == '\u{b}' || c == '\u{c}' || c == '\u{d}' || c == '\u{20}'
}

/// Whether the regex `https?://\S+` matches `t` at position `b`.
pub open spec fn url_match_at(t: Seq<char>, b: int) -> bool {
    ||| has_at(t, b, seq!['h', 't', 't', 'p', 's', ':', '/', '/']) && b + 8 < t.len() && !is_regex_space(t[b + 8])
    ||| has_at(t, b, seq!['h', 't', 't', 'p', ':', '/', '/']) && b + 7 < t.len() && !is_regex_space(t[b + 7])
}

/// A run of non-space characters ends at a space or at the end of the text.
proof fn lemma_run_end(t: Seq<char>, j: int)
    requires
        0 <= j <= t.len(),
    ensures
        j + run_len(t, j) <= t.len(),
        j + run_len(t, j) == t.len() || is_regex_space(t[j + run_len(t, j)]),
    decreases t.len() - j,
{
    if j < t.len() && !is_url_space(t[j]) {
        lemma_run_end(t, j + 1);
    }
}

/// A URL found at `b` is exactly what the regex matches there: from `b` up to the next
/// space or the end of the text.
proof fn lemma_url_at(t: Seq<char>, b: int)
    requires
        0 <= b < t.len(),
    ensures
        url_len_at(t, b) > 0 <==> url_match_at(t, b),
        url_len_at(t, b) > 0 ==> {
            let u = t.subrange(b, b + url_len_at(t, b));
            &&& b + url_len_at(t, b) <= t.len()
            &&& forall|k: int| 0 <= k < u.len() ==> !is_regex_space(#[trigger] u[k])
            &&& b + u.len() == t.len() || is_regex_space(t[b + u.len()])
        },
{
    let s8 = seq!['h', 't', 't', 'p', 's', ':', '/', '/'];
    let s7 = seq!['h', 't', 't', 'p', ':', '/', '/'];
    if b + 8 <= t.len() {
        lemma_run_end(t, b + 8);
        lemma_run_is_non_space(t, b + 8);
    }
    if b + 7 <= t.len() {
        lemma_run_end(t, b + 7);
        lemma_run_is_non_space(t, b + 7);
    }
    if has_at(t, b, s8) && run_len(t, b + 8) > 0 {
        let u = t.subrange(b, b + url_len_at(t, b));
        assert forall|k: int| 0 <= k < u.len() implies !is_regex_space(#[trigger] u[k]) by {
            if k < 8 {
                assert(t.subrange(b, b + 8)[k] == t[b + k]);
                assert(u[k] == s8[k]);
            } else {
                assert(u[k] == t[b + k]);
            }
        }
    } else if has_at(t, b, s7) && run_len(t, b + 7) > 0 {
        let u = t.subrange(b, b + url_len_at(t, b));
        assert forall|k: int| 0 <= k < u.len() implies !is_regex_space(#[trigger] u[k]) by {
            if k < 7 {
                assert(t.subrange(b, b + 7)[k] == t[b + k]);
                assert(u[k] == s7[k]);
            } else {
                assert(u[k] == t[b + k]);
            }
        }
    }
}

/// The leftmost regex match at or after `i`, as `first_url_from` finds it.
proof fn lemma_first_url_is_leftmost_match(t: Seq<char>, i: int) -> (a: int)
    requires
        0 <= i,
    ensures
        first_url_from(t, i) is None ==> forall|b: int| i <= b < t.len() ==> !#[trigger] url_match_at(t, b),
        first_url_from(t, i) matches Some(u) ==> {
            &&& i <= a
            &&& piece_at(u, t, a)
            &&& url_match_at(t, a)
            &&& forall|b: int| i <= b < a ==> !#[trigger] url_match_at(t, b)
            &&& forall|k: int| 0 <= k < u.len() ==> !is_regex_space(#[trigger] u[k])
            &&& a + u.len() == t.len() || is_regex_space(t[a + u.len()])
        },
    decreases t.len() - i,
{
    if i >= t.len() {
        i
    } else {
        lemma_url_at(t, i);
        if url_len_at(t, i) > 0 {
            i
        } else {
            let a = lemma_first_url_is_leftmost_match(t, i + 1);
            assert forall|b: int| i <= b < t.len() && first_url_from(t, i) is None implies !#[trigger] url_match_at(t, b) by {
                if b == i {
                } else {
                    assert(i + 1 <= b);
                }
            }
            a
        }
    }
}

/// The URL of a message is the leftmost match of the regex `https?://\S+` in the trimmed
/// text, taken as far as it goes: it starts where the regex first matches, holds no
/// whitespace, and ends only at whitespace or at the end of the text; without a match there
/// is no URL.
pub proof fn law_url_is_the_leftmost_regex_match(input: Seq<char>)
    ensures
        extract_url_spec(input) is None
            <==> forall|b: int| 0 <= b < trim_spec(input).len() ==> !#[trigger] url_match_at(trim_spec(input), b),
        extract_url_spec(input) matches Some(u) ==> exists|a: int| {
            &&& #[trigger] piece_at(u, trim_spec(input), a)
            &&& url_match_at(trim_spec(input), a)
            &&& forall|b: int| 0 <= b < a ==> !#[trigger] url_match_at(trim_spec(input), b)
            &&& forall|k: int| 0 <= k < u.len() ==> !is_regex_space(#[trigger] u[k])
            &&& a + u.len() == trim_spec(input).len() || is_regex_space(trim_spec(input)[a + u.len()])
        },
{
    let t = trim_spec(input);
    let a = lemma_first_url_is_leftmost_match(t, 0);
    if extract_url_spec(input) is Some {
        let u = extract_url_spec(input)->0;
        assert(piece_at(u, t, a));
        assert(0 <= a < t.len());
        assert(url_match_at(t, a));
    }
}

/// Whether an optional name is missing or blank once trimmed.
pub open spec fn is_blank_name(name: Option<String>) -> bool {
    match name {
        Some(n) => trim_spec(n@).len() == 0,
        None => true,
    }
}

/// The name a clipping credits is the member nickname when it is not blank; else the
/// author's display name (`global_name`) when that is not blank, whatever the user name is;
/// else the user name; each trimmed. With all three blank it is the author id, or `Unknown`
/// without one.
pub proof fn law_author_name_prefers_nick_then_display_name(m: DiscordMessage)
    ensures
        ({
            let nick = match m.member { Some(mb) => mb.nick, None => None };
            !is_blank_name(nick) ==> author_name_spec(m) == trim_spec(nick->0@)
        }),
        ({
            let nick = match m.member { Some(mb) => mb.nick, None => None };
            let display = match m.author { Some(a) => a.global_name, None => None };
            is_blank_name(nick) && !is_blank_name(display) ==> author_name_spec(m) == trim_spec(display->0@)
        }),
        ({
            let nick = match m.member { Some(mb) => mb.nick, None => None };
            let display = match m.author { Some(a) => a.global_name, None => None };
            let user = match m.author { Some(a) => a.username, None => None };
            is_blank_name(nick) && is_blank_name(display) && !is_blank_name(user)
                ==> author_name_spec(m) == trim_spec(user->0@)
        }),
        ({
            let nick = match m.member { Some(mb) => mb.nick, None => None };
            let display = match m.author { Some(a) => a.global_name, None => None };
            let user = match m.author { Some(a) => a.username, None => None };
            is_blank_name(nick) && is_blank_name(display) && is_blank_name(user)
                ==> author_name_spec(m) == match m.author {
                    Some(a) => match a.id {
                        Some(id) => if id@.len() > 0 { id@ } else { "Unknown"@ },
                        None => "Unknown"@,
                    },
                    None => "Unknown"@,
                }
        }),
{
}

/// Law: a message without `http` in it has no URL.
pub proof fn law_no_scheme_no_url(input: Seq<char>)
    requires
        forall|i: int| 0 <= i < trim_spec(input).len() ==> (#[trigger] trim_spec(input)[i]) != 'h',
    ensures
        extract_url_spec(input) is None,
{
    let t = trim_spec(input);
    assert forall|i: int| 0 <= i < t.len() implies url_len_at(t, i) == 0 by {
        if has_at(t, i, seq!['h', 't', 't', 'p', 's', ':', '/', '/']) {
            assert(t.subrange(i, i + 8)[0] == t[i]);
        }
        if has_at(t, i, seq!['h', 't', 't', 'p', ':', '/', '/']) {
            assert(t.subrange(i, i + 7)[0] == t[i]);
        }
    }
    lemma_no_url_from(t, 0);
}

proof fn lemma_no_url_from(t: Seq<char>, i: int)
    requires
        0 <= i,
        forall|k: int| 0 <= k < t.len() ==> url_len_at(t, k) == 0,
    ensures
        first_url_from(t, i) is None,
    decreases t.len() - i,
{
    if i < t.len() {
        lemma_no_url_from(t, i + 1);
    }
}

/// Law: every clipping gets a non-empty file name suffix when its message id is not empty.
pub proof fn law_file_name_suffix_is_never_empty(title: Option<Seq<char>>, message_id: Seq<char>)
    requires
        message_id.len() > 0,
    ensures
        file_name_suffix_spec(title, message_id).len() > 0,
{
}

} // verus!
