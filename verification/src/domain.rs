//! Obsidian-independent domain logic. The host owns I/O and object identity.
use vstd::prelude::*;
use crate::text::{chars_of, push_char};

pub mod channels;
pub mod dates;
pub mod discord;
pub mod headers;
pub mod json;
pub mod messages;
pub mod models;
pub mod settings;
pub mod storage;

verus! {

/// ECMAScript `WhiteSpace` and `LineTerminator`, the set that `String.prototype.trim` removes.
pub open spec fn is_js_whitespace(c: char) -> bool {
    ||| ('\u{0009}' <= c && c <= '\u{000d}')
    ||| c == '\u{0020}'
    ||| c == '\u{00a0}'
    ||| c == '\u{1680}'
    ||| ('\u{2000}' <= c && c <= '\u{200a}')
    ||| c == '\u{2028}'
    ||| c == '\u{2029}'
    ||| c == '\u{202f}'
    ||| c == '\u{205f}'
    ||| c == '\u{3000}'
    ||| c == '\u{feff}'
}

/// ECMAScript trim/whitespace, kept explicit for existing settings compatibility.
pub fn js_whitespace(c: char) -> (res: bool)
    ensures
        res == is_js_whitespace(c),
{
    ('\u{0009}' <= c && c <= '\u{000d}') || c == '\u{0020}' || c == '\u{00a0}' || c == '\u{1680}'
        || ('\u{2000}' <= c && c <= '\u{200a}') || c == '\u{2028}' || c == '\u{2029}'
        || c == '\u{202f}' || c == '\u{205f}' || c == '\u{3000}' || c == '\u{feff}'
}

/// `s` without its leading JS whitespace.
pub open spec fn trim_start_spec(s: Seq<char>) -> Seq<char>
    decreases s.len(),
{
    if s.len() > 0 && is_js_whitespace(s[0]) {
        trim_start_spec(s.skip(1))
    } else {
        s
    }
}

/// `s` without its trailing JS whitespace.
pub open spec fn trim_end_spec(s: Seq<char>) -> Seq<char>
    decreases s.len(),
{
    if s.len() > 0 && is_js_whitespace(s.last()) {
        trim_end_spec(s.drop_last())
    } else {
        s
    }
}

/// `s` without its leading and trailing JS whitespace.
pub open spec fn trim_spec(s: Seq<char>) -> Seq<char> {
    trim_end_spec(trim_start_spec(s))
}

proof fn lemma_trim_start_skip(s: Seq<char>, k: int)
    requires
        0 <= k < s.len(),
        is_js_whitespace(s[k]),
    ensures
        trim_start_spec(s.skip(k)) == trim_start_spec(s.skip(k + 1)),
{
    assert(s.skip(k).skip(1) =~= s.skip(k + 1));
}

proof fn lemma_trim_end_take(s: Seq<char>, k: int)
    requires
        0 < k <= s.len(),
        is_js_whitespace(s[k - 1]),
    ensures
        trim_end_spec(s.take(k)) == trim_end_spec(s.take(k - 1)),
{
    assert(s.take(k).drop_last() =~= s.take(k - 1));
}

/// Removes leading and trailing JS whitespace.
pub fn trim(value: &str) -> (res: &str)
    ensures
        res@ == trim_spec(value@),
{
    let cs = chars_of(value);
    let n = cs.len();
    let mut start: usize = 0;
    assert(cs@.skip(0) =~= cs@);
    while start < n && js_whitespace(cs[start])
        invariant
            cs@ == value@,
            n == cs@.len(),
            start <= n,
            trim_start_spec(cs@) == trim_start_spec(cs@.skip(start as int)),
        decreases n - start,
    {
        proof { lemma_trim_start_skip(cs@, start as int); }
        start = start + 1;
    }
    let ghost rest = cs@.skip(start as int);
    assert(trim_start_spec(rest) == rest);
    let mut end: usize = n;
    assert(rest.take(rest.len() as int) =~= rest);
    while end > start && js_whitespace(cs[end - 1])
        invariant
            cs@ == value@,
            n == cs@.len(),
            start <= end <= n,
            rest == cs@.skip(start as int),
            trim_end_spec(rest) == trim_end_spec(rest.take(end - start)),
        decreases end,
    {
        proof { lemma_trim_end_take(rest, end - start); }
        end = end - 1;
    }
    assert(trim_end_spec(rest.take(end - start)) == rest.take(end - start));
    assert(rest.take(end - start) =~= value@.subrange(start as int, end as int));
    value.substring_char(start, end)
}

proof fn lemma_trim_start_shape(s: Seq<char>)
    ensures
        exists|k: int| 0 <= k <= s.len() && trim_start_spec(s) == s.skip(k),
        trim_start_spec(s).len() > 0 ==> !is_js_whitespace(trim_start_spec(s)[0]),
    decreases s.len(),
{
    if s.len() > 0 && is_js_whitespace(s[0]) {
        lemma_trim_start_shape(s.skip(1));
        let k = choose|k: int| 0 <= k <= s.skip(1).len() && trim_start_spec(s.skip(1)) == s.skip(1).skip(k);
        assert(s.skip(1).skip(k) =~= s.skip(k + 1));
    } else {
        assert(s.skip(0) =~= s);
    }
}

proof fn lemma_trim_end_shape(s: Seq<char>)
    ensures
        exists|k: int| 0 <= k <= s.len() && trim_end_spec(s) == s.take(k),
        trim_end_spec(s).len() > 0 ==> !is_js_whitespace(trim_end_spec(s).last()),
    decreases s.len(),
{
    if s.len() > 0 && is_js_whitespace(s.last()) {
        lemma_trim_end_shape(s.drop_last());
        let k = choose|k: int| 0 <= k <= s.drop_last().len() && trim_end_spec(s.drop_last()) == s.drop_last().take(k);
        assert(s.drop_last().take(k) =~= s.take(k));
    } else {
        assert(s.take(s.len() as int) =~= s);
    }
}

/// The result of `trim` has no JS whitespace at either end.
pub proof fn lemma_trim_ends(s: Seq<char>)
    ensures
        trim_spec(s).len() > 0 ==> !is_js_whitespace(trim_spec(s)[0]),
        trim_spec(s).len() > 0 ==> !is_js_whitespace(trim_spec(s).last()),
        trim_start_spec(trim_spec(s)) == trim_spec(s),
        trim_end_spec(trim_spec(s)) == trim_spec(s),
{
    lemma_trim_start_shape(s);
    let t = trim_start_spec(s);
    lemma_trim_end_shape(t);
    let k = choose|k: int| 0 <= k <= t.len() && trim_end_spec(t) == t.take(k);
    if trim_spec(s).len() > 0 {
        assert(trim_spec(s)[0] == t[0]);
    }
}

/// Law: trimming twice is the same as trimming once.
pub proof fn law_trim_idempotent(s: Seq<char>)
    ensures
        trim_spec(trim_spec(s)) == trim_spec(s),
{
    lemma_trim_ends(s);
}

/// Characters that Obsidian and common file systems forbid in a path segment.
pub open spec fn is_forbidden_path_char(c: char) -> bool {
    ||| c == '\\' ||| c == '/' ||| c == ':' ||| c == '*' ||| c == '?' ||| c == '"'
    ||| c == '<' ||| c == '>' ||| c == '|' ||| c == '#' ||| c == '^' ||| c == '[' ||| c == ']'
}

/// Whether `c` is forbidden in a path segment.
pub fn forbidden_path_char(c: char) -> (res: bool)
    ensures
        res == is_forbidden_path_char(c),
{
    c == '\\' || c == '/' || c == ':' || c == '*' || c == '?' || c == '"' || c == '<' || c == '>'
        || c == '|' || c == '#' || c == '^' || c == '[' || c == ']'
}

/// Each forbidden character of `s` replaced by `-`.
pub open spec fn replace_forbidden(s: Seq<char>) -> Seq<char> {
    s.map_values(|c: char| if is_forbidden_path_char(c) { '-' } else { c })
}

/// A path segment made from free text: forbidden characters become `-`,
/// and surrounding whitespace is removed.
pub open spec fn sanitize_spec(s: Seq<char>) -> Seq<char> {
    trim_spec(replace_forbidden(s))
}

/// Makes free text usable as a single path segment.
pub fn sanitize_path_segment(value: &str) -> (res: String)
    ensures
        res@ == sanitize_spec(value@),
{
    let cs = chars_of(value);
    let mut out = String::new();
    let mut i: usize = 0;
    while i < cs.len()
        invariant
            cs@ == value@,
            i <= cs@.len(),
            out@ == replace_forbidden(cs@.take(i as int)),
        decreases cs@.len() - i,
    {
        let c = cs[i];
        if forbidden_path_char(c) {
            push_char(&mut out, '-');
        } else {
            push_char(&mut out, c);
        }
        i = i + 1;
        assert(out@ =~= replace_forbidden(cs@.take(i as int)));
    }
    assert(cs@.take(cs@.len() as int) =~= cs@);
    let trimmed = trim(out.as_str());
    String::from_str(trimmed)
}

/// Separators that must not end a shortened segment.
pub open spec fn is_separator(c: char) -> bool {
    is_js_whitespace(c) || c == '-'
}

/// `s` without its trailing separators.
pub open spec fn drop_trailing_separators(s: Seq<char>) -> Seq<char>
    decreases s.len(),
{
    if s.len() > 0 && is_separator(s.last()) {
        drop_trailing_separators(s.drop_last())
    } else {
        s
    }
}

/// `s` cut to at most `max` characters; a cut never leaves a separator at the end.
pub open spec fn truncate_spec(s: Seq<char>, max: nat) -> Seq<char> {
    if s.len() <= max {
        s
    } else {
        drop_trailing_separators(s.take(max as int))
    }
}

/// Shortens a path segment to at most `max` characters.
pub fn truncate_path_segment(value: &str, max: usize) -> (res: String)
    ensures
        res@ == truncate_spec(value@, max as nat),
{
    let cs = chars_of(value);
    if cs.len() <= max {
        return String::from_str(value);
    }
    let mut end: usize = max;
    let ghost head = cs@.take(max as int);
    assert(head.take(max as int) =~= head);
    while end > 0 && (js_whitespace(cs[end - 1]) || cs[end - 1] == '-')
        invariant
            cs@ == value@,
            max < cs@.len(),
            end <= max,
            head == cs@.take(max as int),
            drop_trailing_separators(head) == drop_trailing_separators(head.take(end as int)),
        decreases end,
    {
        assert(head.take(end as int).drop_last() =~= head.take(end - 1));
        end = end - 1;
    }
    assert(head.take(end as int) =~= value@.subrange(0, end as int));
    String::from_str(value.substring_char(0, end))
}

/// `trim` keeps a contiguous part of its input.
pub proof fn lemma_trim_is_subrange(s: Seq<char>)
    ensures
        exists|i: int, j: int| 0 <= i <= j <= s.len() && trim_spec(s) == s.subrange(i, j),
{
    lemma_trim_start_shape(s);
    let k = choose|k: int| 0 <= k <= s.len() && trim_start_spec(s) == s.skip(k);
    let t = trim_start_spec(s);
    lemma_trim_end_shape(t);
    let m = choose|m: int| 0 <= m <= t.len() && trim_end_spec(t) == t.take(m);
    assert(trim_spec(s) =~= s.subrange(k, k + m));
}

/// A sanitized segment holds no forbidden character.
pub proof fn lemma_sanitize_allowed(s: Seq<char>)
    ensures
        forall|i: int| 0 <= i < sanitize_spec(s).len() ==> !is_forbidden_path_char(#[trigger] sanitize_spec(s)[i]),
{
    let r = replace_forbidden(s);
    lemma_trim_is_subrange(r);
    let (a, b) = choose|a: int, b: int| 0 <= a <= b <= r.len() && trim_spec(r) == r.subrange(a, b);
    assert forall|i: int| 0 <= i < sanitize_spec(s).len() implies !is_forbidden_path_char(#[trigger] sanitize_spec(s)[i]) by {
        assert(sanitize_spec(s)[i] == r[a + i]);
    }
}

/// Sanitizing text that is already trimmed and free of forbidden characters keeps it as it is.
pub proof fn lemma_sanitize_clean(s: Seq<char>)
    requires
        trim_spec(s) == s,
        forall|i: int| 0 <= i < s.len() ==> !is_forbidden_path_char(#[trigger] s[i]),
    ensures
        sanitize_spec(s) == s,
{
    assert(replace_forbidden(s) =~= s);
}

} // verus!
