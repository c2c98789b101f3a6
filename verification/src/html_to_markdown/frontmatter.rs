//! Front-matter values: the page title, the source URL, and their YAML notation.
use vstd::prelude::*;
use crate::domain::{trim, trim_spec};
use crate::html_to_markdown::dom::{Dom, KindView, NodeKind, NodeView};
use crate::html_to_markdown::text::{attr, attribute, collapse, collapse_whitespace, lemma_kind, text_content, text_of};
use crate::text::{chars_of, push_char, same_text};

verus! {

/// Whether a node is an element named `name`.
pub open spec fn is_named(k: KindView, name: Seq<char>) -> bool {
    k matches KindView::Element(n, _) && n == name
}

/// The first element named `name` at or after position `from`.
pub open spec fn first_named(nodes: Seq<NodeView>, name: Seq<char>, from: int) -> Option<int>
    decreases nodes.len() - from,
{
    if from < 0 || from >= nodes.len() {
        None
    } else if is_named(nodes[from].kind, name) {
        Some(from)
    } else {
        first_named(nodes, name, from + 1)
    }
}

/// Whether a node is a `meta` element whose attribute `key` is `value`.
pub open spec fn is_meta_with(k: KindView, key: Seq<char>, value: Seq<char>) -> bool {
    k matches KindView::Element(n, attrs) && n == "meta"@ && attr(attrs, key) == Some(value)
}

/// The first `meta` element whose attribute `key` is `value`, at or after `from`.
pub open spec fn first_meta(nodes: Seq<NodeView>, key: Seq<char>, value: Seq<char>, from: int) -> Option<int>
    decreases nodes.len() - from,
{
    if from < 0 || from >= nodes.len() {
        None
    } else if is_meta_with(nodes[from].kind, key, value) {
        Some(from)
    } else {
        first_meta(nodes, key, value, from + 1)
    }
}

/// Whether `n` names a heading element.
pub open spec fn is_heading_name(n: Seq<char>) -> bool {
    n == "h1"@ || n == "h2"@ || n == "h3"@ || n == "h4"@ || n == "h5"@ || n == "h6"@
}

/// The first heading element at or after `from`.
pub open spec fn first_heading(nodes: Seq<NodeView>, from: int) -> Option<int>
    decreases nodes.len() - from,
{
    if from < 0 || from >= nodes.len() {
        None
    } else if nodes[from].kind matches KindView::Element(n, _) && is_heading_name(n) {
        Some(from)
    } else {
        first_heading(nodes, from + 1)
    }
}

/// Text with whitespace runs collapsed and the ends trimmed, if anything is left.
pub open spec fn usable_text(s: Seq<char>) -> Option<Seq<char>> {
    let t = trim_spec(collapse(s));
    if t.len() > 0 { Some(t) } else { None }
}

/// The usable `content` of the first `meta` element whose `key` attribute is `value`.
pub open spec fn meta_text(nodes: Seq<NodeView>, key: Seq<char>, value: Seq<char>) -> Option<Seq<char>> {
    match first_meta(nodes, key, value, 0) {
        Some(i) => match nodes[i].kind {
            KindView::Element(_, attrs) => match attr(attrs, "content"@) {
                Some(c) => usable_text(c),
                None => None,
            },
            _ => None,
        },
        None => None,
    }
}

/// The usable text of the first element found, if any.
pub open spec fn element_text(nodes: Seq<NodeView>, found: Option<int>) -> Option<Seq<char>> {
    match found {
        Some(i) => usable_text(text_of(nodes, i)),
        None => None,
    }
}

/// The page title: `<title>`, `<meta name="title">`, the OGP title, the Twitter title,
/// then the first heading; the first of these with text wins.
pub open spec fn title_spec(nodes: Seq<NodeView>) -> Option<Seq<char>> {
    if element_text(nodes, first_named(nodes, "title"@, 0)) is Some {
        element_text(nodes, first_named(nodes, "title"@, 0))
    } else if meta_text(nodes, "name"@, "title"@) is Some {
        meta_text(nodes, "name"@, "title"@)
    } else if meta_text(nodes, "property"@, "og:title"@) is Some {
        meta_text(nodes, "property"@, "og:title"@)
    } else if meta_text(nodes, "name"@, "twitter:title"@) is Some {
        meta_text(nodes, "name"@, "twitter:title"@)
    } else {
        element_text(nodes, first_heading(nodes, 0))
    }
}

/// The first element named `name` from `from` on is the one at `i` when `i` is such an
/// element and none lies between.
proof fn lemma_first_named_at(nodes: Seq<NodeView>, name: Seq<char>, from: int, i: int)
    requires
        0 <= from <= i < nodes.len(),
        is_named(nodes[i].kind, name),
        forall|j: int| from <= j < i ==> !is_named(#[trigger] nodes[j].kind, name),
    ensures
        first_named(nodes, name, from) == Some(i),
    decreases i - from,
{
    if from < i {
        lemma_first_named_at(nodes, name, from + 1, i);
    }
}

/// A page's `<title>` decides its title: when the first `title` element has text that is not
/// blank, the title is that text with whitespace runs collapsed and the ends trimmed, whatever
/// `meta`, OGP or Twitter titles and headings the page also has.
pub proof fn law_title_element_wins(nodes: Seq<NodeView>, i: int)
    requires
        0 <= i < nodes.len(),
        is_named(nodes[i].kind, "title"@),
        forall|j: int| 0 <= j < i ==> !is_named(#[trigger] nodes[j].kind, "title"@),
        trim_spec(collapse(text_of(nodes, i))).len() > 0,
    ensures
        title_spec(nodes) == Some(trim_spec(collapse(text_of(nodes, i)))),
{
    lemma_first_named_at(nodes, "title"@, 0, i);
}

/// Without a usable `<title>`, the title falls back in this order: `<meta name="title">`,
/// `<meta property="og:title">`, `<meta name="twitter:title">`, then the first heading; each
/// source is used only when all the earlier ones have no text, and without any the page has
/// no title.
pub proof fn law_title_falls_back_in_order(nodes: Seq<NodeView>)
    requires
        element_text(nodes, first_named(nodes, "title"@, 0)) is None,
    ensures
        meta_text(nodes, "name"@, "title"@) is Some
            ==> title_spec(nodes) == meta_text(nodes, "name"@, "title"@),
        meta_text(nodes, "name"@, "title"@) is None && meta_text(nodes, "property"@, "og:title"@) is Some
            ==> title_spec(nodes) == meta_text(nodes, "property"@, "og:title"@),
        meta_text(nodes, "name"@, "title"@) is None && meta_text(nodes, "property"@, "og:title"@) is None
            && meta_text(nodes, "name"@, "twitter:title"@) is Some
            ==> title_spec(nodes) == meta_text(nodes, "name"@, "twitter:title"@),
        meta_text(nodes, "name"@, "title"@) is None && meta_text(nodes, "property"@, "og:title"@) is None
            && meta_text(nodes, "name"@, "twitter:title"@) is None
            ==> title_spec(nodes) == element_text(nodes, first_heading(nodes, 0)),
{
}

fn usable(s: &str) -> (res: Option<String>)
    ensures
        match res {
            Some(t) => usable_text(s@) == Some(t@),
            None => usable_text(s@) is None,
        },
{
    let collapsed = collapse_whitespace(s);
    let t = trim(collapsed.as_str());
    if t.is_empty() { None } else { Some(String::from_str(t)) }
}

fn find_named(dom: &Dom, name: &str) -> (res: Option<usize>)
    requires
        dom.wf(),
    ensures
        match res {
            Some(i) => first_named(dom.view_nodes(), name@, 0) == Some(i as int) && i < dom.nodes@.len(),
            None => first_named(dom.view_nodes(), name@, 0) is None,
        },
{
    let ghost nodes = dom.view_nodes();
    let mut i: usize = 0;
    while i < dom.nodes.len()
        invariant
            nodes == dom.view_nodes(),
            i <= dom.nodes@.len(),
            first_named(nodes, name@, 0) == first_named(nodes, name@, i as int),
        decreases dom.nodes@.len() - i,
    {
        proof { lemma_kind(dom, i as int); }
        if let NodeKind::Element(n, _) = &dom.nodes[i].1 {
            if same_text(n.as_str(), name) {
                return Some(i);
            }
        }
        i = i + 1;
    }
    None
}

fn heading_name(n: &str) -> (res: bool)
    ensures
        res == is_heading_name(n@),
{
    same_text(n, "h1") || same_text(n, "h2") || same_text(n, "h3") || same_text(n, "h4")
        || same_text(n, "h5") || same_text(n, "h6")
}

fn find_heading(dom: &Dom) -> (res: Option<usize>)
    requires
        dom.wf(),
    ensures
        match res {
            Some(i) => first_heading(dom.view_nodes(), 0) == Some(i as int) && i < dom.nodes@.len(),
            None => first_heading(dom.view_nodes(), 0) is None,
        },
{
    let ghost nodes = dom.view_nodes();
    let mut i: usize = 0;
    while i < dom.nodes.len()
        invariant
            nodes == dom.view_nodes(),
            i <= dom.nodes@.len(),
            first_heading(nodes, 0) == first_heading(nodes, i as int),
        decreases dom.nodes@.len() - i,
    {
        proof { lemma_kind(dom, i as int); }
        if let NodeKind::Element(n, _) = &dom.nodes[i].1 {
            if heading_name(n.as_str()) {
                return Some(i);
            }
        }
        i = i + 1;
    }
    None
}

fn find_meta(dom: &Dom, key: &str, value: &str) -> (res: Option<usize>)
    requires
        dom.wf(),
    ensures
        match res {
            Some(i) => first_meta(dom.view_nodes(), key@, value@, 0) == Some(i as int) && i < dom.nodes@.len(),
            None => first_meta(dom.view_nodes(), key@, value@, 0) is None,
        },
{
    let ghost nodes = dom.view_nodes();
    let mut i: usize = 0;
    while i < dom.nodes.len()
        invariant
            nodes == dom.view_nodes(),
            i <= dom.nodes@.len(),
            first_meta(nodes, key@, value@, 0) == first_meta(nodes, key@, value@, i as int),
        decreases dom.nodes@.len() - i,
    {
        proof { lemma_kind(dom, i as int); }
        if let NodeKind::Element(n, attrs) = &dom.nodes[i].1 {
            if same_text(n.as_str(), "meta") {
                if let Some(v) = attribute(attrs, key) {
                    if same_text(v.as_str(), value) {
                        return Some(i);
                    }
                }
            }
        }
        i = i + 1;
    }
    None
}

fn meta_content(dom: &Dom, key: &str, value: &str) -> (res: Option<String>)
    requires
        dom.wf(),
    ensures
        match res {
            Some(t) => meta_text(dom.view_nodes(), key@, value@) == Some(t@),
            None => meta_text(dom.view_nodes(), key@, value@) is None,
        },
{
    match find_meta(dom, key, value) {
        Some(i) => {
            proof { lemma_kind(dom, i as int); }
            match &dom.nodes[i].1 {
                NodeKind::Element(_, attrs) => match attribute(attrs, "content") {
                    Some(c) => usable(c.as_str()),
                    None => None,
                },
                _ => None,
            }
        },
        None => None,
    }
}

fn found_text(dom: &Dom, found: Option<usize>) -> (res: Option<String>)
    requires
        dom.wf(),
        found matches Some(i) ==> i < dom.nodes@.len(),
    ensures
        match res {
            Some(t) => element_text(dom.view_nodes(), match found { Some(i) => Some(i as int), None => None }) == Some(t@),
            None => element_text(dom.view_nodes(), match found { Some(i) => Some(i as int), None => None }) is None,
        },
{
    match found {
        Some(i) => {
            let t = text_content(dom, i);
            usable(t.as_str())
        },
        None => None,
    }
}

/// The page title of a parsed document.
pub fn title(dom: &Dom) -> (res: Option<String>)
    requires
        dom.wf(),
    ensures
        match res {
            Some(t) => title_spec(dom.view_nodes()) == Some(t@),
            None => title_spec(dom.view_nodes()) is None,
        },
{
    let from_title = found_text(dom, find_named(dom, "title"));
    if from_title.is_some() {
        return from_title;
    }
    let from_meta = meta_content(dom, "name", "title");
    if from_meta.is_some() {
        return from_meta;
    }
    let from_ogp = meta_content(dom, "property", "og:title");
    if from_ogp.is_some() {
        return from_ogp;
    }
    let from_twitter = meta_content(dom, "name", "twitter:title");
    if from_twitter.is_some() {
        return from_twitter;
    }
    found_text(dom, find_heading(dom))
}

/// The publication date of the page: `<meta property="article:published_time">`, then
/// `<meta name="date">`; the first of these with text wins.
pub open spec fn date_spec(nodes: Seq<NodeView>) -> Option<Seq<char>> {
    if meta_text(nodes, "property"@, "article:published_time"@) is Some {
        meta_text(nodes, "property"@, "article:published_time"@)
    } else {
        meta_text(nodes, "name"@, "date"@)
    }
}

/// The tags of the page: the text of `<meta name="keywords">`.
pub open spec fn tags_spec(nodes: Seq<NodeView>) -> Option<Seq<char>> {
    meta_text(nodes, "name"@, "keywords"@)
}

/// The publication date of a parsed document, as `date_spec` gives it.
pub fn date(dom: &Dom) -> (res: Option<String>)
    requires
        dom.wf(),
    ensures
        match res {
            Some(t) => date_spec(dom.view_nodes()) == Some(t@),
            None => date_spec(dom.view_nodes()) is None,
        },
{
    let published = meta_content(dom, "property", "article:published_time");
    if published.is_some() {
        return published;
    }
    meta_content(dom, "name", "date")
}

/// The tags of a parsed document, as `tags_spec` gives them.
pub fn tags(dom: &Dom) -> (res: Option<String>)
    requires
        dom.wf(),
    ensures
        match res {
            Some(t) => tags_spec(dom.view_nodes()) == Some(t@),
            None => tags_spec(dom.view_nodes()) is None,
        },
{
    meta_content(dom, "name", "keywords")
}

/// Upper-case hexadecimal digit of `d < 16`.
pub open spec fn hex_digit(d: nat) -> char {
    if d < 10 { ('0' as nat + d) as char } else { ('A' as nat + (d - 10)) as char }
}

/// The escape of one character inside a double-quoted YAML scalar: `"` and `\` get a
/// backslash, control characters below U+0020 become `\uXXXX`, the rest stays.
pub open spec fn yaml_piece(c: char) -> Seq<char> {
    if c == '"' {
        seq!['\\', '"']
    } else if c == '\\' {
        seq!['\\', '\\']
    } else if (c as u32) < 0x20 {
        seq!['\\', 'u', '0', '0', hex_digit(((c as u32) / 16) as nat), hex_digit(((c as u32) % 16) as nat)]
    } else {
        seq![c]
    }
}

/// The escaped body of a double-quoted YAML scalar.
pub open spec fn yaml_escape(s: Seq<char>) -> Seq<char>
    decreases s.len(),
{
    if s.len() == 0 {
        Seq::empty()
    } else {
        yaml_escape(s.drop_last()) + yaml_piece(s.last())
    }
}

/// `s` as a double-quoted YAML scalar.
pub open spec fn yaml_string(s: Seq<char>) -> Seq<char> {
    seq!['"'] + yaml_escape(s) + seq!['"']
}

fn hex(d: u32) -> (c: char)
    requires
        d < 16,
    ensures
        c == hex_digit(d as nat),
{
    if d == 0 { '0' } else if d == 1 { '1' } else if d == 2 { '2' } else if d == 3 { '3' }
    else if d == 4 { '4' } else if d == 5 { '5' } else if d == 6 { '6' } else if d == 7 { '7' }
    else if d == 8 { '8' } else if d == 9 { '9' } else if d == 10 { 'A' } else if d == 11 { 'B' }
    else if d == 12 { 'C' } else if d == 13 { 'D' } else if d == 14 { 'E' } else { 'F' }
}

/// Writes `value` as a double-quoted YAML scalar.
pub fn serialize_yaml_string(value: &str) -> (res: String)
    ensures
        res@ == yaml_string(value@),
{
    let cs = chars_of(value);
    let mut res = String::new();
    push_char(&mut res, '"');
    let mut i: usize = 0;
    while i < cs.len()
        invariant
            cs@ == value@,
            i <= cs@.len(),
            res@ == seq!['"'] + yaml_escape(cs@.take(i as int)),
        decreases cs@.len() - i,
    {
        let c = cs[i];
        let ghost before = res@;
        if c == '"' {
            push_char(&mut res, '\\');
            push_char(&mut res, '"');
        } else if c == '\\' {
            push_char(&mut res, '\\');
            push_char(&mut res, '\\');
        } else if (c as u32) < 0x20 {
            let code = c as u32;
            push_char(&mut res, '\\');
            push_char(&mut res, 'u');
            push_char(&mut res, '0');
            push_char(&mut res, '0');
            push_char(&mut res, hex(code / 16));
            push_char(&mut res, hex(code % 16));
        } else {
            push_char(&mut res, c);
        }
        assert(cs@.take(i + 1).drop_last() =~= cs@.take(i as int));
        assert(res@ =~= before + yaml_piece(c));
        i = i + 1;
    }
    assert(cs@.take(cs@.len() as int) =~= cs@);
    push_char(&mut res, '"');
    res
}

/// Every character of an escaped piece is printable: none is below U+0020.
proof fn lemma_piece_printable(c: char)
    ensures
        forall|k: int| 0 <= k < yaml_piece(c).len() ==> (#[trigger] yaml_piece(c)[k]) as u32 >= 0x20,
{
    if (c as u32) < 0x20 {
        let hi = ((c as u32) / 16) as nat;
        let lo = ((c as u32) % 16) as nat;
        assert(hi < 16 && lo < 16);
        assert(hex_digit(hi) as u32 >= 0x30);
        assert(hex_digit(lo) as u32 >= 0x30);
    }
}

/// A value written by `serialize_yaml_string` holds no control character, so no line
/// break: whatever the text, its front-matter entry stays on one line, and it is
/// enclosed in double quotes.
pub proof fn law_yaml_string_is_one_line(s: Seq<char>)
    ensures
        yaml_string(s).len() >= 2,
        yaml_string(s)[0] == '"',
        yaml_string(s).last() == '"',
        forall|k: int| 0 <= k < yaml_string(s).len() ==> (#[trigger] yaml_string(s)[k]) as u32 >= 0x20,
{
    lemma_escape_printable(s);
}

proof fn lemma_escape_printable(s: Seq<char>)
    ensures
        forall|k: int| 0 <= k < yaml_escape(s).len() ==> (#[trigger] yaml_escape(s)[k]) as u32 >= 0x20,
    decreases s.len(),
{
    if s.len() > 0 {
        lemma_escape_printable(s.drop_last());
        lemma_piece_printable(s.last());
        let a = yaml_escape(s.drop_last());
        let b = yaml_piece(s.last());
        assert forall|k: int| 0 <= k < (a + b).len() implies ((a + b)[k]) as u32 >= 0x20 by {
            if k < a.len() {
                assert((a + b)[k] == a[k]);
            } else {
                assert((a + b)[k] == b[k - a.len()]);
            }
        }
    }
}

} // verus!
