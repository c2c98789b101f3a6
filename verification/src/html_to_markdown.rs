//! HTML to Markdown with front-matter extraction.
pub mod dom;
pub mod frontmatter;
pub mod render;
pub mod text;

use vstd::prelude::*;
use crate::html_to_markdown::dom::{build_dom, kids, parse_html, parsed_html, Dom, KindView, NodeView};
use crate::html_to_markdown::frontmatter::{
    date, date_spec, first_named, serialize_yaml_string, tags, tags_spec, title, title_spec, yaml_string,
};
use crate::html_to_markdown::render::{blocks_of, flow, hashes, inline_of, inlines, join, join_blocks, render_blocks};
use crate::html_to_markdown::text::collapse;
use crate::domain::trim_spec;
use crate::text::{push_char, same_text};

verus! {

/// Why a conversion failed. html5ever reads any text as a document, so `convert` and
/// `extract_title` never return it; it keeps their results fallible for callers.
#[derive(Debug, Clone, Copy, PartialEq, Eq)]
pub enum ConvertError {
    /// The HTML could not be read.
    Parse,
}

/// The node whose content becomes the Markdown body: the first `article`, else the first
/// `body`, else the document.
pub open spec fn start_node(nodes: Seq<NodeView>) -> int {
    match first_named(nodes, "article"@, 0) {
        Some(i) => i,
        None => match first_named(nodes, "body"@, 0) {
            Some(i) => i,
            None => 0,
        },
    }
}

/// The value of front-matter key `key`: the page title for `title`, the URL for `source`,
/// the publication date for `date`, the keywords for `tags`, nothing for other keys.
pub open spec fn frontmatter_value(nodes: Seq<NodeView>, url: Seq<char>, key: Seq<char>) -> Option<Seq<char>> {
    if key == "title"@ {
        title_spec(nodes)
    } else if key == "source"@ {
        Some(url)
    } else if key == "date"@ {
        date_spec(nodes)
    } else if key == "tags"@ {
        tags_spec(nodes)
    } else {
        None
    }
}

/// The front-matter lines `key: "value"` for the keys that have a value, in the order of `keys`.
pub open spec fn frontmatter_entries(nodes: Seq<NodeView>, url: Seq<char>, keys: Seq<Seq<char>>) -> Seq<Seq<char>>
    decreases keys.len(),
{
    if keys.len() == 0 {
        Seq::empty()
    } else {
        let before = frontmatter_entries(nodes, url, keys.drop_last());
        match frontmatter_value(nodes, url, keys.last()) {
            Some(v) => before.push(keys.last() + ": "@ + yaml_string(v)),
            None => before,
        }
    }
}

/// Each entry followed by a line break.
pub open spec fn lines(entries: Seq<Seq<char>>) -> Seq<char>
    decreases entries.len(),
{
    if entries.len() == 0 {
        Seq::empty()
    } else {
        lines(entries.drop_last()) + entries.last() + seq!['\n']
    }
}

/// The front-matter block: nothing without entries, else the entries between `---` lines
/// and a blank line.
pub open spec fn frontmatter_block(entries: Seq<Seq<char>>) -> Seq<char> {
    if entries.len() == 0 { Seq::empty() } else { "---\n"@ + lines(entries) + "---\n\n"@ }
}

/// The Markdown of a parsed document: the front matter, then the body's blocks separated by
/// blank lines.
pub open spec fn markdown_spec(url: Seq<char>, nodes: Seq<NodeView>, keys: Seq<Seq<char>>) -> Seq<char> {
    frontmatter_block(frontmatter_entries(nodes, url, keys)) + join(blocks_of(nodes, start_node(nodes)), "\n\n"@)
}

fn find_element(dom: &Dom, name: &str) -> (res: Option<usize>)
    requires
        dom.wf(),
    ensures
        match res {
            Some(i) => first_named(dom.view_nodes(), name@, 0) == Some(i as int) && i < dom.nodes@.len(),
            None => first_named(dom.view_nodes(), name@, 0) is None,
        },
{
    let ghost nodes = dom.view_nodes();
    let mut i: usize = 0;
    while i < dom.nodes.len()
        invariant
            nodes == dom.view_nodes(),
            i <= dom.nodes@.len(),
            first_named(nodes, name@, 0) == first_named(nodes, name@, i as int),
        decreases dom.nodes@.len() - i,
    {
        proof { crate::html_to_markdown::text::lemma_kind(dom, i as int); }
        if let crate::html_to_markdown::dom::NodeKind::Element(n, _) = &dom.nodes[i].1 {
            if same_text(n.as_str(), name) {
                return Some(i);
            }
        }
        i = i + 1;
    }
    None
}

/// The Markdown of a parsed document, with the front matter for `keys`.
pub fn convert_document(url: &str, dom: &Dom, keys: &[&str]) -> (res: String)
    requires
        dom.wf(),
    ensures
        res@ == markdown_spec(url@, dom.view_nodes(), keys@.map_values(|k: &str| k@)),
{
    let ghost nodes = dom.view_nodes();
    let ghost key_views = keys@.map_values(|k: &str| k@);
    let page_title = title(dom);
    let mut entries: Vec<String> = Vec::new();
    let mut k: usize = 0;
    assert(entries.deep_view() =~= Seq::<Seq<char>>::empty());
    assert(key_views.take(0) =~= Seq::<Seq<char>>::empty());
    while k < keys.len()
        invariant
            dom.wf(),
            nodes == dom.view_nodes(),
            key_views == keys@.map_values(|k: &str| k@),
            k <= keys@.len(),
            match page_title {
                Some(t) => title_spec(nodes) == Some(t@),
                None => title_spec(nodes) is None,
            },
            entries.deep_view() == frontmatter_entries(nodes, url@, key_views.take(k as int)),
        decreases keys@.len() - k,
    {
        let key = keys[k];
        let ghost t = key_views.take(k + 1);
        assert(t.drop_last() =~= key_views.take(k as int));
        assert(t.last() == key@);
        let value: Option<String> = if same_text(key, "title") {
            match &page_title {
                Some(v) => Some(v.clone()),
                None => None,
            }
        } else if same_text(key, "source") {
            Some(String::from_str(url))
        } else if same_text(key, "date") {
            date(dom)
        } else if same_text(key, "tags") {
            tags(dom)
        } else {
            None
        };
        if let Some(v) = value {
            let mut entry = String::from_str(key);
            entry.append(": ");
            let quoted = serialize_yaml_string(v.as_str());
            entry.append(quoted.as_str());
            let ghost before = entries.deep_view();
            entries.push(entry);
            assert(entries.deep_view() =~= before.push(entry@));
        }
        k = k + 1;
    }
    assert(key_views.take(keys@.len() as int) =~= key_views);
    let mut markdown = String::new();
    if entries.len() > 0 {
        markdown.append("---\n");
        let mut e: usize = 0;
        let ghost es = entries.deep_view();
        assert(es.take(0) =~= Seq::<Seq<char>>::empty());
        while e < entries.len()
            invariant
                es == entries.deep_view(),
                e <= es.len(),
                markdown@ == "---\n"@ + lines(es.take(e as int)),
            decreases es.len() - e,
        {
            assert(es.take(e + 1).drop_last() =~= es.take(e as int));
            markdown.append(entries[e].as_str());
            push_char(&mut markdown, '\n');
            e = e + 1;
            assert(markdown@ =~= "---\n"@ + lines(es.take(e as int)));
        }
        assert(es.take(es.len() as int) =~= es);
        markdown.append("---\n\n");
    }
    let ghost head = markdown@;
    assert(head == frontmatter_block(frontmatter_entries(nodes, url@, key_views)));
    if dom.nodes.len() > 0 {
        let start = match find_element(dom, "article") {
            Some(i) => i,
            None => match find_element(dom, "body") {
                Some(i) => i,
                None => 0,
            },
        };
        let blocks = render_blocks(dom, start);
        let body = join_blocks(&blocks, "\n\n");
        markdown.append(body.as_str());
    } else {
        assert(blocks_of(nodes, start_node(nodes)) =~= Seq::<Seq<char>>::empty());
        assert(join(Seq::<Seq<char>>::empty(), "\n\n"@) =~= Seq::<char>::empty());
        assert(markdown@ =~= head + Seq::<char>::empty());
    }
    markdown
}

/// Convert HTML to Markdown with front-matter extraction.
///
/// `url` is where the page comes from, `html` its content, `keys` the front-matter keys to
/// fill (`title`, `source`); with no keys the result has no front matter.
pub fn convert(url: &str, html: &str, keys: &[&str]) -> (res: Result<String, ConvertError>)
    ensures
        res matches Ok(m) && m@ == markdown_spec(url@, parsed_html(html@), keys@.map_values(|k: &str| k@)),
{
    let dom = build_dom(parse_html(html));
    Ok(convert_document(url, &dom, keys))
}

/// Extract just the page title, without rendering the rest of the document.
///
/// Uses the same extractor as the `title` front-matter key of `convert`.
pub fn extract_title(url: &str, html: &str) -> (res: Result<Option<String>, ConvertError>)
    ensures
        res matches Ok(t) && match t {
            Some(v) => title_spec(parsed_html(html@)) == Some(v@),
            None => title_spec(parsed_html(html@)) is None,
        },
{
    let dom = build_dom(parse_html(html));
    Ok(title(&dom))
}

/// With no front-matter keys, the Markdown is the rendered body alone: no `---` block.
pub proof fn law_no_keys_no_front_matter(url: Seq<char>, nodes: Seq<NodeView>)
    ensures
        markdown_spec(url, nodes, Seq::empty()) == join(blocks_of(nodes, start_node(nodes)), "\n\n"@),
{
    assert(frontmatter_entries(nodes, url, Seq::empty()) =~= Seq::<Seq<char>>::empty());
    assert(markdown_spec(url, nodes, Seq::empty()) =~= join(blocks_of(nodes, start_node(nodes)), "\n\n"@));
}

/// The `title` entry of the front matter carries exactly the title that `extract_title`
/// gives for the same page; a page without a title gets no front matter for that key.
pub proof fn law_title_entry_is_extracted_title(url: Seq<char>, nodes: Seq<NodeView>)
    ensures
        frontmatter_entries(nodes, url, seq!["title"@]) == match title_spec(nodes) {
            Some(t) => seq!["title"@ + ": "@ + yaml_string(t)],
            None => Seq::<Seq<char>>::empty(),
        },
{
    let keys = seq!["title"@];
    assert(keys.drop_last() =~= Seq::<Seq<char>>::empty());
    assert(keys.last() == "title"@);
    assert(frontmatter_entries(nodes, url, keys.drop_last()) =~= Seq::<Seq<char>>::empty());
    match title_spec(nodes) {
        Some(t) => {
            assert(Seq::<Seq<char>>::empty().push("title"@ + ": "@ + yaml_string(t))
                =~= seq!["title"@ + ": "@ + yaml_string(t)]);
        },
        None => {},
    }
}

/// The blocks of a `p` element whose one child is a text node: that text, with whitespace
/// runs collapsed and the ends trimmed, as a single block.
proof fn lemma_text_paragraph(nodes: Seq<NodeView>, p: int, t: int, x: Seq<char>)
    requires
        0 <= p < nodes.len(),
        nodes[p].kind matches KindView::Element(n, _) && n == "p"@,
        kids(nodes, p) == seq![t],
        0 <= t < nodes.len(),
        nodes[t].kind == KindView::Text(x),
        trim_spec(collapse(x)).len() > 0,
    ensures
        blocks_of(nodes, p) == seq![trim_spec(collapse(x))],
{
    reveal_strlit("p");
    reveal_strlit("head");
    reveal_strlit("script");
    reveal_strlit("style");
    reveal_strlit("noscript");
    reveal_strlit("template");
    reveal_strlit("title");
    reveal_strlit("h1");
    reveal_strlit("h2");
    reveal_strlit("h3");
    reveal_strlit("h4");
    reveal_strlit("h5");
    reveal_strlit("h6");
    reveal_strlit("li");
    reveal_strlit("pre");
    reveal_strlit("hr");
    crate::html_to_markdown::dom::lemma_kids_after_parent(nodes, p);
    assert(kids(nodes, p)[0] == t);
    assert(p < t < nodes.len());
    assert(inline_of(nodes, t) == collapse(x));
    assert(flow(nodes, p, 0) == (Seq::<Seq<char>>::empty(), Seq::<char>::empty()));
    assert(flow(nodes, p, 1) == (Seq::<Seq<char>>::empty(), collapse(x)));
    assert(seq![trim_spec(collapse(x))] =~= Seq::<Seq<char>>::empty().push(trim_spec(collapse(x))));
    let n = "p"@;
    assert(n.len() == 1);
    assert("head"@.len() == 4);
    assert(n != "head"@);
    assert(nodes[p].kind matches KindView::Element(m, _) && m == n);
    assert(!crate::html_to_markdown::render::is_skipped_name(n));
    assert(crate::html_to_markdown::render::heading_level(n) == 0);
    assert(n != "li"@ && n != "pre"@ && n != "hr"@);
    assert(kids(nodes, p).len() == 1);
}

/// Two paragraphs side by side in the body are two Markdown blocks: a body made of two `p`
/// elements with texts `x` and `y` renders as the text of the first, a blank line, and the
/// text of the second (each with whitespace runs collapsed and ends trimmed); the two texts
/// are never run together.
pub proof fn law_sibling_paragraphs_are_separate_blocks(
    url: Seq<char>,
    nodes: Seq<NodeView>,
    b: int,
    p1: int,
    p2: int,
    t1: int,
    t2: int,
    x: Seq<char>,
    y: Seq<char>,
)
    requires
        start_node(nodes) == b,
        0 <= b < nodes.len(),
        nodes[b].kind matches KindView::Element(n, _) && n == "body"@,
        kids(nodes, b) == seq![p1, p2],
        0 <= p1 < nodes.len(),
        0 <= p2 < nodes.len(),
        0 <= t1 < nodes.len(),
        0 <= t2 < nodes.len(),
        nodes[p1].kind matches KindView::Element(n, _) && n == "p"@,
        nodes[p2].kind matches KindView::Element(n, _) && n == "p"@,
        kids(nodes, p1) == seq![t1],
        kids(nodes, p2) == seq![t2],
        nodes[t1].kind == KindView::Text(x),
        nodes[t2].kind == KindView::Text(y),
        trim_spec(collapse(x)).len() > 0,
        trim_spec(collapse(y)).len() > 0,
    ensures
        markdown_spec(url, nodes, Seq::empty())
            == trim_spec(collapse(x)) + "\n\n"@ + trim_spec(collapse(y)),
{
    reveal_strlit("body");
    reveal_strlit("p");
    reveal_strlit("head");
    reveal_strlit("script");
    reveal_strlit("style");
    reveal_strlit("noscript");
    reveal_strlit("template");
    reveal_strlit("title");
    reveal_strlit("h1");
    reveal_strlit("h2");
    reveal_strlit("h3");
    reveal_strlit("h4");
    reveal_strlit("h5");
    reveal_strlit("h6");
    reveal_strlit("li");
    reveal_strlit("pre");
    reveal_strlit("hr");
    crate::html_to_markdown::dom::lemma_kids_after_parent(nodes, b);
    assert(kids(nodes, b)[0] == p1 && kids(nodes, b)[1] == p2);
    assert(b < p1 < nodes.len() && b < p2 < nodes.len());
    let a = trim_spec(collapse(x));
    let c = trim_spec(collapse(y));
    lemma_text_paragraph(nodes, p1, t1, x);
    lemma_text_paragraph(nodes, p2, t2, y);
    let empty_blocks = Seq::<Seq<char>>::empty();
    assert(flow(nodes, b, 0) == (empty_blocks, Seq::<char>::empty()));
    assert(flow(nodes, b, 1) == (empty_blocks + seq![a], Seq::<char>::empty()));
    assert(empty_blocks + seq![a] =~= seq![a]);
    assert(flow(nodes, b, 2) == (seq![a] + seq![c], Seq::<char>::empty()));
    assert(seq![a] + seq![c] =~= seq![a, c]);
    let n = "body"@;
    assert(n.len() == 4 && n[0] == 'b');
    assert("head"@.len() == 4 && "head"@[0] == 'h');
    assert(n != "head"@);
    assert(nodes[b].kind matches KindView::Element(m, _) && m == n);
    assert(!crate::html_to_markdown::render::is_skipped_name(n));
    assert(crate::html_to_markdown::render::heading_level(n) == 0);
    assert(n != "li"@ && n != "pre"@ && n != "hr"@);
    assert(kids(nodes, b).len() == 2);
    assert(blocks_of(nodes, b) == seq![a, c]);
    assert(seq![a, c].drop_last() =~= seq![a]);
    assert(join(seq![a], "\n\n"@) == a);
    assert(seq![a, c].last() == c);
    assert(join(seq![a, c], "\n\n"@) == a + "\n\n"@ + c);
    law_no_keys_no_front_matter(url, nodes);
}

/// The blocks of an `h1` element whose one child is a text node: `# ` and that text, with
/// whitespace runs collapsed and the ends trimmed.
proof fn lemma_text_heading(nodes: Seq<NodeView>, h: int, t: int, x: Seq<char>)
    requires
        0 <= h < nodes.len(),
        nodes[h].kind matches KindView::Element(n, _) && n == "h1"@,
        kids(nodes, h) == seq![t],
        0 <= t < nodes.len(),
        nodes[t].kind == KindView::Text(x),
        trim_spec(collapse(x)).len() > 0,
    ensures
        blocks_of(nodes, h) == seq!["# "@ + trim_spec(collapse(x))],
{
    reveal_strlit("h1");
    reveal_strlit("# ");
    reveal_strlit("head");
    reveal_strlit("script");
    reveal_strlit("style");
    reveal_strlit("noscript");
    reveal_strlit("template");
    reveal_strlit("title");
    crate::html_to_markdown::dom::lemma_kids_after_parent(nodes, h);
    assert(kids(nodes, h)[0] == t);
    assert(h < t < nodes.len());
    assert(inline_of(nodes, t) == collapse(x));
    assert(inlines(nodes, h, 0) == Seq::<char>::empty());
    assert(inlines(nodes, h, 1) =~= collapse(x));
    let n = "h1"@;
    assert(n.len() == 2 && n[0] == 'h' && n[1] == '1');
    assert(nodes[h].kind matches KindView::Element(m, _) && m == n);
    assert(!crate::html_to_markdown::render::is_skipped_name(n));
    assert(crate::html_to_markdown::render::heading_level(n) == 1);
    assert(kids(nodes, h).len() == 1);
    assert(hashes(1) + seq![' '] =~= "# "@);
}

/// A heading followed by a paragraph in the body: `# `, the heading's text, a blank line,
/// then the paragraph's text (each with whitespace runs collapsed and ends trimmed).
pub proof fn law_heading_then_paragraph(
    url: Seq<char>,
    nodes: Seq<NodeView>,
    b: int,
    h: int,
    p: int,
    t1: int,
    t2: int,
    x: Seq<char>,
    y: Seq<char>,
)
    requires
        start_node(nodes) == b,
        0 <= b < nodes.len(),
        nodes[b].kind matches KindView::Element(n, _) && n == "body"@,
        kids(nodes, b) == seq![h, p],
        0 <= h < nodes.len(),
        0 <= p < nodes.len(),
        0 <= t1 < nodes.len(),
        0 <= t2 < nodes.len(),
        nodes[h].kind matches KindView::Element(n, _) && n == "h1"@,
        nodes[p].kind matches KindView::Element(n, _) && n == "p"@,
        kids(nodes, h) == seq![t1],
        kids(nodes, p) == seq![t2],
        nodes[t1].kind == KindView::Text(x),
        nodes[t2].kind == KindView::Text(y),
        trim_spec(collapse(x)).len() > 0,
        trim_spec(collapse(y)).len() > 0,
    ensures
        markdown_spec(url, nodes, Seq::empty())
            == "# "@ + trim_spec(collapse(x)) + "\n\n"@ + trim_spec(collapse(y)),
{
    reveal_strlit("body");
    reveal_strlit("h1");
    reveal_strlit("head");
    reveal_strlit("script");
    reveal_strlit("style");
    reveal_strlit("noscript");
    reveal_strlit("template");
    reveal_strlit("title");
    reveal_strlit("h2");
    reveal_strlit("h3");
    reveal_strlit("h4");
    reveal_strlit("h5");
    reveal_strlit("h6");
    reveal_strlit("li");
    reveal_strlit("pre");
    reveal_strlit("hr");
    crate::html_to_markdown::dom::lemma_kids_after_parent(nodes, b);
    assert(kids(nodes, b)[0] == h && kids(nodes, b)[1] == p);
    let a = "# "@ + trim_spec(collapse(x));
    let c = trim_spec(collapse(y));
    lemma_text_heading(nodes, h, t1, x);
    lemma_text_paragraph(nodes, p, t2, y);
    let empty_blocks = Seq::<Seq<char>>::empty();
    assert(flow(nodes, b, 0) == (empty_blocks, Seq::<char>::empty()));
    assert(flow(nodes, b, 1) == (empty_blocks + seq![a], Seq::<char>::empty()));
    assert(empty_blocks + seq![a] =~= seq![a]);
    assert(flow(nodes, b, 2) == (seq![a] + seq![c], Seq::<char>::empty()));
    assert(seq![a] + seq![c] =~= seq![a, c]);
    let n = "body"@;
    assert(n.len() == 4 && n[0] == 'b');
    assert("head"@.len() == 4 && "head"@[0] == 'h');
    assert(n != "head"@);
    assert(nodes[b].kind matches KindView::Element(m, _) && m == n);
    assert(!crate::html_to_markdown::render::is_skipped_name(n));
    assert(crate::html_to_markdown::render::heading_level(n) == 0);
    assert(n != "li"@ && n != "pre"@ && n != "hr"@);
    assert(kids(nodes, b).len() == 2);
    assert(blocks_of(nodes, b) == seq![a, c]);
    assert(seq![a, c].drop_last() =~= seq![a]);
    assert(join(seq![a], "\n\n"@) == a);
    assert(seq![a, c].last() == c);
    assert(join(seq![a, c], "\n\n"@) == a + "\n\n"@ + c);
    assert(a + "\n\n"@ + c =~= "# "@ + trim_spec(collapse(x)) + "\n\n"@ + trim_spec(collapse(y)));
    law_no_keys_no_front_matter(url, nodes);
}

} // verus!
