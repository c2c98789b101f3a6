//! Markdown for the body of a document: paragraphs, headings, list items, code blocks,
//! links and images.
use vstd::prelude::*;
use crate::domain::{trim, trim_spec};
use crate::html_to_markdown::dom::{kids, Dom, KindView, NodeKind, NodeView};
use crate::html_to_markdown::text::{
    attr, attribute, collapse, collapse_whitespace, lemma_children, lemma_kind, text_content, text_of,
};
use crate::text::{push_char, same_text};

verus! {

/// Elements whose content is not part of the page's text.
pub open spec fn is_skipped_name(n: Seq<char>) -> bool {
    n == "head"@ || n == "script"@ || n == "style"@ || n == "noscript"@ || n == "template"@ || n == "title"@
}

/// Elements that stand as blocks of their own.
pub open spec fn is_block_name(n: Seq<char>) -> bool {
    ||| n == "html"@ ||| n == "body"@ ||| n == "p"@ ||| n == "div"@ ||| n == "section"@
    ||| n == "article"@ ||| n == "main"@ ||| n == "header"@ ||| n == "footer"@ ||| n == "nav"@
    ||| n == "aside"@ ||| n == "blockquote"@ ||| n == "ul"@ ||| n == "ol"@ ||| n == "li"@
    ||| n == "h1"@ ||| n == "h2"@ ||| n == "h3"@ ||| n == "h4"@ ||| n == "h5"@ ||| n == "h6"@
    ||| n == "pre"@ ||| n == "hr"@ ||| n == "table"@ ||| n == "thead"@ ||| n == "tbody"@
    ||| n == "tfoot"@ ||| n == "tr"@ ||| n == "td"@ ||| n == "th"@ ||| n == "figure"@
    ||| n == "figcaption"@ ||| n == "form"@ ||| n == "dl"@ ||| n == "dt"@ ||| n == "dd"@
    ||| n == "address"@ ||| n == "details"@ ||| n == "summary"@
}

/// The level of a heading element, or 0.
pub open spec fn heading_level(n: Seq<char>) -> nat {
    if n == "h1"@ { 1 } else if n == "h2"@ { 2 } else if n == "h3"@ { 3 }
    else if n == "h4"@ { 4 } else if n == "h5"@ { 5 } else if n == "h6"@ { 6 } else { 0 }
}

/// Whether a node is a block-level element.
pub open spec fn is_block_node(k: KindView) -> bool {
    k matches KindView::Element(n, _) && is_block_name(n)
}

/// A link: `[text](href)`, or the text alone when there is no target.
pub open spec fn link_text(text: Seq<char>, href: Option<Seq<char>>) -> Seq<char> {
    match href {
        Some(h) => if h.len() > 0 { "["@ + text + "]("@ + h + ")"@ } else { text },
        None => text,
    }
}

/// An image: `![alt](src)`, or nothing when there is no source.
pub open spec fn image_text(alt: Option<Seq<char>>, src: Option<Seq<char>>) -> Seq<char> {
    match src {
        Some(s) => if s.len() > 0 {
            "!["@ + match alt { Some(a) => a, None => Seq::empty() } + "]("@ + s + ")"@
        } else {
            Seq::empty()
        },
        None => Seq::empty(),
    }
}

/// The inline Markdown of node `i`.
pub open spec fn inline_of(nodes: Seq<NodeView>, i: int) -> Seq<char>
    decreases nodes.len() - i, 2int, 0int,
{
    if !(0 <= i < nodes.len()) {
        Seq::empty()
    } else {
        match nodes[i].kind {
            KindView::Text(t) => collapse(t),
            KindView::Element(n, attrs) => if is_skipped_name(n) {
                Seq::empty()
            } else if n == "br"@ {
                seq!['\n']
            } else if n == "img"@ {
                image_text(attr(attrs, "alt"@), attr(attrs, "src"@))
            } else if n == "a"@ {
                link_text(inlines(nodes, i, kids(nodes, i).len() as int), attr(attrs, "href"@))
            } else {
                inlines(nodes, i, kids(nodes, i).len() as int)
            },
            KindView::Other => inlines(nodes, i, kids(nodes, i).len() as int),
        }
    }
}

/// The inline Markdown of the first `k` children of node `i`, concatenated.
pub open spec fn inlines(nodes: Seq<NodeView>, i: int, k: int) -> Seq<char>
    decreases nodes.len() - i, 1int, k,
{
    if !(0 <= i < nodes.len()) || k <= 0 || k > kids(nodes, i).len() {
        Seq::empty()
    } else {
        let c = kids(nodes, i)[k - 1];
        inlines(nodes, i, k - 1) + if i < c < nodes.len() { inline_of(nodes, c) } else { Seq::empty() }
    }
}

/// The blocks so far, with the pending inline text added as a paragraph if it is not blank.
pub open spec fn flush(blocks: Seq<Seq<char>>, run: Seq<char>) -> Seq<Seq<char>> {
    if trim_spec(run).len() > 0 { blocks.push(trim_spec(run)) } else { blocks }
}

/// `#` repeated `n` times.
pub open spec fn hashes(n: nat) -> Seq<char> {
    Seq::new(n, |j: int| '#')
}

/// The Markdown blocks of node `i`.
pub open spec fn blocks_of(nodes: Seq<NodeView>, i: int) -> Seq<Seq<char>>
    decreases nodes.len() - i, 2int, 0int,
{
    if !(0 <= i < nodes.len()) {
        Seq::empty()
    } else {
        match nodes[i].kind {
            KindView::Element(n, _) => if is_skipped_name(n) {
                Seq::empty()
            } else if heading_level(n) > 0 {
                let t = trim_spec(inlines(nodes, i, kids(nodes, i).len() as int));
                if t.len() > 0 { seq![hashes(heading_level(n)) + seq![' '] + t] } else { Seq::empty() }
            } else if n == "li"@ {
                let t = trim_spec(inlines(nodes, i, kids(nodes, i).len() as int));
                if t.len() > 0 { seq!["- "@ + t] } else { Seq::empty() }
            } else if n == "pre"@ {
                let t = text_of(nodes, i);
                if trim_spec(t).len() > 0 { seq!["```\n"@ + t + "\n```"@] } else { Seq::empty() }
            } else if n == "hr"@ {
                seq!["---"@]
            } else {
                let f = flow(nodes, i, kids(nodes, i).len() as int);
                flush(f.0, f.1)
            },
            KindView::Text(t) => flush(Seq::empty(), collapse(t)),
            KindView::Other => {
                let f = flow(nodes, i, kids(nodes, i).len() as int);
                flush(f.0, f.1)
            },
        }
    }
}

/// The blocks of the first `k` children of node `i`, and the inline text that follows the last
/// of them: inline children gather into a paragraph that each block child ends.
pub open spec fn flow(nodes: Seq<NodeView>, i: int, k: int) -> (Seq<Seq<char>>, Seq<char>)
    decreases nodes.len() - i, 1int, k,
{
    if !(0 <= i < nodes.len()) || k <= 0 || k > kids(nodes, i).len() {
        (Seq::empty(), Seq::empty())
    } else {
        let before = flow(nodes, i, k - 1);
        let c = kids(nodes, i)[k - 1];
        if !(i < c < nodes.len()) {
            before
        } else if is_block_node(nodes[c].kind) {
            (flush(before.0, before.1) + blocks_of(nodes, c), Seq::empty())
        } else {
            (before.0, before.1 + inline_of(nodes, c))
        }
    }
}

/// The blocks joined by `sep`.
pub open spec fn join(blocks: Seq<Seq<char>>, sep: Seq<char>) -> Seq<char>
    decreases blocks.len(),
{
    if blocks.len() == 0 {
        Seq::empty()
    } else if blocks.len() == 1 {
        blocks[0]
    } else {
        join(blocks.drop_last(), sep) + sep + blocks.last()
    }
}

fn skipped_name(n: &str) -> (res: bool)
    ensures
        res == is_skipped_name(n@),
{
    same_text(n, "head") || same_text(n, "script") || same_text(n, "style") || same_text(n, "noscript")
        || same_text(n, "template") || same_text(n, "title")
}

fn block_name(n: &str) -> (res: bool)
    ensures
        res == is_block_name(n@),
{
    same_text(n, "html") || same_text(n, "body") || same_text(n, "p") || same_text(n, "div")
        || same_text(n, "section") || same_text(n, "article") || same_text(n, "main")
        || same_text(n, "header") || same_text(n, "footer") || same_text(n, "nav") || same_text(n, "aside")
        || same_text(n, "blockquote") || same_text(n, "ul") || same_text(n, "ol") || same_text(n, "li")
        || same_text(n, "h1") || same_text(n, "h2") || same_text(n, "h3") || same_text(n, "h4")
        || same_text(n, "h5") || same_text(n, "h6") || same_text(n, "pre") || same_text(n, "hr")
        || same_text(n, "table") || same_text(n, "thead") || same_text(n, "tbody") || same_text(n, "tfoot")
        || same_text(n, "tr") || same_text(n, "td") || same_text(n, "th") || same_text(n, "figure")
        || same_text(n, "figcaption") || same_text(n, "form") || same_text(n, "dl") || same_text(n, "dt")
        || same_text(n, "dd") || same_text(n, "address") || same_text(n, "details") || same_text(n, "summary")
}

fn level(n: &str) -> (res: usize)
    ensures
        res == heading_level(n@),
{
    if same_text(n, "h1") { 1 } else if same_text(n, "h2") { 2 } else if same_text(n, "h3") { 3 }
    else if same_text(n, "h4") { 4 } else if same_text(n, "h5") { 5 } else if same_text(n, "h6") { 6 }
    else { 0 }
}

/// The inline Markdown of node `i`.
pub fn inline_text(dom: &Dom, i: usize) -> (res: String)
    requires
        dom.wf(),
        i < dom.nodes@.len(),
    ensures
        res@ == inline_of(dom.view_nodes(), i as int),
    decreases dom.nodes@.len() - i, 2int, 0int,
{
    proof { lemma_kind(dom, i as int); }
    match &dom.nodes[i].1 {
        NodeKind::Text(t) => collapse_whitespace(t.as_str()),
        NodeKind::Element(n, attrs) => {
            if skipped_name(n.as_str()) {
                String::new()
            } else if same_text(n.as_str(), "br") {
                let mut s = String::new();
                push_char(&mut s, '\n');
                s
            } else if same_text(n.as_str(), "img") {
                let alt = attribute(attrs, "alt");
                let src = attribute(attrs, "src");
                match src {
                    Some(s) => if s.as_str().is_empty() {
                        String::new()
                    } else {
                        let mut out = String::from_str("![");
                        if let Some(a) = alt {
                            out.append(a.as_str());
                        }
                        out.append("](");
                        out.append(s.as_str());
                        out.append(")");
                        out
                    },
                    None => String::new(),
                }
            } else if same_text(n.as_str(), "a") {
                let text = inline_children(dom, i);
                match attribute(attrs, "href") {
                    Some(h) => if h.as_str().is_empty() {
                        text
                    } else {
                        let mut out = String::from_str("[");
                        out.append(text.as_str());
                        out.append("](");
                        out.append(h.as_str());
                        out.append(")");
                        out
                    },
                    None => text,
                }
            } else {
                inline_children(dom, i)
            }
        },
        NodeKind::Other => inline_children(dom, i),
    }
}

/// The inline Markdown of all children of node `i`, concatenated.
fn inline_children(dom: &Dom, i: usize) -> (res: String)
    requires
        dom.wf(),
        i < dom.nodes@.len(),
    ensures
        res@ == inlines(dom.view_nodes(), i as int, kids(dom.view_nodes(), i as int).len() as int),
    decreases dom.nodes@.len() - i, 1int, 0int,
{
    proof { lemma_children(dom, i as int); }
    let ghost nodes = dom.view_nodes();
    let ks = &dom.children[i];
    let mut res = String::new();
    let mut k: usize = 0;
    while k < ks.len()
        invariant
            dom.wf(),
            i < dom.nodes@.len(),
            nodes == dom.view_nodes(),
            *ks == dom.children@[i as int],
            ks@.len() == kids(nodes, i as int).len(),
            forall|j: int| 0 <= j < ks@.len() ==> {
                &&& #[trigger] ks@[j] as int == kids(nodes, i as int)[j]
                &&& i < ks@[j] < dom.nodes@.len()
            },
            k <= ks@.len(),
            res@ == inlines(nodes, i as int, k as int),
        decreases ks@.len() - k,
    {
        let c = ks[k];
        assert(ks@[k as int] as int == kids(nodes, i as int)[k as int]);
        let t = inline_text(dom, c);
        res.append(t.as_str());
        k = k + 1;
    }
    res
}

fn flush_into(blocks: &mut Vec<String>, run: &String)
    ensures
        final(blocks).deep_view() == flush(old(blocks).deep_view(), run@),
{
    let t = trim(run.as_str());
    if !t.is_empty() {
        let ghost before = blocks.deep_view();
        blocks.push(String::from_str(t));
        assert(blocks.deep_view() =~= before.push(trim_spec(run@)));
    }
}

/// The Markdown blocks of node `i`.
pub fn render_blocks(dom: &Dom, i: usize) -> (res: Vec<String>)
    requires
        dom.wf(),
        i < dom.nodes@.len(),
    ensures
        res.deep_view() == blocks_of(dom.view_nodes(), i as int),
    decreases dom.nodes@.len() - i, 2int, 0int,
{
    proof { lemma_kind(dom, i as int); }
    let mut res: Vec<String> = Vec::new();
    assert(res.deep_view() =~= Seq::<Seq<char>>::empty());
    match &dom.nodes[i].1 {
        NodeKind::Element(n, _) => {
            let name = n.as_str();
            let lv = level(name);
            if skipped_name(name) {
            } else if lv > 0 {
                let inner = inline_children(dom, i);
                let t = trim(inner.as_str());
                if !t.is_empty() {
                    let mut b = String::new();
                    let mut h: usize = 0;
                    while h < lv
                        invariant
                            h <= lv,
                            b@ == hashes(h as nat),
                        decreases lv - h,
                    {
                        push_char(&mut b, '#');
                        h = h + 1;
                        assert(b@ =~= hashes(h as nat));
                    }
                    push_char(&mut b, ' ');
                    b.append(t);
                    assert(heading_level(n@) == lv as nat);
                    assert(b@ == hashes(heading_level(n@)) + seq![' '] + trim_spec(inlines(dom.view_nodes(), i as int,
                        kids(dom.view_nodes(), i as int).len() as int)));
                    res.push(b);
                    assert(res.deep_view() =~= blocks_of(dom.view_nodes(), i as int));
                }
            } else if same_text(name, "li") {
                let inner = inline_children(dom, i);
                let t = trim(inner.as_str());
                if !t.is_empty() {
                    let mut b = String::from_str("- ");
                    b.append(t);
                    res.push(b);
                    assert(res.deep_view() =~= blocks_of(dom.view_nodes(), i as int));
                }
            } else if same_text(name, "pre") {
                let t = text_content(dom, i);
                if !trim(t.as_str()).is_empty() {
                    let mut b = String::from_str("```\n");
                    b.append(t.as_str());
                    b.append("\n```");
                    res.push(b);
                    assert(res.deep_view() =~= blocks_of(dom.view_nodes(), i as int));
                }
            } else if same_text(name, "hr") {
                res.push(String::from_str("---"));
                assert(res.deep_view() =~= blocks_of(dom.view_nodes(), i as int));
            } else {
                let (mut blocks, run) = flow_children(dom, i);
                flush_into(&mut blocks, &run);
                return blocks;
            }
        },
        NodeKind::Text(t) => {
            let run = collapse_whitespace(t.as_str());
            flush_into(&mut res, &run);
        },
        NodeKind::Other => {
            let (mut blocks, run) = flow_children(dom, i);
            flush_into(&mut blocks, &run);
            return blocks;
        },
    }
    res
}

/// The blocks of the children of node `i` and the inline text after the last block.
fn flow_children(dom: &Dom, i: usize) -> (res: (Vec<String>, String))
    requires
        dom.wf(),
        i < dom.nodes@.len(),
    ensures
        res.0.deep_view() == flow(dom.view_nodes(), i as int, kids(dom.view_nodes(), i as int).len() as int).0,
        res.1@ == flow(dom.view_nodes(), i as int, kids(dom.view_nodes(), i as int).len() as int).1,
    decreases dom.nodes@.len() - i, 1int, 0int,
{
    proof { lemma_children(dom, i as int); }
    let ghost nodes = dom.view_nodes();
    let ks = &dom.children[i];
    let mut blocks: Vec<String> = Vec::new();
    let mut run = String::new();
    let mut k: usize = 0;
    assert(blocks.deep_view() =~= Seq::<Seq<char>>::empty());
    while k < ks.len()
        invariant
            dom.wf(),
            i < dom.nodes@.len(),
            nodes == dom.view_nodes(),
            *ks == dom.children@[i as int],
            ks@.len() == kids(nodes, i as int).len(),
            forall|j: int| 0 <= j < ks@.len() ==> {
                &&& #[trigger] ks@[j] as int == kids(nodes, i as int)[j]
                &&& i < ks@[j] < dom.nodes@.len()
            },
            k <= ks@.len(),
            blocks.deep_view() == flow(nodes, i as int, k as int).0,
            run@ == flow(nodes, i as int, k as int).1,
        decreases ks@.len() - k,
    {
        let c = ks[k];
        assert(ks@[k as int] as int == kids(nodes, i as int)[k as int]);
        proof { lemma_kind(dom, c as int); }
        let is_block = match &dom.nodes[c].1 {
            NodeKind::Element(n, _) => block_name(n.as_str()),
            _ => false,
        };
        if is_block {
            flush_into(&mut blocks, &run);
            let inner = render_blocks(dom, c);
            let ghost before = blocks.deep_view();
            let mut m: usize = 0;
            while m < inner.len()
                invariant
                    m <= inner@.len(),
                    blocks.deep_view() == before + inner.deep_view().take(m as int),
                decreases inner@.len() - m,
            {
                let ghost b0 = blocks.deep_view();
                blocks.push(inner[m].clone());
                assert(blocks.deep_view() =~= b0.push(inner.deep_view()[m as int]));
                assert(inner.deep_view().take(m + 1) =~= inner.deep_view().take(m as int).push(inner.deep_view()[m as int]));
                m = m + 1;
                assert(blocks.deep_view() =~= before + inner.deep_view().take(m as int));
            }
            assert(inner.deep_view().take(inner@.len() as int) =~= inner.deep_view());
            run = String::new();
        } else {
            let t = inline_text(dom, c);
            run.append(t.as_str());
        }
        k = k + 1;
    }
    (blocks, run)
}

/// The blocks joined by `sep`.
pub fn join_blocks(blocks: &Vec<String>, sep: &str) -> (res: String)
    ensures
        res@ == join(blocks.deep_view(), sep@),
{
    let mut res = String::new();
    let mut k: usize = 0;
    while k < blocks.len()
        invariant
            k <= blocks@.len(),
            res@ == join(blocks.deep_view().take(k as int), sep@),
        decreases blocks@.len() - k,
    {
        let ghost t = blocks.deep_view().take(k + 1);
        assert(t.drop_last() =~= blocks.deep_view().take(k as int));
        if k > 0 {
            res.append(sep);
        } else {
            assert(res@ =~= Seq::<char>::empty());
        }
        res.append(blocks[k].as_str());
        k = k + 1;
        assert(res@ =~= join(blocks.deep_view().take(k as int), sep@));
    }
    assert(blocks.deep_view().take(blocks@.len() as int) =~= blocks.deep_view());
    res
}

} // verus!
