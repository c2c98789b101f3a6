//! Text content, whitespace and attributes of document nodes.
use vstd::prelude::*;
use crate::html_to_markdown::dom::{kids, lemma_kids_after_parent, Dom, KindView, NodeKind, NodeView};
use crate::text::{chars_of, push_char, same_text};

verus! {

/// All the text below node `i`, in document order.
pub open spec fn text_of(nodes: Seq<NodeView>, i: int) -> Seq<char>
    decreases nodes.len() - i, 1int, 0int,
{
    if !(0 <= i < nodes.len()) {
        Seq::empty()
    } else {
        match nodes[i].kind {
            KindView::Text(t) => t,
            _ => texts_of(nodes, i, kids(nodes, i).len() as int),
        }
    }
}

/// The text of the first `k` children of node `i`, concatenated.
pub open spec fn texts_of(nodes: Seq<NodeView>, i: int, k: int) -> Seq<char>
    decreases nodes.len() - i, 0int, k,
{
    if !(0 <= i < nodes.len()) || k <= 0 || k > kids(nodes, i).len() {
        Seq::empty()
    } else {
        let c = kids(nodes, i)[k - 1];
        texts_of(nodes, i, k - 1) + if i < c < nodes.len() { text_of(nodes, c) } else { Seq::empty() }
    }
}

/// The children of node `i` of a well-formed document, as positions.
pub proof fn lemma_children(dom: &Dom, i: int)
    requires
        dom.wf(),
        0 <= i < dom.nodes@.len(),
    ensures
        dom.children@[i]@.len() == kids(dom.view_nodes(), i).len(),
        forall|j: int| 0 <= j < dom.children@[i]@.len() ==> {
            &&& #[trigger] dom.children@[i]@[j] as int == kids(dom.view_nodes(), i)[j]
            &&& i < dom.children@[i]@[j] < dom.nodes@.len()
        },
{
    lemma_kids_after_parent(dom.view_nodes(), i);
    let ks = dom.children@[i]@;
    assert(ks.map_values(|c: usize| c as int) == kids(dom.view_nodes(), i));
    assert forall|j: int| 0 <= j < ks.len() implies #[trigger] ks[j] as int == kids(dom.view_nodes(), i)[j] by {
        assert(ks.map_values(|c: usize| c as int)[j] == ks[j] as int);
    }
}

/// The kind of node `i` as plain values.
pub proof fn lemma_kind(dom: &Dom, i: int)
    requires
        0 <= i < dom.nodes@.len(),
    ensures
        dom.view_nodes()[i].kind == dom.nodes@[i].1@,
        dom.view_nodes()[i].parent == dom.nodes@[i].0,
{
}

/// All the text below node `i`.
pub fn text_content(dom: &Dom, i: usize) -> (res: String)
    requires
        dom.wf(),
        i < dom.nodes@.len(),
    ensures
        res@ == text_of(dom.view_nodes(), i as int),
    decreases dom.nodes@.len() - i, 1int, 0int,
{
    proof { lemma_kind(dom, i as int); }
    match &dom.nodes[i].1 {
        NodeKind::Text(t) => t.clone(),
        _ => {
            proof { lemma_children(dom, i as int); }
            let ghost nodes = dom.view_nodes();
            let ks = &dom.children[i];
            let mut res = String::new();
            let mut k: usize = 0;
            while k < ks.len()
                invariant
                    dom.wf(),
                    i < dom.nodes@.len(),
                    nodes == dom.view_nodes(),
                    *ks == dom.children@[i as int],
                    ks@.len() == kids(nodes, i as int).len(),
                    forall|j: int| 0 <= j < ks@.len() ==> {
                        &&& #[trigger] ks@[j] as int == kids(nodes, i as int)[j]
                        &&& i < ks@[j] < dom.nodes@.len()
                    },
                    k <= ks@.len(),
                    res@ == texts_of(nodes, i as int, k as int),
                decreases ks@.len() - k,
            {
                let c = ks[k];
                assert(ks@[k as int] as int == kids(nodes, i as int)[k as int]);
                let t = text_content(dom, c);
                res.append(t.as_str());
                k = k + 1;
            }
            res
        },
    }
}

/// Whitespace as HTML defines it: space, tab, line feed, form feed and carriage return.
pub open spec fn is_html_space(c: char) -> bool {
    c == ' ' || c == '\t' || c == '\n' || c == '\u{c}' || c == '\r'
}

fn html_space(c: char) -> (res: bool)
    ensures
        res == is_html_space(c),
{
    c == ' ' || c == '\t' || c == '\n' || c == '\u{c}' || c == '\r'
}

/// What character `i` of `s` contributes when whitespace runs are collapsed.
pub open spec fn collapsed_piece(s: Seq<char>, i: int) -> Seq<char> {
    if is_html_space(s[i]) {
        if i > 0 && is_html_space(s[i - 1]) { Seq::empty() } else { seq![' '] }
    } else {
        seq![s[i]]
    }
}

/// `s` with every run of HTML whitespace replaced by one space.
pub open spec fn collapse(s: Seq<char>) -> Seq<char>
    decreases s.len(),
{
    if s.len() == 0 {
        Seq::empty()
    } else {
        collapse(s.drop_last()) + collapsed_piece(s, s.len() - 1)
    }
}

/// Replaces every run of HTML whitespace by one space.
pub fn collapse_whitespace(s: &str) -> (res: String)
    ensures
        res@ == collapse(s@),
{
    let cs = chars_of(s);
    let mut res = String::new();
    let mut i: usize = 0;
    while i < cs.len()
        invariant
            cs@ == s@,
            i <= cs@.len(),
            res@ == collapse(cs@.take(i as int)),
        decreases cs@.len() - i,
    {
        let ghost t = cs@.take(i + 1);
        assert(t.drop_last() =~= cs@.take(i as int));
        let ghost piece = collapsed_piece(t, i as int);
        if html_space(cs[i]) {
            if !(i > 0 && html_space(cs[i - 1])) {
                push_char(&mut res, ' ');
            }
        } else {
            push_char(&mut res, cs[i]);
        }
        assert(res@ =~= collapse(t));
        i = i + 1;
    }
    assert(cs@.take(cs@.len() as int) =~= cs@);
    res
}

/// The value of the first attribute named `name`, if any.
pub open spec fn attr(attrs: Seq<(Seq<char>, Seq<char>)>, name: Seq<char>) -> Option<Seq<char>>
    decreases attrs.len(),
{
    if attrs.len() == 0 {
        None
    } else if attrs[0].0 == name {
        Some(attrs[0].1)
    } else {
        attr(attrs.skip(1), name)
    }
}

/// The value of the first attribute named `name`, if any.
pub fn attribute<'a>(attrs: &'a Vec<(String, String)>, name: &str) -> (res: Option<&'a String>)
    ensures
        match res {
            Some(v) => attr(Seq::new(attrs@.len(), |i: int| (attrs@[i].0@, attrs@[i].1@)), name@) == Some(v@),
            None => attr(Seq::new(attrs@.len(), |i: int| (attrs@[i].0@, attrs@[i].1@)), name@) is None,
        },
{
    let ghost all = Seq::new(attrs@.len(), |i: int| (attrs@[i].0@, attrs@[i].1@));
    assert(all.skip(0) =~= all);
    let mut i: usize = 0;
    while i < attrs.len()
        invariant
            all == Seq::new(attrs@.len(), |i: int| (attrs@[i].0@, attrs@[i].1@)),
            i <= attrs@.len(),
            attr(all, name@) == attr(all.skip(i as int), name@),
        decreases attrs@.len() - i,
    {
        if same_text(attrs[i].0.as_str(), name) {
            assert(all.skip(i as int)[0] == all[i as int]);
            return Some(&attrs[i].1);
        }
        assert(all.skip(i as int).skip(1) =~= all.skip(i + 1));
        i = i + 1;
    }
    None
}

} // verus!
