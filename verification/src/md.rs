//! Rendering of the markdown AST into an element tree.
//!
//! Rendering is a direct recursive walk: each block or inline node becomes one
//! element (or text) node whose children render the node's own children.

use vstd::prelude::*;

use crate::data::{DocsBlock, DocsInline};
use crate::text::concat;

verus! {

/// An HTML element name.
#[derive(Clone, Copy, Debug, PartialEq, Eq, Structural)]
pub enum HtmlTag {
    H1,
    H2,
    H3,
    H4,
    H5,
    H6,
    P,
    Pre,
    Code,
    Blockquote,
    Ol,
    Ul,
    Li,
    Table,
    Thead,
    Tbody,
    Tr,
    Th,
    Td,
    Div,
    Hr,
    A,
    Span,
    Strong,
    Em,
    Del,
    Img,
    Br,
}

/// An HTML attribute name (`InnerHtml` sets the element's raw inner HTML).
#[derive(Clone, Copy, Debug, PartialEq, Eq, Structural)]
pub enum AttrName {
    Id,
    Class,
    Href,
    Target,
    Src,
    Alt,
    InnerHtml,
}

/// One attribute of an element.
pub struct HtmlAttr {
    /// Attribute name.
    pub name: AttrName,
    /// Attribute value.
    pub value: String,
}

/// A node of the rendered tree.
pub enum HtmlNode {
    /// An element with its attributes (in order) and children.
    Element { tag: HtmlTag, attrs: Vec<HtmlAttr>, children: Vec<HtmlNode> },
    /// A text node.
    Text(String),
}

// ─── Specification ──────────────────────────────────────────────────────────

/// The `(name, value)` views of attributes.
pub open spec fn attrs_view(a: Seq<HtmlAttr>) -> Seq<(AttrName, Seq<char>)> {
    a.map_values(|x: HtmlAttr| (x.name, x.value@))
}

/// Whether `n` is a `tag` element with exactly the attributes `attrs`.
pub open spec fn is_elem(n: HtmlNode, tag: HtmlTag, attrs: Seq<(AttrName, Seq<char>)>) -> bool {
    match n {
        HtmlNode::Element { tag: t, attrs: a, .. } => t == tag && attrs_view(a@) == attrs,
        HtmlNode::Text(_) => false,
    }
}

/// The children of `n` (none for a text node).
pub open spec fn kids(n: HtmlNode) -> Seq<HtmlNode> {
    match n {
        HtmlNode::Element { children, .. } => children@,
        HtmlNode::Text(_) => seq![],
    }
}

/// Whether `n` is a text node holding `s`.
pub open spec fn is_text(n: HtmlNode, s: Seq<char>) -> bool {
    match n {
        HtmlNode::Text(t) => t@ == s,
        _ => false,
    }
}

/// Whether `n` is an attribute-less `tag` element whose only child is the text `s`.
pub open spec fn is_text_elem(n: HtmlNode, tag: HtmlTag, attrs: Seq<(AttrName, Seq<char>)>, s: Seq<char>) -> bool {
    is_elem(n, tag, attrs) && kids(n).len() == 1 && is_text(kids(n)[0], s)
}

/// The element of a heading level: `h1`…`h5`, and `h6` for every other level.
pub open spec fn heading_tag_of(level: u8) -> HtmlTag {
    if level == 1 {
        HtmlTag::H1
    } else if level == 2 {
        HtmlTag::H2
    } else if level == 3 {
        HtmlTag::H3
    } else if level == 4 {
        HtmlTag::H4
    } else if level == 5 {
        HtmlTag::H5
    } else {
        HtmlTag::H6
    }
}

/// Whether `n` renders inline `x`.
pub open spec fn renders_inline(x: DocsInline, n: HtmlNode) -> bool
    decreases x,
{
    match x {
        DocsInline::Text(t) => is_text(n, t@),
        DocsInline::Strong(ch) => is_elem(n, HtmlTag::Strong, seq![]) && renders_inlines(ch@, kids(n)),
        DocsInline::Em(ch) => is_elem(n, HtmlTag::Em, seq![]) && renders_inlines(ch@, kids(n)),
        DocsInline::Del(ch) => is_elem(n, HtmlTag::Del, seq![]) && renders_inlines(ch@, kids(n)),
        DocsInline::Code(c) => is_text_elem(n, HtmlTag::Code, seq![], c@),
        DocsInline::Link { href, external, children } => {
            &&& is_elem(
                n,
                HtmlTag::A,
                if external {
                    seq![(AttrName::Href, href@), (AttrName::Target, "_blank"@)]
                } else {
                    seq![(AttrName::Href, href@)]
                },
            )
            &&& renders_inlines(children@, kids(n))
        },
        DocsInline::Image { src, alt } => is_elem(
            n,
            HtmlTag::Img,
            seq![(AttrName::Src, src@), (AttrName::Alt, alt@)],
        ) && kids(n).len() == 0,
        DocsInline::TaskMarker(checked) => is_text_elem(
            n,
            HtmlTag::Span,
            seq![(AttrName::Class, "task-marker"@)],
            if checked {
                "☑"@
            } else {
                "☐"@
            },
        ),
        DocsInline::SoftBreak => is_text(n, " "@),
        DocsInline::HardBreak => is_elem(n, HtmlTag::Br, seq![]) && kids(n).len() == 0,
        DocsInline::Html(raw) => is_elem(n, HtmlTag::Span, seq![(AttrName::InnerHtml, raw@)])
            && kids(n).len() == 0,
    }
}

/// Whether `ns` renders the inlines `xs`, one node per inline.
pub open spec fn renders_inlines(xs: Seq<DocsInline>, ns: Seq<HtmlNode>) -> bool
    decreases xs,
{
    &&& xs.len() == ns.len()
    &&& forall|i: int| 0 <= i < xs.len() ==> renders_inline(#[trigger] xs[i], ns[i])
}

/// Whether `n` is the permalink anchor `<a class="header-anchor" href><span>#</span></a>`.
pub open spec fn is_header_anchor(n: HtmlNode, href: Seq<char>) -> bool {
    &&& is_elem(n, HtmlTag::A, seq![(AttrName::Class, "header-anchor"@), (AttrName::Href, href)])
    &&& kids(n).len() == 1
    &&& is_text_elem(kids(n)[0], HtmlTag::Span, seq![], "#"@)
}

/// Whether `n` renders a heading: the level's element with the slug id, the
/// permalink anchor first and the rendered inlines after it.
pub open spec fn renders_heading(level: u8, id: Seq<char>, href: Seq<char>, inline: Seq<DocsInline>, n: HtmlNode) -> bool {
    &&& is_elem(n, heading_tag_of(level), seq![(AttrName::Id, id)])
    &&& kids(n).len() == inline.len() + 1
    &&& is_header_anchor(kids(n)[0], href)
    &&& renders_inlines(inline, kids(n).skip(1))
}

/// Whether `ns` renders the table cells `cells`, each cell a `tag` element.
pub open spec fn renders_cells(cells: Seq<Vec<DocsInline>>, tag: HtmlTag, ns: Seq<HtmlNode>) -> bool {
    &&& cells.len() == ns.len()
    &&& forall|i: int|
        0 <= i < cells.len() ==> is_elem(#[trigger] ns[i], tag, seq![]) && renders_inlines(
            cells[i]@,
            kids(ns[i]),
        )
}

/// Whether `n` renders block `b`.
pub open spec fn renders_block(b: DocsBlock, n: HtmlNode) -> bool
    decreases b,
{
    match b {
        DocsBlock::Heading { level, id, href, inline } => renders_heading(
            level,
            id@,
            href@,
            inline@,
            n,
        ),
        DocsBlock::Paragraph(inline) => is_elem(n, HtmlTag::P, seq![]) && renders_inlines(
            inline@,
            kids(n),
        ),
        DocsBlock::CodeBlock { lang, code } => {
            &&& is_elem(n, HtmlTag::Pre, seq![(AttrName::Class, "language-"@ + lang@)])
            &&& kids(n).len() == 1
            &&& is_text_elem(kids(n)[0], HtmlTag::Code, seq![], code@)
        },
        DocsBlock::BlockQuote(blocks) => is_elem(n, HtmlTag::Blockquote, seq![]) && renders_blocks(
            blocks@,
            kids(n),
        ),
        DocsBlock::List { ordered, items } => {
            &&& is_elem(
                n,
                if ordered {
                    HtmlTag::Ol
                } else {
                    HtmlTag::Ul
                },
                seq![],
            )
            &&& kids(n).len() == items.len()
            &&& forall|i: int|
                0 <= i < items.len() ==> is_elem(#[trigger] kids(n)[i], HtmlTag::Li, seq![])
                    && renders_blocks(items@[i]@, kids(kids(n)[i]))
        },
        DocsBlock::Table { head, rows } => {
            &&& is_elem(n, HtmlTag::Table, seq![])
            &&& kids(n).len() == 2
            &&& is_elem(kids(n)[0], HtmlTag::Thead, seq![])
            &&& kids(kids(n)[0]).len() == 1
            &&& is_elem(kids(kids(n)[0])[0], HtmlTag::Tr, seq![])
            &&& renders_cells(head@, HtmlTag::Th, kids(kids(kids(n)[0])[0]))
            &&& is_elem(kids(n)[1], HtmlTag::Tbody, seq![])
            &&& kids(kids(n)[1]).len() == rows.len()
            &&& forall|i: int|
                0 <= i < rows.len() ==> is_elem(#[trigger] kids(kids(n)[1])[i], HtmlTag::Tr, seq![])
                    && renders_cells(rows@[i]@, HtmlTag::Td, kids(kids(kids(n)[1])[i]))
        },
        DocsBlock::Container { kind, title, blocks } => {
            &&& is_elem(n, HtmlTag::Div, seq![(AttrName::Class, "docs-container "@ + kind@)])
            &&& kids(n).len() == blocks.len() + 1
            &&& is_text_elem(
                kids(n)[0],
                HtmlTag::P,
                seq![(AttrName::Class, "docs-container-title"@)],
                title@,
            )
            &&& renders_blocks(blocks@, kids(n).skip(1))
        },
        DocsBlock::Rule => is_elem(n, HtmlTag::Hr, seq![]) && kids(n).len() == 0,
        DocsBlock::Html(raw) => is_elem(n, HtmlTag::Div, seq![(AttrName::InnerHtml, raw@)])
            && kids(n).len() == 0,
    }
}

/// Whether `ns` renders the blocks `bs`, one node per block.
pub open spec fn renders_blocks(bs: Seq<DocsBlock>, ns: Seq<HtmlNode>) -> bool
    decreases bs,
{
    &&& bs.len() == ns.len()
    &&& forall|i: int| 0 <= i < bs.len() ==> renders_block(#[trigger] bs[i], ns[i])
}

// ─── Rendering ──────────────────────────────────────────────────────────────

/// An attribute with the given value.
fn attr(name: AttrName, value: String) -> (res: HtmlAttr)
    ensures
        res.name == name,
        res.value@ == value@,
{
    HtmlAttr { name, value }
}

/// An element with no attributes.
fn plain(tag: HtmlTag, children: Vec<HtmlNode>) -> (res: HtmlNode)
    ensures
        is_elem(res, tag, seq![]),
        kids(res) == children@,
{
    let res: HtmlNode = HtmlNode::Element { tag, attrs: Vec::new(), children };
    assert(attrs_view(Seq::<HtmlAttr>::empty()) =~= seq![]);
    res
}

/// An element with one attribute.
fn with_attr(tag: HtmlTag, name: AttrName, value: String, children: Vec<HtmlNode>) -> (res: HtmlNode)
    ensures
        is_elem(res, tag, seq![(name, value@)]),
        kids(res) == children@,
{
    let mut attrs: Vec<HtmlAttr> = Vec::new();
    attrs.push(attr(name, value));
    let res: HtmlNode = HtmlNode::Element { tag, attrs, children };
    assert(attrs_view(attrs@) =~= seq![(name, value@)]);
    res
}

/// An element with two attributes.
fn with_attrs(
    tag: HtmlTag,
    n1: AttrName,
    v1: String,
    n2: AttrName,
    v2: String,
    children: Vec<HtmlNode>,
) -> (res: HtmlNode)
    ensures
        is_elem(res, tag, seq![(n1, v1@), (n2, v2@)]),
        kids(res) == children@,
{
    let mut attrs: Vec<HtmlAttr> = Vec::new();
    attrs.push(attr(n1, v1));
    attrs.push(attr(n2, v2));
    let res: HtmlNode = HtmlNode::Element { tag, attrs, children };
    assert(attrs_view(attrs@) =~= seq![(n1, v1@), (n2, v2@)]);
    res
}

/// A text node.
fn text(s: &str) -> (res: HtmlNode)
    ensures
        is_text(res, s@),
{
    HtmlNode::Text(s.to_owned())
}

/// A `tag` element whose only child is the text `s`.
fn text_elem(tag: HtmlTag, s: &str) -> (res: HtmlNode)
    ensures
        is_text_elem(res, tag, seq![], s@),
{
    let mut children: Vec<HtmlNode> = Vec::new();
    children.push(text(s));
    plain(tag, children)
}

/// The element of a heading level: `h1`…`h5`, and `h6` for every other level.
pub fn heading_tag(level: u8) -> (res: HtmlTag)
    ensures
        res == heading_tag_of(level),
{
    match level {
        1 => HtmlTag::H1,
        2 => HtmlTag::H2,
        3 => HtmlTag::H3,
        4 => HtmlTag::H4,
        5 => HtmlTag::H5,
        _ => HtmlTag::H6,
    }
}

/// Renders a markdown block slice, one node per block.
pub fn render_md_blocks(blocks: &Vec<DocsBlock>) -> (res: Vec<HtmlNode>)
    ensures
        renders_blocks(blocks@, res@),
    decreases blocks,
{
    let mut out: Vec<HtmlNode> = Vec::new();
    let n: usize = blocks.len();
    let mut i: usize = 0;
    while i < n
        invariant
            n == blocks.len(),
            i <= n,
            out.len() == i,
            forall|j: int| 0 <= j < i ==> renders_block(#[trigger] blocks@[j], out@[j]),
        decreases n - i,
    {
        let node: HtmlNode = render_md_block(&blocks[i]);
        out.push(node);
        i = i + 1;
    }
    out
}

/// Renders one block of each item of a list, wrapping each item in `li`.
fn render_list_items(items: &Vec<Vec<DocsBlock>>) -> (res: Vec<HtmlNode>)
    ensures
        res.len() == items.len(),
        forall|i: int|
            0 <= i < items.len() ==> is_elem(#[trigger] res@[i], HtmlTag::Li, seq![]) && renders_blocks(
                items@[i]@,
                kids(res@[i]),
            ),
    decreases items,
{
    let mut out: Vec<HtmlNode> = Vec::new();
    let n: usize = items.len();
    let mut i: usize = 0;
    while i < n
        invariant
            n == items.len(),
            i <= n,
            out.len() == i,
            forall|j: int|
                0 <= j < i ==> is_elem(#[trigger] out@[j], HtmlTag::Li, seq![]) && renders_blocks(
                    items@[j]@,
                    kids(out@[j]),
                ),
        decreases n - i,
    {
        let content: Vec<HtmlNode> = render_md_blocks(&items[i]);
        out.push(plain(HtmlTag::Li, content));
        i = i + 1;
    }
    out
}

/// Renders table cells, each a `tag` element around the cell's inlines.
fn render_cells(cells: &Vec<Vec<DocsInline>>, tag: HtmlTag) -> (res: Vec<HtmlNode>)
    ensures
        renders_cells(cells@, tag, res@),
    decreases cells,
{
    let mut out: Vec<HtmlNode> = Vec::new();
    let n: usize = cells.len();
    let mut i: usize = 0;
    while i < n
        invariant
            n == cells.len(),
            i <= n,
            out.len() == i,
            forall|j: int|
                0 <= j < i ==> is_elem(#[trigger] out@[j], tag, seq![]) && renders_inlines(
                    cells@[j]@,
                    kids(out@[j]),
                ),
        decreases n - i,
    {
        let content: Vec<HtmlNode> = render_md_inlines(&cells[i]);
        out.push(plain(tag, content));
        i = i + 1;
    }
    out
}

/// Renders table body rows, each a `tr` of `td` cells.
fn render_rows(rows: &Vec<Vec<Vec<DocsInline>>>) -> (res: Vec<HtmlNode>)
    ensures
        res.len() == rows.len(),
        forall|i: int|
            0 <= i < rows.len() ==> is_elem(#[trigger] res@[i], HtmlTag::Tr, seq![]) && renders_cells(
                rows@[i]@,
                HtmlTag::Td,
                kids(res@[i]),
            ),
    decreases rows,
{
    let mut out: Vec<HtmlNode> = Vec::new();
    let n: usize = rows.len();
    let mut i: usize = 0;
    while i < n
        invariant
            n == rows.len(),
            i <= n,
            out.len() == i,
            forall|j: int|
                0 <= j < i ==> is_elem(#[trigger] out@[j], HtmlTag::Tr, seq![]) && renders_cells(
                    rows@[j]@,
                    HtmlTag::Td,
                    kids(out@[j]),
                ),
        decreases n - i,
    {
        let cells: Vec<HtmlNode> = render_cells(&rows[i], HtmlTag::Td);
        out.push(plain(HtmlTag::Tr, cells));
        i = i + 1;
    }
    out
}

/// Renders a single markdown block.
pub fn render_md_block(block: &DocsBlock) -> (res: HtmlNode)
    ensures
        renders_block(*block, res),
    decreases block,
{
    match block {
        DocsBlock::Heading { level, id, href, inline } => render_md_heading(
            *level,
            id.as_str(),
            href.as_str(),
            inline,
        ),
        DocsBlock::Paragraph(inline) => {
            let content: Vec<HtmlNode> = render_md_inlines(inline);
            plain(HtmlTag::P, content)
        },
        DocsBlock::CodeBlock { lang, code } => {
            let mut children: Vec<HtmlNode> = Vec::new();
            children.push(text_elem(HtmlTag::Code, code.as_str()));
            with_attr(HtmlTag::Pre, AttrName::Class, concat("language-", lang.as_str()), children)
        },
        DocsBlock::BlockQuote(blocks) => {
            let content: Vec<HtmlNode> = render_md_blocks(blocks);
            plain(HtmlTag::Blockquote, content)
        },
        DocsBlock::List { ordered, items } => {
            let lis: Vec<HtmlNode> = render_list_items(items);
            if *ordered {
                plain(HtmlTag::Ol, lis)
            } else {
                plain(HtmlTag::Ul, lis)
            }
        },
        DocsBlock::Table { head, rows } => {
            let head_cells: Vec<HtmlNode> = render_cells(head, HtmlTag::Th);
            let mut head_row: Vec<HtmlNode> = Vec::new();
            head_row.push(plain(HtmlTag::Tr, head_cells));
            let body_rows: Vec<HtmlNode> = render_rows(rows);
            let mut parts: Vec<HtmlNode> = Vec::new();
            parts.push(plain(HtmlTag::Thead, head_row));
            parts.push(plain(HtmlTag::Tbody, body_rows));
            plain(HtmlTag::Table, parts)
        },
        DocsBlock::Container { kind, title, blocks } => {
            let content: Vec<HtmlNode> = render_md_blocks(blocks);
            let mut children: Vec<HtmlNode> = Vec::new();
            let mut title_children: Vec<HtmlNode> = Vec::new();
            title_children.push(text(title.as_str()));
            children.push(
                with_attr(HtmlTag::P, AttrName::Class, "docs-container-title".to_owned(), title_children),
            );
            let ghost head: Seq<HtmlNode> = children@;
            let mut rest: Vec<HtmlNode> = content;
            let ghost rest_view: Seq<HtmlNode> = rest@;
            children.append(&mut rest);
            assert(children@.skip(1) =~= rest_view);
            with_attr(HtmlTag::Div, AttrName::Class, concat("docs-container ", kind.as_str()), children)
        },
        DocsBlock::Rule => plain(HtmlTag::Hr, Vec::new()),
        DocsBlock::Html(raw) => with_attr(HtmlTag::Div, AttrName::InnerHtml, raw.clone(), Vec::new()),
    }
}

/// Renders one heading block with its permalink anchor.
pub fn render_md_heading(level: u8, id: &str, href: &str, inline: &Vec<DocsInline>) -> (res: HtmlNode)
    ensures
        renders_heading(level, id@, href@, inline@, res),
    decreases inline,
{
    let mut anchor_children: Vec<HtmlNode> = Vec::new();
    anchor_children.push(text_elem(HtmlTag::Span, "#"));
    let anchor: HtmlNode = with_attrs(
        HtmlTag::A,
        AttrName::Class,
        "header-anchor".to_owned(),
        AttrName::Href,
        href.to_owned(),
        anchor_children,
    );
    let mut children: Vec<HtmlNode> = Vec::new();
    children.push(anchor);
    let mut content: Vec<HtmlNode> = render_md_inlines(inline);
    let ghost content_view: Seq<HtmlNode> = content@;
    children.append(&mut content);
    assert(children@.skip(1) =~= content_view);
    with_attr(heading_tag(level), AttrName::Id, id.to_owned(), children)
}

/// Renders an inline slice, one node per inline.
pub fn render_md_inlines(inlines: &Vec<DocsInline>) -> (res: Vec<HtmlNode>)
    ensures
        renders_inlines(inlines@, res@),
    decreases inlines,
{
    let mut out: Vec<HtmlNode> = Vec::new();
    let n: usize = inlines.len();
    let mut i: usize = 0;
    while i < n
        invariant
            n == inlines.len(),
            i <= n,
            out.len() == i,
            forall|j: int| 0 <= j < i ==> renders_inline(#[trigger] inlines@[j], out@[j]),
        decreases n - i,
    {
        let node: HtmlNode = render_md_inline(&inlines[i]);
        out.push(node);
        i = i + 1;
    }
    out
}

/// Renders a single inline node.
pub fn render_md_inline(inline: &DocsInline) -> (res: HtmlNode)
    ensures
        renders_inline(*inline, res),
    decreases inline,
{
    match inline {
        DocsInline::Text(t) => text(t.as_str()),
        DocsInline::Strong(children) => plain(HtmlTag::Strong, render_md_inlines(children)),
        DocsInline::Em(children) => plain(HtmlTag::Em, render_md_inlines(children)),
        DocsInline::Del(children) => plain(HtmlTag::Del, render_md_inlines(children)),
        DocsInline::Code(code) => text_elem(HtmlTag::Code, code.as_str()),
        DocsInline::Link { href, external, children } => {
            let content: Vec<HtmlNode> = render_md_inlines(children);
            if *external {
                with_attrs(
                    HtmlTag::A,
                    AttrName::Href,
                    href.clone(),
                    AttrName::Target,
                    "_blank".to_owned(),
                    content,
                )
            } else {
                with_attr(HtmlTag::A, AttrName::Href, href.clone(), content)
            }
        },
        DocsInline::Image { src, alt } => with_attrs(
            HtmlTag::Img,
            AttrName::Src,
            src.clone(),
            AttrName::Alt,
            alt.clone(),
            Vec::new(),
        ),
        DocsInline::TaskMarker(checked) => {
            let mut children: Vec<HtmlNode> = Vec::new();
            if *checked {
                children.push(text("☑"));
            } else {
                children.push(text("☐"));
            }
            with_attr(HtmlTag::Span, AttrName::Class, "task-marker".to_owned(), children)
        },
        DocsInline::SoftBreak => text(" "),
        DocsInline::HardBreak => plain(HtmlTag::Br, Vec::new()),
        DocsInline::Html(raw) => with_attr(HtmlTag::Span, AttrName::InnerHtml, raw.clone(), Vec::new()),
    }
}

} // verus!
