//! The site model: pages, locales, navigation trees and the markdown AST.

use vstd::prelude::*;

verus! {

/// One inline markdown node.
pub enum DocsInline {
    /// Plain text.
    Text(String),
    /// Bold.
    Strong(Vec<DocsInline>),
    /// Italic.
    Em(Vec<DocsInline>),
    /// Strikethrough.
    Del(Vec<DocsInline>),
    /// Inline code.
    Code(String),
    /// Link; `external` links open in a new tab.
    Link { href: String, external: bool, children: Vec<DocsInline> },
    /// Image.
    Image { src: String, alt: String },
    /// Task-list checkbox.
    TaskMarker(bool),
    /// Soft line break.
    SoftBreak,
    /// Hard line break.
    HardBreak,
    /// Raw inline HTML.
    Html(String),
}

/// One block-level markdown node.
pub enum DocsBlock {
    /// Heading with its slug id and `#<route>#<slug>` permalink.
    Heading { level: u8, id: String, href: String, inline: Vec<DocsInline> },
    /// Paragraph.
    Paragraph(Vec<DocsInline>),
    /// Fenced code block.
    CodeBlock { lang: String, code: String },
    /// Block quote.
    BlockQuote(Vec<DocsBlock>),
    /// List; each item is a block list.
    List { ordered: bool, items: Vec<Vec<DocsBlock>> },
    /// Table with header cells and body rows of cells.
    Table { head: Vec<Vec<DocsInline>>, rows: Vec<Vec<Vec<DocsInline>>> },
    /// Custom `::: kind title` container.
    Container { kind: String, title: String, blocks: Vec<DocsBlock> },
    /// Thematic break.
    Rule,
    /// Raw HTML block.
    Html(String),
}

/// A heading listed in the right-hand anchor table of contents.
pub struct DocsTocItem {
    /// Heading level (2 or 3).
    pub level: u8,
    /// Slug used as the element id.
    pub id: String,
    /// Plain text of the heading.
    pub text: String,
}

/// A hero call-to-action button of a home page.
pub struct DocsHeroAction {
    /// Button text.
    pub text: String,
    /// Target route or URL.
    pub link: String,
    /// Whether this is the primary button.
    pub primary: bool,
}

/// A feature card of a home page.
pub struct DocsFeature {
    /// Emoji or short icon text.
    pub icon: String,
    /// Card title.
    pub title: String,
    /// Card body text.
    pub details: String,
}

/// A navbar entry: an internal route or an external URL.
pub struct DocsNavItem {
    /// Display text.
    pub text: String,
    /// Link target (`/guide/` internal or `https://…` external).
    pub link: String,
}

/// A sidebar tree node; a node with children is a group.
pub struct DocsSidebarItem {
    /// Display text.
    pub text: String,
    /// Optional link route (group index or leaf page).
    pub link: Option<String>,
    /// Nested children (non-empty for a group).
    pub children: Vec<DocsSidebarItem>,
}

/// One rendered markdown page.
pub struct DocsPage {
    /// Full route (`/guide/getting-started.html`, `/zh/` …).
    pub route: String,
    /// Owning locale prefix.
    pub locale: String,
    /// Page title.
    pub title: String,
    /// Content block AST.
    pub blocks: Vec<DocsBlock>,
    /// Anchor TOC entries.
    pub headings: Vec<DocsTocItem>,
    /// Whether this is a home page.
    pub home: bool,
    /// Hero text (home pages).
    pub hero_text: String,
    /// Tagline (home pages).
    pub tagline: String,
    /// Hero actions (home pages).
    pub actions: Vec<DocsHeroAction>,
    /// Feature cards (home pages).
    pub features: Vec<DocsFeature>,
    /// Frontmatter footer override.
    pub footer: String,
}

/// One locale.
pub struct DocsLocale {
    /// Route prefix (`/` or `/zh/`).
    pub prefix: String,
    /// BCP-47 language tag.
    pub lang: String,
    /// Human label for the language dropdown.
    pub label: String,
    /// Locale title override.
    pub title: String,
    /// Locale description.
    pub description: String,
    /// Footer text.
    pub footer: String,
    /// Right TOC title label.
    pub toc_label: String,
    /// Prev-page link label.
    pub prev_label: String,
    /// Next-page link label.
    pub next_label: String,
    /// Navbar items.
    pub navbar: Vec<DocsNavItem>,
    /// Sidebar tree.
    pub sidebar: Vec<DocsSidebarItem>,
}

/// The whole site.
pub struct DocsSite {
    /// Site title.
    pub title: String,
    /// Site description.
    pub description: String,
    /// Navbar logo (emoji).
    pub logo: String,
    /// All locales.
    pub locales: Vec<DocsLocale>,
    /// All pages.
    pub pages: Vec<DocsPage>,
}

} // verus!
