# euv_docs

The logic of a VuePress-style documentation site (routing, locales, the
sidebar, page views, markdown rendering) and of its site generator (routes
of source files, link rewriting, heading slugs, containers, frontmatter,
sidebar generation), written in Verus with contracts and proved laws.

- `src/` — the verified library, one module per concern:
  - `router`, `doc_page`, `home_page`, `not_found`, `toc`, `layout`,
    `navbar`, `sidebar`, `md` — what the browser app shows for a route;
  - `paths`, `source`, `slug`, `heading`, `plain`, `containers`,
    `frontmatter`, `sidebar_tree`, `order` — what the generator computes
    from the markdown sources;
  - `text`, `lookup`, `unicode` — string helpers, first-match search and
    the standard library's Unicode character classes.
- `tests/` — scenario tests of the library.
- `app/` — the euv front end that mounts the site and renders the views,
  and the host-side reading of the docs source tree.
