//! From markdown source paths to site routes, and markdown link targets to
//! hash-router hrefs.
//!
//! `README.md` / `index.md` give the directory route with a trailing slash;
//! `foo.md` gives `foo.html`; a locale's pages live under its prefix.

use vstd::prelude::*;

use crate::router::{root_prefix, route_path};
use crate::text::{
    char_index, concat, ends_with, find_char, is_root_str, join, join_char, last_char_index,
    lemma_last_char_index, lemma_split_len, lemma_strings_view_push, lemma_trim_end_prefix,
    rfind_char, split, split_char, starts_with, str_eq, strings_view, trim_end, trim_end_char,
    trim_suffix_all, trim_suffix_str,
};

verus! {

// ─── Routes of source files ─────────────────────────────────────────────────

/// A base route under a locale prefix (the root locale adds nothing).
pub open spec fn locale_route(locale: Seq<char>, base: Seq<char>) -> Seq<char> {
    if locale == root_prefix() {
        base
    } else {
        trim_end(locale, '/') + base
    }
}

/// Joins a locale prefix with a base route.
pub fn join_locale_route(locale: &str, base: &str) -> (res: String)
    ensures
        res@ == locale_route(locale@, base@),
{
    if is_root_str(locale) {
        base.to_owned()
    } else {
        concat(trim_end_char(locale, '/'), base)
    }
}

/// The file stem of the last path segment (`.md` removed), or empty.
pub open spec fn stem(segments: Seq<Seq<char>>) -> Seq<char> {
    if segments.len() == 0 {
        seq![]
    } else {
        trim_suffix_all(segments.last(), ".md"@)
    }
}

/// Returns the file stem of the last segment.
pub fn stem_of(segments: &Vec<String>) -> (res: String)
    ensures
        res@ == stem(strings_view(segments@)),
{
    let n: usize = segments.len();
    if n == 0 {
        String::new()
    } else {
        assert(strings_view(segments@).last() == segments@[n - 1]@);
        trim_suffix_str(segments[n - 1].as_str(), ".md")
    }
}

/// The directory part of a source path: the segments before the last one
/// joined by `/` with a trailing `/`, or empty at the top.
pub open spec fn dir_path(segments: Seq<Seq<char>>) -> Seq<char> {
    if segments.len() <= 1 {
        seq![]
    } else {
        join(segments.drop_last(), '/').push('/')
    }
}

/// The route of a source file (VuePress convention): `README.md` and
/// `index.md` give their directory route, `foo.md` gives `foo.html`, under
/// the locale prefix.
pub open spec fn route_of(segments: Seq<Seq<char>>, locale: Seq<char>) -> Seq<char> {
    let s: Seq<char> = stem(segments);
    if s == "README"@ || s == "index"@ {
        locale_route(locale, "/"@ + dir_path(segments))
    } else {
        locale_route(locale, "/"@ + dir_path(segments) + s + ".html"@)
    }
}

/// Computes the VuePress-style route for a page.
pub fn route_for(segments: &Vec<String>, locale: &str) -> (res: String)
    ensures
        res@ == route_of(strings_view(segments@), locale@),
{
    let s: String = stem_of(segments);
    let n: usize = segments.len();
    let dir: String = if n <= 1 {
        String::new()
    } else {
        let mut parts: Vec<String> = Vec::new();
        let mut i: usize = 0;
        while i < n - 1
            invariant
                n == segments.len(),
                n > 1,
                i <= n - 1,
                strings_view(parts@) == strings_view(segments@).take(i as int),
            decreases n - 1 - i,
        {
            let ghost before: Seq<String> = parts@;
            let piece: String = segments[i].clone();
            parts.push(piece);
            proof {
                lemma_strings_view_push(before, piece);
                assert(strings_view(segments@).take(i + 1) =~= strings_view(segments@).take(
                    i as int,
                ).push(segments@[i as int]@));
            }
            i = i + 1;
        }
        assert(strings_view(segments@).take(n - 1) =~= strings_view(segments@).drop_last());
        let slash: &str = "/";
        proof {
            reveal_strlit("/");
            assert(slash@ =~= seq!['/']);
        }
        let d: String = concat(join_char(&parts, '/').as_str(), slash);
        assert(d@ =~= dir_path(strings_view(segments@)));
        d
    };
    assert(dir@ == dir_path(strings_view(segments@)));
    let base: String = concat("/", dir.as_str());
    if str_eq(s.as_str(), "README") || str_eq(s.as_str(), "index") {
        join_locale_route(locale, base.as_str())
    } else {
        let with_stem: String = concat(base.as_str(), s.as_str());
        let full: String = concat(with_stem.as_str(), ".html");
        join_locale_route(locale, full.as_str())
    }
}

// ─── Markdown paths ─────────────────────────────────────────────────────────

/// Whether a path (trailing `/` removed) names a directory index page.
pub open spec fn is_index_md(p: Seq<char>) -> bool {
    "README.md"@.is_suffix_of(p) || "index.md"@.is_suffix_of(p)
}

/// The route of a markdown path: a `README.md` / `index.md` gives its
/// directory (up to and including the last `/`; the first character when
/// there is none), `foo.md` gives `foo.html`, anything else is kept (all
/// after trailing `/` are removed).
pub open spec fn md_route(path: Seq<char>) -> Seq<char> {
    let p: Seq<char> = trim_end(path, '/');
    if is_index_md(p) {
        let k: int = last_char_index(p, '/');
        p.take(
            if k >= 0 {
                k + 1
            } else {
                1
            },
        )
    } else if ".md"@.is_suffix_of(p) {
        p.take(p.len() - 3) + ".html"@
    } else {
        p
    }
}

/// Converts a markdown path (`/guide/foo.md`) to a route (`/guide/foo.html`).
pub fn md_path_to_route(path: &str) -> (res: String)
    requires
        ({
            let p: Seq<char> = trim_end(path@, '/');
            is_index_md(p) && last_char_index(p, '/') < 0 ==> (p[0] as u32) < 128
        }),
    ensures
        res@ == md_route(path@),
{
    let p: &str = trim_end_char(path, '/');
    let n: usize = p.unicode_len();
    if ends_with(p, "README.md") || ends_with(p, "index.md") {
        proof {
            reveal_strlit("README.md");
            reveal_strlit("index.md");
            lemma_last_char_index(p@, '/');
        }
        let end: usize = match rfind_char(p, '/') {
            Some(k) => k + 1,
            None => 1,
        };
        let r: &str = p.substring_char(0, end);
        assert(r@ =~= p@.take(end as int));
        return r.to_owned();
    }
    if ends_with(p, ".md") {
        proof {
            reveal_strlit(".md");
        }
        let stripped: &str = p.substring_char(0, n - 3);
        assert(stripped@ =~= p@.take(n - 3));
        return concat(stripped, ".html");
    }
    p.to_owned()
}

// ─── Relative links ─────────────────────────────────────────────────────────

/// The directory of a route: the route itself when it ends in `/`, else the
/// route up to and including its last `/`, else `/`.
pub open spec fn route_dir(route: Seq<char>) -> Seq<char> {
    if root_prefix().is_suffix_of(route) {
        route
    } else {
        let k: int = last_char_index(route, '/');
        if k >= 0 {
            route.take(k + 1)
        } else {
            root_prefix()
        }
    }
}

/// The non-empty pieces, in order.
pub open spec fn nonempty(ps: Seq<Seq<char>>) -> Seq<Seq<char>>
    decreases ps.len(),
{
    if ps.len() == 0 {
        seq![]
    } else {
        let r: Seq<Seq<char>> = nonempty(ps.drop_last());
        if ps.last().len() > 0 {
            r.push(ps.last())
        } else {
            r
        }
    }
}

/// The directory stack after walking the path segments `segs` from `stack`:
/// empty segments and `.` stay, `..` goes up (not above the top), any other
/// segment goes down.
pub open spec fn walk(stack: Seq<Seq<char>>, segs: Seq<Seq<char>>) -> Seq<Seq<char>>
    decreases segs.len(),
{
    if segs.len() == 0 {
        stack
    } else {
        let st: Seq<Seq<char>> = walk(stack, segs.drop_last());
        let g: Seq<char> = segs.last();
        if g.len() == 0 || g == "."@ {
            st
        } else if g == ".."@ {
            if st.len() > 0 {
                st.drop_last()
            } else {
                st
            }
        } else {
            st.push(g)
        }
    }
}

/// The route of a markdown link `rel` (trailing `/` removed) found on page
/// `route`: a `/`-absolute path maps as is; a relative one is walked from
/// the page's directory.
pub open spec fn resolved(route: Seq<char>, rel: Seq<char>) -> Seq<char> {
    let r: Seq<char> = trim_end(rel, '/');
    if root_prefix().is_prefix_of(r) {
        md_route(r)
    } else {
        md_route(
            "/"@ + join(walk(nonempty(split(route_dir(route), '/')), split(r, '/')), '/'),
        )
    }
}

/// A path that starts with `/` meets the precondition of `md_path_to_route`.
proof fn lemma_rooted_path(path: Seq<char>)
    requires
        path.len() > 0,
        path[0] == '/',
    ensures
        ({
            let p: Seq<char> = trim_end(path, '/');
            is_index_md(p) ==> last_char_index(p, '/') >= 0
        }),
{
    let p: Seq<char> = trim_end(path, '/');
    crate::text::lemma_trim_end_prefix(path, '/');
    lemma_last_char_index(p, '/');
    if is_index_md(p) {
        reveal_strlit("README.md");
        reveal_strlit("index.md");
        assert(p.len() > 0);
        assert(p[0] == path[0]);
    }
}

/// Resolves a relative markdown path against the current page route.
pub fn resolve_relative(route: &str, rel: &str) -> (res: String)
    ensures
        res@ == resolved(route@, rel@),
{
    let r: &str = trim_end_char(rel, '/');
    let slash: &str = "/";
    proof {
        reveal_strlit("/");
        assert(slash@ =~= root_prefix());
    }
    if starts_with(r, slash) {
        proof {
            assert(r@.subrange(0, 1)[0] == r@[0]);
            lemma_rooted_path(r@);
        }
        return md_path_to_route(r);
    }
    let _route_len: usize = route.unicode_len();
    let dir: String = if ends_with(route, slash) {
        route.to_owned()
    } else {
        match rfind_char(route, '/') {
            Some(k) => {
                proof {
                    lemma_last_char_index(route@, '/');
                }
                let d: &str = route.substring_char(0, k + 1);
                assert(d@ =~= route@.take(k + 1));
                d.to_owned()
            },
            None => slash.to_owned(),
        }
    };
    let pieces: Vec<String> = split_char(dir.as_str(), '/');
    let ghost pv: Seq<Seq<char>> = strings_view(pieces@);
    let mut stack: Vec<String> = Vec::new();
    let np: usize = pieces.len();
    let mut i: usize = 0;
    while i < np
        invariant
            np == pieces.len(),
            pv == strings_view(pieces@),
            i <= np,
            strings_view(stack@) == nonempty(pv.take(i as int)),
        decreases np - i,
    {
        assert(pv.take(i + 1).drop_last() =~= pv.take(i as int));
        assert(pv[i as int] == pieces@[i as int]@);
        if pieces[i].unicode_len() > 0 {
            let ghost before: Seq<String> = stack@;
            let piece: String = pieces[i].clone();
            stack.push(piece);
            proof {
                lemma_strings_view_push(before, piece);
            }
        }
        i = i + 1;
    }
    assert(pv.take(np as int) =~= pv);
    let segs: Vec<String> = split_char(r, '/');
    let ghost sv: Seq<Seq<char>> = strings_view(segs@);
    let ghost base: Seq<Seq<char>> = strings_view(stack@);
    let ns: usize = segs.len();
    let mut j: usize = 0;
    while j < ns
        invariant
            ns == segs.len(),
            sv == strings_view(segs@),
            j <= ns,
            strings_view(stack@) == walk(base, sv.take(j as int)),
        decreases ns - j,
    {
        assert(sv.take(j + 1).drop_last() =~= sv.take(j as int));
        assert(sv[j as int] == segs@[j as int]@);
        let g: &str = segs[j].as_str();
        let ghost before: Seq<String> = stack@;
        if g.unicode_len() == 0 || str_eq(g, ".") {
        } else if str_eq(g, "..") {
            if stack.len() > 0 {
                stack.pop();
                assert(strings_view(stack@) =~= strings_view(before).drop_last());
            }
        } else {
            let piece: String = segs[j].clone();
            stack.push(piece);
            proof {
                lemma_strings_view_push(before, piece);
            }
        }
        j = j + 1;
    }
    assert(sv.take(ns as int) =~= sv);
    let joined: String = join_char(&stack, '/');
    let path: String = concat(slash, joined.as_str());
    proof {
        lemma_rooted_path(path@);
    }
    md_path_to_route(path.as_str())
}

// ─── Link rewriting ─────────────────────────────────────────────────────────

/// Whether a link target leaves the site (`http://`, `https://`, `mailto:`).
pub open spec fn is_external_link(dest: Seq<char>) -> bool {
    "http://"@.is_prefix_of(dest) || "https://"@.is_prefix_of(dest) || "mailto:"@.is_prefix_of(
        dest,
    )
}

/// The text after the first `#` of a link target, when it has one.
pub open spec fn link_anchor(dest: Seq<char>) -> Option<Seq<char>> {
    let i: int = char_index(dest, '#');
    if i < 0 {
        None
    } else {
        Some(dest.skip(i + 1))
    }
}

/// Whether a path part names a markdown file (`.md`, or `.md/`).
pub open spec fn is_md_link(path: Seq<char>) -> bool {
    ".md"@.is_suffix_of(path) || ".md/"@.is_suffix_of(path)
}

/// The href and external flag of markdown link `dest` on page `route`:
/// external links are kept; `#anchor` points into the page; markdown paths
/// become `#<route>`; `/`-absolute paths go through the hash router; other
/// relative links (assets) are kept. The anchor of a markdown or absolute
/// path is carried over.
pub open spec fn rewritten(dest: Seq<char>, route: Seq<char>) -> (Seq<char>, bool) {
    if is_external_link(dest) {
        (dest, true)
    } else if dest.len() > 0 && dest[0] == '#' {
        ("#"@ + route + "#"@ + dest.skip(1), false)
    } else {
        let path: Seq<char> = route_path(dest);
        let rooted: bool = root_prefix().is_prefix_of(path);
        let href: Seq<char> = if is_md_link(path) {
            "#"@ + resolved(route, path)
        } else if rooted {
            "#"@ + path
        } else {
            dest
        };
        match link_anchor(dest) {
            Some(a) => if ".md"@.is_suffix_of(path) || rooted {
                (href + "#"@ + a, false)
            } else {
                (href, false)
            },
            None => (href, false),
        }
    }
}

/// Rewrites a markdown link target into a site URL.
///
/// Returns `(href, external)` where internal hrefs carry the `#` hash-router
/// prefix (plus an optional `#anchor` suffix).
pub fn rewrite_link(dest: &str, route: &str) -> (res: (String, bool))
    ensures
        res.0@ == rewritten(dest@, route@).0,
        res.1 == rewritten(dest@, route@).1,
{
    if starts_with(dest, "http://") || starts_with(dest, "https://") || starts_with(dest, "mailto:") {
        return (dest.to_owned(), true);
    }
    let hash: &str = "#";
    proof {
        reveal_strlit("#");
        assert(hash@ =~= seq!['#']);
    }
    let n: usize = dest.unicode_len();
    if starts_with(dest, hash) {
        let anchor: &str = dest.substring_char(1, n);
        assert(anchor@ =~= dest@.skip(1));
        assert(dest@.subrange(0, 1)[0] == dest@[0]);
        let a: String = concat(hash, route);
        let b: String = concat(a.as_str(), hash);
        return (concat(b.as_str(), anchor), false);
    }
    proof {
        if dest@.len() > 0 && dest@[0] == '#' {
            assert(hash@.is_prefix_of(dest@));
        }
    }
    let split_at: Option<usize> = find_char(dest, '#');
    proof {
        crate::lookup::lemma_first_index(dest@, crate::text::is_char('#'));
    }
    let path: &str = match split_at {
        Some(i) => dest.substring_char(0, i),
        None => dest,
    };
    assert(path@ =~= route_path(dest@));
    let slash: &str = "/";
    proof {
        reveal_strlit("/");
        assert(slash@ =~= root_prefix());
    }
    let rooted: bool = starts_with(path, slash);
    let md: bool = ends_with(path, ".md");
    let href: String = if md || ends_with(path, ".md/") {
        concat(hash, resolve_relative(route, path).as_str())
    } else if rooted {
        concat(hash, path)
    } else {
        dest.to_owned()
    };
    match split_at {
        Some(i) => {
            let anchor: &str = dest.substring_char(i + 1, n);
            assert(anchor@ =~= dest@.skip(i + 1));
            if md || rooted {
                let with_hash: String = concat(href.as_str(), hash);
                (concat(with_hash.as_str(), anchor), false)
            } else {
                (href, false)
            }
        },
        None => (href, false),
    }
}


// ─── Links to page sources ──────────────────────────────────────────────────

/// Whether `segments` name a page source below locale prefix `locale`: the
/// prefix is `/` or `/<dir>/`; every segment is a non-empty name without
/// `/`; the file name ends in one `.md`, and names a directory index only
/// when it is `README.md` or `index.md` itself.
pub open spec fn is_page_source(locale: Seq<char>, segments: Seq<Seq<char>>) -> bool {
    let last: Seq<char> = segments.last();
    &&& locale == root_prefix() || exists|d: Seq<char>|
        d.len() > 0 && !d.contains('/') && locale == "/"@ + d + "/"@
    &&& segments.len() > 0
    &&& forall|i: int| 0 <= i < segments.len() ==> (#[trigger] segments[i]).len() > 0 && !segments[i].contains('/')
    &&& ".md"@.is_suffix_of(last)
    &&& !".md"@.is_suffix_of(last.take(last.len() - 3))
    &&& last == "README.md"@ || last == "index.md"@ || (!"README.md"@.is_suffix_of(last) && !"index.md"@.is_suffix_of(last))
}

/// The last `/` of a text that ends in `/` followed by a name without `/`
/// is that one.
proof fn lemma_last_slash(p: Seq<char>, name: Seq<char>)
    requires
        p.len() > 0,
        p.last() == '/',
        !name.contains('/'),
    ensures
        last_char_index(p + name, '/') == p.len() - 1,
    decreases name.len(),
{
    if name.len() == 0 {
        assert(p + name =~= p);
    } else {
        assert((p + name).drop_last() =~= p + name.drop_last());
        assert((p + name).last() == name.last());
        assert(name.contains(name.last())) by {
            assert(name[name.len() - 1] == name.last());
        }
        lemma_last_slash(p, name.drop_last());
    }
}

/// A suffix without `/` of a text that ends in `/` and a name without `/`
/// is a suffix of the name.
proof fn lemma_suffix_in_name(p: Seq<char>, name: Seq<char>, x: Seq<char>)
    requires
        p.len() > 0,
        p.last() == '/',
        !x.contains('/'),
        x.is_suffix_of(p + name),
    ensures
        x.is_suffix_of(name),
{
    let q: Seq<char> = p + name;
    if x.len() > name.len() {
        let k: int = x.len() - name.len() - 1;
        assert(q[q.len() - name.len() - 1] == '/');
        assert(x[k] == q.subrange(q.len() - x.len(), q.len() as int)[k]);
        assert(x.contains('/'));
    } else {
        assert(name.subrange(name.len() - x.len(), name.len() as int) =~= q.subrange(
            q.len() - x.len(),
            q.len() as int,
        ));
    }
}

/// `trim_end` keeps a text that does not end in the character.
proof fn lemma_trim_end_keeps(s: Seq<char>, c: char)
    requires
        s.len() > 0,
        s.last() != c,
    ensures
        trim_end(s, c) == s,
{
}

/// Under a locale prefix `/` or `/<dir>/`, the base route `/` + `rest` is
/// the prefix followed by `rest`.
proof fn lemma_locale_route_front(locale: Seq<char>, rest: Seq<char>)
    requires
        locale == root_prefix() || exists|d: Seq<char>|
            d.len() > 0 && !d.contains('/') && locale == "/"@ + d + "/"@,
    ensures
        locale_route(locale, "/"@ + rest) == locale + rest,
{
    reveal_strlit("/");
    if locale != root_prefix() {
        let d: Seq<char> = choose|d: Seq<char>| d.len() > 0 && !d.contains('/') && locale == "/"@ + d + "/"@;
        let head: Seq<char> = "/"@ + d;
        assert(locale =~= head.push('/'));
        assert(head.last() == d.last());
        assert(d.contains(d.last())) by {
            assert(d[d.len() - 1] == d.last());
        }
        assert(locale.drop_last() =~= head);
        lemma_trim_end_keeps(head, '/');
        assert(trim_end(locale, '/') == head);
        assert(head + ("/"@ + rest) =~= locale + rest);
    } else {
        assert(locale =~= seq!['/']);
        assert("/"@ + rest =~= locale + rest);
    }
}

/// The path of a page source is the locale, the directories ending in `/`,
/// then the file name.
proof fn lemma_source_path_split(locale: Seq<char>, segments: Seq<Seq<char>>)
    requires
        is_page_source(locale, segments),
    ensures
        locale + join(segments, '/') == locale + dir_path(segments) + segments.last(),
        (locale + dir_path(segments)).len() > 0,
        (locale + dir_path(segments)).last() == '/',
        !segments.last().contains('/'),
{
    reveal_strlit("/");
    let n: int = segments.len() as int;
    let last: Seq<char> = segments.last();
    assert(segments[n - 1] == last);
    let dir: Seq<char> = dir_path(segments);
    let front: Seq<char> = locale + dir;
    assert(locale.len() > 0 && locale.last() == '/') by {
        if locale != root_prefix() {
            let d: Seq<char> = choose|d: Seq<char>| d.len() > 0 && !d.contains('/') && locale == "/"@ + d + "/"@;
            assert(locale.last() == ("/"@ + d + "/"@).last());
        }
    }
    if n == 1 {
        assert(join(segments, '/') == last);
        assert(dir =~= Seq::<char>::empty());
        assert(front =~= locale);
    } else {
        assert(join(segments, '/') == join(segments.drop_last(), '/').push('/') + last);
        assert(dir.last() == '/');
        assert(front.last() == '/');
    }
    assert(locale + join(segments, '/') =~= front + last);
}

/// The stem of a page source is its file name without `.md`.
proof fn lemma_source_stem(locale: Seq<char>, segments: Seq<Seq<char>>)
    requires
        is_page_source(locale, segments),
    ensures
        stem(segments) == segments.last().take(segments.last().len() - 3),
        segments.last() == stem(segments) + ".md"@,
{
    reveal_strlit(".md");
    let last: Seq<char> = segments.last();
    let st: Seq<char> = last.take(last.len() - 3);
    assert(last =~= st + ".md"@);
    assert(trim_suffix_all(last, ".md"@) == trim_suffix_all(st, ".md"@));
}

/// The law for a directory index page.
#[verifier::spinoff_prover]
proof fn lemma_index_source_route(locale: Seq<char>, segments: Seq<Seq<char>>)
    requires
        is_page_source(locale, segments),
        segments.last() == "README.md"@ || segments.last() == "index.md"@,
    ensures
        md_route(locale + join(segments, '/')) == route_of(segments, locale),
{
    reveal_strlit("README");
    reveal_strlit("index");
    reveal_strlit("README.md");
    reveal_strlit("index.md");
    let last: Seq<char> = segments.last();
    let dir: Seq<char> = dir_path(segments);
    let front: Seq<char> = locale + dir;
    let p: Seq<char> = locale + join(segments, '/');
    lemma_source_path_split(locale, segments);
    lemma_source_stem(locale, segments);
    assert(p == front + last);
    assert(p.last() == last.last());
    lemma_trim_end_keeps(p, '/');
    assert(is_index_md(p)) by {
        if last == "README.md"@ {
            assert(p.subrange(p.len() - 9, p.len() as int) =~= last);
        } else {
            assert(p.subrange(p.len() - 8, p.len() as int) =~= last);
        }
    }
    assert(stem(segments) == "README"@ || stem(segments) == "index"@) by {
        if last == "README.md"@ {
            assert(stem(segments) =~= "README"@);
        } else {
            assert(stem(segments) =~= "index"@);
        }
    }
    lemma_last_slash(front, last);
    assert(p.take(front.len() as int) =~= front);
    lemma_locale_route_front(locale, dir);
}

/// The law for a page other than a directory index.
#[verifier::spinoff_prover]
proof fn lemma_leaf_source_route(locale: Seq<char>, segments: Seq<Seq<char>>)
    requires
        is_page_source(locale, segments),
        segments.last() != "README.md"@,
        segments.last() != "index.md"@,
    ensures
        md_route(locale + join(segments, '/')) == route_of(segments, locale),
{
    reveal_strlit(".md");
    reveal_strlit(".html");
    reveal_strlit("README");
    reveal_strlit("index");
    reveal_strlit("README.md");
    reveal_strlit("index.md");
    let last: Seq<char> = segments.last();
    let dir: Seq<char> = dir_path(segments);
    let front: Seq<char> = locale + dir;
    let p: Seq<char> = locale + join(segments, '/');
    lemma_source_path_split(locale, segments);
    lemma_source_stem(locale, segments);
    let st: Seq<char> = stem(segments);
    assert(p == front + last);
    assert(p.last() == last.last());
    lemma_trim_end_keeps(p, '/');
    assert(!is_index_md(p)) by {
        if "README.md"@.is_suffix_of(p) {
            lemma_suffix_in_name(front, last, "README.md"@);
        }
        if "index.md"@.is_suffix_of(p) {
            lemma_suffix_in_name(front, last, "index.md"@);
        }
    }
    assert(st != "README"@ && st != "index"@) by {
        if st == "README"@ {
            assert(last =~= "README.md"@);
        }
        if st == "index"@ {
            assert(last =~= "index.md"@);
        }
    }
    assert(".md"@.is_suffix_of(p)) by {
        assert(p.subrange(p.len() - 3, p.len() as int) =~= ".md"@);
    }
    assert(p.take(p.len() - 3) =~= front + st);
    lemma_locale_route_front(locale, dir + st + ".html"@);
    assert("/"@ + dir + st + ".html"@ =~= "/"@ + (dir + st + ".html"@));
    assert(locale + (dir + st + ".html"@) =~= front + st + ".html"@);
}

/// A link to a page's source file resolves to the page's route: for a page
/// source below a locale, the route of the path `<locale><segments joined
/// by '/'>` is the route the page is published at.
pub proof fn law_source_path_route(locale: Seq<char>, segments: Seq<Seq<char>>)
    requires
        is_page_source(locale, segments),
    ensures
        md_route(locale + join(segments, '/')) == route_of(segments, locale),
{
    if segments.last() == "README.md"@ || segments.last() == "index.md"@ {
        lemma_index_source_route(locale, segments);
    } else {
        lemma_leaf_source_route(locale, segments);
    }
}

/// Links that leave the site are exactly those to `http://`, `https://` or
/// `mailto:` targets: such a target is kept as written and flagged external
/// (to open in a new tab); every other target is internal.
pub proof fn law_external_links(dest: Seq<char>, route: Seq<char>)
    ensures
        ("http://"@.is_prefix_of(dest) || "https://"@.is_prefix_of(dest) || "mailto:"@.is_prefix_of(
            dest,
        )) ==> rewritten(dest, route) == (dest, true),
        !("http://"@.is_prefix_of(dest) || "https://"@.is_prefix_of(dest) || "mailto:"@.is_prefix_of(
            dest,
        )) ==> !rewritten(dest, route).1,
{
}

/// A same-page anchor `#a` links to `a` on the page itself, through the
/// hash router: `#<route>#a`, internal.
pub proof fn law_anchor_links(a: Seq<char>, route: Seq<char>)
    ensures
        rewritten(seq!['#'] + a, route) == (seq!['#'] + route + seq!['#'] + a, false),
{
    reveal_strlit("#");
    reveal_strlit("http://");
    reveal_strlit("https://");
    reveal_strlit("mailto:");
    let d: Seq<char> = seq!['#'] + a;
    assert(d[0] == '#');
    assert(!"http://"@.is_prefix_of(d)) by {
        assert("http://"@[0] != d[0]);
    }
    assert(!"https://"@.is_prefix_of(d)) by {
        assert("https://"@[0] != d[0]);
    }
    assert(!"mailto:"@.is_prefix_of(d)) by {
        assert("mailto:"@[0] != d[0]);
    }
    assert(d.skip(1) =~= a);
    assert("#"@ =~= seq!['#']);
}

} // verus!
