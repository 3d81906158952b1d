//! Page metadata derived from source files: the locale a file belongs to,
//! human titles from file names, and the page title.

use vstd::prelude::*;

use crate::router::root_prefix;
use crate::text::{
    concat, contains_str, is_root_str, lemma_strings_view_push, str_eq, strings_view, trim_end,
    trim_matches_char, trim_start,
};
use crate::unicode::{char_to_uppercase, string_from_chars, upper};

verus! {

// ─── Titles from names ──────────────────────────────────────────────────────

/// Whether `c` separates words in a file name.
pub open spec fn is_sep(c: char) -> bool {
    c == '-' || c == '_'
}

/// What character `k` of a name becomes in its title: a separator becomes a
/// space, the first character and each one after a separator is
/// uppercased, the rest stay.
pub open spec fn title_piece(s: Seq<char>, k: int) -> Seq<char> {
    if is_sep(s[k]) {
        seq![' ']
    } else if k == 0 || is_sep(s[k - 1]) {
        upper(s[k])
    } else {
        seq![s[k]]
    }
}

/// The title pieces of the first `n` characters of `s`.
pub open spec fn title_upto(s: Seq<char>, n: int) -> Seq<char>
    decreases n,
{
    if n <= 0 {
        seq![]
    } else {
        title_upto(s, n - 1) + title_piece(s, n - 1)
    }
}

/// The human title of a file or directory name (`getting-started` →
/// `Getting Started`); `Index` for an empty name.
pub open spec fn pretty(s: Seq<char>) -> Seq<char> {
    if s.len() == 0 {
        "Index"@
    } else {
        title_upto(s, s.len() as int)
    }
}

/// Converts a file/dir name into a human title (`getting-started` → `Getting Started`).
pub fn prettify(name: &str) -> (res: String)
    ensures
        res@ == pretty(name@),
{
    let n: usize = name.unicode_len();
    if n == 0 {
        return "Index".to_owned();
    }
    let mut out: Vec<char> = Vec::new();
    let mut capitalize: bool = true;
    let mut k: usize = 0;
    while k < n
        invariant
            n == name@.len(),
            k <= n,
            out@ == title_upto(name@, k as int),
            capitalize == (k == 0 || is_sep(name@[k - 1])),
        decreases n - k,
    {
        let ch: char = name.get_char(k);
        if ch == '-' || ch == '_' {
            out.push(' ');
            capitalize = true;
        } else if capitalize {
            let mut up: Vec<char> = char_to_uppercase(ch);
            out.append(&mut up);
            capitalize = false;
        } else {
            out.push(ch);
        }
        k = k + 1;
    }
    string_from_chars(&out)
}

/// The page title: the frontmatter title, else the first `h1`, else the
/// human title of the file stem.
pub open spec fn title_of(fm_title: Option<Seq<char>>, first_h1: Option<Seq<char>>, stem: Seq<
    char,
>) -> Seq<char> {
    match fm_title {
        Some(t) => t,
        None => match first_h1 {
            Some(h) => h,
            None => pretty(stem),
        },
    }
}

/// The view of an optional string.
pub open spec fn opt_view(o: Option<String>) -> Option<Seq<char>> {
    match o {
        Some(s) => Some(s@),
        None => None,
    }
}

/// Chooses the page title: the frontmatter title, else the first `h1`,
/// else the prettified file stem.
pub fn page_title(fm_title: Option<String>, first_h1: Option<String>, stem: &str) -> (res: String)
    ensures
        res@ == title_of(opt_view(fm_title), opt_view(first_h1), stem@),
{
    match fm_title {
        Some(t) => t,
        None => match first_h1 {
            Some(h) => h,
            None => prettify(stem),
        },
    }
}

// ─── Locales of source files ────────────────────────────────────────────────

/// The directory name of a locale prefix (`/zh/` → `zh`).
pub open spec fn locale_dir(prefix: Seq<char>) -> Seq<char> {
    trim_start(trim_end(prefix, '/'), '/')
}

/// Whether `dirs` are the directory names of the non-root prefixes, in order.
pub open spec fn is_locale_dirs(prefixes: Seq<Seq<char>>, dirs: Seq<Seq<char>>) -> bool
    decreases prefixes.len(),
{
    if prefixes.len() == 0 {
        dirs.len() == 0
    } else if prefixes.last() == root_prefix() {
        is_locale_dirs(prefixes.drop_last(), dirs)
    } else {
        dirs.len() > 0 && dirs.last() == locale_dir(prefixes.last()) && is_locale_dirs(
            prefixes.drop_last(),
            dirs.drop_last(),
        )
    }
}

/// The directory names of the non-root locales, which hold their pages.
pub fn locale_dirs(prefixes: &Vec<String>) -> (res: Vec<String>)
    ensures
        is_locale_dirs(strings_view(prefixes@), strings_view(res@)),
{
    let ghost pv: Seq<Seq<char>> = strings_view(prefixes@);
    let n: usize = prefixes.len();
    let mut out: Vec<String> = Vec::new();
    let mut i: usize = 0;
    assert(pv.take(0) =~= Seq::<Seq<char>>::empty());
    while i < n
        invariant
            n == prefixes.len(),
            pv == strings_view(prefixes@),
            i <= n,
            is_locale_dirs(pv.take(i as int), strings_view(out@)),
        decreases n - i,
    {
        assert(pv.take(i + 1).drop_last() =~= pv.take(i as int));
        assert(pv[i as int] == prefixes@[i as int]@);
        let ghost before: Seq<String> = out@;
        if !is_root_str(prefixes[i].as_str()) {
            let d: String = trim_matches_char(prefixes[i].as_str(), '/');
            out.push(d);
            proof {
                lemma_strings_view_push(before, d);
                assert(strings_view(out@).drop_last() =~= strings_view(before));
            }
        }
        i = i + 1;
    }
    assert(pv.take(n as int) =~= pv);
    out
}

/// The locale prefix of a source path and its segments below the locale
/// directory: a first segment naming a locale directory gives `/<dir>/`.
pub open spec fn source_locale(segments: Seq<Seq<char>>, dirs: Seq<Seq<char>>) -> (Seq<char>, Seq<
    Seq<char>,
>) {
    if segments.len() > 0 && dirs.contains(segments[0]) {
        ("/"@ + segments[0] + "/"@, segments.drop_first())
    } else {
        (root_prefix(), segments)
    }
}

/// Locale detection from the first path segment: the owning locale prefix
/// and the segments below the locale directory.
pub fn page_locale(segments: &Vec<String>, dirs: &Vec<String>) -> (res: (String, Vec<String>))
    ensures
        res.0@ == source_locale(strings_view(segments@), strings_view(dirs@)).0,
        strings_view(res.1@) == source_locale(strings_view(segments@), strings_view(dirs@)).1,
{
    let ghost sv: Seq<Seq<char>> = strings_view(segments@);
    let ghost dv: Seq<Seq<char>> = strings_view(dirs@);
    let slash: &str = "/";
    proof {
        reveal_strlit("/");
        assert(slash@ =~= root_prefix());
    }
    let n: usize = segments.len();
    if n > 0 {
        let first: &str = segments[0].as_str();
        assert(sv[0] == first@);
        if contains_str(dirs, first) {
            let a: String = concat(slash, first);
            let prefix: String = concat(a.as_str(), slash);
            let mut rest: Vec<String> = Vec::new();
            let mut i: usize = 1;
            while i < n
                invariant
                    n == segments.len(),
                    sv == strings_view(segments@),
                    1 <= i <= n,
                    strings_view(rest@) == sv.subrange(1, i as int),
                decreases n - i,
            {
                let ghost before: Seq<String> = rest@;
                let piece: String = segments[i].clone();
                rest.push(piece);
                proof {
                    lemma_strings_view_push(before, piece);
                    assert(sv[i as int] == segments@[i as int]@);
                    assert(sv.subrange(1, i + 1) =~= sv.subrange(1, i as int).push(sv[i as int]));
                }
                i = i + 1;
            }
            assert(sv.subrange(1, n as int) =~= sv.drop_first());
            return (prefix, rest);
        }
        assert(!dv.contains(sv[0]));
    }
    let mut all: Vec<String> = Vec::new();
    let mut i: usize = 0;
    while i < n
        invariant
            n == segments.len(),
            sv == strings_view(segments@),
            i <= n,
            strings_view(all@) == sv.take(i as int),
        decreases n - i,
    {
        let ghost before: Seq<String> = all@;
        let piece: String = segments[i].clone();
        all.push(piece);
        proof {
            lemma_strings_view_push(before, piece);
            assert(sv[i as int] == segments@[i as int]@);
            assert(sv.take(i + 1) =~= sv.take(i as int).push(sv[i as int]));
        }
        i = i + 1;
    }
    assert(sv.take(n as int) =~= sv);
    (slash.to_owned(), all)
}

} // verus!
