//! Custom containers in markdown source: a line `::: kind [title]` opens a
//! container and a line `:::` closes it; containers do not nest (inside
//! one, any other `:::` line is content). The source is split into plain
//! markdown runs and containers.

use vstd::prelude::*;

use crate::data::DocsBlock;
use crate::lookup::{first_index, lemma_first_index_at, lemma_first_index_none};
use crate::plain::{trim_whitespace, trim_whitespace_end, trim_ws, trim_ws_end, trim_ws_start};
use crate::source::opt_view;
use crate::text::{concat, lemma_split_len, split, split_char, starts_with, str_eq, strings_view};
use crate::unicode::{char_is_whitespace, is_white, str_to_uppercase, upper_text};

verus! {

// ─── Lines ──────────────────────────────────────────────────────────────────

/// A line without its `\r` terminator part, when it has one.
pub open spec fn strip_cr(l: Seq<char>) -> Seq<char> {
    if l.len() > 0 && l.last() == '\r' {
        l.drop_last()
    } else {
        l
    }
}

/// The lines of `s` (`str::lines`): split at `\n`, a `\r` before a `\n` is
/// part of the line ending, and a final line ending adds no empty line.
pub open spec fn lines(s: Seq<char>) -> Seq<Seq<char>> {
    let p: Seq<Seq<char>> = split(s, '\n');
    let k: int = p.len() - 1;
    let ended: Seq<Seq<char>> = p.take(k).map_values(|l: Seq<char>| strip_cr(l));
    if p[k].len() > 0 {
        ended.push(p[k])
    } else {
        ended
    }
}

/// The lines of `s`.
pub fn text_lines(s: &str) -> (res: Vec<String>)
    ensures
        strings_view(res@) == lines(s@),
{
    let pieces: Vec<String> = split_char(s, '\n');
    let ghost p: Seq<Seq<char>> = split(s@, '\n');
    proof {
        lemma_split_len(s@, '\n');
    }
    let k: usize = pieces.len() - 1;
    let mut out: Vec<String> = Vec::new();
    let mut i: usize = 0;
    while i < k
        invariant
            k + 1 == pieces.len(),
            p == strings_view(pieces@),
            i <= k,
            strings_view(out@) == p.take(i as int).map_values(|l: Seq<char>| strip_cr(l)),
        decreases k - i,
    {
        let piece: &str = pieces[i].as_str();
        assert(p[i as int] == piece@);
        let n: usize = piece.unicode_len();
        let line: String = if n > 0 && piece.get_char(n - 1) == '\r' {
            let r: &str = piece.substring_char(0, n - 1);
            assert(r@ =~= piece@.drop_last());
            r.to_owned()
        } else {
            piece.to_owned()
        };
        let ghost before: Seq<String> = out@;
        out.push(line);
        proof {
            assert(strings_view(out@) =~= strings_view(before).push(line@));
            assert(p.take(i + 1).map_values(|l: Seq<char>| strip_cr(l)) =~= p.take(i as int).map_values(
                |l: Seq<char>| strip_cr(l),
            ).push(strip_cr(p[i as int])));
        }
        i = i + 1;
    }
    let last: &str = pieces[k].as_str();
    assert(p[k as int] == last@);
    if last.unicode_len() > 0 {
        let ghost before: Seq<String> = out@;
        let l: String = last.to_owned();
        out.push(l);
        assert(strings_view(out@) =~= strings_view(before).push(l@));
    }
    out
}

// ─── Segments ───────────────────────────────────────────────────────────────

/// A source segment: plain markdown or a container.
pub enum Segment {
    /// Plain markdown.
    Markdown(String),
    /// A `::: kind [title]` container with its raw markdown body.
    Container { kind: String, title: Option<String>, body: String },
}

/// The mathematical value of a segment.
pub enum SegmentView {
    /// Plain markdown.
    Markdown(Seq<char>),
    /// A container.
    Container { kind: Seq<char>, title: Option<Seq<char>>, body: Seq<char> },
}

/// The value of a segment.
pub open spec fn segment_view(s: Segment) -> SegmentView {
    match s {
        Segment::Markdown(m) => SegmentView::Markdown(m@),
        Segment::Container { kind, title, body } => SegmentView::Container {
            kind: kind@,
            title: opt_view(title),
            body: body@,
        },
    }
}

/// The values of segments.
pub open spec fn segment_views(s: Seq<Segment>) -> Seq<SegmentView> {
    s.map_values(|x: Segment| segment_view(x))
}

/// The predicate "is whitespace".
pub open spec fn white() -> spec_fn(char) -> bool {
    |c: char| is_white(c)
}

/// The kind of a container opener `rest` (after `:::`, trimmed): up to its
/// first whitespace.
pub open spec fn kind_of(rest: Seq<char>) -> Seq<char> {
    let w: int = first_index(rest, white());
    if w < 0 {
        rest
    } else {
        rest.take(w)
    }
}

/// The title of a container opener: what follows the first whitespace,
/// trimmed, when that is not empty.
pub open spec fn title_of(rest: Seq<char>) -> Option<Seq<char>> {
    let w: int = first_index(rest, white());
    if w < 0 {
        None
    } else {
        let t: Seq<char> = trim_ws(rest.skip(w + 1));
        if t.len() == 0 {
            None
        } else {
            Some(t)
        }
    }
}

/// The state of the split after some lines.
pub struct Scan {
    /// Finished segments.
    pub segments: Seq<SegmentView>,
    /// Plain markdown collected since the last segment.
    pub buf: Seq<char>,
    /// Whether a container is open.
    pub open: bool,
    /// Kind of the open container.
    pub kind: Seq<char>,
    /// Title of the open container.
    pub title: Option<Seq<char>>,
    /// Body of the open container.
    pub body: Seq<char>,
}

/// The state before any line.
pub open spec fn scan_start() -> Scan {
    Scan { segments: seq![], buf: seq![], open: false, kind: seq![], title: None, body: seq![] }
}

/// Whether `s` holds only whitespace.
pub open spec fn blank(s: Seq<char>) -> bool {
    trim_ws(s).len() == 0
}

/// The state after one more line.
pub open spec fn step(st: Scan, line: Seq<char>) -> Scan {
    let trimmed: Seq<char> = trim_ws_end(line);
    if !st.open && ":::"@.is_prefix_of(trimmed) {
        let rest: Seq<char> = trim_ws(trimmed.skip(3));
        if rest.len() == 0 {
            Scan { buf: st.buf + line.push('\n'), ..st }
        } else {
            Scan {
                segments: if blank(st.buf) {
                    st.segments
                } else {
                    st.segments.push(SegmentView::Markdown(st.buf))
                },
                buf: seq![],
                open: true,
                kind: kind_of(rest),
                title: title_of(rest),
                body: seq![],
            }
        }
    } else if st.open && trimmed == ":::"@ {
        Scan {
            segments: st.segments.push(
                SegmentView::Container { kind: st.kind, title: st.title, body: st.body },
            ),
            buf: st.buf,
            open: false,
            kind: seq![],
            title: None,
            body: seq![],
        }
    } else if st.open {
        Scan { body: st.body + line.push('\n'), ..st }
    } else {
        Scan { buf: st.buf + line.push('\n'), ..st }
    }
}

/// The state after the lines `ls`.
pub open spec fn scan(ls: Seq<Seq<char>>) -> Scan
    decreases ls.len(),
{
    if ls.len() == 0 {
        scan_start()
    } else {
        step(scan(ls.drop_last()), ls.last())
    }
}

/// The segments once the lines are done: an unterminated container is
/// given back as markdown (`::: kind`, a line break and its body); the
/// trailing markdown counts unless it is blank.
pub open spec fn finish(st: Scan) -> Seq<SegmentView> {
    let buf: Seq<char> = if st.open {
        st.buf + ":::"@ + seq![' '] + st.kind + seq!['\n'] + st.body
    } else {
        st.buf
    };
    if blank(buf) {
        st.segments
    } else {
        st.segments.push(SegmentView::Markdown(buf))
    }
}

/// The segments of a markdown source.
pub open spec fn segments_of(src: Seq<char>) -> Seq<SegmentView> {
    finish(scan(lines(src)))
}


/// Lines joined back, each followed by a line break.
pub open spec fn body_text(ls: Seq<Seq<char>>) -> Seq<char>
    decreases ls.len(),
{
    if ls.len() == 0 {
        seq![]
    } else {
        body_text(ls.drop_last()) + ls.last().push('\n')
    }
}

/// After an opener and some content lines, the container is open with all
/// of them as its body.
proof fn lemma_scan_open(opener: Seq<char>, body: Seq<Seq<char>>, k: int)
    requires
        ":::"@.is_prefix_of(trim_ws_end(opener)),
        trim_ws(trim_ws_end(opener).skip(3)).len() > 0,
        forall|i: int| 0 <= i < body.len() ==> trim_ws_end(#[trigger] body[i]) != ":::"@,
        0 <= k <= body.len(),
    ensures
        ({
            let rest: Seq<char> = trim_ws(trim_ws_end(opener).skip(3));
            scan(seq![opener] + body.take(k)) == Scan {
                segments: seq![],
                buf: seq![],
                open: true,
                kind: kind_of(rest),
                title: title_of(rest),
                body: body_text(body.take(k)),
            }
        }),
    decreases k,
{
    let rest: Seq<char> = trim_ws(trim_ws_end(opener).skip(3));
    if k == 0 {
        let ls: Seq<Seq<char>> = seq![opener] + body.take(0);
        assert(ls =~= seq![opener]);
        assert(ls.drop_last() =~= Seq::<Seq<char>>::empty());
        assert(scan(ls.drop_last()) == scan_start());
        assert(ls.last() == opener);
        assert(blank(seq![])) by {
            assert(trim_ws_start(seq![]) == Seq::<char>::empty());
            assert(trim_ws_end(seq![]) == Seq::<char>::empty());
        }
        assert(body.take(0) =~= Seq::<Seq<char>>::empty());
        assert(body_text(body.take(0)) == Seq::<char>::empty());
        assert(scan(ls) == step(scan_start(), opener));
    } else {
        lemma_scan_open(opener, body, k - 1);
        let ls: Seq<Seq<char>> = seq![opener] + body.take(k);
        assert(ls.drop_last() =~= seq![opener] + body.take(k - 1));
        assert(ls.last() == body[k - 1]);
        assert(body.take(k).drop_last() =~= body.take(k - 1));
        assert(body.take(k).last() == body[k - 1]);
        assert(trim_ws_end(body[k - 1]) != ":::"@);
        let prev: Scan = scan(seq![opener] + body.take(k - 1));
        assert(scan(ls) == step(prev, body[k - 1]));
        assert(body_text(body.take(k)) == body_text(body.take(k - 1)) + body[k - 1].push('\n'));
    }
}

/// A container's body is every line between its opener and its closing
/// `:::` line, each followed by a line break, blank lines included: a
/// source whose lines are an opener `::: kind [title]`, content lines none
/// of which is a closing `:::`, and a closing `:::` is that one container,
/// with the kind and title of its opener.
pub proof fn law_container_body(
    src: Seq<char>,
    opener: Seq<char>,
    body: Seq<Seq<char>>,
    closer: Seq<char>,
)
    requires
        lines(src) == seq![opener] + body + seq![closer],
        ":::"@.is_prefix_of(trim_ws_end(opener)),
        trim_ws(trim_ws_end(opener).skip(3)).len() > 0,
        forall|i: int| 0 <= i < body.len() ==> trim_ws_end(#[trigger] body[i]) != ":::"@,
        trim_ws_end(closer) == ":::"@,
    ensures
        ({
            let rest: Seq<char> = trim_ws(trim_ws_end(opener).skip(3));
            segments_of(src) == seq![
                SegmentView::Container { kind: kind_of(rest), title: title_of(rest), body: body_text(body) },
            ]
        }),
{
    lemma_scan_open(opener, body, body.len() as int);
    let ls: Seq<Seq<char>> = seq![opener] + body + seq![closer];
    assert(body.take(body.len() as int) =~= body);
    assert(ls.drop_last() =~= seq![opener] + body.take(body.len() as int));
    assert(ls.last() == closer);
    assert(blank(seq![]));
    let rest: Seq<char> = trim_ws(trim_ws_end(opener).skip(3));
    assert(scan(ls).segments =~= seq![
        SegmentView::Container { kind: kind_of(rest), title: title_of(rest), body: body_text(body) },
    ]);
}

/// Lines none of which opens a container all go to the markdown run.
proof fn lemma_scan_plain(ls: Seq<Seq<char>>, k: int)
    requires
        forall|i: int| 0 <= i < ls.len() ==> !":::"@.is_prefix_of(trim_ws_end(#[trigger] ls[i])),
        0 <= k <= ls.len(),
    ensures
        scan(ls.take(k)) == (Scan {
            segments: seq![],
            buf: body_text(ls.take(k)),
            open: false,
            kind: seq![],
            title: None,
            body: seq![],
        }),
    decreases k,
{
    if k == 0 {
        assert(ls.take(0) =~= Seq::<Seq<char>>::empty());
    } else {
        lemma_scan_plain(ls, k - 1);
        assert(ls.take(k).drop_last() =~= ls.take(k - 1));
        assert(ls.take(k).last() == ls[k - 1]);
        assert(!":::"@.is_prefix_of(trim_ws_end(ls[k - 1])));
    }
}

/// A source with no container opener is one markdown run holding all its
/// lines, each followed by a line break (none when it is blank).
pub proof fn law_no_container(src: Seq<char>)
    requires
        forall|i: int| 0 <= i < lines(src).len() ==> !":::"@.is_prefix_of(trim_ws_end(#[trigger] lines(src)[i])),
    ensures
        segments_of(src) == (if blank(body_text(lines(src))) {
            Seq::<SegmentView>::empty()
        } else {
            seq![SegmentView::Markdown(body_text(lines(src)))]
        }),
{
    let ls: Seq<Seq<char>> = lines(src);
    lemma_scan_plain(ls, ls.len() as int);
    assert(ls.take(ls.len() as int) =~= ls);
    if !blank(body_text(ls)) {
        assert(seq![SegmentView::Markdown(body_text(ls))] =~= Seq::<SegmentView>::empty().push(
            SegmentView::Markdown(body_text(ls)),
        ));
    }
}

// ─── Splitting ──────────────────────────────────────────────────────────────

/// `buf` followed by `line` and a line break.
fn push_line(buf: &str, line: &str) -> (res: String)
    ensures
        res@ == buf@ + line@.push('\n'),
{
    let with_line: String = concat(buf, line);
    let r: String = concat(with_line.as_str(), "\n");
    proof {
        reveal_strlit("\n");
    }
    assert(r@ =~= buf@ + line@.push('\n'));
    r
}

/// Whether `s` holds only whitespace.
fn is_blank(s: &str) -> (res: bool)
    ensures
        res == blank(s@),
{
    trim_whitespace(s).unicode_len() == 0
}

/// The kind and title of a container opener.
fn kind_title(rest: &str) -> (res: (String, Option<String>))
    ensures
        res.0@ == kind_of(rest@),
        opt_view(res.1) == title_of(rest@),
{
    let n: usize = rest.unicode_len();
    let mut w: usize = 0;
    while w < n && !char_is_whitespace(rest.get_char(w))
        invariant
            n == rest@.len(),
            w <= n,
            forall|k: int| 0 <= k < w ==> !(white())(#[trigger] rest@[k]),
        decreases n - w,
    {
        w = w + 1;
    }
    if w == n {
        proof {
            lemma_first_index_none(rest@, white());
        }
        return (rest.to_owned(), None);
    }
    proof {
        lemma_first_index_at(rest@, white(), w as int);
    }
    let kind: &str = rest.substring_char(0, w);
    assert(kind@ =~= rest@.take(w as int));
    let after: &str = rest.substring_char(w + 1, n);
    assert(after@ =~= rest@.skip(w + 1));
    let t: String = trim_whitespace(after);
    if t.unicode_len() == 0 {
        (kind.to_owned(), None)
    } else {
        (kind.to_owned(), Some(t))
    }
}

/// The state of the split as a value.
pub open spec fn scan_view(
    segments: Seq<Segment>,
    buf: Seq<char>,
    open: bool,
    kind: Seq<char>,
    title: Option<String>,
    body: Seq<char>,
) -> Scan {
    Scan { segments: segment_views(segments), buf, open, kind, title: opt_view(title), body }
}

/// Splits markdown source into plain markdown runs and `:::` containers
/// (containers do not nest).
pub fn split_containers(src: &str) -> (res: Vec<Segment>)
    ensures
        segment_views(res@) == segments_of(src@),
{
    proof {
        reveal_strlit(":::");
        reveal_strlit("::: ");
        reveal_strlit("\n");
    }
    let ls: Vec<String> = text_lines(src);
    let ghost lv: Seq<Seq<char>> = strings_view(ls@);
    let n: usize = ls.len();
    let mut segments: Vec<Segment> = Vec::new();
    let mut buf: String = String::new();
    let mut open: bool = false;
    let mut kind: String = String::new();
    let mut title: Option<String> = None;
    let mut body: String = String::new();
    let mut i: usize = 0;
    assert(segment_views(segments@) =~= Seq::<SegmentView>::empty());
    assert(lv.take(0) =~= Seq::<Seq<char>>::empty());
    while i < n
        invariant
            n == ls.len(),
            lv == strings_view(ls@),
            i <= n,
            scan_view(segments@, buf@, open, kind@, title, body@) == scan(lv.take(i as int)),
        decreases n - i,
    {
        let ghost before: Scan = scan(lv.take(i as int));
        let ghost seg0: Seq<Segment> = segments@;
        proof {
            reveal_strlit(":::");
            assert(lv.take(i + 1).drop_last() =~= lv.take(i as int));
            assert(lv.take(i + 1).last() == lv[i as int]);
        }
        let line: &str = ls[i].as_str();
        assert(line@ == lv[i as int]);
        let trimmed: String = trim_whitespace_end(line);
        if !open && starts_with(trimmed.as_str(), ":::") {
            let m: usize = trimmed.unicode_len();
            let tail: &str = trimmed.as_str().substring_char(3, m);
            assert(tail@ =~= trimmed@.skip(3));
            let rest: String = trim_whitespace(tail);
            if rest.unicode_len() == 0 {
                buf = push_line(buf.as_str(), line);
            } else {
                if !is_blank(buf.as_str()) {
                    let ghost b: Seq<char> = buf@;
                    segments.push(Segment::Markdown(buf));
                    assert(segment_views(segments@) =~= segment_views(seg0).push(SegmentView::Markdown(b)));
                }
                buf = String::new();
                let (k, t) = kind_title(rest.as_str());
                open = true;
                kind = k;
                title = t;
                body = String::new();
            }
        } else if open && str_eq(trimmed.as_str(), ":::") {
            let ghost view: SegmentView = SegmentView::Container { kind: kind@, title: opt_view(title), body: body@ };
            segments.push(Segment::Container { kind, title, body });
            assert(segment_views(segments@) =~= segment_views(seg0).push(view));
            open = false;
            kind = String::new();
            title = None;
            body = String::new();
        } else if open {
            body = push_line(body.as_str(), line);
        } else {
            buf = push_line(buf.as_str(), line);
        }
        assert(scan_view(segments@, buf@, open, kind@, title, body@) == step(before, lv[i as int]));
        i = i + 1;
    }
    assert(lv.take(n as int) =~= lv);
    let ghost seg0: Seq<Segment> = segments@;
    let last: String = if open {
        let a: String = concat(buf.as_str(), "::: ");
        let b: String = concat(a.as_str(), kind.as_str());
        let c: String = concat(b.as_str(), "\n");
        let d: String = concat(c.as_str(), body.as_str());
        assert(d@ =~= buf@ + ":::"@ + seq![' '] + kind@ + seq!['\n'] + body@);
        d
    } else {
        buf
    };
    if !is_blank(last.as_str()) {
        let ghost l: Seq<char> = last@;
        segments.push(Segment::Markdown(last));
        assert(segment_views(segments@) =~= segment_views(seg0).push(SegmentView::Markdown(l)));
    }
    segments
}

// ─── Container blocks ───────────────────────────────────────────────────────

/// The block of a container with its parsed body: titled by its own title,
/// else by its kind in uppercase.
pub fn container_block(kind: String, title: Option<String>, blocks: Vec<DocsBlock>) -> (res: DocsBlock)
    ensures
        match res {
            DocsBlock::Container { kind: k, title: t, blocks: b } => {
                &&& k@ == kind@
                &&& t@ == match title {
                    Some(x) => x@,
                    None => upper_text(kind@),
                }
                &&& b@ == blocks@
            },
            _ => false,
        },
{
    let t: String = match title {
        Some(x) => x,
        None => str_to_uppercase(kind.as_str()),
    };
    DocsBlock::Container { kind, title: t, blocks }
}

} // verus!
