//! Character-level string helpers with contracts over `Seq<char>`.

use vstd::prelude::*;
use vstd::string::*;

use crate::lookup::{first_index, lemma_first_index, lemma_first_index_at, lemma_first_index_none};

verus! {

/// `s` with every trailing `c` removed.
pub open spec fn trim_end(s: Seq<char>, c: char) -> Seq<char>
    decreases s.len(),
{
    if s.len() > 0 && s.last() == c {
        trim_end(s.drop_last(), c)
    } else {
        s
    }
}

/// `s` without the prefix `p` when `p` starts it, else `s` unchanged.
pub open spec fn strip_prefix(s: Seq<char>, p: Seq<char>) -> Seq<char> {
    if p.is_prefix_of(s) {
        s.skip(p.len() as int)
    } else {
        s
    }
}

/// Whether two strings hold the same characters.
pub fn str_eq(a: &str, b: &str) -> (res: bool)
    ensures
        res == (a@ == b@),
{
    let x: String = a.to_owned();
    let y: String = b.to_owned();
    x == y
}

/// Whether `p` is a prefix of `s`.
pub fn starts_with(s: &str, p: &str) -> (res: bool)
    ensures
        res == p@.is_prefix_of(s@),
{
    let n: usize = s.unicode_len();
    let m: usize = p.unicode_len();
    if m > n {
        false
    } else {
        let head: &str = s.substring_char(0, m);
        let r: bool = str_eq(head, p);
        assert(r == (p@ =~= s@.subrange(0, m as int)));
        r
    }
}

/// The character views of a list of strings.
pub open spec fn strings_view(v: Seq<String>) -> Seq<Seq<char>> {
    v.map_values(|s: String| s@)
}

/// The views of a list with one more string are the views with one more view.
pub proof fn lemma_strings_view_push(s: Seq<String>, x: String)
    ensures
        strings_view(s.push(x)) == strings_view(s).push(x@),
{
    assert(strings_view(s.push(x)) =~= strings_view(s).push(x@));
}

/// Position of the first `c` in `s`, or `-1`.
pub open spec fn char_index(s: Seq<char>, c: char) -> int {
    first_index(s, is_char(c))
}

/// The predicate "equals `c`".
pub open spec fn is_char(c: char) -> spec_fn(char) -> bool {
    |x: char| x == c
}

/// `a` followed by `b`, as a new string.
pub fn concat(a: &str, b: &str) -> (res: String)
    ensures
        res@ == a@ + b@,
{
    let mut r: String = a.to_owned();
    r.append(b);
    r
}

/// Whether `p` ends `s`.
pub fn ends_with(s: &str, p: &str) -> (res: bool)
    ensures
        res == p@.is_suffix_of(s@),
{
    let n: usize = s.unicode_len();
    let m: usize = p.unicode_len();
    if m > n {
        false
    } else {
        let tail: &str = s.substring_char(n - m, n);
        let r: bool = str_eq(tail, p);
        assert(r == (p@ =~= s@.subrange(n - m, n as int)));
        r
    }
}

/// Position of the first `c` in `s`.
pub fn find_char(s: &str, c: char) -> (res: Option<usize>)
    ensures
        match res {
            Some(i) => i == char_index(s@, c),
            None => char_index(s@, c) == -1,
        },
{
    let n: usize = s.unicode_len();
    let mut i: usize = 0;
    while i < n
        invariant
            n == s@.len(),
            i <= n,
            forall|j: int| 0 <= j < i ==> s@[j] != c,
        decreases n - i,
    {
        if s.get_char(i) == c {
            proof {
                lemma_first_index_at(s@, is_char(c), i as int);
            }
            return Some(i);
        }
        i = i + 1;
    }
    proof {
        lemma_first_index_none(s@, is_char(c));
    }
    None
}

/// `s` with every trailing `c` removed.
pub fn trim_end_char(s: &str, c: char) -> (res: &str)
    ensures
        res@ == trim_end(s@, c),
{
    let n: usize = s.unicode_len();
    let mut j: usize = n;
    assert(s@.take(n as int) =~= s@);
    while j > 0 && s.get_char(j - 1) == c
        invariant
            n == s@.len(),
            j <= n,
            trim_end(s@, c) == trim_end(s@.take(j as int), c),
        decreases j,
    {
        assert(s@.take(j as int).drop_last() =~= s@.take(j - 1));
        j = j - 1;
    }
    let res: &str = s.substring_char(0, j);
    assert(res@ =~= s@.take(j as int));
    res
}

/// `s` without the prefix `p` when `p` starts it, else `s` itself.
pub fn strip_prefix_str<'a>(s: &'a str, p: &str) -> (res: &'a str)
    ensures
        res@ == strip_prefix(s@, p@),
{
    if starts_with(s, p) {
        let n: usize = s.unicode_len();
        let m: usize = p.unicode_len();
        let r: &str = s.substring_char(m, n);
        assert(r@ =~= s@.skip(m as int));
        r
    } else {
        s
    }
}

/// `s` with every trailing copy of the non-empty `p` removed.
pub open spec fn trim_suffix_all(s: Seq<char>, p: Seq<char>) -> Seq<char>
    decreases s.len(),
{
    if p.len() > 0 && p.is_suffix_of(s) {
        trim_suffix_all(s.take(s.len() - p.len()), p)
    } else {
        s
    }
}

/// `s` with every trailing copy of `p` removed.
pub fn trim_suffix_str(s: &str, p: &str) -> (res: String)
    ensures
        res@ == trim_suffix_all(s@, p@),
{
    let m: usize = p.unicode_len();
    let mut cur: String = s.to_owned();
    if m == 0 {
        return cur;
    }
    while ends_with(cur.as_str(), p)
        invariant
            m == p@.len(),
            m > 0,
            trim_suffix_all(s@, p@) == trim_suffix_all(cur@, p@),
        decreases cur@.len(),
    {
        let n: usize = cur.unicode_len();
        let shorter: String = cur.as_str().substring_char(0, n - m).to_owned();
        assert(shorter@ =~= cur@.take(n - m));
        cur = shorter;
    }
    cur
}

/// Position of the last `c` in `s`, or `-1`.
pub open spec fn last_char_index(s: Seq<char>, c: char) -> int
    decreases s.len(),
{
    if s.len() == 0 {
        -1
    } else if s.last() == c {
        s.len() - 1
    } else {
        last_char_index(s.drop_last(), c)
    }
}

/// `last_char_index` is `-1` or a position holding `c` after which no `c` comes.
pub proof fn lemma_last_char_index(s: Seq<char>, c: char)
    ensures
        -1 <= last_char_index(s, c) < s.len(),
        last_char_index(s, c) >= 0 ==> s[last_char_index(s, c)] == c,
        forall|k: int| last_char_index(s, c) < k < s.len() ==> s[k] != c,
    decreases s.len(),
{
    if s.len() > 0 && s.last() != c {
        lemma_last_char_index(s.drop_last(), c);
        assert forall|k: int| last_char_index(s, c) < k < s.len() implies s[k] != c by {
            if k < s.len() - 1 {
                assert(s[k] == s.drop_last()[k]);
            }
        }
    }
}

/// Position of the last `c` in `s`.
pub fn rfind_char(s: &str, c: char) -> (res: Option<usize>)
    ensures
        match res {
            Some(i) => i == last_char_index(s@, c),
            None => last_char_index(s@, c) == -1,
        },
{
    let n: usize = s.unicode_len();
    let mut j: usize = n;
    assert(s@.take(n as int) =~= s@);
    while j > 0
        invariant
            n == s@.len(),
            j <= n,
            last_char_index(s@, c) == last_char_index(s@.take(j as int), c),
        decreases j,
    {
        if s.get_char(j - 1) == c {
            return Some(j - 1);
        }
        assert(s@.take(j as int).drop_last() =~= s@.take(j - 1));
        j = j - 1;
    }
    None
}

/// The pieces of `s` between the separators `c` (`a//b` gives `a`, ``, `b`;
/// the empty string gives one empty piece).
pub open spec fn split(s: Seq<char>, c: char) -> Seq<Seq<char>>
    decreases s.len(),
{
    if s.len() == 0 {
        seq![seq![]]
    } else {
        let p: Seq<Seq<char>> = split(s.drop_last(), c);
        if s.last() == c {
            p.push(seq![])
        } else {
            p.update(p.len() - 1, p.last().push(s.last()))
        }
    }
}

/// `split` always yields at least one piece.
pub proof fn lemma_split_len(s: Seq<char>, c: char)
    ensures
        split(s, c).len() >= 1,
    decreases s.len(),
{
    if s.len() > 0 {
        lemma_split_len(s.drop_last(), c);
    }
}

/// Splits `s` at every `c`.
pub fn split_char(s: &str, c: char) -> (res: Vec<String>)
    ensures
        strings_view(res@) == split(s@, c),
{
    let n: usize = s.unicode_len();
    let mut out: Vec<String> = Vec::new();
    let mut start: usize = 0;
    let mut i: usize = 0;
    assert(s@.take(0) =~= Seq::<char>::empty());
    assert(strings_view(out@).push(s@.subrange(0, 0)) =~= split(s@.take(0), c));
    while i < n
        invariant
            n == s@.len(),
            start <= i <= n,
            strings_view(out@).push(s@.subrange(start as int, i as int)) == split(s@.take(i as int), c),
        decreases n - i,
    {
        assert(s@.take(i + 1).drop_last() =~= s@.take(i as int));
        proof {
            lemma_split_len(s@.take(i as int), c);
        }
        if s.get_char(i) == c {
            let piece: String = s.substring_char(start, i).to_owned();
            let ghost before: Seq<String> = out@;
            out.push(piece);
            proof {
                lemma_strings_view_push(before, piece);
                assert(s@.subrange((i + 1) as int, (i + 1) as int) =~= Seq::<char>::empty());
            }
            start = i + 1;
        } else {
            proof {
                let p: Seq<Seq<char>> = split(s@.take(i as int), c);
                assert(p.last() == s@.subrange(start as int, i as int));
                assert(s@.subrange(start as int, (i + 1) as int) =~= s@.subrange(start as int, i as int).push(s@[i as int]));
                assert(strings_view(out@).push(s@.subrange(start as int, (i + 1) as int)) =~= p.update(
                    p.len() - 1,
                    p.last().push(s@[i as int]),
                ));
            }
        }
        i = i + 1;
    }
    let last: String = s.substring_char(start, n).to_owned();
    let ghost before: Seq<String> = out@;
    out.push(last);
    proof {
        lemma_strings_view_push(before, last);
        assert(s@.take(n as int) =~= s@);
    }
    out
}

/// The pieces joined by `sep`.
pub open spec fn join(parts: Seq<Seq<char>>, sep: char) -> Seq<char>
    decreases parts.len(),
{
    if parts.len() == 0 {
        seq![]
    } else if parts.len() == 1 {
        parts[0]
    } else {
        join(parts.drop_last(), sep).push(sep) + parts.last()
    }
}

/// Joins the strings with `sep` between them.
pub fn join_char(parts: &Vec<String>, sep: char) -> (res: String)
    ensures
        res@ == join(strings_view(parts@), sep),
{
    let n: usize = parts.len();
    let mut out: String = String::new();
    let mut i: usize = 0;
    while i < n
        invariant
            n == parts.len(),
            i <= n,
            out@ == join(strings_view(parts@).take(i as int), sep),
        decreases n - i,
    {
        let ghost v: Seq<Seq<char>> = strings_view(parts@);
        assert(v.take(i + 1).drop_last() =~= v.take(i as int));
        assert(v[i as int] == parts@[i as int]@);
        if i == 0 {
            out = parts[0].clone();
            assert(v.take(1) =~= seq![v[0]]);
        } else {
            let sep_str: String = crate::unicode::string_from_chars(&vec![sep]);
            assert(sep_str@ =~= seq![sep]);
            out.append(sep_str.as_str());
            out.append(parts[i].as_str());
            assert(out@ =~= join(v.take(i as int), sep).push(sep) + v[i as int]);
        }
        i = i + 1;
    }
    assert(strings_view(parts@).take(n as int) =~= strings_view(parts@));
    out
}

/// What `trim_end` leaves is a prefix of the string.
pub proof fn lemma_trim_end_prefix(s: Seq<char>, c: char)
    ensures
        trim_end(s, c).is_prefix_of(s),
    decreases s.len(),
{
    if s.len() > 0 && s.last() == c {
        lemma_trim_end_prefix(s.drop_last(), c);
        assert(trim_end(s, c) =~= s.subrange(0, trim_end(s, c).len() as int)) by {
            assert forall|k: int| 0 <= k < trim_end(s, c).len() implies trim_end(s, c)[k] == s[k] by {
                assert(s.drop_last()[k] == s[k]);
            }
        }
    } else {
        assert(s.subrange(0, s.len() as int) =~= s);
    }
}

/// Whether `s` is `/`.
pub fn is_root_str(s: &str) -> (res: bool)
    ensures
        res == (s@ == seq!['/']),
{
    let slash: &str = "/";
    proof {
        reveal_strlit("/");
        assert(slash@ =~= seq!['/']);
    }
    str_eq(s, slash)
}

/// `s` with every leading `c` removed.
pub open spec fn trim_start(s: Seq<char>, c: char) -> Seq<char>
    decreases s.len(),
{
    if s.len() > 0 && s[0] == c {
        trim_start(s.drop_first(), c)
    } else {
        s
    }
}

/// `s` with every leading and trailing `c` removed.
pub fn trim_matches_char(s: &str, c: char) -> (res: String)
    ensures
        res@ == trim_start(trim_end(s@, c), c),
{
    let t: &str = trim_end_char(s, c);
    let n: usize = t.unicode_len();
    let mut i: usize = 0;
    assert(t@.skip(0) =~= t@);
    while i < n && t.get_char(i) == c
        invariant
            n == t@.len(),
            i <= n,
            trim_start(t@, c) == trim_start(t@.skip(i as int), c),
        decreases n - i,
    {
        assert(t@.skip(i as int).drop_first() =~= t@.skip(i + 1));
        i = i + 1;
    }
    let r: &str = t.substring_char(i, n);
    assert(r@ =~= t@.skip(i as int));
    r.to_owned()
}

/// Whether `key` is one of the strings.
pub fn contains_str(v: &Vec<String>, key: &str) -> (res: bool)
    ensures
        res == strings_view(v@).contains(key@),
{
    let n: usize = v.len();
    let mut i: usize = 0;
    while i < n
        invariant
            n == v.len(),
            i <= n,
            forall|j: int| 0 <= j < i ==> (#[trigger] v@[j])@ != key@,
        decreases n - i,
    {
        if str_eq(v[i].as_str(), key) {
            assert(strings_view(v@)[i as int] == key@);
            return true;
        }
        i = i + 1;
    }
    assert forall|j: int| 0 <= j < strings_view(v@).len() implies strings_view(v@)[j] != key@ by {
        assert(strings_view(v@)[j] == v@[j]@);
    }
    false
}

} // verus!
