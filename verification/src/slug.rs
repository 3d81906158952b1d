//! Heading slugs: lowercased alphanumeric words joined by `-`, made unique
//! within a page by a numeric suffix.

use vstd::prelude::*;
use vstd::relations::injective_on;
use vstd::set_lib::{lemma_int_range, lemma_len_subset, lemma_map_size, set_int_range};

use crate::sidebar::no_dups;
use crate::text::{concat, contains_str, lemma_strings_view_push, strings_view, trim_end};
use crate::unicode::{char_is_alphanumeric, char_to_lowercase, is_alnum, lower, string_from_chars};

verus! {

// ─── Slugs ──────────────────────────────────────────────────────────────────

/// Every character of `s` lowercased (a character may lowercase to several).
pub open spec fn lower_all(s: Seq<char>) -> Seq<char>
    decreases s.len(),
{
    if s.len() == 0 {
        seq![]
    } else {
        lower_all(s.drop_last()) + lower(s.last())
    }
}

/// The maximal runs of alphanumeric characters of `s`, in order.
pub open spec fn words(s: Seq<char>) -> Seq<Seq<char>>
    decreases s.len(),
{
    if s.len() == 0 {
        seq![]
    } else {
        let w: Seq<Seq<char>> = words(s.drop_last());
        let c: char = s.last();
        if !is_alnum(c) {
            w
        } else if s.len() >= 2 && is_alnum(s[s.len() - 2]) && w.len() > 0 {
            w.update(w.len() - 1, w.last().push(c))
        } else {
            w.push(seq![c])
        }
    }
}

/// The words joined by `-`.
pub open spec fn join_dash(ws: Seq<Seq<char>>) -> Seq<char>
    decreases ws.len(),
{
    if ws.len() == 0 {
        seq![]
    } else if ws.len() == 1 {
        ws[0]
    } else {
        join_dash(ws.drop_last()) + seq!['-'] + ws.last()
    }
}

/// The slug of a heading text: its lowercased alphanumeric words joined by
/// `-` (trailing `-` removed), or `section` when it has none.
pub open spec fn slug_of(text: Seq<char>) -> Seq<char> {
    let j: Seq<char> = trim_end(join_dash(words(lower_all(text))), '-');
    if j.len() == 0 {
        "section"@
    } else {
        j
    }
}

/// Appending a word to a non-empty list appends `-` and the word.
proof fn lemma_join_push(ws: Seq<Seq<char>>, x: Seq<char>)
    ensures
        ws.len() > 0 ==> join_dash(ws.push(x)) == join_dash(ws) + seq!['-'] + x,
        ws.len() == 0 ==> join_dash(ws.push(x)) == x,
{
    assert(ws.push(x).drop_last() =~= ws);
}

/// Extending the last word extends the joined text.
proof fn lemma_join_extend(ws: Seq<Seq<char>>, c: char)
    requires
        ws.len() > 0,
    ensures
        join_dash(ws.update(ws.len() - 1, ws.last().push(c))) == join_dash(ws).push(c),
{
    let u: Seq<Seq<char>> = ws.update(ws.len() - 1, ws.last().push(c));
    if ws.len() == 1 {
        assert(u[0] == ws[0].push(c));
    } else {
        assert(u.drop_last() =~= ws.drop_last());
        assert(u.last() == ws.last().push(c));
        assert(join_dash(u) =~= join_dash(ws).push(c));
    }
}

/// The words joined without separator.
pub open spec fn concat_all(ws: Seq<Seq<char>>) -> Seq<char>
    decreases ws.len(),
{
    if ws.len() == 0 {
        seq![]
    } else {
        concat_all(ws.drop_last()) + ws.last()
    }
}

/// The predicate "is alphanumeric".
pub open spec fn alnum() -> spec_fn(char) -> bool {
    |c: char| is_alnum(c)
}

/// The words of a text are non-empty runs of alphanumeric characters that,
/// put back together, give every alphanumeric character of the text in
/// order and nothing else.
pub proof fn law_words(s: Seq<char>)
    ensures
        concat_all(words(s)) == s.filter(alnum()),
        forall|i: int| 0 <= i < words(s).len() ==> (#[trigger] words(s)[i]).len() > 0,
        forall|i: int, k: int|
            0 <= i < words(s).len() && 0 <= k < words(s)[i].len() ==> is_alnum(#[trigger] words(s)[i][k]),
    decreases s.len(),
{
    broadcast use vstd::seq::Seq::lemma_filter_push;

    if s.len() == 0 {
        reveal(Seq::filter);
    } else {
        let d: Seq<char> = s.drop_last();
        let c: char = s.last();
        law_words(d);
        let w: Seq<Seq<char>> = words(d);
        assert(s =~= d.push(c));
        assert(s.filter(alnum()) == if is_alnum(c) { d.filter(alnum()).push(c) } else { d.filter(alnum()) });
        if is_alnum(c) {
            if s.len() >= 2 && is_alnum(s[s.len() - 2]) && w.len() > 0 {
                let u: Seq<Seq<char>> = w.update(w.len() - 1, w.last().push(c));
                assert(u.drop_last() =~= w.drop_last());
                assert(concat_all(w) == concat_all(w.drop_last()) + w.last());
                assert(concat_all(u) =~= concat_all(w).push(c));
                assert forall|i: int, k: int| 0 <= i < u.len() && 0 <= k < u[i].len() implies is_alnum(
                    #[trigger] u[i][k],
                ) by {
                    if i < w.len() - 1 {
                        assert(u[i] == w[i]);
                    } else if k < w.last().len() {
                        assert(u[i][k] == w[w.len() - 1][k]);
                    }
                }
            } else {
                let u: Seq<Seq<char>> = w.push(seq![c]);
                assert(u.drop_last() =~= w);
                assert(concat_all(u) =~= concat_all(w).push(c));
                assert forall|i: int, k: int| 0 <= i < u.len() && 0 <= k < u[i].len() implies is_alnum(
                    #[trigger] u[i][k],
                ) by {
                    if i < w.len() {
                        assert(u[i] == w[i]);
                    }
                }
            }
        }
    }
}

/// `n` copies of `c`.
pub open spec fn run_of(c: char, n: nat) -> Seq<char> {
    Seq::new(n, |_i: int| c)
}

/// A text is its `trim_end` followed by the removed copies of `c`; what is
/// left does not end in `c`, and nothing is left of a text made only of `c`.
proof fn lemma_trim_end_run(s: Seq<char>, c: char)
    ensures
        trim_end(s, c).len() <= s.len(),
        s == trim_end(s, c) + run_of(c, (s.len() - trim_end(s, c).len()) as nat),
        trim_end(s, c).len() > 0 ==> trim_end(s, c).last() != c,
        trim_end(s, c).len() == 0 ==> forall|i: int| 0 <= i < s.len() ==> s[i] == c,
    decreases s.len(),
{
    if s.len() > 0 && s.last() == c {
        let d: Seq<char> = s.drop_last();
        lemma_trim_end_run(d, c);
        let t: Seq<char> = trim_end(d, c);
        assert(trim_end(s, c) == t);
        assert(s =~= t + run_of(c, (s.len() - t.len()) as nat)) by {
            assert(d =~= t + run_of(c, (d.len() - t.len()) as nat));
            assert forall|i: int| 0 <= i < s.len() implies s[i] == (t + run_of(
                c,
                (s.len() - t.len()) as nat,
            ))[i] by {
                if i < d.len() {
                    assert(s[i] == d[i]);
                }
            }
        }
        if t.len() == 0 {
            assert forall|i: int| 0 <= i < s.len() implies s[i] == c by {
                if i < d.len() {
                    assert(s[i] == d[i]);
                }
            }
        }
    } else {
        assert(s =~= s + run_of(c, 0));
    }
}

/// A slug keeps every lowercased alphanumeric word of the text, in order,
/// joined by single `-`, and is never cut short: the words joined by `-`
/// are exactly the slug followed by at most some trailing `-`; the slug does
/// not end in `-`; a text without words gets `section`.
pub proof fn law_slug_words(text: Seq<char>)
    ensures
        ({
            let j: Seq<char> = join_dash(words(lower_all(text)));
            let s: Seq<char> = slug_of(text);
            &&& (forall|i: int| 0 <= i < j.len() ==> j[i] == '-') ==> s == "section"@
            &&& !(forall|i: int| 0 <= i < j.len() ==> j[i] == '-') ==> {
                &&& s.len() > 0
                &&& s.last() != '-'
                &&& j == s + run_of('-', (j.len() - s.len()) as nat)
            }
        }),
{
    let j: Seq<char> = join_dash(words(lower_all(text)));
    lemma_trim_end_run(j, '-');
    let t: Seq<char> = trim_end(j, '-');
    if forall|i: int| 0 <= i < j.len() ==> j[i] == '-' {
        if t.len() > 0 {
            assert(j[t.len() - 1] == (t + run_of('-', (j.len() - t.len()) as nat))[t.len() - 1]);
        }
    }
}

/// Slugifies heading text (keeps every alphanumeric character, CJK included).
pub fn slugify(text: &str) -> (res: String)
    ensures
        res@ == slug_of(text@),
{
    let n: usize = text.unicode_len();
    let mut low: Vec<char> = Vec::new();
    let mut i: usize = 0;
    while i < n
        invariant
            n == text@.len(),
            i <= n,
            low@ == lower_all(text@.take(i as int)),
        decreases n - i,
    {
        let mut l: Vec<char> = char_to_lowercase(text.get_char(i));
        low.append(&mut l);
        assert(text@.take(i + 1).drop_last() =~= text@.take(i as int));
        i = i + 1;
    }
    assert(text@.take(n as int) =~= text@);
    let ghost ls: Seq<char> = low@;
    let m: usize = low.len();
    let mut out: Vec<char> = Vec::new();
    let mut last_dash: bool = false;
    let mut k: usize = 0;
    while k < m
        invariant
            m == low.len(),
            ls == low@,
            k <= m,
            last_dash == (k > 0 && !is_alnum(ls[k - 1]) && words(ls.take(k as int)).len() > 0),
            out@ == if last_dash {
                join_dash(words(ls.take(k as int))).push('-')
            } else {
                join_dash(words(ls.take(k as int)))
            },
            (out@.len() > 0) == (words(ls.take(k as int)).len() > 0),
        decreases m - k,
    {
        let c: char = low[k];
        let ghost p: Seq<char> = ls.take(k as int);
        let ghost q: Seq<char> = ls.take(k + 1);
        assert(q.drop_last() =~= p);
        assert(q.last() == c);
        if k > 0 {
            assert(q[q.len() - 2] == ls[k - 1]);
            assert(p.last() == ls[k - 1]);
        }
        if char_is_alphanumeric(c) {
            proof {
                lemma_join_push(words(p), seq![c]);
                if words(p).len() > 0 {
                    lemma_join_extend(words(p), c);
                }
                if k > 0 && is_alnum(ls[k - 1]) {
                    assert(words(p).len() > 0);
                }
            }
            out.push(c);
            last_dash = false;
        } else if !last_dash && out.len() > 0 {
            out.push('-');
            last_dash = true;
        }
        k = k + 1;
    }
    assert(ls.take(m as int) =~= ls);
    let ghost full: Seq<char> = out@;
    while out.len() > 0 && out[out.len() - 1] == '-'
        invariant
            trim_end(full, '-') == trim_end(out@, '-'),
        decreases out.len(),
    {
        out.pop();
    }
    proof {
        if last_dash {
            assert(full.drop_last() =~= join_dash(words(ls)));
        }
    }
    if out.len() == 0 {
        "section".to_owned()
    } else {
        string_from_chars(&out)
    }
}

// ─── Decimal numbers ────────────────────────────────────────────────────────

/// The decimal digit character of `d` (`0` ≤ `d` < 10).
pub open spec fn digit_char(d: int) -> char {
    if d == 0 {
        '0'
    } else if d == 1 {
        '1'
    } else if d == 2 {
        '2'
    } else if d == 3 {
        '3'
    } else if d == 4 {
        '4'
    } else if d == 5 {
        '5'
    } else if d == 6 {
        '6'
    } else if d == 7 {
        '7'
    } else if d == 8 {
        '8'
    } else {
        '9'
    }
}

/// The value of a decimal digit character.
pub open spec fn digit_value(c: char) -> int {
    if c == '0' {
        0
    } else if c == '1' {
        1
    } else if c == '2' {
        2
    } else if c == '3' {
        3
    } else if c == '4' {
        4
    } else if c == '5' {
        5
    } else if c == '6' {
        6
    } else if c == '7' {
        7
    } else if c == '8' {
        8
    } else {
        9
    }
}

/// The decimal representation of `n`, without leading zeros.
pub open spec fn dec(n: nat) -> Seq<char>
    decreases n,
{
    if n < 10 {
        seq![digit_char(n as int)]
    } else {
        dec(n / 10).push(digit_char((n % 10) as int))
    }
}

/// The number that decimal digits denote.
pub open spec fn dec_value(s: Seq<char>) -> int
    decreases s.len(),
{
    if s.len() == 0 {
        0
    } else {
        dec_value(s.drop_last()) * 10 + digit_value(s.last())
    }
}

/// Reading a decimal representation back gives the number.
pub proof fn lemma_dec_value(n: nat)
    ensures
        dec_value(dec(n)) == n,
    decreases n,
{
    if n < 10 {
        let e: Seq<char> = Seq::<char>::empty();
        assert(dec(n).drop_last() =~= e);
        assert(dec_value(e) == 0);
        assert(digit_value(digit_char(n as int)) == n);
    } else {
        lemma_dec_value(n / 10);
        assert(dec(n).drop_last() =~= dec(n / 10));
        assert(dec(n).last() == digit_char((n % 10) as int));
        assert(digit_value(digit_char((n % 10) as int)) == n % 10);
        vstd::arithmetic::div_mod::lemma_fundamental_div_mod(n as int, 10);
        assert(dec_value(dec(n)) == dec_value(dec(n / 10)) * 10 + n % 10);
    }
}

/// The digit character of `d` (`0` ≤ `d` < 10).
fn digit(d: usize) -> (res: char)
    requires
        d < 10,
    ensures
        res == digit_char(d as int),
{
    match d {
        0 => '0',
        1 => '1',
        2 => '2',
        3 => '3',
        4 => '4',
        5 => '5',
        6 => '6',
        7 => '7',
        8 => '8',
        _ => '9',
    }
}

/// Appends the decimal representation of `n`.
fn push_decimal(n: usize, out: &mut Vec<char>)
    ensures
        final(out)@ == old(out)@ + dec(n as nat),
    decreases n,
{
    if n >= 10 {
        push_decimal(n / 10, out);
    }
    out.push(digit(n % 10));
    proof {
        if n < 10 {
            assert(final(out)@ =~= old(out)@ + dec(n as nat));
        }
    }
}

/// The decimal representation of `n`.
pub fn decimal(n: usize) -> (res: String)
    ensures
        res@ == dec(n as nat),
{
    let mut out: Vec<char> = Vec::new();
    push_decimal(n, &mut out);
    assert(out@ =~= dec(n as nat));
    string_from_chars(&out)
}

// ─── Unique slugs ───────────────────────────────────────────────────────────

/// `base` numbered `k`: `<base>-<k>`.
pub open spec fn numbered(base: Seq<char>, k: nat) -> Seq<char> {
    base + seq!['-'] + dec(k)
}

/// Whether `res` is the slug chosen for `base` when `used` are taken: a
/// free slug, `base` itself when free, else `base-k` for the least `k >= 2`
/// that is free.
pub open spec fn chosen_slug(used: Seq<Seq<char>>, base: Seq<char>, res: Seq<char>) -> bool {
    &&& !used.contains(res)
    &&& !used.contains(base) ==> res == base
    &&& used.contains(base) ==> exists|k: nat|
        k >= 2 && res == numbered(base, k) && forall|j: nat| 2 <= j < k ==> used.contains(#[trigger] numbered(base, j))
}

/// Different numbers give different numbered slugs.
proof fn lemma_numbered_injective(base: Seq<char>, a: nat, b: nat)
    requires
        numbered(base, a) == numbered(base, b),
    ensures
        a == b,
{
    let off: int = base.len() as int + 1;
    assert(numbered(base, a).skip(off) =~= dec(a));
    assert(numbered(base, b).skip(off) =~= dec(b));
    lemma_dec_value(a);
    lemma_dec_value(b);
}

/// The slugs numbered 2 up to `hi` cannot all be taken unless there are at
/// least `hi - 2` taken slugs.
proof fn lemma_numbered_bound(base: Seq<char>, used: Seq<Seq<char>>, hi: int)
    requires
        2 <= hi,
        forall|j: nat| 2 <= j < hi ==> used.contains(#[trigger] numbered(base, j)),
    ensures
        hi - 2 <= used.len(),
{
    let x: Set<int> = set_int_range(2, hi);
    let f: spec_fn(int) -> Seq<char> = |k: int| numbered(base, k as nat);
    lemma_int_range(2, hi);
    assert forall|a: int, b: int| x.contains(a) && x.contains(b) && #[trigger] f(a) == #[trigger] f(b) implies a == b by {
        lemma_numbered_injective(base, a as nat, b as nat);
    }
    assert(injective_on(f, x));
    let y: Set<Seq<char>> = x.map(f);
    lemma_map_size(x, y, f);
    let u: Set<Seq<char>> = used.to_set();
    assert(y.subset_of(u)) by {
        assert forall|s: Seq<char>| y.contains(s) implies u.contains(s) by {
            let k: int = choose|k: int| x.contains(k) && f(k) == s;
            assert(used.contains(numbered(base, k as nat)));
        }
    }
    broadcast use vstd::seq_lib::seq_to_set_is_finite;
    lemma_len_subset(y, u);
    used.lemma_cardinality_of_set();
}

/// Adding a text that does not occur keeps the texts distinct.
proof fn lemma_push_fresh(u: Seq<Seq<char>>, x: Seq<char>)
    requires
        !u.contains(x),
    ensures
        no_dups(u) ==> no_dups(u.push(x)),
{
    if no_dups(u) {
        assert forall|i: int, j: int| 0 <= i < j < u.push(x).len() implies u.push(x)[i] != u.push(x)[j] by {
            if j == u.len() {
                assert(u.push(x)[i] == u[i]);
            } else {
                assert(u.push(x)[i] == u[i] && u.push(x)[j] == u[j]);
            }
        }
    }
}

/// Ensures slug uniqueness within a page: `base` when it is free, else
/// `base-2`, `base-3`, … whichever is free first; the chosen slug is
/// recorded as used.
pub fn unique_slug(base: &str, used: &mut Vec<String>) -> (res: String)
    requires
        old(used).len() + 2 <= usize::MAX,
    ensures
        chosen_slug(strings_view(old(used)@), base@, res@),
        strings_view(final(used)@) == strings_view(old(used)@).push(res@),
        no_dups(strings_view(old(used)@)) ==> no_dups(strings_view(final(used)@)),
{
    let ghost u: Seq<Seq<char>> = strings_view(used@);
    if !contains_str(used, base) {
        let r: String = base.to_owned();
        let ghost before: Seq<String> = used@;
        used.push(r.clone());
        proof {
            lemma_strings_view_push(before, r);
            lemma_push_fresh(u, r@);
        }
        return r;
    }
    let mut i: usize = 2;
    loop
        invariant
            u == strings_view(used@),
            u == strings_view(old(used)@),
            u.contains(base@),
            u.len() + 2 <= usize::MAX,
            2 <= i <= u.len() + 2,
            forall|j: nat| 2 <= j < i ==> u.contains(#[trigger] numbered(base@, j)),
        decreases u.len() + 2 - i,
    {
        let dash: &str = "-";
        proof {
            reveal_strlit("-");
        }
        let head: String = concat(base, dash);
        let candidate: String = concat(head.as_str(), decimal(i).as_str());
        assert(candidate@ =~= numbered(base@, i as nat));
        if !contains_str(used, candidate.as_str()) {
            let ghost before: Seq<String> = used@;
            used.push(candidate.clone());
            proof {
                lemma_strings_view_push(before, candidate);
                lemma_push_fresh(u, candidate@);
            }
            return candidate;
        }
        proof {
            assert forall|j: nat| 2 <= j < i + 1 implies u.contains(#[trigger] numbered(base@, j)) by {
                if j < i {
                    assert(u.contains(numbered(base@, j)));
                }
            }
            lemma_numbered_bound(base@, u, i + 1);
        }
        i = i + 1;
    }
}

} // verus!
