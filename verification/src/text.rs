//! Small string routines with their mathematical meaning stated over
//! sequences of characters.
use vstd::prelude::*;

verus! {

// ---------------------------------------------------------------------------
// Building strings
// ---------------------------------------------------------------------------

/// `String::push`: appends one character at the end of the string.
#[verifier::external_body]
pub(crate) fn push_char(s: &mut String, c: char)
    ensures
        final(s)@ == old(s)@.push(c),
{
    s.push(c);
}

/// Appends the characters of `t` to `s`.
pub fn push_str(s: &mut String, t: &str)
    ensures
        final(s)@ == old(s)@ + t@,
{
    s.append(t);
}

// ---------------------------------------------------------------------------
// Equality and ordering
// ---------------------------------------------------------------------------

/// Whether two strings hold the same characters.
pub fn str_eq(a: &str, b: &str) -> (res: bool)
    ensures
        res == (a@ == b@),
{
    let n = a.unicode_len();
    let m = b.unicode_len();
    if n != m {
        return false;
    }
    let mut i: usize = 0;
    while i < n
        invariant
            n == a@.len(),
            m == b@.len(),
            n == m,
            i <= n,
            a@.subrange(0, i as int) == b@.subrange(0, i as int),
        decreases n - i,
    {
        if a.get_char(i) != b.get_char(i) {
            return false;
        }
        assert(a@.subrange(0, i + 1) =~= a@.subrange(0, i as int).push(a@[i as int]));
        assert(b@.subrange(0, i + 1) =~= b@.subrange(0, i as int).push(b@[i as int]));
        i = i + 1;
    }
    assert(a@ =~= a@.subrange(0, n as int));
    assert(b@ =~= b@.subrange(0, n as int));
    true
}

/// Strict lexicographic order on character sequences: the order in which
/// Rust compares strings (code points compare as their UTF-8 bytes do).
pub open spec fn seq_lt(a: Seq<char>, b: Seq<char>) -> bool
    decreases a.len(),
{
    if a.len() == 0 {
        b.len() > 0
    } else if b.len() == 0 {
        false
    } else if a[0] != b[0] {
        (a[0] as int) < (b[0] as int)
    } else {
        seq_lt(a.drop_first(), b.drop_first())
    }
}

/// `a` strictly before `b` in lexicographic order.
pub fn str_lt(a: &str, b: &str) -> (res: bool)
    ensures
        res == seq_lt(a@, b@),
{
    let n = a.unicode_len();
    let m = b.unicode_len();
    let mut i: usize = 0;
    assert(a@.skip(0) =~= a@);
    assert(b@.skip(0) =~= b@);
    while i < n && i < m
        invariant
            n == a@.len(),
            m == b@.len(),
            i <= n,
            i <= m,
            a@.subrange(0, i as int) == b@.subrange(0, i as int),
            seq_lt(a@, b@) == seq_lt(a@.skip(i as int), b@.skip(i as int)),
        decreases n - i,
    {
        let ca = a.get_char(i);
        let cb = b.get_char(i);
        if ca != cb {
            assert(a@.skip(i as int)[0] == ca);
            assert(b@.skip(i as int)[0] == cb);
            return (ca as u32) < (cb as u32);
        }
        assert(a@.skip(i as int).drop_first() =~= a@.skip(i + 1));
        assert(b@.skip(i as int).drop_first() =~= b@.skip(i + 1));
        assert(a@.subrange(0, i + 1) =~= a@.subrange(0, i as int).push(a@[i as int]));
        assert(b@.subrange(0, i + 1) =~= b@.subrange(0, i as int).push(b@[i as int]));
        i = i + 1;
    }
    i < m && i == n
}

/// Lexicographic order is irreflexive.
pub proof fn lemma_seq_lt_irreflexive(a: Seq<char>)
    ensures
        !seq_lt(a, a),
    decreases a.len(),
{
    if a.len() > 0 {
        lemma_seq_lt_irreflexive(a.drop_first());
    }
}

/// Lexicographic order is transitive.
pub proof fn lemma_seq_lt_transitive(a: Seq<char>, b: Seq<char>, c: Seq<char>)
    requires
        seq_lt(a, b),
        seq_lt(b, c),
    ensures
        seq_lt(a, c),
    decreases a.len(),
{
    if a.len() > 0 && b.len() > 0 && c.len() > 0 {
        if a[0] == b[0] && b[0] == c[0] {
            lemma_seq_lt_transitive(a.drop_first(), b.drop_first(), c.drop_first());
        }
    }
}

/// Lexicographic order is total on distinct sequences.
pub proof fn lemma_seq_lt_total(a: Seq<char>, b: Seq<char>)
    ensures
        a == b || seq_lt(a, b) || seq_lt(b, a),
    decreases a.len(),
{
    if a.len() > 0 && b.len() > 0 {
        if a[0] == b[0] {
            lemma_seq_lt_total(a.drop_first(), b.drop_first());
            if a.drop_first() == b.drop_first() {
                assert(a =~= seq![a[0]] + a.drop_first());
                assert(b =~= seq![b[0]] + b.drop_first());
            }
        } else {
            assert((a[0] as int) != (b[0] as int));
        }
    } else if a.len() == 0 && b.len() == 0 {
        assert(a =~= b);
    }
}

// ---------------------------------------------------------------------------
// Whitespace and trimming
// ---------------------------------------------------------------------------

/// `char::is_whitespace`: the characters with Unicode's White_Space property.
pub open spec fn is_ws(c: char) -> bool {
    let u = c as u32;
    (0x09 <= u && u <= 0x0d) || u == 0x20 || u == 0x85 || u == 0xa0 || u == 0x1680
        || (0x2000 <= u && u <= 0x200a) || u == 0x2028 || u == 0x2029 || u == 0x202f
        || u == 0x205f || u == 0x3000
}

/// `u8::is_ascii_whitespace` on a character: space, tab, line feed, form
/// feed and carriage return.
pub open spec fn is_ascii_ws(c: char) -> bool {
    c == ' ' || c == '\t' || c == '\n' || c == '\x0C' || c == '\r'
}

pub fn is_whitespace(c: char) -> (res: bool)
    ensures
        res == is_ws(c),
{
    let u = c as u32;
    (0x09 <= u && u <= 0x0d) || u == 0x20 || u == 0x85 || u == 0xa0 || u == 0x1680
        || (0x2000 <= u && u <= 0x200a) || u == 0x2028 || u == 0x2029 || u == 0x202f
        || u == 0x205f || u == 0x3000
}

pub open spec fn trim_start(s: Seq<char>) -> Seq<char>
    decreases s.len(),
{
    if s.len() > 0 && is_ws(s[0]) {
        trim_start(s.drop_first())
    } else {
        s
    }
}

pub open spec fn trim_end(s: Seq<char>) -> Seq<char>
    decreases s.len(),
{
    if s.len() > 0 && is_ws(s.last()) {
        trim_end(s.drop_last())
    } else {
        s
    }
}

/// `str::trim`: the string without leading and trailing whitespace.
pub open spec fn trim_spec(s: Seq<char>) -> Seq<char> {
    trim_end(trim_start(s))
}

proof fn lemma_trim_start_at(s: Seq<char>, a: int)
    requires
        0 <= a <= s.len(),
        forall|i: int| 0 <= i < a ==> is_ws(#[trigger] s[i]),
        a == s.len() || !is_ws(s[a]),
    ensures
        trim_start(s) == s.skip(a),
    decreases a,
{
    if a == 0 {
        assert(s.skip(0) =~= s);
    } else {
        lemma_trim_start_at(s.drop_first(), a - 1);
        assert(s.drop_first().skip(a - 1) =~= s.skip(a));
    }
}

proof fn lemma_trim_end_at(s: Seq<char>, b: int)
    requires
        0 <= b <= s.len(),
        forall|i: int| b <= i < s.len() ==> is_ws(#[trigger] s[i]),
        b == 0 || !is_ws(s[b - 1]),
    ensures
        trim_end(s) == s.take(b),
    decreases s.len() - b,
{
    if b == s.len() {
        assert(s.take(b) =~= s);
    } else {
        lemma_trim_end_at(s.drop_last(), b);
        assert(s.drop_last().take(b) =~= s.take(b));
    }
}

/// `str::trim`.
pub fn trim(s: &str) -> (res: &str)
    ensures
        res@ == trim_spec(s@),
{
    let n = s.unicode_len();
    let mut a: usize = 0;
    while a < n && is_whitespace(s.get_char(a))
        invariant
            n == s@.len(),
            a <= n,
            forall|i: int| 0 <= i < a ==> is_ws(#[trigger] s@[i]),
        decreases n - a,
    {
        a = a + 1;
    }
    proof {
        lemma_trim_start_at(s@, a as int);
    }
    let ghost t = s@.skip(a as int);
    let mut b: usize = n;
    while b > a && is_whitespace(s.get_char(b - 1))
        invariant
            n == s@.len(),
            a <= b <= n,
            t == s@.skip(a as int),
            forall|i: int| b <= i < n ==> is_ws(#[trigger] s@[i]),
        decreases b,
    {
        b = b - 1;
    }
    proof {
        assert forall|i: int| (b - a) <= i < t.len() implies is_ws(#[trigger] t[i]) by {
            assert(t[i] == s@[i + a]);
        }
        if b > a {
            assert(t[b - a - 1] == s@[b - 1]);
        }
        lemma_trim_end_at(t, (b - a) as int);
        assert(t.take((b - a) as int) =~= s@.subrange(a as int, b as int));
    }
    s.substring_char(a, b)
}

// ---------------------------------------------------------------------------
// Splitting
// ---------------------------------------------------------------------------

/// Drops one trailing `x`, if there is one.
pub open spec fn strip_last<T>(s: Seq<T>, x: T) -> Seq<T> {
    if s.len() > 0 && s.last() == x {
        s.drop_last()
    } else {
        s
    }
}

/// Reading `s` from the left: the lines completed so far and the text of
/// the line being read. A line ends at `nl`; one `cr` just before `nl` is
/// not part of the line.
pub open spec fn lines_acc<T>(s: Seq<T>, nl: T, cr: T) -> (Seq<Seq<T>>, Seq<T>)
    decreases s.len(),
{
    if s.len() == 0 {
        (Seq::empty(), Seq::empty())
    } else {
        let p = lines_acc(s.drop_last(), nl, cr);
        if s.last() == nl {
            (p.0.push(strip_last(p.1, cr)), Seq::empty())
        } else {
            (p.0, p.1.push(s.last()))
        }
    }
}

/// `str::lines`: the lines of `s`, where a final line ending is optional
/// and an unterminated empty last line is no line.
pub open spec fn split_lines<T>(s: Seq<T>, nl: T, cr: T) -> Seq<Seq<T>> {
    let p = lines_acc(s, nl, cr);
    if p.1.len() == 0 {
        p.0
    } else {
        p.0.push(p.1)
    }
}

/// The lines of a string, split on `'\n'` with one `'\r'` before it removed.
pub open spec fn lines_spec(s: Seq<char>) -> Seq<Seq<char>> {
    split_lines(s, '\n', '\r')
}

/// The characters of each string in a list.
pub open spec fn views_of(v: Seq<&str>) -> Seq<Seq<char>> {
    v.map_values(|x: &str| x@)
}

/// `str::lines`.
pub fn lines(s: &str) -> (res: Vec<&str>)
    ensures
        views_of(res@) == lines_spec(s@),
{
    let n = s.unicode_len();
    let mut res: Vec<&str> = Vec::new();
    let mut start: usize = 0;
    let mut i: usize = 0;
    while i < n
        invariant
            n == s@.len(),
            start <= i <= n,
            lines_acc(s@.take(i as int), '\n', '\r') == (views_of(res@), s@.subrange(
                start as int,
                i as int,
            )),
        decreases n - i,
    {
        let c = s.get_char(i);
        assert(s@.take(i + 1).drop_last() =~= s@.take(i as int));
        assert(s@.take(i + 1).last() == c);
        if c == '\n' {
            let mut end = i;
            if end > start && s.get_char(end - 1) == '\r' {
                end = end - 1;
            }
            let line = s.substring_char(start, end);
            proof {
                let cur = s@.subrange(start as int, i as int);
                if i > start && s@[i - 1] == '\r' {
                    assert(cur.last() == '\r');
                    assert(cur.drop_last() =~= s@.subrange(start as int, end as int));
                } else {
                    assert(cur =~= s@.subrange(start as int, end as int));
                }
            }
            let ghost before = res@;
            res.push(line);
            assert(res@ =~= before.push(line));
            assert(views_of(res@) =~= views_of(before).push(line@));
            start = i + 1;
            assert(s@.subrange(start as int, i + 1) =~= Seq::<char>::empty());
        } else {
            assert(s@.subrange(start as int, i + 1) =~= s@.subrange(start as int, i as int).push(
                c,
            ));
        }
        i = i + 1;
    }
    assert(s@.take(n as int) =~= s@);
    if start < n {
        let last = s.substring_char(start, n);
        let ghost before = res@;
        res.push(last);
        assert(res@ =~= before.push(last));
        assert(views_of(res@) =~= views_of(before).push(last@));
    }
    res
}

/// Reading `s` from the left: the tokens completed so far and the token
/// being read, tokens being separated by ASCII whitespace.
pub open spec fn words_acc(s: Seq<char>) -> (Seq<Seq<char>>, Seq<char>)
    decreases s.len(),
{
    if s.len() == 0 {
        (Seq::empty(), Seq::empty())
    } else {
        let p = words_acc(s.drop_last());
        if is_ascii_ws(s.last()) {
            if p.1.len() > 0 {
                (p.0.push(p.1), Seq::empty())
            } else {
                p
            }
        } else {
            (p.0, p.1.push(s.last()))
        }
    }
}

/// `str::split_ascii_whitespace`: the non-empty runs of characters between
/// ASCII whitespace.
pub open spec fn words_spec(s: Seq<char>) -> Seq<Seq<char>> {
    let p = words_acc(s);
    if p.1.len() == 0 {
        p.0
    } else {
        p.0.push(p.1)
    }
}

pub fn is_ascii_whitespace(c: char) -> (res: bool)
    ensures
        res == is_ascii_ws(c),
{
    c == ' ' || c == '\t' || c == '\n' || c == '\x0C' || c == '\r'
}

/// `str::split_ascii_whitespace`.
pub fn split_ascii_whitespace(s: &str) -> (res: Vec<&str>)
    ensures
        views_of(res@) == words_spec(s@),
{
    let n = s.unicode_len();
    let mut res: Vec<&str> = Vec::new();
    let mut start: usize = 0;
    let mut i: usize = 0;
    while i < n
        invariant
            n == s@.len(),
            start <= i <= n,
            words_acc(s@.take(i as int)) == (views_of(res@), s@.subrange(start as int, i as int)),
        decreases n - i,
    {
        let c = s.get_char(i);
        assert(s@.take(i + 1).drop_last() =~= s@.take(i as int));
        assert(s@.take(i + 1).last() == c);
        if is_ascii_whitespace(c) {
            if i > start {
                let word = s.substring_char(start, i);
                let ghost before = res@;
                res.push(word);
                assert(res@ =~= before.push(word));
                assert(views_of(res@) =~= views_of(before).push(word@));
            }
            start = i + 1;
            assert(s@.subrange(start as int, i + 1) =~= Seq::<char>::empty());
        } else {
            assert(s@.subrange(start as int, i + 1) =~= s@.subrange(start as int, i as int).push(
                c,
            ));
        }
        i = i + 1;
    }
    assert(s@.take(n as int) =~= s@);
    if start < n {
        let word = s.substring_char(start, n);
        let ghost before = res@;
        res.push(word);
        assert(res@ =~= before.push(word));
        assert(views_of(res@) =~= views_of(before).push(word@));
    }
    res
}

/// Reading `s` from the left: the pieces completed so far and the piece
/// being read, pieces being separated by `c`.
pub open spec fn split_acc(s: Seq<char>, c: char) -> (Seq<Seq<char>>, Seq<char>)
    decreases s.len(),
{
    if s.len() == 0 {
        (Seq::empty(), Seq::empty())
    } else {
        let p = split_acc(s.drop_last(), c);
        if s.last() == c {
            (p.0.push(p.1), Seq::empty())
        } else {
            (p.0, p.1.push(s.last()))
        }
    }
}

/// `str::split` with a character pattern: the pieces between the
/// separators, empty ones included (one empty piece for an empty string).
pub open spec fn split_spec(s: Seq<char>, c: char) -> Seq<Seq<char>> {
    let p = split_acc(s, c);
    p.0.push(p.1)
}

/// `str::split` with a character pattern.
pub fn split_char(s: &str, c: char) -> (res: Vec<&str>)
    ensures
        views_of(res@) == split_spec(s@, c),
{
    let n = s.unicode_len();
    let mut res: Vec<&str> = Vec::new();
    let mut start: usize = 0;
    let mut i: usize = 0;
    while i < n
        invariant
            n == s@.len(),
            start <= i <= n,
            split_acc(s@.take(i as int), c) == (views_of(res@), s@.subrange(start as int, i as int)),
        decreases n - i,
    {
        let x = s.get_char(i);
        assert(s@.take(i + 1).drop_last() =~= s@.take(i as int));
        assert(s@.take(i + 1).last() == x);
        if x == c {
            let piece = s.substring_char(start, i);
            let ghost before = res@;
            res.push(piece);
            assert(res@ =~= before.push(piece));
            assert(views_of(res@) =~= views_of(before).push(piece@));
            start = i + 1;
            assert(s@.subrange(start as int, i + 1) =~= Seq::<char>::empty());
        } else {
            assert(s@.subrange(start as int, i + 1) =~= s@.subrange(start as int, i as int).push(
                x,
            ));
        }
        i = i + 1;
    }
    assert(s@.take(n as int) =~= s@);
    let last = s.substring_char(start, n);
    let ghost before = res@;
    res.push(last);
    assert(res@ =~= before.push(last));
    assert(views_of(res@) =~= views_of(before).push(last@));
    res
}

/// The index of the first `c` in `s`, if any.
pub open spec fn first_index_of(s: Seq<char>, c: char) -> Option<int> {
    if exists|i: int| 0 <= i < s.len() && s[i] == c {
        Some(
            choose|i: int|
                0 <= i < s.len() && s[i] == c && forall|j: int| 0 <= j < i ==> s[j] != c,
        )
    } else {
        None
    }
}

/// `str::split_once` with a character pattern.
pub open spec fn split_once_spec(s: Seq<char>, c: char) -> Option<(Seq<char>, Seq<char>)> {
    match first_index_of(s, c) {
        Some(i) => Some((s.take(i), s.skip(i + 1))),
        None => None,
    }
}

/// The first index of `c`, found by scanning from the left.
pub fn find_char(s: &str, c: char) -> (res: Option<usize>)
    ensures
        match res {
            Some(i) => first_index_of(s@, c) == Some(i as int) && i < s@.len(),
            None => first_index_of(s@, c) is None,
        },
{
    let n = s.unicode_len();
    let mut i: usize = 0;
    while i < n
        invariant
            n == s@.len(),
            i <= n,
            forall|j: int| 0 <= j < i ==> s@[j] != c,
        decreases n - i,
    {
        if s.get_char(i) == c {
            proof {
                let k = choose|k: int|
                    0 <= k < s@.len() && s@[k] == c && forall|j: int| 0 <= j < k ==> s@[j] != c;
                if k < i {
                } else if k > i {
                    assert(s@[i as int] == c);
                }
            }
            return Some(i);
        }
        i = i + 1;
    }
    None
}

/// `str::split_once` with a character pattern.
pub fn split_once(s: &str, c: char) -> (res: Option<(&str, &str)>)
    ensures
        match res {
            Some((a, b)) => split_once_spec(s@, c) == Some((a@, b@)),
            None => split_once_spec(s@, c) is None,
        },
{
    match find_char(s, c) {
        Some(i) => {
            let n = s.unicode_len();
            let a = s.substring_char(0, i);
            let b = s.substring_char(i + 1, n);
            assert(a@ =~= s@.take(i as int));
            assert(b@ =~= s@.skip(i + 1));
            Some((a, b))
        },
        None => None,
    }
}

/// `s` ends with `p`.
pub open spec fn has_suffix(s: Seq<char>, p: Seq<char>) -> bool {
    p.len() <= s.len() && s.skip(s.len() - p.len()) == p
}

/// `str::ends_with` with a string pattern.
pub fn ends_with(s: &str, p: &str) -> (res: bool)
    ensures
        res == has_suffix(s@, p@),
{
    let n = s.unicode_len();
    let m = p.unicode_len();
    if m > n {
        return false;
    }
    let tail = s.substring_char(n - m, n);
    assert(tail@ =~= s@.skip(n - m));
    str_eq(tail, p)
}

/// `s` without the prefix `p`, where it has it; else `s`.
pub open spec fn strip_prefix_spec(s: Seq<char>, p: Seq<char>) -> Seq<char> {
    if has_prefix(s, p) {
        s.skip(p.len() as int)
    } else {
        s
    }
}

/// `s` without the prefix `p`, where it has it; else `s` (as
/// `str::strip_prefix(..).unwrap_or(s)`).
pub fn strip_prefix_or_self<'a>(s: &'a str, p: &str) -> (res: &'a str)
    ensures
        res@ == strip_prefix_spec(s@, p@),
{
    if starts_with(s, p) {
        let n = s.unicode_len();
        let m = p.unicode_len();
        let rest = s.substring_char(m, n);
        assert(rest@ =~= s@.skip(m as int));
        rest
    } else {
        s
    }
}

/// The parts joined with `sep` between each two.
pub open spec fn join_sep(parts: Seq<Seq<char>>, sep: char) -> Seq<char>
    decreases parts.len(),
{
    if parts.len() == 0 {
        Seq::empty()
    } else if parts.len() == 1 {
        parts[0]
    } else {
        join_sep(parts.drop_last(), sep) + seq![sep] + parts.last()
    }
}

/// The characters of each string.
pub open spec fn string_views(v: Seq<String>) -> Seq<Seq<char>> {
    v.map_values(|s: String| s@)
}

/// The strings joined with `sep` between each two.
pub fn join_strings(parts: &Vec<String>, sep: char) -> (res: String)
    ensures
        res@ == join_sep(string_views(parts@), sep),
{
    let mut s = String::new();
    let mut i: usize = 0;
    while i < parts.len()
        invariant
            i <= parts@.len(),
            s@ == join_sep(string_views(parts@).take(i as int), sep),
        decreases parts@.len() - i,
    {
        let ghost pre = string_views(parts@).take(i as int);
        assert(string_views(parts@).take(i + 1).drop_last() =~= pre);
        if i > 0 {
            push_char(&mut s, sep);
        }
        push_str(&mut s, parts[i].as_str());
        proof {
            if i == 0 {
                assert(pre =~= Seq::<Seq<char>>::empty());
                assert(s@ =~= string_views(parts@).take(1)[0]);
            }
        }
        i = i + 1;
    }
    assert(string_views(parts@).take(parts@.len() as int) =~= string_views(parts@));
    s
}

/// `s` begins with `p`.
pub open spec fn has_prefix(s: Seq<char>, p: Seq<char>) -> bool {
    p.len() <= s.len() && s.take(p.len() as int) == p
}

/// `s` holds `p` as a contiguous part.
pub open spec fn has_infix(s: Seq<char>, p: Seq<char>) -> bool {
    exists|i: int| 0 <= i && i + p.len() <= s.len() && #[trigger] s.subrange(i, i + p.len()) == p
}

/// `str::starts_with`.
pub fn starts_with(s: &str, p: &str) -> (res: bool)
    ensures
        res == has_prefix(s@, p@),
{
    let n = s.unicode_len();
    let m = p.unicode_len();
    if m > n {
        return false;
    }
    let head = s.substring_char(0, m);
    assert(head@ =~= s@.take(m as int));
    str_eq(head, p)
}

/// `str::contains` with a string pattern.
pub fn contains(s: &str, p: &str) -> (res: bool)
    ensures
        res == has_infix(s@, p@),
{
    let n = s.unicode_len();
    let m = p.unicode_len();
    if m > n {
        return false;
    }
    if m == 0 {
        assert(s@.subrange(0, 0 + p@.len() as int) =~= p@);
        return true;
    }
    let mut i: usize = 0;
    while i <= n - m
        invariant
            n == s@.len(),
            m == p@.len(),
            1 <= m <= n,
            i <= n - m + 1,
            forall|j: int| 0 <= j < i ==> #[trigger] s@.subrange(j, j + m) != p@,
        decreases n - i,
    {
        let part = s.substring_char(i, i + m);
        if str_eq(part, p) {
            return true;
        }
        i = i + 1;
    }
    assert forall|j: int| 0 <= j && j + p@.len() <= s@.len() implies #[trigger] s@.subrange(
        j,
        j + p@.len(),
    ) != p@ by {
        assert(j < i);
    }
    false
}

// ---------------------------------------------------------------------------
// ASCII case
// ---------------------------------------------------------------------------

/// `char::to_ascii_lowercase`.
pub open spec fn ascii_lower(c: char) -> char {
    if 'A' <= c && c <= 'Z' {
        ((c as u32) + 32) as char
    } else {
        c
    }
}

/// `str::to_ascii_lowercase`, character by character.
pub open spec fn ascii_lower_seq(s: Seq<char>) -> Seq<char> {
    s.map_values(|c: char| ascii_lower(c))
}

pub fn to_ascii_lowercase(s: &str) -> (res: String)
    ensures
        res@ == ascii_lower_seq(s@),
{
    let n = s.unicode_len();
    let mut res = String::new();
    let mut i: usize = 0;
    while i < n
        invariant
            n == s@.len(),
            i <= n,
            res@ == ascii_lower_seq(s@.take(i as int)),
        decreases n - i,
    {
        let c = s.get_char(i);
        let l = if 'A' <= c && c <= 'Z' {
            let u: u32 = (c as u32) + 32;
            let b: u8 = u as u8;
            assert(b == u);
            b as char
        } else {
            c
        };
        assert(l == ascii_lower(c));
        push_char(&mut res, l);
        assert(ascii_lower_seq(s@.take(i + 1)) =~= ascii_lower_seq(s@.take(i as int)).push(l));
        i = i + 1;
    }
    assert(s@.take(n as int) =~= s@);
    res
}

// ---------------------------------------------------------------------------
// Decimal numbers
// ---------------------------------------------------------------------------

pub open spec fn is_digit(c: char) -> bool {
    '0' <= c && c <= '9'
}

pub open spec fn digit_value(c: char) -> nat {
    ((c as u32) - ('0' as u32)) as nat
}

/// The number written by a sequence of decimal digits.
pub open spec fn digits_value(d: Seq<char>) -> nat
    decreases d.len(),
{
    if d.len() == 0 {
        0
    } else {
        digits_value(d.drop_last()) * 10 + digit_value(d.last())
    }
}

pub open spec fn all_digits(d: Seq<char>) -> bool {
    forall|i: int| 0 <= i < d.len() ==> is_digit(#[trigger] d[i])
}

/// A numeral without its optional leading `+`.
pub open spec fn unsigned_digits(s: Seq<char>) -> Seq<char> {
    if s.len() > 0 && s[0] == '+' {
        s.drop_first()
    } else {
        s
    }
}

/// `u64::from_str` / `usize::from_str_radix(_, 10)` without the bound: an
/// optional `+`, then at least one decimal digit and nothing else.
pub open spec fn decimal_value(s: Seq<char>) -> Option<nat> {
    let d = unsigned_digits(s);
    if d.len() > 0 && all_digits(d) {
        Some(digits_value(d))
    } else {
        None
    }
}

proof fn lemma_digits_value_prefix_le(d: Seq<char>, i: int)
    requires
        0 <= i <= d.len(),
    ensures
        digits_value(d.take(i)) <= digits_value(d),
    decreases d.len() - i,
{
    if i < d.len() {
        lemma_digits_value_prefix_le(d, i + 1);
        assert(d.take(i + 1).drop_last() =~= d.take(i));
    } else {
        assert(d.take(i) =~= d);
    }
}

/// Parses a decimal number that fits in `u64`.
pub fn parse_u64(s: &str) -> (res: Option<u64>)
    ensures
        match res {
            Some(v) => decimal_value(s@) == Some(v as nat),
            None => decimal_value(s@) is None || decimal_value(s@).unwrap() > u64::MAX,
        },
{
    let n = s.unicode_len();
    let mut start: usize = 0;
    if n > 0 && s.get_char(0) == '+' {
        start = 1;
    }
    let ghost d = unsigned_digits(s@);
    assert(d =~= s@.skip(start as int));
    if start >= n {
        return None;
    }
    let mut acc: u64 = 0;
    let mut i: usize = start;
    while i < n
        invariant
            n == s@.len(),
            start <= i <= n,
            start < n,
            d == s@.skip(start as int),
            d == unsigned_digits(s@),
            all_digits(d.take(i - start)),
            acc as nat == digits_value(d.take(i - start)),
        decreases n - i,
    {
        let c = s.get_char(i);
        assert(d[i - start] == c);
        if !('0' <= c && c <= '9') {
            assert(!is_digit(d[i - start]));
            assert(!all_digits(d));
            return None;
        }
        let dv = (c as u32 - '0' as u32) as u64;
        assert(d.take(i - start + 1).drop_last() =~= d.take(i - start));
        if acc > (u64::MAX - dv) / 10 {
            proof {
                assert(acc * 10 + dv > u64::MAX) by (nonlinear_arith)
                    requires
                        acc > (u64::MAX - dv) / 10,
                        dv <= 9,
                ;
                // the rest of the string can only make the number larger
                let j = i - start + 1;
                assert(d.take(j).last() == c);
                assert(digit_value(c) == dv);
                assert(digits_value(d.take(j)) == acc * 10 + dv);
                lemma_digits_value_prefix_le(d, j);
                if all_digits(d) {
                    assert(decimal_value(s@) == Some(digits_value(d)));
                    assert(digits_value(d) > u64::MAX);
                }
            }
            return None;
        }
        acc = acc * 10 + dv;
        assert(all_digits(d.take(i - start + 1)));
        i = i + 1;
    }
    assert(d.take(n - start) =~= d);
    Some(acc)
}

/// Parses a decimal number that fits in `usize`.
pub fn parse_usize(s: &str) -> (res: Option<usize>)
    ensures
        match res {
            Some(v) => decimal_value(s@) == Some(v as nat),
            None => decimal_value(s@) is None || decimal_value(s@).unwrap() > usize::MAX,
        },
{
    match parse_u64(s) {
        Some(v) => {
            if v <= usize::MAX as u64 {
                Some(v as usize)
            } else {
                None
            }
        },
        None => None,
    }
}

/// The decimal digits of a number, most significant first, without
/// leading zeros (a single `0` for zero).
pub open spec fn decimal_digits(n: nat) -> Seq<char>
    decreases n,
{
    if n < 10 {
        seq![((n + 48) as u32) as char]
    } else {
        decimal_digits(n / 10).push((((n % 10) + 48) as u32) as char)
    }
}

/// Writes a number in decimal.
pub fn u64_to_decimal(n: u64) -> (res: String)
    ensures
        res@ == decimal_digits(n as nat),
    decreases n,
{
    if n < 10 {
        let mut s = String::new();
        push_char(&mut s, ((n as u8) + 48) as char);
        assert(((n as u8) + 48) as char == ((n + 48) as u32) as char);
        assert(s@ =~= seq![((n + 48) as u32) as char]);
        s
    } else {
        let mut s = u64_to_decimal(n / 10);
        let d = ((n % 10) as u8 + 48) as char;
        assert(d == (((n % 10) + 48) as u32) as char);
        push_char(&mut s, d);
        s
    }
}

/// Writes a number in decimal.
pub fn u128_to_decimal(n: u128) -> (res: String)
    ensures
        res@ == decimal_digits(n as nat),
    decreases n,
{
    if n < 10 {
        let mut s = String::new();
        push_char(&mut s, ((n as u8) + 48) as char);
        assert(((n as u8) + 48) as char == ((n + 48) as u32) as char);
        assert(s@ =~= seq![((n + 48) as u32) as char]);
        s
    } else {
        let mut s = u128_to_decimal(n / 10);
        let d = ((n % 10) as u8 + 48) as char;
        assert(d == (((n % 10) + 48) as u32) as char);
        push_char(&mut s, d);
        s
    }
}

} // verus!
