//! Character-sequence operations on which the template engine is built.
//! Every operation works on the `Seq<char>` view of a string.

use vstd::prelude::*;

verus! {

/// `p` occurs in `s` starting at position `i`.
pub open spec fn matches_at(s: Seq<char>, p: Seq<char>, i: int) -> bool {
    0 <= i && i + p.len() <= s.len() && s.subrange(i, i + p.len()) == p
}

/// The first position at or after `i` where `p` occurs in `s`.
pub open spec fn find_from(s: Seq<char>, p: Seq<char>, i: int) -> Option<int>
    decreases s.len() + 1 - i,
{
    if i < 0 || i + p.len() > s.len() {
        None
    } else if matches_at(s, p, i) {
        Some(i)
    } else {
        find_from(s, p, i + 1)
    }
}

/// The first position where `p` occurs in `s`.
pub open spec fn find(s: Seq<char>, p: Seq<char>) -> Option<int> {
    find_from(s, p, 0)
}

pub proof fn lemma_find_from_spec(s: Seq<char>, p: Seq<char>, i: int)
    requires
        0 <= i,
    ensures
        find_from(s, p, i) matches Some(k) ==> i <= k && matches_at(s, p, k) && forall|j: int|
            i <= j < k ==> !matches_at(s, p, j),
        find_from(s, p, i) is None ==> forall|j: int| i <= j ==> !matches_at(s, p, j),
    decreases s.len() + 1 - i,
{
    if i + p.len() > s.len() {
    } else if matches_at(s, p, i) {
    } else {
        lemma_find_from_spec(s, p, i + 1);
    }
}

/// Whether `p` occurs in `s` at position `i`.
pub fn matches_at_exec(s: &Vec<char>, p: &Vec<char>, i: usize) -> (r: bool)
    ensures
        r == matches_at(s@, p@, i as int),
{
    let n = s.len();
    let m = p.len();
    if i > n || m > n - i {
        return false;
    }
    let mut j: usize = 0;
    while j < m
        invariant
            n == s@.len(),
            m == p@.len(),
            i + m <= n,
            j <= m,
            forall|k: int| 0 <= k < j ==> s@[i + k] == p@[k],
        decreases m - j,
    {
        if s[i + j] != p[j] {
            assert(s@.subrange(i as int, i + m)[j as int] == s@[i + j]);
            return false;
        }
        j = j + 1;
    }
    assert(s@.subrange(i as int, i + m) =~= p@);
    true
}

/// The position of the first occurrence of `p` in `s`.
pub fn find_chars(s: &Vec<char>, p: &Vec<char>) -> (r: Option<usize>)
    ensures
        match r {
            Some(k) => find(s@, p@) == Some(k as int),
            None => find(s@, p@) is None,
        },
{
    let n = s.len();
    let m = p.len();
    if m > n {
        return None;
    }
    let mut i: usize = 0;
    while i <= n - m
        invariant
            n == s@.len(),
            m == p@.len(),
            m <= n,
            i <= n - m + 1,
            find(s@, p@) == find_from(s@, p@, i as int),
        decreases n - m + 1 - i,
    {
        if matches_at_exec(s, p, i) {
            return Some(i);
        }
        if i == n - m {
            assert(find_from(s@, p@, i + 1) is None);
            return None;
        }
        i = i + 1;
    }
    None
}

/// The characters of `s`, in order.
pub fn chars_of(s: &str) -> (v: Vec<char>)
    ensures
        v@ == s@,
{
    let mut v: Vec<char> = Vec::new();
    for c in it: s.chars()
        invariant
            v@ == it.seq().take(it.index() as int),
    {
        v.push(c);
    }
    assert(v@ =~= s@);
    v
}

/// Appends the character `c` to `s`, by `String::push`. Trusted, not proved: the contract
/// claims that the string afterwards is the string before followed by `c`, as the
/// documentation of `String::push` says.
#[verifier::external_body]
pub fn push_char(s: &mut String, c: char)
    ensures
        final(s)@ == old(s)@.push(c),
{
    s.push(c);
}

/// The string made of the characters of `v`, in order.
pub fn string_of(v: &Vec<char>) -> (s: String)
    ensures
        s@ == v@,
{
    let mut s = String::new();
    let n = v.len();
    let mut i: usize = 0;
    while i < n
        invariant
            n == v@.len(),
            i <= n,
            s@ == v@.take(i as int),
        decreases n - i,
    {
        push_char(&mut s, v[i]);
        assert(v@.take(i + 1) =~= v@.take(i as int).push(v@[i as int]));
        i = i + 1;
    }
    assert(v@.take(n as int) =~= v@);
    s
}

/// A copy of the characters of `s` from position `a` up to (not including) `b`.
pub fn slice_chars(s: &Vec<char>, a: usize, b: usize) -> (r: Vec<char>)
    requires
        a <= b <= s@.len(),
    ensures
        r@ == s@.subrange(a as int, b as int),
{
    let mut r: Vec<char> = Vec::new();
    let mut i: usize = a;
    while i < b
        invariant
            a <= i <= b,
            b <= s@.len(),
            r@ == s@.subrange(a as int, i as int),
        decreases b - i,
    {
        r.push(s[i]);
        assert(s@.subrange(a as int, i + 1) =~= s@.subrange(a as int, i as int).push(s@[i as int]));
        i = i + 1;
    }
    r
}

/// Appends the characters of `t` to `r`.
pub fn append_chars(r: &mut Vec<char>, t: &Vec<char>)
    ensures
        final(r)@ == old(r)@ + t@,
{
    let n = t.len();
    let mut i: usize = 0;
    let ghost r0 = r@;
    while i < n
        invariant
            n == t@.len(),
            i <= n,
            r@ == r0 + t@.take(i as int),
        decreases n - i,
    {
        r.push(t[i]);
        assert(t@.take(i + 1) =~= t@.take(i as int).push(t@[i as int]));
        assert(r0 + t@.take(i + 1) =~= (r0 + t@.take(i as int)).push(t@[i as int]));
        i = i + 1;
    }
    assert(t@.take(n as int) =~= t@);
}

/// Whether two character sequences are equal.
pub fn chars_eq(a: &Vec<char>, b: &Vec<char>) -> (r: bool)
    ensures
        r == (a@ == b@),
{
    if a.len() != b.len() {
        return false;
    }
    let n = a.len();
    let mut i: usize = 0;
    while i < n
        invariant
            n == a@.len(),
            n == b@.len(),
            i <= n,
            forall|k: int| 0 <= k < i ==> a@[k] == b@[k],
        decreases n - i,
    {
        if a[i] != b[i] {
            return false;
        }
        i = i + 1;
    }
    assert(a@ =~= b@);
    true
}

/// Unicode `White_Space` characters, the ones `char::is_whitespace` accepts.
pub open spec fn is_whitespace(c: char) -> bool {
    ||| ('\u{9}' <= c && c <= '\u{d}')
    ||| c == ' '
    ||| c == '\u{85}'
    ||| c == '\u{a0}'
    ||| c == '\u{1680}'
    ||| ('\u{2000}' <= c && c <= '\u{200a}')
    ||| c == '\u{2028}'
    ||| c == '\u{2029}'
    ||| c == '\u{202f}'
    ||| c == '\u{205f}'
    ||| c == '\u{3000}'
}

/// Whether `c` is a whitespace character.
pub fn is_whitespace_exec(c: char) -> (r: bool)
    ensures
        r == is_whitespace(c),
{
    ('\u{9}' <= c && c <= '\u{d}') || c == ' ' || c == '\u{85}' || c == '\u{a0}' || c
        == '\u{1680}' || ('\u{2000}' <= c && c <= '\u{200a}') || c == '\u{2028}' || c
        == '\u{2029}' || c == '\u{202f}' || c == '\u{205f}' || c == '\u{3000}'
}

/// `s` without its leading whitespace.
pub open spec fn trim_start(s: Seq<char>) -> Seq<char>
    decreases s.len(),
{
    if s.len() > 0 && is_whitespace(s[0]) {
        trim_start(s.drop_first())
    } else {
        s
    }
}

/// `s` without its trailing whitespace.
pub open spec fn trim_end(s: Seq<char>) -> Seq<char>
    decreases s.len(),
{
    if s.len() > 0 && is_whitespace(s.last()) {
        trim_end(s.drop_last())
    } else {
        s
    }
}

/// `s` without leading and trailing whitespace (`str::trim`).
pub open spec fn trim(s: Seq<char>) -> Seq<char> {
    trim_end(trim_start(s))
}

/// `s` without the leading characters equal to `c`.
pub open spec fn trim_start_char(s: Seq<char>, c: char) -> Seq<char>
    decreases s.len(),
{
    if s.len() > 0 && s[0] == c {
        trim_start_char(s.drop_first(), c)
    } else {
        s
    }
}

/// `s` without the trailing characters equal to `c`.
pub open spec fn trim_end_char(s: Seq<char>, c: char) -> Seq<char>
    decreases s.len(),
{
    if s.len() > 0 && s.last() == c {
        trim_end_char(s.drop_last(), c)
    } else {
        s
    }
}

/// `s` without the leading and trailing characters equal to `c` (`str::trim_matches`).
pub open spec fn trim_char(s: Seq<char>, c: char) -> Seq<char> {
    trim_end_char(trim_start_char(s, c), c)
}

/// `s` begins with `p`.
pub open spec fn starts_with(s: Seq<char>, p: Seq<char>) -> bool {
    p.len() <= s.len() && s.take(p.len() as int) == p
}

/// `s` ends with `p`.
pub open spec fn ends_with(s: Seq<char>, p: Seq<char>) -> bool {
    p.len() <= s.len() && s.skip(s.len() - p.len()) == p
}

/// `s` without the repeated trailing occurrences of `p` (`str::trim_end_matches`).
pub open spec fn trim_end_pat(s: Seq<char>, p: Seq<char>) -> Seq<char>
    decreases s.len(),
{
    if p.len() > 0 && ends_with(s, p) {
        trim_end_pat(s.take(s.len() - p.len()), p)
    } else {
        s
    }
}

/// The rest of `s` after the prefix `p`, if `s` begins with it (`str::strip_prefix`).
pub open spec fn strip_prefix(s: Seq<char>, p: Seq<char>) -> Option<Seq<char>> {
    if starts_with(s, p) {
        Some(s.skip(p.len() as int))
    } else {
        None
    }
}

/// `s` cut at every occurrence of `sep`, from left to right, as `str::split` cuts it for a
/// separator that is not empty. An empty separator is not looked for, so it leaves `s`
/// whole, where `str::split` would cut between every two characters.
pub open spec fn split(s: Seq<char>, sep: Seq<char>) -> Seq<Seq<char>>
    decreases s.len(),
{
    if sep.len() == 0 {
        seq![s]
    } else {
        match find(s, sep) {
            None => seq![s],
            Some(i) => {
                if 0 <= i && i + sep.len() <= s.len() {
                    seq![s.take(i)] + split(s.skip(i + sep.len()), sep)
                } else {
                    seq![s]
                }
            },
        }
    }
}

/// `s` cut at the first occurrence of `sep` (`str::split_once`).
pub open spec fn split_once(s: Seq<char>, sep: Seq<char>) -> Option<(Seq<char>, Seq<char>)> {
    match find(s, sep) {
        None => None,
        Some(i) => Some((s.take(i), s.skip(i + sep.len()))),
    }
}

/// `s` with every occurrence of `from`, taken from left to right, replaced by `to`, as
/// `str::replace` does for a pattern that is not empty. An empty pattern is not looked
/// for, so it leaves `s` unchanged, where `str::replace` would insert `to` between every
/// two characters.
pub open spec fn replace_all(s: Seq<char>, from: Seq<char>, to: Seq<char>) -> Seq<char>
    decreases s.len(),
{
    if from.len() == 0 {
        s
    } else {
        match find(s, from) {
            None => s,
            Some(i) => {
                if 0 <= i && i + from.len() <= s.len() {
                    s.take(i) + to + replace_all(s.skip(i + from.len()), from, to)
                } else {
                    s
                }
            },
        }
    }
}

/// `p` occurs somewhere in `s`.
pub open spec fn contains(s: Seq<char>, p: Seq<char>) -> bool {
    exists|i: int| matches_at(s, p, i)
}

pub proof fn lemma_find_some(s: Seq<char>, p: Seq<char>)
    ensures
        find(s, p) matches Some(k) ==> 0 <= k && k + p.len() <= s.len() && s.subrange(
            k,
            k + p.len(),
        ) == p && forall|j: int| 0 <= j < k ==> !matches_at(s, p, j),
        find(s, p) is None <==> !contains(s, p),
{
    lemma_find_from_spec(s, p, 0);
    if find(s, p) is None {
        assert(forall|j: int| !matches_at(s, p, j));
    } else {
        let k = find(s, p)->0;
        assert(matches_at(s, p, k));
    }
}

/// `s` without its leading and trailing whitespace.
pub fn trim_exec(s: &Vec<char>) -> (r: Vec<char>)
    ensures
        r@ == trim(s@),
{
    let n = s.len();
    let mut a: usize = 0;
    assert(s@.skip(0) =~= s@);
    while a < n && is_whitespace_exec(s[a])
        invariant
            n == s@.len(),
            a <= n,
            trim_start(s@) == trim_start(s@.skip(a as int)),
        decreases n - a,
    {
        assert(s@.skip(a as int).drop_first() =~= s@.skip(a + 1));
        a = a + 1;
    }
    let ghost t = s@.skip(a as int);
    assert(trim_start(s@) == t);
    let mut b: usize = n;
    while b > a && is_whitespace_exec(s[b - 1])
        invariant
            n == s@.len(),
            a <= b <= n,
            t == s@.skip(a as int),
            trim_end(t) == trim_end(s@.subrange(a as int, b as int)),
        decreases b,
    {
        assert(s@.subrange(a as int, b as int).drop_last() =~= s@.subrange(a as int, b - 1));
        b = b - 1;
    }
    assert(t =~= s@.subrange(a as int, n as int));
    slice_chars(s, a, b)
}

/// `s` without the leading and trailing characters equal to `c`.
pub fn trim_char_exec(s: &Vec<char>, c: char) -> (r: Vec<char>)
    ensures
        r@ == trim_char(s@, c),
{
    let n = s.len();
    let mut a: usize = 0;
    assert(s@.skip(0) =~= s@);
    while a < n && s[a] == c
        invariant
            n == s@.len(),
            a <= n,
            trim_start_char(s@, c) == trim_start_char(s@.skip(a as int), c),
        decreases n - a,
    {
        assert(s@.skip(a as int).drop_first() =~= s@.skip(a + 1));
        a = a + 1;
    }
    let ghost t = s@.skip(a as int);
    assert(trim_start_char(s@, c) == t);
    let mut b: usize = n;
    while b > a && s[b - 1] == c
        invariant
            n == s@.len(),
            a <= b <= n,
            t == s@.skip(a as int),
            trim_end_char(t, c) == trim_end_char(s@.subrange(a as int, b as int), c),
        decreases b,
    {
        assert(s@.subrange(a as int, b as int).drop_last() =~= s@.subrange(a as int, b - 1));
        b = b - 1;
    }
    assert(t =~= s@.subrange(a as int, n as int));
    slice_chars(s, a, b)
}

/// `s` without the leading characters equal to `c`.
pub fn trim_start_char_exec(s: &Vec<char>, c: char) -> (r: Vec<char>)
    ensures
        r@ == trim_start_char(s@, c),
{
    let n = s.len();
    let mut a: usize = 0;
    assert(s@.skip(0) =~= s@);
    while a < n && s[a] == c
        invariant
            n == s@.len(),
            a <= n,
            trim_start_char(s@, c) == trim_start_char(s@.skip(a as int), c),
        decreases n - a,
    {
        assert(s@.skip(a as int).drop_first() =~= s@.skip(a + 1));
        a = a + 1;
    }
    assert(s@.skip(a as int) =~= s@.subrange(a as int, n as int));
    slice_chars(s, a, n)
}

/// `s` without the trailing characters equal to `c`.
pub fn trim_end_char_exec(s: &Vec<char>, c: char) -> (r: Vec<char>)
    ensures
        r@ == trim_end_char(s@, c),
{
    let n = s.len();
    let mut b: usize = n;
    assert(s@.subrange(0, n as int) =~= s@);
    while b > 0 && s[b - 1] == c
        invariant
            n == s@.len(),
            b <= n,
            trim_end_char(s@, c) == trim_end_char(s@.subrange(0, b as int), c),
        decreases b,
    {
        assert(s@.subrange(0, b as int).drop_last() =~= s@.subrange(0, b - 1));
        b = b - 1;
    }
    slice_chars(s, 0, b)
}

/// Whether `s` begins with `p`.
pub fn starts_with_exec(s: &Vec<char>, p: &Vec<char>) -> (r: bool)
    ensures
        r == starts_with(s@, p@),
{
    let r = matches_at_exec(s, p, 0);
    proof {
        if p@.len() <= s@.len() {
            assert(s@.subrange(0, p@.len() as int) =~= s@.take(p@.len() as int));
        }
    }
    r
}

/// Whether `s` ends with `p`.
pub fn ends_with_exec(s: &Vec<char>, p: &Vec<char>) -> (r: bool)
    ensures
        r == ends_with(s@, p@),
{
    if p.len() > s.len() {
        return false;
    }
    let r = matches_at_exec(s, p, s.len() - p.len());
    assert(s@.subrange(s@.len() - p@.len(), s@.len() as int) =~= s@.skip(s@.len() - p@.len()));
    r
}

/// The rest of `s` after the prefix `p`, if `s` begins with it.
pub fn strip_prefix_exec(s: &Vec<char>, p: &Vec<char>) -> (r: Option<Vec<char>>)
    ensures
        match r {
            Some(t) => strip_prefix(s@, p@) == Some(t@),
            None => strip_prefix(s@, p@) is None,
        },
{
    if starts_with_exec(s, p) {
        let t = slice_chars(s, p.len(), s.len());
        assert(t@ =~= s@.skip(p@.len() as int));
        Some(t)
    } else {
        None
    }
}

/// `s` without the repeated trailing occurrences of `p`.
pub fn trim_end_pat_exec(s: &Vec<char>, p: &Vec<char>) -> (r: Vec<char>)
    ensures
        r@ == trim_end_pat(s@, p@),
{
    let mut t = slice_chars(s, 0, s.len());
    assert(t@ =~= s@);
    if p.len() == 0 {
        return t;
    }
    while ends_with_exec(&t, p)
        invariant
            p@.len() > 0,
            trim_end_pat(s@, p@) == trim_end_pat(t@, p@),
        decreases t@.len(),
    {
        let k = t.len() - p.len();
        t = slice_chars(&t, 0, k);
    }
    t
}

pub proof fn lemma_find_first(s: Seq<char>, p: Seq<char>, k: int)
    requires
        matches_at(s, p, k),
        forall|j: int| 0 <= j < k ==> !matches_at(s, p, j),
    ensures
        find(s, p) == Some(k),
{
    lemma_find_from_spec(s, p, 0);
}

pub proof fn lemma_find_bounds(s: Seq<char>, p: Seq<char>)
    ensures
        find(s, p) matches Some(k) ==> 0 <= k && k + p.len() <= s.len(),
{
    lemma_find_some(s, p);
}

/// The views of a sequence of character vectors.
pub open spec fn views(v: Seq<Vec<char>>) -> Seq<Seq<char>> {
    v.map_values(|x: Vec<char>| x@)
}

/// `s` cut at every occurrence of the non-empty separator `sep`.
pub fn split_exec(s: &Vec<char>, sep: &Vec<char>) -> (r: Vec<Vec<char>>)
    requires
        sep@.len() > 0,
    ensures
        views(r@) == split(s@, sep@),
{
    let mut pieces: Vec<Vec<char>> = Vec::new();
    let mut rest = slice_chars(s, 0, s.len());
    assert(rest@ =~= s@);
    loop
        invariant
            sep@.len() > 0,
            split(s@, sep@) == views(pieces@) + split(rest@, sep@),
        decreases rest@.len(),
    {
        proof {
            lemma_find_bounds(rest@, sep@);
        }
        let rl = rest.len();
        match find_chars(&rest, sep) {
            None => {
                let ghost old_pieces = pieces@;
                pieces.push(rest);
                assert(views(pieces@) =~= views(old_pieces) + seq![rest@]);
                return pieces;
            },
            Some(k) => {
                let head = slice_chars(&rest, 0, k);
                let tail = slice_chars(&rest, k + sep.len(), rest.len());
                assert(head@ =~= rest@.take(k as int));
                assert(tail@ =~= rest@.skip(k + sep@.len()));
                let ghost old_pieces = pieces@;
                pieces.push(head);
                assert(views(pieces@) =~= views(old_pieces) + seq![head@]);
                assert(split(s@, sep@) == views(pieces@) + split(tail@, sep@));
                rest = tail;
            },
        }
    }
}

pub proof fn lemma_split_nonempty(s: Seq<char>, sep: Seq<char>)
    ensures
        split(s, sep).len() >= 1,
    decreases s.len(),
{
    if sep.len() > 0 {
        match find(s, sep) {
            None => {},
            Some(i) => {
                if 0 <= i && i + sep.len() <= s.len() {
                    lemma_split_nonempty(s.skip(i + sep.len()), sep);
                }
            },
        }
    }
}

/// Each piece of `v`, trimmed.
pub fn trim_all(v: &Vec<Vec<char>>) -> (r: Vec<Vec<char>>)
    ensures
        views(r@) == views(v@).map_values(|p: Seq<char>| trim(p)),
{
    let mut r: Vec<Vec<char>> = Vec::new();
    let n = v.len();
    let mut i: usize = 0;
    while i < n
        invariant
            n == v@.len(),
            i <= n,
            views(r@) =~= views(v@).map_values(|p: Seq<char>| trim(p)).take(i as int),
        decreases n - i,
    {
        let t = trim_exec(&v[i]);
        let ghost r0 = r@;
        r.push(t);
        assert(views(r@) =~= views(r0).push(t@));
        assert(views(v@)[i as int] == v@[i as int]@);
        i = i + 1;
    }
    r
}

/// `s` cut at the first occurrence of `sep`.
pub fn split_once_exec(s: &Vec<char>, sep: &Vec<char>) -> (r: Option<(Vec<char>, Vec<char>)>)
    ensures
        match r {
            Some((a, b)) => split_once(s@, sep@) == Some((a@, b@)),
            None => split_once(s@, sep@) is None,
        },
{
    proof {
        lemma_find_bounds(s@, sep@);
    }
    let sl = s.len();
    match find_chars(s, sep) {
        None => None,
        Some(k) => {
            let a = slice_chars(s, 0, k);
            let b = slice_chars(s, k + sep.len(), s.len());
            assert(a@ =~= s@.take(k as int));
            assert(b@ =~= s@.skip(k + sep@.len()));
            Some((a, b))
        },
    }
}

/// `s` with every occurrence of the non-empty pattern `from` replaced by `to`.
pub fn replace_all_exec(s: &Vec<char>, from: &Vec<char>, to: &Vec<char>) -> (r: Vec<char>)
    requires
        from@.len() > 0,
    ensures
        r@ == replace_all(s@, from@, to@),
{
    let mut out: Vec<char> = Vec::new();
    let mut rest = slice_chars(s, 0, s.len());
    assert(rest@ =~= s@);
    loop
        invariant
            from@.len() > 0,
            replace_all(s@, from@, to@) == out@ + replace_all(rest@, from@, to@),
        decreases rest@.len(),
    {
        proof {
            lemma_find_bounds(rest@, from@);
        }
        let rl = rest.len();
        match find_chars(&rest, from) {
            None => {
                append_chars(&mut out, &rest);
                return out;
            },
            Some(k) => {
                let head = slice_chars(&rest, 0, k);
                let tail = slice_chars(&rest, k + from.len(), rest.len());
                assert(head@ =~= rest@.take(k as int));
                assert(tail@ =~= rest@.skip(k + from@.len()));
                let ghost out0 = out@;
                append_chars(&mut out, &head);
                append_chars(&mut out, to);
                assert(out0 + (head@ + to@ + replace_all(tail@, from@, to@)) =~= out@
                    + replace_all(tail@, from@, to@));
                rest = tail;
            },
        }
    }
}

/// Whether `p` occurs in `s`.
pub fn contains_exec(s: &Vec<char>, p: &Vec<char>) -> (r: bool)
    ensures
        r == contains(s@, p@),
{
    proof {
        lemma_find_some(s@, p@);
    }
    find_chars(s, p).is_some()
}

/// `c` is an ASCII decimal digit.
pub open spec fn is_digit(c: char) -> bool {
    '0' <= c && c <= '9'
}

/// The value of the decimal digit `c`.
pub open spec fn digit_value(c: char) -> int {
    c as int - '0' as int
}

/// The value of the decimal numeral `d` (every character a digit).
pub open spec fn decimal_value(d: Seq<char>) -> int
    decreases d.len(),
{
    if d.len() == 0 {
        0
    } else {
        decimal_value(d.drop_last()) * 10 + digit_value(d.last())
    }
}

/// Every character of `d` is a decimal digit.
pub open spec fn all_digits(d: Seq<char>) -> bool {
    forall|i: int| 0 <= i < d.len() ==> is_digit(#[trigger] d[i])
}

/// What `usize::from_str` gives for `s`: an optional `+`, then one or more decimal
/// digits whose value fits in a `usize`.
pub open spec fn parse_usize(s: Seq<char>) -> Option<usize> {
    if s.len() == 0 {
        None
    } else {
        let d = if s[0] == '+' {
            s.drop_first()
        } else {
            s
        };
        if d.len() > 0 && all_digits(d) && decimal_value(d) <= usize::MAX {
            Some(decimal_value(d) as usize)
        } else {
            None
        }
    }
}

proof fn lemma_decimal_prefix(d: Seq<char>, k: int)
    requires
        all_digits(d),
        0 <= k <= d.len(),
    ensures
        0 <= decimal_value(d.take(k)) <= decimal_value(d),
    decreases d.len() - k,
{
    if k < d.len() {
        lemma_decimal_prefix(d, k + 1);
        assert(d.take(k + 1).drop_last() =~= d.take(k));
        assert(d.take(k + 1).last() == d[k]);
        assert(is_digit(d[k]));
    } else {
        assert(d.take(k) =~= d);
        lemma_decimal_nonneg(d);
    }
}

proof fn lemma_decimal_nonneg(d: Seq<char>)
    requires
        all_digits(d),
    ensures
        decimal_value(d) >= 0,
    decreases d.len(),
{
    if d.len() > 0 {
        assert(all_digits(d.drop_last()));
        lemma_decimal_nonneg(d.drop_last());
        assert(is_digit(d[d.len() - 1]));
    }
}

/// `s` read as a `usize` the way `str::parse::<usize>` reads it.
pub fn parse_usize_exec(s: &Vec<char>) -> (r: Option<usize>)
    ensures
        r == parse_usize(s@),
{
    let n = s.len();
    if n == 0 {
        return None;
    }
    let start: usize = if s[0] == '+' {
        1
    } else {
        0
    };
    let ghost d = if s@[0] == '+' {
        s@.drop_first()
    } else {
        s@
    };
    assert(d =~= s@.skip(start as int));
    if start >= n {
        return None;
    }
    let mut acc: usize = 0;
    let mut i: usize = start;
    while i < n
        invariant
            n == s@.len(),
            start <= i <= n,
            d == s@.skip(start as int),
            d == (if s@[0] == '+' {
                s@.drop_first()
            } else {
                s@
            }),
            d.len() > 0,
            all_digits(d.take(i - start)),
            acc == decimal_value(d.take(i - start)),
        decreases n - i,
    {
        let c = s[i];
        let ghost k = i - start;
        assert(d[k] == c);
        if c < '0' || c > '9' {
            assert(!all_digits(d));
            return None;
        }
        let v = (c as u32 - '0' as u32) as usize;
        assert(d.take(k + 1).drop_last() =~= d.take(k));
        assert(all_digits(d.take(k + 1)));
        match acc.checked_mul(10) {
            None => {
                proof {
                    if all_digits(d) {
                        lemma_decimal_prefix(d, k + 1);
                    }
                }
                return None;
            },
            Some(m) => match m.checked_add(v) {
                None => {
                    proof {
                        if all_digits(d) {
                            lemma_decimal_prefix(d, k + 1);
                        }
                    }
                    return None;
                },
                Some(a) => {
                    acc = a;
                },
            },
        }
        i = i + 1;
    }
    assert(d.take(n - start) =~= d);
    Some(acc)
}

/// The string `a` followed by `b`.
pub fn concat(a: &str, b: &str) -> (r: String)
    ensures
        r@ == a@ + b@,
{
    let mut v = chars_of(a);
    let w = chars_of(b);
    append_chars(&mut v, &w);
    string_of(&v)
}

/// The character of the decimal digit `d`.
pub open spec fn digit_char(d: int) -> char {
    if d == 0 {
        '0'
    } else if d == 1 {
        '1'
    } else if d == 2 {
        '2'
    } else if d == 3 {
        '3'
    } else if d == 4 {
        '4'
    } else if d == 5 {
        '5'
    } else if d == 6 {
        '6'
    } else if d == 7 {
        '7'
    } else if d == 8 {
        '8'
    } else {
        '9'
    }
}

/// The decimal numeral of `n`, without leading zeros (`0` for zero), as `Display` writes it.
pub open spec fn decimal(n: nat) -> Seq<char>
    decreases n,
{
    if n < 10 {
        seq![digit_char(n as int)]
    } else {
        decimal(n / 10).push(digit_char((n % 10) as int))
    }
}

fn digit_char_exec(d: usize) -> (r: char)
    requires
        d < 10,
    ensures
        r == digit_char(d as int),
{
    if d == 0 {
        '0'
    } else if d == 1 {
        '1'
    } else if d == 2 {
        '2'
    } else if d == 3 {
        '3'
    } else if d == 4 {
        '4'
    } else if d == 5 {
        '5'
    } else if d == 6 {
        '6'
    } else if d == 7 {
        '7'
    } else if d == 8 {
        '8'
    } else {
        '9'
    }
}

/// The decimal numeral of `n`.
pub fn decimal_exec(n: usize) -> (r: Vec<char>)
    ensures
        r@ == decimal(n as nat),
    decreases n,
{
    if n < 10 {
        let mut v: Vec<char> = Vec::new();
        v.push(digit_char_exec(n));
        assert(v@ =~= seq![digit_char(n as int)]);
        v
    } else {
        let mut v = decimal_exec(n / 10);
        v.push(digit_char_exec(n % 10));
        v
    }
}

/// `s` without the repeated leading occurrences of `p` (`str::trim_start_matches`).
pub open spec fn trim_start_pat(s: Seq<char>, p: Seq<char>) -> Seq<char>
    decreases s.len(),
{
    if p.len() > 0 && starts_with(s, p) {
        trim_start_pat(s.skip(p.len() as int), p)
    } else {
        s
    }
}

/// `s` without the repeated leading occurrences of `p`.
pub fn trim_start_pat_exec(s: &Vec<char>, p: &Vec<char>) -> (r: Vec<char>)
    ensures
        r@ == trim_start_pat(s@, p@),
{
    let mut t = slice_chars(s, 0, s.len());
    assert(t@ =~= s@);
    if p.len() == 0 {
        return t;
    }
    while starts_with_exec(&t, p)
        invariant
            p@.len() > 0,
            trim_start_pat(s@, p@) == trim_start_pat(t@, p@),
        decreases t@.len(),
    {
        let tl = t.len();
        let u = slice_chars(&t, p.len(), tl);
        assert(u@ =~= t@.skip(p@.len() as int));
        t = u;
    }
    t
}

/// `line` without one trailing carriage return.
pub open spec fn strip_cr(line: Seq<char>) -> Seq<char> {
    if line.len() > 0 && line.last() == '\r' {
        line.drop_last()
    } else {
        line
    }
}

/// The lines of `s` (`str::lines`): cut at each `\n`, a `\r` just before it dropped, and
/// no empty last line after a final `\n`.
pub open spec fn lines(s: Seq<char>) -> Seq<Seq<char>>
    decreases s.len(),
{
    if s.len() == 0 {
        Seq::empty()
    } else {
        match find(s, "\n"@) {
            None => seq![s],
            Some(i) => {
                if 0 <= i && i + 1 <= s.len() {
                    seq![strip_cr(s.take(i))] + lines(s.skip(i + 1))
                } else {
                    seq![s]
                }
            },
        }
    }
}

/// The lines of `s`.
pub fn lines_exec(s: &Vec<char>) -> (r: Vec<Vec<char>>)
    ensures
        views(r@) == lines(s@),
{
    let nl = chars_of("\n");
    proof {
        reveal_strlit("\n");
    }
    let mut out: Vec<Vec<char>> = Vec::new();
    let mut rest = slice_chars(s, 0, s.len());
    assert(rest@ =~= s@);
    loop
        invariant
            nl@ == "\n"@,
            nl@.len() == 1,
            lines(s@) == views(out@) + lines(rest@),
        decreases rest@.len(),
    {
        let rl = rest.len();
        if rl == 0 {
            assert(views(out@) + lines(rest@) =~= views(out@));
            return out;
        }
        proof {
            lemma_find_bounds(rest@, nl@);
        }
        match find_chars(&rest, &nl) {
            None => {
                let ghost o0 = out@;
                out.push(rest);
                assert(views(out@) =~= views(o0) + seq![rest@]);
                return out;
            },
            Some(k) => {
                let mut head = slice_chars(&rest, 0, k);
                assert(head@ =~= rest@.take(k as int));
                let hl = head.len();
                if hl > 0 && head[hl - 1] == '\r' {
                    head = slice_chars(&head, 0, hl - 1);
                    assert(head@ =~= strip_cr(rest@.take(k as int)));
                }
                let tail = slice_chars(&rest, k + 1, rl);
                assert(tail@ =~= rest@.skip(k + 1));
                let ghost o0 = out@;
                out.push(head);
                assert(views(out@) =~= views(o0) + seq![head@]);
                assert(lines(s@) == views(out@) + lines(tail@));
                rest = tail;
            },
        }
    }
}

pub proof fn lemma_trim_len(s: Seq<char>)
    ensures
        trim(s).len() <= s.len(),
{
    lemma_trim_start_len(s);
    lemma_trim_end_len(trim_start(s));
}

proof fn lemma_trim_start_len(s: Seq<char>)
    ensures
        trim_start(s).len() <= s.len(),
    decreases s.len(),
{
    if s.len() > 0 && is_whitespace(s[0]) {
        lemma_trim_start_len(s.drop_first());
    }
}

proof fn lemma_trim_end_len(s: Seq<char>)
    ensures
        trim_end(s).len() <= s.len(),
    decreases s.len(),
{
    if s.len() > 0 && is_whitespace(s.last()) {
        lemma_trim_end_len(s.drop_last());
    }
}

/// The first position at or after `i` where `target` occurs outside every block, for
/// blocks opened by `open` and closed by `close`; `depth` is the number of blocks already
/// open at `i`. At a position where `target` occurs outside every block it is found;
/// otherwise an `open` there opens one more block, and a `close` there closes the
/// innermost open block.
pub open spec fn scan_for(
    s: Seq<char>,
    i: int,
    depth: nat,
    open: Seq<char>,
    close: Seq<char>,
    target: Seq<char>,
) -> Option<int>
    decreases s.len() - i,
{
    if open.len() == 0 || close.len() == 0 || i < 0 || i >= s.len() {
        None
    } else if depth == 0 && matches_at(s, target, i) {
        Some(i)
    } else if matches_at(s, open, i) {
        scan_for(s, i + open.len(), depth + 1, open, close, target)
    } else if depth > 0 && matches_at(s, close, i) {
        scan_for(s, i + close.len(), (depth - 1) as nat, open, close, target)
    } else {
        scan_for(s, i + 1, depth, open, close, target)
    }
}

/// The first position where `target` occurs outside every block opened by `open` and
/// closed by `close`, such as the `{{/if}}` that closes an `{{#if}}` block, skipping
/// the blocks nested in it.
pub open spec fn find_outside(s: Seq<char>, open: Seq<char>, close: Seq<char>, target: Seq<char>) -> Option<
    int,
> {
    scan_for(s, 0, 0, open, close, target)
}

pub proof fn lemma_scan_for_found(
    s: Seq<char>,
    i: int,
    depth: nat,
    open: Seq<char>,
    close: Seq<char>,
    target: Seq<char>,
)
    ensures
        scan_for(s, i, depth, open, close, target) matches Some(k) ==> i <= k && matches_at(
            s,
            target,
            k,
        ),
    decreases s.len() - i,
{
    if open.len() == 0 || close.len() == 0 || i < 0 || i >= s.len() {
    } else if depth == 0 && matches_at(s, target, i) {
    } else if matches_at(s, open, i) {
        lemma_scan_for_found(s, i + open.len(), depth + 1, open, close, target);
    } else if depth > 0 && matches_at(s, close, i) {
        lemma_scan_for_found(s, i + close.len(), (depth - 1) as nat, open, close, target);
    } else {
        lemma_scan_for_found(s, i + 1, depth, open, close, target);
    }
}

/// The first position where `target` occurs outside every block opened by `open` and
/// closed by `close`.
pub fn find_outside_exec(s: &Vec<char>, open: &Vec<char>, close: &Vec<char>, target: &Vec<char>) -> (r:
    Option<usize>)
    ensures
        match r {
            Some(k) => find_outside(s@, open@, close@, target@) == Some(k as int),
            None => find_outside(s@, open@, close@, target@) is None,
        },
{
    let n = s.len();
    let ol = open.len();
    let cl = close.len();
    if ol == 0 || cl == 0 {
        return None;
    }
    let mut i: usize = 0;
    let mut depth: usize = 0;
    while i < n
        invariant
            n == s@.len(),
            ol == open@.len(),
            cl == close@.len(),
            ol > 0,
            cl > 0,
            i <= n,
            depth <= i,
            find_outside(s@, open@, close@, target@) == scan_for(
                s@,
                i as int,
                depth as nat,
                open@,
                close@,
                target@,
            ),
        decreases n - i,
    {
        if depth == 0 && matches_at_exec(s, target, i) {
            return Some(i);
        }
        if matches_at_exec(s, open, i) {
            i = i + ol;
            depth = depth + 1;
        } else if depth > 0 && matches_at_exec(s, close, i) {
            i = i + cl;
            depth = depth - 1;
        } else {
            i = i + 1;
        }
    }
    None
}


/// Whether two strings are equal.
pub fn str_same(a: &str, b: &str) -> (r: bool)
    ensures
        r == (a@ == b@),
{
    let x = chars_of(a);
    let y = chars_of(b);
    chars_eq(&x, &y)
}

} // verus!
