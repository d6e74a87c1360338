//! Character-level text primitives.
//!
//! Every function here is stated over the `Seq<char>` view of a string, so
//! positions and lengths count characters, never bytes.

use vstd::prelude::*;
use vstd::utf8::{encode_scalar, encode_utf8, is_ascii_chars};

verus! {

/// Characters that Unicode classes as `White_Space`.
pub open spec fn is_whitespace(c: char) -> bool {
    let u = c as u32;
    ||| 0x09 <= u <= 0x0D
    ||| u == 0x20
    ||| u == 0x85
    ||| u == 0xA0
    ||| u == 0x1680
    ||| 0x2000 <= u <= 0x200A
    ||| u == 0x2028
    ||| u == 0x2029
    ||| u == 0x202F
    ||| u == 0x205F
    ||| u == 0x3000
}

/// First position at or after `from` that holds no whitespace (the length of
/// `s` when there is none).
pub open spec fn skip_whitespace(s: Seq<char>, from: int) -> int
    decreases s.len() - from,
{
    if 0 <= from < s.len() && is_whitespace(s[from]) {
        skip_whitespace(s, from + 1)
    } else {
        from
    }
}

/// Position just behind the last non-whitespace character before `to`
/// (zero when there is none).
pub open spec fn skip_whitespace_back(s: Seq<char>, to: int) -> int
    decreases to,
{
    if 0 < to <= s.len() && is_whitespace(s[to - 1]) {
        skip_whitespace_back(s, to - 1)
    } else {
        to
    }
}

/// Where the text of `s` begins once leading whitespace is dropped.
pub open spec fn trim_start(s: Seq<char>) -> int {
    skip_whitespace(s, 0)
}

/// Where the text of `s` ends once trailing whitespace is dropped; never
/// before `trim_start(s)`.
pub open spec fn trim_end(s: Seq<char>) -> int {
    let back = skip_whitespace_back(s, s.len() as int);
    if back < trim_start(s) {
        trim_start(s)
    } else {
        back
    }
}

/// `s` without its leading and trailing whitespace.
pub open spec fn trim(s: Seq<char>) -> Seq<char> {
    s.subrange(trim_start(s), trim_end(s))
}

/// `s` holds whitespace only (or nothing at all).
pub open spec fn is_blank(s: Seq<char>) -> bool {
    trim_start(s) == s.len()
}

/// `p` stands in `s` at position `i`.
pub open spec fn occurs_at(s: Seq<char>, p: Seq<char>, i: int) -> bool {
    &&& 0 <= i
    &&& i + p.len() <= s.len()
    &&& s.subrange(i, i + p.len()) == p
}

/// `p` stands somewhere in `s`.
pub open spec fn contains(s: Seq<char>, p: Seq<char>) -> bool {
    exists|i: int| occurs_at(s, p, i)
}

/// `s` begins with `p`.
pub open spec fn starts_with(s: Seq<char>, p: Seq<char>) -> bool {
    occurs_at(s, p, 0)
}

/// The leftmost position at or after `from` where `p` stands in `s`.
pub open spec fn find_from(s: Seq<char>, p: Seq<char>, from: int) -> Option<int>
    decreases s.len() + 1 - from,
{
    if from < 0 || from + p.len() > s.len() {
        None
    } else if occurs_at(s, p, from) {
        Some(from)
    } else {
        find_from(s, p, from + 1)
    }
}

/// How often a non-empty `p` stands in `s` from `from` on, counting from the
/// left and never counting overlapping occurrences.
pub open spec fn count_from(s: Seq<char>, p: Seq<char>, from: int) -> nat
    decreases s.len() + 1 - from,
{
    if p.len() == 0 || from < 0 || from + p.len() > s.len() {
        0
    } else if occurs_at(s, p, from) {
        1 + count_from(s, p, from + p.len())
    } else {
        count_from(s, p, from + 1)
    }
}

/// Number of non-overlapping occurrences of `p` in `s`.
pub open spec fn count_matches(s: Seq<char>, p: Seq<char>) -> nat {
    count_from(s, p, 0)
}

/// The text of `s` from `from` on, with every occurrence of a non-empty `p`
/// taken out, leftmost first.
pub open spec fn remove_from(s: Seq<char>, p: Seq<char>, from: int) -> Seq<char>
    decreases s.len() - from,
{
    if from < 0 || from >= s.len() {
        Seq::empty()
    } else if p.len() > 0 && occurs_at(s, p, from) {
        remove_from(s, p, from + p.len())
    } else {
        seq![s[from]] + remove_from(s, p, from + 1)
    }
}

/// `s` with every occurrence of `p` taken out.
pub open spec fn remove_all(s: Seq<char>, p: Seq<char>) -> Seq<char> {
    remove_from(s, p, 0)
}

/// The parts laid end to end, with `sep` between neighbours.
pub open spec fn join(parts: Seq<Seq<char>>, sep: Seq<char>) -> Seq<char>
    decreases parts.len(),
{
    if parts.len() == 0 {
        Seq::empty()
    } else if parts.len() == 1 {
        parts[0]
    } else {
        join(parts.drop_last(), sep) + sep + parts.last()
    }
}

/// Length of `s` in bytes, as UTF-8.
pub open spec fn byte_len(s: Seq<char>) -> nat {
    encode_utf8(s).len()
}

/// A character takes one byte when it is ASCII, and more when it is not.
pub proof fn lemma_char_bytes(c: char)
    ensures
        '\0' <= c,
        c <= '\u{7f}' <==> c as u32 <= 0x7F,
        encode_scalar(c as u32).len() >= 1,
        encode_scalar(c as u32).len() == 1 <==> c <= '\u{7f}',
{
}

/// A text takes at least one byte for each character, and exactly one for
/// each only when all of it is ASCII.
pub proof fn lemma_byte_len(s: Seq<char>)
    ensures
        byte_len(s) >= s.len(),
        byte_len(s) == s.len() <==> is_ascii_chars(s),
    decreases s.len(),
{
    if s.len() > 0 {
        let rest = s.drop_first();
        lemma_byte_len(rest);
        lemma_char_bytes(s[0]);
        assert(encode_utf8(s).len() == encode_scalar(s[0] as u32).len() + encode_utf8(rest).len());
        if is_ascii_chars(s) {
            assert(s[0] <= '\u{7f}');
            assert forall|i: int| 0 <= i < rest.len() implies '\0' <= #[trigger] rest[i]
                <= '\u{7f}' by {
                assert(rest[i] == s[i + 1]);
            }
        }
        if s[0] <= '\u{7f}' && is_ascii_chars(rest) {
            assert forall|i: int| 0 <= i < s.len() implies '\0' <= #[trigger] s[i] <= '\u{7f}' by {
                if i > 0 {
                    assert(s[i] == rest[i - 1]);
                }
            }
        }
    }
}

/// The views of a vector of strings, element by element.
pub open spec fn views(v: Seq<String>) -> Seq<Seq<char>> {
    Seq::new(v.len(), |i: int| v[i]@)
}

/// The characters of `s`, in order.
pub fn chars_of(s: &str) -> (chars: Vec<char>)
    ensures
        chars@ == s@,
{
    let mut chars: Vec<char> = Vec::new();
    for c in it: s.chars()
        invariant
            it.seq() == s@,
            chars@ == it.seq().take(it.index() as int),
    {
        chars.push(c);
    }
    chars
}

/// Whether `c` is whitespace.
pub fn char_is_whitespace(c: char) -> (b: bool)
    ensures
        b == is_whitespace(c),
{
    let u: u32 = c as u32;
    (0x09 <= u && u <= 0x0D) || u == 0x20 || u == 0x85 || u == 0xA0 || u == 0x1680 || (0x2000 <= u
        && u <= 0x200A) || u == 0x2028 || u == 0x2029 || u == 0x202F || u == 0x205F || u == 0x3000
}

/// The bounds of the trimmed text inside `s`.
pub fn trim_bounds(s: &Vec<char>) -> (bounds: (usize, usize))
    ensures
        bounds.0 == trim_start(s@),
        bounds.1 == trim_end(s@),
        bounds.0 <= bounds.1 <= s.len(),
{
    let n: usize = s.len();
    let mut a: usize = 0;
    while a < n && char_is_whitespace(s[a])
        invariant
            a <= n,
            n == s.len(),
            skip_whitespace(s@, a as int) == skip_whitespace(s@, 0),
        decreases n - a,
    {
        a += 1;
    }
    let mut b: usize = n;
    while b > a && char_is_whitespace(s[b - 1])
        invariant
            a <= b <= n,
            n == s.len(),
            skip_whitespace_back(s@, b as int) == skip_whitespace_back(s@, n as int),
        decreases b,
    {
        b -= 1;
    }
    proof {
        if b == a && a > 0 && is_whitespace(s@[a - 1]) {
            lemma_skip_back_bounds(s@, b as int);
        }
    }
    (a, b)
}

/// `skip_whitespace_back` never moves forward nor below zero.
pub proof fn lemma_skip_back_bounds(s: Seq<char>, to: int)
    requires
        0 <= to <= s.len(),
    ensures
        0 <= skip_whitespace_back(s, to) <= to,
    decreases to,
{
    if 0 < to && is_whitespace(s[to - 1]) {
        lemma_skip_back_bounds(s, to - 1);
    }
}

/// `skip_whitespace` never moves backward nor past the end.
pub proof fn lemma_skip_bounds(s: Seq<char>, from: int)
    requires
        0 <= from <= s.len(),
    ensures
        from <= skip_whitespace(s, from) <= s.len(),
    decreases s.len() - from,
{
    if from < s.len() && is_whitespace(s[from]) {
        lemma_skip_bounds(s, from + 1);
    }
}

/// The trimmed part of `s`, as a slice of it.
pub fn trimmed<'a>(s: &'a str) -> (t: &'a str)
    ensures
        t@ == trim(s@),
{
    let chars = chars_of(s);
    let (a, b) = trim_bounds(&chars);
    s.substring_char(a, b)
}

/// Whether `p` stands in `s` at position `i`.
pub fn matches_at(s: &Vec<char>, p: &Vec<char>, i: usize) -> (b: bool)
    ensures
        b == occurs_at(s@, p@, i as int),
{
    let n: usize = s.len();
    let m: usize = p.len();
    if m > n || i > n - m {
        return false;
    }
    let mut k: usize = 0;
    while k < m
        invariant
            k <= m,
            m == p.len(),
            n == s.len(),
            i + m <= n,
            s@.subrange(i as int, i + k) == p@.subrange(0, k as int),
        decreases m - k,
    {
        if s[i + k] != p[k] {
            proof {
                if s@.subrange(i as int, i + m) == p@ {
                    assert(s@.subrange(i as int, i + m)[k as int] == p@[k as int]);
                }
            }
            return false;
        }
        proof {
            assert(s@.subrange(i as int, i + k + 1) =~= s@.subrange(i as int, i + k).push(
                s@[i + k],
            ));
            assert(p@.subrange(0, k + 1) =~= p@.subrange(0, k as int).push(p@[k as int]));
        }
        k += 1;
    }
    proof {
        assert(p@.subrange(0, m as int) =~= p@);
    }
    true
}

/// The leftmost position at or after `from` where `p` stands in `s`.
pub fn find_in(s: &Vec<char>, p: &Vec<char>, from: usize) -> (found: Option<usize>)
    ensures
        match found {
            Some(i) => find_from(s@, p@, from as int) == Some(i as int),
            None => find_from(s@, p@, from as int) is None,
        },
{
    let n: usize = s.len();
    let m: usize = p.len();
    if m > n || from > n - m {
        return None;
    }
    let limit: usize = n - m;
    let mut i: usize = from;
    loop
        invariant
            m <= n,
            n == s.len(),
            m == p.len(),
            limit == n - m,
            from <= i <= limit,
            find_from(s@, p@, i as int) == find_from(s@, p@, from as int),
        decreases limit - i,
    {
        if matches_at(s, p, i) {
            return Some(i);
        }
        if i == limit {
            assert(find_from(s@, p@, i + 1) is None);
            return None;
        }
        i += 1;
    }
}

/// Whether `p` stands somewhere in `s`.
pub fn contains_chars(s: &Vec<char>, p: &Vec<char>) -> (b: bool)
    ensures
        b == contains(s@, p@),
{
    let found = find_in(s, p, 0);
    proof {
        lemma_find_from_complete(s@, p@, 0);
    }
    found.is_some()
}

/// `find_from` finds an occurrence exactly when there is one at or after
/// `from`, and the one it finds is the leftmost.
pub proof fn lemma_find_from_complete(s: Seq<char>, p: Seq<char>, from: int)
    requires
        0 <= from,
    ensures
        match find_from(s, p, from) {
            Some(i) => from <= i && occurs_at(s, p, i) && forall|j: int|
                from <= j < i ==> !occurs_at(s, p, j),
            None => forall|j: int| from <= j ==> !occurs_at(s, p, j),
        },
        from == 0 ==> (find_from(s, p, from) is Some <==> contains(s, p)),
    decreases s.len() + 1 - from,
{
    if from + p.len() > s.len() {
    } else if occurs_at(s, p, from) {
    } else {
        lemma_find_from_complete(s, p, from + 1);
    }
}

/// Whether `p` stands somewhere in `s`.
pub fn str_contains(s: &str, p: &str) -> (b: bool)
    ensures
        b == contains(s@, p@),
{
    let sv = chars_of(s);
    let pv = chars_of(p);
    contains_chars(&sv, &pv)
}

/// Whether `s` begins with `p`.
pub fn str_starts_with(s: &str, p: &str) -> (b: bool)
    ensures
        b == starts_with(s@, p@),
{
    let sv = chars_of(s);
    let pv = chars_of(p);
    matches_at(&sv, &pv, 0)
}

/// Number of non-overlapping occurrences of `p` in `s`.
pub fn count_in(s: &Vec<char>, p: &Vec<char>) -> (count: usize)
    ensures
        count == count_matches(s@, p@),
{
    let n: usize = s.len();
    let m: usize = p.len();
    if m == 0 || m > n {
        return 0;
    }
    let limit: usize = n - m;
    let mut i: usize = 0;
    let mut count: usize = 0;
    while i <= limit
        invariant
            0 < m <= n,
            n == s.len(),
            m == p.len(),
            limit == n - m,
            count <= i <= n,
            count + count_from(s@, p@, i as int) == count_from(s@, p@, 0),
        decreases n - i,
    {
        if matches_at(s, p, i) {
            count += 1;
            i += m;
        } else {
            i += 1;
        }
    }
    count
}

/// `s` with every occurrence of `p` taken out.
pub fn without(s: &str, p: &str) -> (out: String)
    ensures
        out@ == remove_all(s@, p@),
{
    let sv = chars_of(s);
    let pv = chars_of(p);
    let n: usize = sv.len();
    let m: usize = pv.len();
    let mut out = String::new();
    if m == 0 || m > n {
        proof {
            lemma_remove_nothing(s@, p@, 0);
        }
        out.append(s);
        return out;
    }
    let mut kept: usize = 0;
    let mut i: usize = 0;
    while i < n
        invariant
            0 < m <= n,
            n == sv.len(),
            m == pv.len(),
            sv@ == s@,
            pv@ == p@,
            kept <= i <= n,
            out@ + s@.subrange(kept as int, i as int) + remove_from(s@, p@, i as int)
                == remove_all(s@, p@),
        decreases n - i,
    {
        if matches_at(&sv, &pv, i) {
            out.append(s.substring_char(kept, i));
            i += m;
            kept = i;
            proof {
                assert(s@.subrange(kept as int, i as int) =~= Seq::<char>::empty());
            }
        } else {
            proof {
                assert(s@.subrange(kept as int, i as int) + seq![s@[i as int]] =~= s@.subrange(
                    kept as int,
                    i + 1,
                ));
            }
            i += 1;
        }
    }
    out.append(s.substring_char(kept, n));
    out
}

/// Where `p` stands nowhere from `from` on, nothing is taken out.
pub proof fn lemma_remove_nothing(s: Seq<char>, p: Seq<char>, from: int)
    requires
        0 <= from <= s.len(),
        forall|j: int| from <= j ==> !(p.len() > 0 && occurs_at(s, p, j)),
    ensures
        remove_from(s, p, from) == s.subrange(from, s.len() as int),
    decreases s.len() - from,
{
    if from < s.len() {
        lemma_remove_nothing(s, p, from + 1);
        assert(seq![s[from]] + s.subrange(from + 1, s.len() as int) =~= s.subrange(
            from,
            s.len() as int,
        ));
    } else {
        assert(s.subrange(from, s.len() as int) =~= Seq::<char>::empty());
    }
}

/// The strings laid end to end, with `sep` between neighbours.
pub fn join_strings(parts: &Vec<String>, sep: &str) -> (out: String)
    ensures
        out@ == join(views(parts@), sep@),
{
    let mut out = String::new();
    let mut i: usize = 0;
    while i < parts.len()
        invariant
            i <= parts.len(),
            out@ == join(views(parts@).take(i as int), sep@),
        decreases parts.len() - i,
    {
        proof {
            let next = views(parts@).take(i + 1);
            assert(next.drop_last() =~= views(parts@).take(i as int));
            assert(next.last() == parts@[i as int]@);
        }
        if i > 0 {
            out.append(sep);
        }
        out.append(parts[i].as_str());
        proof {
            if i == 0 {
                assert(out@ =~= parts@[0]@);
            }
        }
        i += 1;
    }
    proof {
        assert(views(parts@).take(parts.len() as int) =~= views(parts@));
    }
    out
}


/// Whether `a` and `b` hold the same characters.
pub fn same_text(a: &str, b: &str) -> (same: bool)
    ensures
        same == (a@ == b@),
{
    let av = chars_of(a);
    let bv = chars_of(b);
    if av.len() != bv.len() {
        return false;
    }
    let same = matches_at(&av, &bv, 0);
    proof {
        assert(a@.subrange(0, a@.len() as int) =~= a@);
    }
    same
}


/// The views of a vector of string slices, element by element.
pub open spec fn str_views(v: Seq<&str>) -> Seq<Seq<char>> {
    Seq::new(v.len(), |i: int| v[i]@)
}


/// The line terminator.
pub open spec fn newline() -> Seq<char> {
    seq!['\n']
}

/// The lines of `s` up to position `to`, the last of which begins at `from`:
/// `s` is cut at every line terminator.
pub open spec fn split_upto(s: Seq<char>, to: int) -> Seq<Seq<char>>
    decreases to,
{
    if to <= 0 || to > s.len() {
        seq![Seq::empty()]
    } else {
        let before = split_upto(s, to - 1);
        if s[to - 1] == '\n' {
            before.push(Seq::empty())
        } else {
            before.drop_last().push(before.last().push(s[to - 1]))
        }
    }
}

/// The lines of `s`: what stands between its line terminators. A text
/// without terminator is one line.
pub open spec fn split_spec(s: Seq<char>) -> Seq<Seq<char>> {
    split_upto(s, s.len() as int)
}

/// The lines of `text`.
pub fn split_lines(text: &str) -> (lines: Vec<String>)
    ensures
        views(lines@) == split_spec(text@),
        lines@.len() >= 1,
{
    let chars = chars_of(text);
    let n: usize = chars.len();
    let mut lines: Vec<String> = Vec::new();
    let mut from: usize = 0;
    let mut i: usize = 0;
    assert(text@.subrange(0, 0) =~= Seq::<char>::empty());
    assert(views(lines@).push(text@.subrange(0, 0)) =~= split_upto(text@, 0));
    while i < n
        invariant
            from <= i <= n,
            n == chars.len(),
            chars@ == text@,
            views(lines@).push(text@.subrange(from as int, i as int)) == split_upto(
                text@,
                i as int,
            ),
        decreases n - i,
    {
        let ghost before = views(lines@);
        let ghost open = text@.subrange(from as int, i as int);
        assert(before.push(open).drop_last() =~= before);
        assert(before.push(open).last() == open);
        if chars[i] == '\n' {
            lines.push(String::from_str(text.substring_char(from, i)));
            from = i + 1;
            assert(views(lines@) =~= before.push(open));
            assert(text@.subrange(from as int, i + 1) =~= Seq::<char>::empty());
        } else {
            assert(text@.subrange(from as int, i + 1) =~= open.push(text@[i as int]));
        }
        i += 1;
    }
    let ghost before = views(lines@);
    lines.push(String::from_str(text.substring_char(from, n)));
    assert(views(lines@) =~= before.push(text@.subrange(from as int, n as int)));
    lines
}

} // verus!
