//! Character-sequence helpers shared by the path, identifier and Rust-layout logic.

use vstd::prelude::*;
use vstd::string::*;

verus! {

/// Appends one character to a string through `String::push`.
/// Trusted: the new contents are the old contents followed by `c`,
/// as std documents for `String::push`.
#[verifier::external_body]
pub(crate) fn push_char(s: &mut String, c: char)
    ensures
        final(s)@ == old(s)@.push(c),
{
    s.push(c);
}

/// The characters of `s`, in order.
pub fn chars_of(s: &str) -> (v: Vec<char>)
    ensures
        v@ == s@,
{
    let n = s.unicode_len();
    let mut v: Vec<char> = Vec::new();
    let mut i: usize = 0;
    while i < n
        invariant
            n == s@.len(),
            i <= n,
            v@ == s@.take(i as int),
        decreases n - i,
    {
        v.push(s.get_char(i));
        i += 1;
        assert(v@ =~= s@.take(i as int));
    }
    assert(v@ =~= s@);
    v
}

/// Builds a string from the characters `v[lo..hi]`.
pub fn string_from_range(v: &Vec<char>, lo: usize, hi: usize) -> (s: String)
    requires
        lo <= hi <= v@.len(),
    ensures
        s@ == v@.subrange(lo as int, hi as int),
{
    let mut s = String::new();
    let mut i = lo;
    while i < hi
        invariant
            lo <= i <= hi,
            hi <= v@.len(),
            s@ == v@.subrange(lo as int, i as int),
        decreases hi - i,
    {
        push_char(&mut s, v[i]);
        i += 1;
        assert(s@ =~= v@.subrange(lo as int, i as int));
    }
    s
}

/// Builds a string from all of `v`.
pub fn string_from_chars(v: &Vec<char>) -> (s: String)
    ensures
        s@ == v@,
{
    let s = string_from_range(v, 0, v.len());
    assert(v@.subrange(0, v@.len() as int) =~= v@);
    s
}


/// The character sequences held by a list of character vectors.
pub open spec fn char_views(parts: Seq<Vec<char>>) -> Seq<Seq<char>> {
    parts.map_values(|p: Vec<char>| p@)
}

/// The pieces of `s` between occurrences of `sep`, as `str::split` with a
/// character pattern yields them: `n` separators give `n + 1` pieces.
pub open spec fn split_on(s: Seq<char>, sep: char) -> Seq<Seq<char>>
    decreases s.len(),
{
    if s.len() == 0 {
        seq![Seq::<char>::empty()]
    } else {
        let rest = split_on(s.drop_last(), sep);
        if s.last() == sep {
            rest.push(Seq::<char>::empty())
        } else {
            rest.update(rest.len() - 1, rest.last().push(s.last()))
        }
    }
}

/// `split_on` never yields an empty list of pieces.
pub proof fn lemma_split_on_nonempty(s: Seq<char>, sep: char)
    ensures
        split_on(s, sep).len() >= 1,
    decreases s.len(),
{
    if s.len() > 0 {
        lemma_split_on_nonempty(s.drop_last(), sep);
    }
}

/// The pieces joined with `sep` between consecutive pieces, as `[T]::join` does.
pub open spec fn join_with(parts: Seq<Seq<char>>, sep: Seq<char>) -> Seq<char>
    decreases parts.len(),
{
    if parts.len() == 0 {
        Seq::<char>::empty()
    } else if parts.len() == 1 {
        parts[0]
    } else {
        join_with(parts.drop_last(), sep) + sep + parts.last()
    }
}

/// Unicode `White_Space` characters, the ones `char::is_whitespace` accepts.
pub open spec fn is_space(c: char) -> bool {
    let n = c as u32;
    ||| 9 <= n <= 13
    ||| n == 32
    ||| n == 0x85
    ||| n == 0xa0
    ||| n == 0x1680
    ||| 0x2000 <= n <= 0x200a
    ||| n == 0x2028
    ||| n == 0x2029
    ||| n == 0x202f
    ||| n == 0x205f
    ||| n == 0x3000
}

/// `s` without its leading whitespace (`str::trim_start`).
pub open spec fn trim_start(s: Seq<char>) -> Seq<char>
    decreases s.len(),
{
    if s.len() > 0 && is_space(s[0]) {
        trim_start(s.drop_first())
    } else {
        s
    }
}

/// `s` without its trailing whitespace (`str::trim_end`).
pub open spec fn trim_end(s: Seq<char>) -> Seq<char>
    decreases s.len(),
{
    if s.len() > 0 && is_space(s.last()) {
        trim_end(s.drop_last())
    } else {
        s
    }
}

/// `s` without leading and trailing whitespace (`str::trim`).
pub open spec fn trim(s: Seq<char>) -> Seq<char> {
    trim_end(trim_start(s))
}

/// Whether `c` is whitespace in the sense of `char::is_whitespace`.
pub fn is_whitespace_char(c: char) -> (b: bool)
    ensures
        b == is_space(c),
{
    let n = c as u32;
    (9 <= n && n <= 13) || n == 32 || n == 0x85 || n == 0xa0 || n == 0x1680 || (0x2000 <= n
        && n <= 0x200a) || n == 0x2028 || n == 0x2029 || n == 0x202f || n == 0x205f || n
        == 0x3000
}

/// Bounds of `v[lo..hi]` once leading and trailing whitespace are dropped.
pub fn trim_range(v: &Vec<char>, lo: usize, hi: usize) -> (r: (usize, usize))
    requires
        lo <= hi <= v@.len(),
    ensures
        lo <= r.0 <= r.1 <= hi,
        v@.subrange(r.0 as int, r.1 as int) == trim(v@.subrange(lo as int, hi as int)),
        v@.subrange(r.0 as int, hi as int) == trim_start(v@.subrange(lo as int, hi as int)),
{
    let mut a = lo;
    while a < hi && is_whitespace_char(v[a])
        invariant
            lo <= a <= hi,
            hi <= v@.len(),
            trim_start(v@.subrange(lo as int, hi as int)) == trim_start(
                v@.subrange(a as int, hi as int),
            ),
        decreases hi - a,
    {
        assert(v@.subrange(a as int, hi as int).drop_first() =~= v@.subrange(
            a + 1,
            hi as int,
        ));
        a += 1;
    }
    assert(trim_start(v@.subrange(a as int, hi as int)) == v@.subrange(a as int, hi as int));
    let mut b = hi;
    while b > a && is_whitespace_char(v[b - 1])
        invariant
            a <= b <= hi,
            hi <= v@.len(),
            trim_end(v@.subrange(a as int, hi as int)) == trim_end(
                v@.subrange(a as int, b as int),
            ),
        decreases b - a,
    {
        assert(v@.subrange(a as int, b as int).drop_last() =~= v@.subrange(
            a as int,
            b - 1,
        ));
        b -= 1;
    }
    (a, b)
}

/// The pieces of `v` between occurrences of `sep`.
pub fn split_chars(v: &Vec<char>, sep: char) -> (parts: Vec<Vec<char>>)
    ensures
        char_views(parts@) == split_on(v@, sep),
{
    let mut parts: Vec<Vec<char>> = Vec::new();
    let mut cur: Vec<char> = Vec::new();
    let mut i: usize = 0;
    while i < v.len()
        invariant
            i <= v@.len(),
            split_on(v@.take(i as int), sep) == char_views(parts@).push(cur@),
        decreases v@.len() - i,
    {
        let c = v[i];
        let ghost prev_parts = parts@;
        let ghost prev_cur = cur@;
        assert(v@.take(i + 1).drop_last() =~= v@.take(i as int));
        if c == sep {
            parts.push(cur);
            cur = Vec::new();
            assert(char_views(parts@) =~= char_views(prev_parts).push(prev_cur));
        } else {
            cur.push(c);
        }
        i += 1;
        assert(split_on(v@.take(i as int), sep) =~= char_views(parts@).push(cur@));
    }
    parts.push(cur);
    assert(v@.take(v@.len() as int) =~= v@);
    assert(char_views(parts@) =~= split_on(v@, sep));
    parts
}


/// Appends the characters of `w` to `v`.
pub fn extend_chars(v: &mut Vec<char>, w: &Vec<char>)
    ensures
        final(v)@ == old(v)@ + w@,
{
    let mut i: usize = 0;
    while i < w.len()
        invariant
            i <= w@.len(),
            v@ == old(v)@ + w@.take(i as int),
        decreases w@.len() - i,
    {
        v.push(w[i]);
        i += 1;
        assert(v@ =~= old(v)@ + w@.take(i as int));
    }
    assert(w@.take(w@.len() as int) =~= w@);
}

/// The pieces joined with `sep` between consecutive pieces.
pub fn join_chars(parts: &Vec<Vec<char>>, sep: &Vec<char>) -> (r: Vec<char>)
    ensures
        r@ == join_with(char_views(parts@), sep@),
{
    let mut r: Vec<char> = Vec::new();
    let mut i: usize = 0;
    while i < parts.len()
        invariant
            i <= parts@.len(),
            r@ == join_with(char_views(parts@.take(i as int)), sep@),
        decreases parts@.len() - i,
    {
        let ghost prev = r@;
        if i > 0 {
            extend_chars(&mut r, sep);
        }
        extend_chars(&mut r, &parts[i]);
        assert(char_views(parts@.take(i + 1)).drop_last() =~= char_views(parts@.take(i as int)));
        i += 1;
        assert(r@ =~= join_with(char_views(parts@.take(i as int)), sep@));
    }
    assert(parts@.take(parts@.len() as int) =~= parts@);
    r
}


/// Whether `s` begins with `p`.
pub open spec fn has_prefix(s: Seq<char>, p: Seq<char>) -> bool {
    p.len() <= s.len() && s.take(p.len() as int) == p
}

/// Whether `s` ends with `p`.
pub open spec fn has_suffix(s: Seq<char>, p: Seq<char>) -> bool {
    p.len() <= s.len() && s.skip(s.len() - p.len()) == p
}

/// `s` without `p` in front, if it starts with `p` (`str::strip_prefix`).
pub open spec fn strip_prefix_spec(s: Seq<char>, p: Seq<char>) -> Option<Seq<char>> {
    if has_prefix(s, p) {
        Some(s.skip(p.len() as int))
    } else {
        None
    }
}

/// `s` without `p` at its end, if it ends with `p` (`str::strip_suffix`).
pub open spec fn strip_suffix_spec(s: Seq<char>, p: Seq<char>) -> Option<Seq<char>> {
    if has_suffix(s, p) {
        Some(s.take(s.len() - p.len()))
    } else {
        None
    }
}

/// `s` with every trailing `c` removed (`str::trim_end_matches` with a character).
pub open spec fn trim_end_char(s: Seq<char>, c: char) -> Seq<char>
    decreases s.len(),
{
    if s.len() > 0 && s.last() == c {
        trim_end_char(s.drop_last(), c)
    } else {
        s
    }
}

/// `s` with every leading `c` removed (`str::trim_start_matches` with a character).
pub open spec fn trim_start_char(s: Seq<char>, c: char) -> Seq<char>
    decreases s.len(),
{
    if s.len() > 0 && s[0] == c {
        trim_start_char(s.drop_first(), c)
    } else {
        s
    }
}

/// `s` with every trailing copy of a non-empty `p` removed (`str::trim_end_matches` with a
/// string).
pub open spec fn trim_end_text(s: Seq<char>, p: Seq<char>) -> Seq<char>
    decreases s.len(),
{
    if p.len() > 0 && has_suffix(s, p) {
        trim_end_text(s.take(s.len() - p.len()), p)
    } else {
        s
    }
}

/// Index of the first `c` in `s`, or -1.
pub open spec fn first_index(s: Seq<char>, c: char) -> int
    decreases s.len(),
{
    if s.len() == 0 {
        -1
    } else if s[0] == c {
        0
    } else {
        let r = first_index(s.drop_first(), c);
        if r < 0 {
            -1
        } else {
            r + 1
        }
    }
}

/// Index of the last `c` in `s`, or -1.
pub open spec fn last_index(s: Seq<char>, c: char) -> int
    decreases s.len(),
{
    if s.len() == 0 {
        -1
    } else if s.last() == c {
        s.len() - 1
    } else {
        last_index(s.drop_last(), c)
    }
}

/// The parts before and after the first `c` (`str::split_once` with a character).
pub open spec fn split_once_spec(s: Seq<char>, c: char) -> Option<(Seq<char>, Seq<char>)> {
    let i = first_index(s, c);
    if i < 0 {
        None
    } else {
        Some((s.take(i), s.skip(i + 1)))
    }
}

/// The parts before and after the last `c` (`str::rsplit_once` with a character).
pub open spec fn rsplit_once_spec(s: Seq<char>, c: char) -> Option<(Seq<char>, Seq<char>)> {
    let i = last_index(s, c);
    if i < 0 {
        None
    } else {
        Some((s.take(i), s.skip(i + 1)))
    }
}

/// ASCII upper-case letters mapped to lower case, other characters unchanged
/// (`str::to_ascii_lowercase`).
pub open spec fn ascii_lower(s: Seq<char>) -> Seq<char> {
    s.map_values(|c: char| lower_char(c))
}

/// One character of `ascii_lower`.
pub open spec fn lower_char(c: char) -> char {
    if 'A' <= c && c <= 'Z' {
        ((c as u32) + 32) as char
    } else {
        c
    }
}

pub(crate) proof fn lemma_first_index_bounds(s: Seq<char>, c: char)
    ensures
        -1 <= first_index(s, c) < s.len(),
        first_index(s, c) >= 0 ==> s[first_index(s, c)] == c,
        forall|j: int| 0 <= j < s.len() && (first_index(s, c) < 0 || j < first_index(s, c)) ==> s[j]
            != c,
    decreases s.len(),
{
    if s.len() > 0 && s[0] != c {
        lemma_first_index_bounds(s.drop_first(), c);
        assert forall|j: int|
            0 <= j < s.len() && (first_index(s, c) < 0 || j < first_index(s, c)) implies s[j]
            != c by {
            if j > 0 {
                assert(s.drop_first()[j - 1] == s[j]);
            }
        }
    }
}

/// `last_index` is -1 or the position of the last `c`, after which no `c` follows.
pub proof fn lemma_last_index_bounds(s: Seq<char>, c: char)
    ensures
        -1 <= last_index(s, c) < s.len(),
        last_index(s, c) >= 0 ==> s[last_index(s, c)] == c,
        forall|j: int| last_index(s, c) < j < s.len() ==> s[j] != c,
    decreases s.len(),
{
    if s.len() > 0 && s.last() != c {
        lemma_last_index_bounds(s.drop_last(), c);
        assert forall|j: int| last_index(s, c) < j < s.len() implies s[j] != c by {
            if j < s.len() - 1 {
                assert(s.drop_last()[j] == s[j]);
            }
        }
    }
}

/// Position of the first `c` in `v`, if any.
pub fn find_char(v: &Vec<char>, c: char) -> (r: Option<usize>)
    ensures
        match r {
            Some(i) => i == first_index(v@, c) && i < v@.len() && v@[i as int] == c,
            None => first_index(v@, c) < 0,
        },
{
    proof {
        lemma_first_index_bounds(v@, c);
    }
    let mut i: usize = 0;
    while i < v.len()
        invariant
            i <= v@.len(),
            forall|j: int| 0 <= j < i ==> v@[j] != c,
        decreases v@.len() - i,
    {
        if v[i] == c {
            proof {
                lemma_first_index_bounds(v@, c);
                if first_index(v@, c) != i {
                    assert(v@[first_index(v@, c)] == c);
                }
            }
            return Some(i);
        }
        i += 1;
    }
    proof {
        if first_index(v@, c) >= 0 {
            assert(v@[first_index(v@, c)] == c);
        }
    }
    None
}

/// Position of the last `c` in `v`, if any.
pub fn rfind_char(v: &Vec<char>, c: char) -> (r: Option<usize>)
    ensures
        match r {
            Some(i) => i == last_index(v@, c) && i < v@.len() && v@[i as int] == c,
            None => last_index(v@, c) < 0,
        },
{
    proof {
        lemma_last_index_bounds(v@, c);
    }
    let mut i: usize = v.len();
    while i > 0
        invariant
            i <= v@.len(),
            forall|j: int| i <= j < v@.len() ==> v@[j] != c,
        decreases i,
    {
        if v[i - 1] == c {
            proof {
                lemma_last_index_bounds(v@, c);
                if last_index(v@, c) != i - 1 {
                    assert(v@[last_index(v@, c)] == c);
                }
            }
            return Some(i - 1);
        }
        i -= 1;
    }
    proof {
        if last_index(v@, c) >= 0 {
            assert(v@[last_index(v@, c)] == c);
        }
    }
    None
}

/// A copy of `v[lo..hi]`.
pub fn slice_chars(v: &Vec<char>, lo: usize, hi: usize) -> (r: Vec<char>)
    requires
        lo <= hi <= v@.len(),
    ensures
        r@ == v@.subrange(lo as int, hi as int),
{
    let mut r: Vec<char> = Vec::new();
    let mut i = lo;
    while i < hi
        invariant
            lo <= i <= hi,
            hi <= v@.len(),
            r@ == v@.subrange(lo as int, i as int),
        decreases hi - i,
    {
        r.push(v[i]);
        i += 1;
        assert(r@ =~= v@.subrange(lo as int, i as int));
    }
    r
}

/// Whether `v` begins with `p`.
pub fn chars_have_prefix(v: &Vec<char>, p: &Vec<char>) -> (b: bool)
    ensures
        b == has_prefix(v@, p@),
{
    if p.len() > v.len() {
        return false;
    }
    let mut i: usize = 0;
    while i < p.len()
        invariant
            i <= p@.len() <= v@.len(),
            forall|j: int| 0 <= j < i ==> v@[j] == p@[j],
        decreases p@.len() - i,
    {
        if v[i] != p[i] {
            assert(v@.take(p@.len() as int)[i as int] != p@[i as int]);
            return false;
        }
        i += 1;
    }
    assert(v@.take(p@.len() as int) =~= p@);
    true
}

/// Whether `v` ends with `p`.
pub fn chars_have_suffix(v: &Vec<char>, p: &Vec<char>) -> (b: bool)
    ensures
        b == has_suffix(v@, p@),
{
    if p.len() > v.len() {
        return false;
    }
    let n = v.len();
    let off = n - p.len();
    let mut i: usize = 0;
    while i < p.len()
        invariant
            i <= p@.len() <= v@.len(),
            off + p@.len() == v@.len(),
            n == v@.len(),
            forall|j: int| 0 <= j < i ==> v@[off + j] == p@[j],
        decreases p@.len() - i,
    {
        if v[off + i] != p[i] {
            assert(v@.skip(off as int)[i as int] != p@[i as int]);
            return false;
        }
        i += 1;
    }
    assert(v@.skip(off as int) =~= p@);
    true
}

/// `v` without `p` in front, if it starts with `p`.
pub fn strip_prefix_chars(v: &Vec<char>, p: &Vec<char>) -> (r: Option<Vec<char>>)
    ensures
        match (r, strip_prefix_spec(v@, p@)) {
            (Some(x), Some(y)) => x@ == y,
            (None, None) => true,
            _ => false,
        },
{
    if chars_have_prefix(v, p) {
        Some(slice_chars(v, p.len(), v.len()))
    } else {
        None
    }
}

/// `v` without `p` at its end, if it ends with `p`.
pub fn strip_suffix_chars(v: &Vec<char>, p: &Vec<char>) -> (r: Option<Vec<char>>)
    ensures
        match (r, strip_suffix_spec(v@, p@)) {
            (Some(x), Some(y)) => x@ == y,
            (None, None) => true,
            _ => false,
        },
{
    if chars_have_suffix(v, p) {
        Some(slice_chars(v, 0, v.len() - p.len()))
    } else {
        None
    }
}

/// `v` with every trailing `c` removed.
pub fn trim_end_char_chars(v: &Vec<char>, c: char) -> (r: Vec<char>)
    ensures
        r@ == trim_end_char(v@, c),
{
    let mut n = v.len();
    assert(v@.take(n as int) =~= v@);
    while n > 0 && v[n - 1] == c
        invariant
            n <= v@.len(),
            trim_end_char(v@, c) == trim_end_char(v@.take(n as int), c),
        decreases n,
    {
        assert(v@.take(n as int).drop_last() =~= v@.take(n - 1));
        n -= 1;
    }
    slice_chars(v, 0, n)
}

/// `v` with every leading `c` removed.
pub fn trim_start_char_chars(v: &Vec<char>, c: char) -> (r: Vec<char>)
    ensures
        r@ == trim_start_char(v@, c),
{
    let mut a: usize = 0;
    assert(v@.skip(0) =~= v@);
    while a < v.len() && v[a] == c
        invariant
            a <= v@.len(),
            trim_start_char(v@, c) == trim_start_char(v@.skip(a as int), c),
        decreases v@.len() - a,
    {
        assert(v@.skip(a as int).drop_first() =~= v@.skip(a + 1));
        a += 1;
    }
    slice_chars(v, a, v.len())
}

/// `v` with every trailing copy of `p` removed (nothing when `p` is empty).
pub fn trim_end_text_chars(v: &Vec<char>, p: &Vec<char>) -> (r: Vec<char>)
    ensures
        r@ == trim_end_text(v@, p@),
{
    let mut cur = slice_chars(v, 0, v.len());
    assert(v@.subrange(0, v@.len() as int) =~= v@);
    if p.len() == 0 {
        return cur;
    }
    while chars_have_suffix(&cur, p)
        invariant
            p@.len() > 0,
            trim_end_text(v@, p@) == trim_end_text(cur@, p@),
        decreases cur@.len(),
    {
        cur = slice_chars(&cur, 0, cur.len() - p.len());
    }
    cur
}

/// Whether `v` holds exactly the characters `p`.
pub fn chars_equal(v: &Vec<char>, p: &Vec<char>) -> (b: bool)
    ensures
        b == (v@ == p@),
{
    if v.len() != p.len() {
        return false;
    }
    let r = chars_have_prefix(v, p);
    assert(v@.take(p@.len() as int) =~= v@);
    r
}

/// `v` with ASCII upper-case letters lowered.
pub fn ascii_lower_chars(v: &Vec<char>) -> (r: Vec<char>)
    ensures
        r@ == ascii_lower(v@),
{
    let mut r: Vec<char> = Vec::new();
    let mut i: usize = 0;
    while i < v.len()
        invariant
            i <= v@.len(),
            r@ == ascii_lower(v@.take(i as int)),
        decreases v@.len() - i,
    {
        let c = v[i];
        let lowered = if 'A' <= c && c <= 'Z' {
            let n = (c as u8) + 32;
            n as char
        } else {
            c
        };
        assert(lowered == lower_char(c));
        r.push(lowered);
        i += 1;
        assert(r@ =~= ascii_lower(v@.take(i as int)));
    }
    assert(v@.take(v@.len() as int) =~= v@);
    r
}


/// Whether `p` occurs in `s` at position `i`.
pub open spec fn occurs_at(s: Seq<char>, p: Seq<char>, i: int) -> bool {
    0 <= i && i + p.len() <= s.len() && s.subrange(i, i + p.len()) == p
}

/// First position at or after `i` where `p` occurs in `s`, or -1.
pub open spec fn find_text_from(s: Seq<char>, p: Seq<char>, i: int) -> int
    decreases s.len() + 1 - i,
{
    if i < 0 || i + p.len() > s.len() {
        -1
    } else if occurs_at(s, p, i) {
        i
    } else {
        find_text_from(s, p, i + 1)
    }
}

/// `find_text_from` gives -1 or a position at or after `i` where `p` fits.
pub proof fn lemma_find_text_from_bounds(s: Seq<char>, p: Seq<char>, i: int)
    requires
        0 <= i,
    ensures
        find_text_from(s, p, i) == -1 || (i <= find_text_from(s, p, i) && find_text_from(s, p, i)
            + p.len() <= s.len() && occurs_at(s, p, find_text_from(s, p, i))),
    decreases s.len() + 1 - i,
{
    if i + p.len() <= s.len() && !occurs_at(s, p, i) {
        lemma_find_text_from_bounds(s, p, i + 1);
    }
}

/// Last position at or before `i` where `p` occurs in `s`, or -1.
pub open spec fn rfind_text_from(s: Seq<char>, p: Seq<char>, i: int) -> int
    decreases i + 1,
{
    if i < 0 {
        -1
    } else if occurs_at(s, p, i) {
        i
    } else {
        rfind_text_from(s, p, i - 1)
    }
}

/// The pieces of `s` between non-overlapping occurrences of a non-empty `p`, found from the
/// left (`str::split` with a string pattern).
pub open spec fn split_text(s: Seq<char>, p: Seq<char>) -> Seq<Seq<char>>
    decreases s.len(),
{
    let i = find_text_from(s, p, 0);
    if p.len() == 0 || i < 0 {
        seq![s]
    } else {
        proof {
            lemma_find_text_from_bounds(s, p, 0);
        }
        seq![s.take(i)] + split_text(s.skip(i + p.len()), p)
    }
}

/// The text after the last occurrence of `p`, or all of `s` (the first item of
/// `str::rsplit`).
pub open spec fn after_last_text(s: Seq<char>, p: Seq<char>) -> Seq<char> {
    let i = rfind_text_from(s, p, s.len() - p.len());
    if i < 0 {
        s
    } else {
        s.skip(i + p.len())
    }
}

/// `s` with every whitespace character removed (`split_whitespace` collected).
pub open spec fn without_spaces(s: Seq<char>) -> Seq<char>
    decreases s.len(),
{
    if s.len() == 0 {
        s
    } else if is_space(s.last()) {
        without_spaces(s.drop_last())
    } else {
        without_spaces(s.drop_last()).push(s.last())
    }
}

/// Whether `p` occurs in `v` at position `i`.
pub fn chars_occur_at(v: &Vec<char>, p: &Vec<char>, i: usize) -> (b: bool)
    ensures
        b == occurs_at(v@, p@, i as int),
{
    let n = v.len();
    if i > n || p.len() > n - i {
        return false;
    }
    let mut k: usize = 0;
    while k < p.len()
        invariant
            k <= p@.len(),
            n == v@.len(),
            i + p@.len() <= v@.len(),
            forall|j: int| 0 <= j < k ==> v@[i + j] == p@[j],
        decreases p@.len() - k,
    {
        if v[i + k] != p[k] {
            assert(v@.subrange(i as int, i + p@.len())[k as int] != p@[k as int]);
            return false;
        }
        k += 1;
    }
    assert(v@.subrange(i as int, i + p@.len()) =~= p@);
    true
}

/// First position at or after `from` where `p` occurs in `v`.
pub fn find_text(v: &Vec<char>, p: &Vec<char>, from: usize) -> (r: Option<usize>)
    ensures
        match r {
            Some(i) => i as int == find_text_from(v@, p@, from as int) && i >= from && i
                + p@.len() <= v@.len(),
            None => find_text_from(v@, p@, from as int) < 0,
        },
{
    let n = v.len();
    let mut i = from;
    loop
        invariant
            from <= i,
            n == v@.len(),
            find_text_from(v@, p@, from as int) == find_text_from(v@, p@, i as int),
        decreases n + 1 - i,
    {
        if i > n || p.len() > n - i {
            return None;
        }
        if chars_occur_at(v, p, i) {
            return Some(i);
        }
        if i == n {
            assert(v@.subrange(n as int, n as int) =~= p@);
            return None;
        }
        i += 1;
    }
}

/// Last position where `p` occurs in `v`.
pub fn rfind_text(v: &Vec<char>, p: &Vec<char>) -> (r: Option<usize>)
    ensures
        match r {
            Some(i) => i as int == rfind_text_from(v@, p@, v@.len() - p@.len()) && i + p@.len()
                <= v@.len(),
            None => rfind_text_from(v@, p@, v@.len() - p@.len()) < 0,
        },
{
    if p.len() > v.len() {
        return None;
    }
    let mut i = v.len() - p.len();
    loop
        invariant
            i <= v@.len() - p@.len(),
            p@.len() <= v@.len(),
            rfind_text_from(v@, p@, v@.len() - p@.len()) == rfind_text_from(v@, p@, i as int),
        decreases i,
    {
        if chars_occur_at(v, p, i) {
            return Some(i);
        }
        if i == 0 {
            assert(rfind_text_from(v@, p@, -1) == -1);
            return None;
        }
        i -= 1;
    }
}

/// The text after the last occurrence of `p`, or all of `v`.
pub fn after_last_chars(v: &Vec<char>, p: &Vec<char>) -> (r: Vec<char>)
    ensures
        r@ == after_last_text(v@, p@),
{
    let n = v.len();
    match rfind_text(v, p) {
        Some(i) => slice_chars(v, i + p.len(), n),
        None => {
            let r = slice_chars(v, 0, v.len());
            assert(v@.subrange(0, v@.len() as int) =~= v@);
            r
        },
    }
}

/// The pieces of `v` between occurrences of a non-empty `p`.
pub fn split_text_chars(v: &Vec<char>, p: &Vec<char>) -> (parts: Vec<Vec<char>>)
    ensures
        char_views(parts@) == split_text(v@, p@),
{
    let mut parts: Vec<Vec<char>> = Vec::new();
    if p.len() == 0 {
        parts.push(slice_chars(v, 0, v.len()));
        assert(v@.subrange(0, v@.len() as int) =~= v@);
        assert(char_views(parts@) =~= split_text(v@, p@));
        return parts;
    }
    let mut start: usize = 0;
    assert(v@.skip(0) =~= v@);
    loop
        invariant
            start <= v@.len(),
            p@.len() > 0,
            split_text(v@, p@) == char_views(parts@) + split_text(v@.skip(start as int), p@),
        decreases v@.len() - start,
    {
        let rest = slice_chars(v, start, v.len());
        assert(rest@ =~= v@.skip(start as int));
        match find_text(&rest, p, 0) {
            None => {
                let ghost prev = parts@;
                parts.push(rest);
                assert(char_views(parts@) =~= char_views(prev) + split_text(
                    v@.skip(start as int),
                    p@,
                ));
                return parts;
            },
            Some(i) => {
                let ghost prev = parts@;
                let piece = slice_chars(&rest, 0, i);
                parts.push(piece);
                assert(rest@.skip(i + p@.len()) =~= v@.skip(start + i + p@.len()));
                assert(rest@.take(i as int) =~= piece@);
                assert(char_views(parts@) =~= char_views(prev).push(piece@));
                assert(split_text(v@.skip(start as int), p@) =~= seq![piece@] + split_text(
                    v@.skip(start + i + p@.len()),
                    p@,
                ));
                assert(char_views(prev) + (seq![piece@] + split_text(
                    v@.skip(start + i + p@.len()),
                    p@,
                )) =~= char_views(parts@) + split_text(v@.skip(start + i + p@.len()), p@));
                start = start + i + p.len();
            },
        }
    }
}

/// `v` with every whitespace character removed.
pub fn without_spaces_chars(v: &Vec<char>) -> (r: Vec<char>)
    ensures
        r@ == without_spaces(v@),
{
    let mut r: Vec<char> = Vec::new();
    let mut i: usize = 0;
    while i < v.len()
        invariant
            i <= v@.len(),
            r@ == without_spaces(v@.take(i as int)),
        decreases v@.len() - i,
    {
        assert(v@.take(i + 1).drop_last() =~= v@.take(i as int));
        if !is_whitespace_char(v[i]) {
            r.push(v[i]);
        }
        i += 1;
    }
    assert(v@.take(v@.len() as int) =~= v@);
    r
}

} // verus!
