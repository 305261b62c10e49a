//! Character-level helpers: white space, trimming and searching.
//!
//! Every executable function here works on a window `[from, to)` of a
//! character vector and is specified against a function on `Seq<char>`.

use vstd::prelude::*;
use vstd::string::StrSliceExecFns;

verus! {

/// White space: the code points that Unicode classes as `White_Space`.
pub open spec fn is_space(c: char) -> bool {
    let n = c as u32;
    ||| 0x09 <= n <= 0x0D
    ||| n == 0x20
    ||| n == 0x85
    ||| n == 0xA0
    ||| n == 0x1680
    ||| 0x2000 <= n <= 0x200A
    ||| n == 0x2028
    ||| n == 0x2029
    ||| n == 0x202F
    ||| n == 0x205F
    ||| n == 0x3000
}

/// Number of white-space characters at the front of `s`.
pub open spec fn leading_spaces(s: Seq<char>) -> nat
    decreases s.len(),
{
    if s.len() > 0 && is_space(s[0]) {
        1 + leading_spaces(s.drop_first())
    } else {
        0
    }
}

/// Number of white-space characters at the back of `s`.
pub open spec fn trailing_spaces(s: Seq<char>) -> nat
    decreases s.len(),
{
    if s.len() > 0 && is_space(s.last()) {
        1 + trailing_spaces(s.drop_last())
    } else {
        0
    }
}

/// `s` without its leading white space.
pub open spec fn trim_start(s: Seq<char>) -> Seq<char> {
    s.skip(leading_spaces(s) as int)
}

/// `s` without its trailing white space.
pub open spec fn trim_end(s: Seq<char>) -> Seq<char> {
    s.take(s.len() - trailing_spaces(s))
}

/// `s` without leading and trailing white space.
pub open spec fn trim(s: Seq<char>) -> Seq<char> {
    trim_end(trim_start(s))
}

/// Index of the first occurrence of `c` in `s`, or `s.len()` if there is none.
pub open spec fn find(s: Seq<char>, c: char) -> nat
    decreases s.len(),
{
    if s.len() > 0 && s[0] != c {
        1 + find(s.drop_first(), c)
    } else {
        0
    }
}

/// `leading_spaces(s)` is the one index `n` with only white space before it
/// and none at it.
pub proof fn lemma_leading_is(s: Seq<char>, n: int)
    requires
        0 <= n <= s.len(),
        forall|j: int| 0 <= j < n ==> is_space(#[trigger] s[j]),
        n < s.len() ==> !is_space(s[n]),
    ensures
        leading_spaces(s) == n,
    decreases n,
{
    if n > 0 {
        let t = s.drop_first();
        assert(is_space(s[0]));
        assert forall|j: int| 0 <= j < n - 1 implies is_space(#[trigger] t[j]) by {
            assert(t[j] == s[j + 1]);
        }
        lemma_leading_is(t, n - 1);
    }
}

/// `trailing_spaces(s)` is the one count `n` with only white space in the
/// last `n` places and none just before them.
pub proof fn lemma_trailing_is(s: Seq<char>, n: int)
    requires
        0 <= n <= s.len(),
        forall|j: int| s.len() - n <= j < s.len() ==> is_space(#[trigger] s[j]),
        n < s.len() ==> !is_space(s[s.len() - n - 1]),
    ensures
        trailing_spaces(s) == n,
    decreases n,
{
    if n > 0 {
        let t = s.drop_last();
        assert(is_space(s.last()));
        assert forall|j: int| t.len() - (n - 1) <= j < t.len() implies is_space(
            #[trigger] t[j],
        ) by {
            assert(t[j] == s[j]);
        }
        lemma_trailing_is(t, n - 1);
    }
}

/// `find(s, c)` is the one index `n` with no `c` before it and `c` at it,
/// or the length where `c` does not occur.
pub proof fn lemma_find_is(s: Seq<char>, c: char, n: int)
    requires
        0 <= n <= s.len(),
        forall|j: int| 0 <= j < n ==> #[trigger] s[j] != c,
        n < s.len() ==> s[n] == c,
    ensures
        find(s, c) == n,
    decreases n,
{
    if n > 0 {
        let t = s.drop_first();
        assert(s[0] != c);
        assert forall|j: int| 0 <= j < n - 1 implies #[trigger] t[j] != c by {
            assert(t[j] == s[j + 1]);
        }
        lemma_find_is(t, c, n - 1);
    }
}

/// What `find` returns: an index within bounds, with no `c` before it, and `c`
/// at it unless it is the length.
pub proof fn lemma_find_props(s: Seq<char>, c: char)
    ensures
        find(s, c) <= s.len(),
        forall|j: int| 0 <= j < find(s, c) ==> #[trigger] s[j] != c,
        find(s, c) < s.len() ==> s[find(s, c) as int] == c,
        find(s, c) == s.len() <==> !s.contains(c),
    decreases s.len(),
{
    if s.len() > 0 && s[0] != c {
        let t = s.drop_first();
        lemma_find_props(t, c);
        assert forall|j: int| 0 <= j < find(s, c) implies #[trigger] s[j] != c by {
            if j > 0 {
                assert(t[j - 1] == s[j]);
            }
        }
        if find(t, c) < t.len() {
            assert(t[find(t, c) as int] == s[find(t, c) as int + 1]);
        }
    }
    if find(s, c) < s.len() {
        assert(s.contains(c));
    } else {
        assert forall|j: int| 0 <= j < s.len() implies s[j] != c by {}
    }
}

/// A trimmed sequence neither starts nor ends with white space.
pub proof fn lemma_trim_props(s: Seq<char>)
    ensures
        trim(s).len() <= s.len(),
        trim(s).len() > 0 ==> !is_space(trim(s)[0]) && !is_space(trim(s).last()),
        trim(trim(s)) == trim(s),
{
    let a = trim_start(s);
    lemma_leading_spaces_first(s);
    lemma_trailing_spaces_last(a);
    let t = trim(s);
    if t.len() > 0 {
        assert(t[0] == a[0]);
        assert(!is_space(a[0]));
        assert(t.last() == a[t.len() - 1]);
        lemma_leading_is(t, 0);
        lemma_trailing_is(t, 0);
        assert(trim_start(t) =~= t);
        assert(trim_end(t) =~= t);
    } else {
        assert(leading_spaces(t) == 0);
        assert(trim_start(t) =~= t);
        assert(trailing_spaces(t) == 0);
        assert(trim_end(t) =~= t);
    }
}

/// The character at `leading_spaces(s)`, where there is one, is no white space.
pub proof fn lemma_leading_spaces_first(s: Seq<char>)
    ensures
        leading_spaces(s) <= s.len(),
        leading_spaces(s) < s.len() ==> !is_space(s[leading_spaces(s) as int]),
        forall|j: int| 0 <= j < leading_spaces(s) ==> is_space(#[trigger] s[j]),
    decreases s.len(),
{
    if s.len() > 0 && is_space(s[0]) {
        let t = s.drop_first();
        lemma_leading_spaces_first(t);
        if leading_spaces(t) < t.len() {
            assert(t[leading_spaces(t) as int] == s[leading_spaces(t) as int + 1]);
        }
        assert forall|j: int| 0 <= j < leading_spaces(s) implies is_space(#[trigger] s[j]) by {
            if j > 0 {
                assert(t[j - 1] == s[j]);
            }
        }
    }
}

/// The character just before the trailing white space, where there is one,
/// is no white space.
pub proof fn lemma_trailing_spaces_last(s: Seq<char>)
    ensures
        trailing_spaces(s) <= s.len(),
        trailing_spaces(s) < s.len() ==> !is_space(s[s.len() - trailing_spaces(s) - 1]),
        forall|j: int| s.len() - trailing_spaces(s) <= j < s.len() ==> is_space(#[trigger] s[j]),
    decreases s.len(),
{
    if s.len() > 0 && is_space(s.last()) {
        let t = s.drop_last();
        lemma_trailing_spaces_last(t);
        if trailing_spaces(t) < t.len() {
            assert(t[t.len() - trailing_spaces(t) - 1] == s[s.len() - trailing_spaces(s) - 1]);
        }
        assert forall|j: int| s.len() - trailing_spaces(s) <= j < s.len() implies is_space(
            #[trigger] s[j],
        ) by {
            if j < s.len() - 1 {
                assert(t[j] == s[j]);
            }
        }
    }
}

/// Decides `is_space`.
pub fn is_whitespace(c: char) -> (r: bool)
    ensures
        r == is_space(c),
{
    let n: u32 = c as u32;
    (0x09 <= n && n <= 0x0D) || n == 0x20 || n == 0x85 || n == 0xA0 || n == 0x1680 || (0x2000 <= n
        && n <= 0x200A) || n == 0x2028 || n == 0x2029 || n == 0x202F || n == 0x205F || n == 0x3000
}

/// The characters of `s`, in order.
pub fn to_chars(s: &str) -> (v: Vec<char>)
    ensures
        v@ == s@,
{
    let mut v: Vec<char> = Vec::new();
    for c in it: s.chars()
        invariant
            v@ == it.seq().take(it.index() as int),
            it.seq() == s@,
    {
        v.push(c);
    }
    v
}

/// Trims the window `[from, to)` of `v`: returns the bounds of what is left.
pub fn trim_range(v: &Vec<char>, from: usize, to: usize) -> (r: (usize, usize))
    requires
        from <= to <= v.len(),
    ensures
        from <= r.0 <= r.1 <= to,
        v@.subrange(r.0 as int, r.1 as int) == trim(v@.subrange(from as int, to as int)),
{
    let ghost w = v@.subrange(from as int, to as int);
    let mut a: usize = from;
    while a < to && is_whitespace(v[a])
        invariant
            from <= a <= to <= v.len(),
            w == v@.subrange(from as int, to as int),
            forall|j: int| 0 <= j < a - from ==> is_space(#[trigger] w[j]),
        decreases to - a,
    {
        a += 1;
    }
    let ghost front = w.skip(a - from);
    let mut b: usize = to;
    while b > a && is_whitespace(v[b - 1])
        invariant
            from <= a <= b <= to <= v.len(),
            w == v@.subrange(from as int, to as int),
            front == w.skip(a - from),
            forall|j: int| b - a <= j < to - a ==> is_space(#[trigger] front[j]),
        decreases b - a,
    {
        b -= 1;
    }
    proof {
        lemma_leading_is(w, a - from);
        assert(trim_start(w) == front);
        lemma_trailing_is(front, to - b);
        assert(v@.subrange(a as int, b as int) =~= front.take(front.len() - (to - b)));
    }
    (a, b)
}

/// Finds `c` in the window `[from, to)` of `v`: the index of its first
/// occurrence there, or `to`.
pub fn find_char(v: &Vec<char>, from: usize, to: usize, c: char) -> (r: usize)
    requires
        from <= to <= v.len(),
    ensures
        from <= r <= to,
        r - from == find(v@.subrange(from as int, to as int), c),
{
    let ghost w = v@.subrange(from as int, to as int);
    let mut i: usize = from;
    while i < to && v[i] != c
        invariant
            from <= i <= to <= v.len(),
            w == v@.subrange(from as int, to as int),
            forall|j: int| 0 <= j < i - from ==> #[trigger] w[j] != c,
        decreases to - i,
    {
        i += 1;
    }
    proof {
        lemma_find_is(w, c, i - from);
    }
    i
}

/// Whether `text` opens with `c`.
pub fn starts_with(text: &String, c: char) -> (r: bool)
    ensures
        r == (text@.len() > 0 && text@[0] == c),
{
    let s: &str = text.as_str();
    !s.is_empty() && s.get_char(0) == c
}

/// The lines of `v`, each as its characters.
pub open spec fn texts(v: Seq<String>) -> Seq<Seq<char>> {
    Seq::new(v.len(), |i: int| v[i]@)
}

} // verus!
