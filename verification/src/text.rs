//! Character sequences: the model of all text in this crate, and the
//! executable operations on `Vec<char>` that are proved against it.

use vstd::prelude::*;

verus! {

/// `String::push` appends one character to the end of the string.
pub assume_specification[ String::push ](s: &mut String, c: char)
    ensures
        final(s)@ == old(s)@.push(c),
;

/// The characters of `s`, in order.
pub fn to_chars(s: &str) -> (v: Vec<char>)
    ensures
        v@ == s@,
{
    let mut v: Vec<char> = Vec::new();
    for c in it: s.chars()
        invariant
            v@ == it.seq().take(it.index() as int),
    {
        v.push(c);
    }
    v
}

/// The string made of the characters of `v`, in order.
pub fn to_string(v: &Vec<char>) -> (s: String)
    ensures
        s@ == v@,
{
    let mut s = String::new();
    let mut i: usize = 0;
    while i < v.len()
        invariant
            i <= v.len(),
            s@ == v@.take(i as int),
        decreases v.len() - i,
    {
        s.push(v[i]);
        i += 1;
    }
    s
}

/// A copy of the characters of `v` from index `from` up to, not including, `to`.
pub fn subrange(v: &Vec<char>, from: usize, to: usize) -> (r: Vec<char>)
    requires
        from <= to <= v.len(),
    ensures
        r@ == v@.subrange(from as int, to as int),
{
    let mut r: Vec<char> = Vec::new();
    let mut i: usize = from;
    while i < to
        invariant
            from <= i <= to <= v.len(),
            r@ == v@.subrange(from as int, i as int),
        decreases to - i,
    {
        r.push(v[i]);
        i += 1;
    }
    r
}

/// Appends the characters of `tail` to `dst`.
pub fn append(dst: &mut Vec<char>, tail: &Vec<char>)
    ensures
        final(dst)@ == old(dst)@ + tail@,
{
    let mut i: usize = 0;
    while i < tail.len()
        invariant
            i <= tail.len(),
            dst@ == old(dst)@ + tail@.take(i as int),
        decreases tail.len() - i,
    {
        dst.push(tail[i]);
        i += 1;
    }
}

/// The whitespace characters of Unicode (`White_Space`).
pub open spec fn is_whitespace(c: char) -> bool {
    let u = c as u32;
    ||| 0x09 <= u <= 0x0D
    ||| u == 0x20
    ||| u == 0x85
    ||| u == 0xA0
    ||| u == 0x1680
    ||| 0x2000 <= u <= 0x200A
    ||| u == 0x2028
    ||| u == 0x2029
    ||| u == 0x202F
    ||| u == 0x205F
    ||| u == 0x3000
}

/// Whether `c` is a whitespace character.
pub fn char_is_whitespace(c: char) -> (b: bool)
    ensures
        b == is_whitespace(c),
{
    let u: u32 = c as u32;
    (0x09 <= u && u <= 0x0D) || u == 0x20 || u == 0x85 || u == 0xA0 || u == 0x1680 || (0x2000 <= u
        && u <= 0x200A) || u == 0x2028 || u == 0x2029 || u == 0x202F || u == 0x205F || u == 0x3000
}

/// How many whitespace characters `s` begins with.
pub open spec fn leading_whitespace(s: Seq<char>) -> nat
    decreases s.len(),
{
    if s.len() > 0 && is_whitespace(s[0]) {
        1 + leading_whitespace(s.skip(1))
    } else {
        0
    }
}

/// How many whitespace characters `s` ends with.
pub open spec fn trailing_whitespace(s: Seq<char>) -> nat
    decreases s.len(),
{
    if s.len() > 0 && is_whitespace(s.last()) {
        1 + trailing_whitespace(s.drop_last())
    } else {
        0
    }
}

/// `s` without its leading whitespace.
pub open spec fn trim_start(s: Seq<char>) -> Seq<char> {
    s.skip(leading_whitespace(s) as int)
}

/// `s` without its trailing whitespace.
pub open spec fn trim_end(s: Seq<char>) -> Seq<char> {
    s.take(s.len() - trailing_whitespace(s))
}

/// `s` without its leading and trailing whitespace.
pub open spec fn trim(s: Seq<char>) -> Seq<char> {
    trim_end(trim_start(s))
}

/// The count of leading whitespace is the first index that holds none.
pub proof fn lemma_leading_whitespace(s: Seq<char>, n: int)
    requires
        0 <= n <= s.len(),
        forall|j: int| 0 <= j < n ==> is_whitespace(#[trigger] s[j]),
        n < s.len() ==> !is_whitespace(s[n]),
    ensures
        leading_whitespace(s) == n,
    decreases n,
{
    if n > 0 {
        let t = s.skip(1);
        assert forall|j: int| 0 <= j < n - 1 implies is_whitespace(#[trigger] t[j]) by {
            assert(t[j] == s[j + 1]);
        }
        lemma_leading_whitespace(t, n - 1);
    }
}

/// The count of trailing whitespace ends where the last other character stands.
pub proof fn lemma_trailing_whitespace(s: Seq<char>, n: int)
    requires
        0 <= n <= s.len(),
        forall|j: int| s.len() - n <= j < s.len() ==> is_whitespace(#[trigger] s[j]),
        n < s.len() ==> !is_whitespace(s[s.len() - n - 1]),
    ensures
        trailing_whitespace(s) == n,
    decreases n,
{
    if n > 0 {
        let t = s.drop_last();
        assert forall|j: int| t.len() - (n - 1) <= j < t.len() implies is_whitespace(
            #[trigger] t[j],
        ) by {
            assert(t[j] == s[j]);
        }
        lemma_trailing_whitespace(t, n - 1);
    }
}

/// The count of leading whitespace covers whitespace only, and stops at
/// the first other character.
pub proof fn lemma_leading_whitespace_stops(s: Seq<char>)
    ensures
        leading_whitespace(s) <= s.len(),
        forall|j: int| 0 <= j < leading_whitespace(s) ==> is_whitespace(#[trigger] s[j]),
        leading_whitespace(s) < s.len() ==> !is_whitespace(s[leading_whitespace(s) as int]),
    decreases s.len(),
{
    if s.len() > 0 && is_whitespace(s[0]) {
        let t = s.skip(1);
        lemma_leading_whitespace_stops(t);
        assert forall|j: int| 0 <= j < leading_whitespace(s) implies is_whitespace(
            #[trigger] s[j],
        ) by {
            if j > 0 {
                assert(s[j] == t[j - 1]);
            }
        }
        if leading_whitespace(s) < s.len() {
            assert(s[leading_whitespace(s) as int] == t[leading_whitespace(t) as int]);
        }
    }
}

/// The count of trailing whitespace covers whitespace only, and stops at
/// the last other character.
pub proof fn lemma_trailing_whitespace_stops(s: Seq<char>)
    ensures
        trailing_whitespace(s) <= s.len(),
        forall|j: int|
            s.len() - trailing_whitespace(s) <= j < s.len() ==> is_whitespace(#[trigger] s[j]),
        trailing_whitespace(s) < s.len() ==> !is_whitespace(
            s[s.len() - trailing_whitespace(s) - 1],
        ),
    decreases s.len(),
{
    if s.len() > 0 && is_whitespace(s.last()) {
        let t = s.drop_last();
        lemma_trailing_whitespace_stops(t);
        assert forall|j: int|
            s.len() - trailing_whitespace(s) <= j < s.len() implies is_whitespace(
            #[trigger] s[j],
        ) by {
            if j < s.len() - 1 {
                assert(s[j] == t[j]);
            }
        }
        if trailing_whitespace(s) < s.len() {
            assert(s[s.len() - trailing_whitespace(s) - 1] == t[t.len() - trailing_whitespace(t)
                - 1]);
        }
    }
}

/// A trimmed text neither begins nor ends with whitespace, and trimming it
/// again changes nothing.
pub proof fn lemma_trim_is_trimmed(s: Seq<char>)
    ensures
        trim(s).len() > 0 ==> !is_whitespace(trim(s)[0]) && !is_whitespace(trim(s).last()),
        trim(trim(s)) == trim(s),
{
    let t = trim_start(s);
    let u = trim(s);
    lemma_leading_whitespace_stops(s);
    lemma_trailing_whitespace_stops(t);
    if u.len() > 0 {
        assert(u[0] == t[0]);
        assert(t[0] == s[leading_whitespace(s) as int]);
        assert(u.last() == t[t.len() - trailing_whitespace(t) - 1]);
        lemma_leading_whitespace(u, 0);
        lemma_trailing_whitespace(u, 0);
        assert(trim(u) =~= u);
    } else {
        assert(trim(u) =~= u);
    }
}

/// `v` without its leading whitespace.
pub fn trim_start_chars(v: &Vec<char>) -> (r: Vec<char>)
    ensures
        r@ == trim_start(v@),
{
    let mut i: usize = 0;
    while i < v.len() && char_is_whitespace(v[i])
        invariant
            i <= v.len(),
            forall|j: int| 0 <= j < i ==> is_whitespace(#[trigger] v@[j]),
        decreases v.len() - i,
    {
        i += 1;
    }
    proof {
        lemma_leading_whitespace(v@, i as int);
    }
    subrange(v, i, v.len())
}

/// `v` without its trailing whitespace.
pub fn trim_end_chars(v: &Vec<char>) -> (r: Vec<char>)
    ensures
        r@ == trim_end(v@),
{
    let mut i: usize = v.len();
    while i > 0 && char_is_whitespace(v[i - 1])
        invariant
            i <= v.len(),
            forall|j: int| i <= j < v.len() ==> is_whitespace(#[trigger] v@[j]),
        decreases i,
    {
        i -= 1;
    }
    proof {
        lemma_trailing_whitespace(v@, v.len() - i);
    }
    subrange(v, 0, i)
}

/// `v` without its leading and trailing whitespace.
pub fn trim_chars(v: &Vec<char>) -> (r: Vec<char>)
    ensures
        r@ == trim(v@),
{
    let t = trim_start_chars(v);
    trim_end_chars(&t)
}

/// Whether `v` begins with `prefix`.
pub fn starts_with(v: &Vec<char>, prefix: &Vec<char>) -> (b: bool)
    ensures
        b == prefix@.is_prefix_of(v@),
{
    if prefix.len() > v.len() {
        return false;
    }
    let mut i: usize = 0;
    while i < prefix.len()
        invariant
            i <= prefix.len() <= v.len(),
            forall|j: int| 0 <= j < i ==> v@[j] == prefix@[j],
        decreases prefix.len() - i,
    {
        if v[i] != prefix[i] {
            assert(v@.subrange(0, prefix@.len() as int)[i as int] != prefix@[i as int]);
            return false;
        }
        i += 1;
    }
    assert(prefix@ =~= v@.subrange(0, prefix@.len() as int));
    true
}

/// Whether `v` ends with `suffix`.
pub fn ends_with(v: &Vec<char>, suffix: &Vec<char>) -> (b: bool)
    ensures
        b == suffix@.is_suffix_of(v@),
{
    if suffix.len() > v.len() {
        return false;
    }
    let base: usize = v.len() - suffix.len();
    let mut i: usize = 0;
    while i < suffix.len()
        invariant
            i <= suffix.len() <= v.len(),
            base == v.len() - suffix.len(),
            forall|j: int| 0 <= j < i ==> v@[base + j] == suffix@[j],
        decreases suffix.len() - i,
    {
        if v[base + i] != suffix[i] {
            assert(v@.subrange(base as int, v@.len() as int)[i as int] != suffix@[i as int]);
            return false;
        }
        i += 1;
    }
    assert(suffix@ =~= v@.subrange(base as int, v@.len() as int));
    true
}

/// The first index at which `c` stands in `s`, or the length of `s` if it stands nowhere.
pub open spec fn index_of(s: Seq<char>, c: char) -> int
    decreases s.len(),
{
    if s.len() > 0 && s[0] != c {
        1 + index_of(s.skip(1), c)
    } else {
        0
    }
}

/// The last index at which `c` stands in `s`, or -1 if it stands nowhere.
pub open spec fn last_index_of(s: Seq<char>, c: char) -> int
    decreases s.len(),
{
    if s.len() > 0 && s.last() != c {
        last_index_of(s.drop_last(), c)
    } else {
        s.len() - 1
    }
}

/// The first index that holds a character is its index.
pub proof fn lemma_index_of(s: Seq<char>, c: char, n: int)
    requires
        0 <= n <= s.len(),
        forall|j: int| 0 <= j < n ==> #[trigger] s[j] != c,
        n < s.len() ==> s[n] == c,
    ensures
        index_of(s, c) == n,
    decreases n,
{
    if n > 0 {
        let t = s.skip(1);
        assert forall|j: int| 0 <= j < n - 1 implies #[trigger] t[j] != c by {
            assert(t[j] == s[j + 1]);
        }
        lemma_index_of(t, c, n - 1);
    }
}

/// The last index that holds a character is its last index.
pub proof fn lemma_last_index_of(s: Seq<char>, c: char, n: int)
    requires
        -1 <= n < s.len(),
        forall|j: int| n < j < s.len() ==> #[trigger] s[j] != c,
        0 <= n ==> s[n] == c,
    ensures
        last_index_of(s, c) == n,
    decreases s.len() - n,
{
    if n < s.len() - 1 {
        let t = s.drop_last();
        assert forall|j: int| n < j < t.len() implies #[trigger] t[j] != c by {
            assert(t[j] == s[j]);
        }
        lemma_last_index_of(t, c, n);
    }
}

/// The first index of `c` in `v` at or after `from`, or the length of `v`.
pub fn find_from(v: &Vec<char>, c: char, from: usize) -> (i: usize)
    requires
        from <= v.len(),
    ensures
        i == from + index_of(v@.skip(from as int), c),
        from <= i <= v.len(),
{
    let mut i: usize = from;
    while i < v.len() && v[i] != c
        invariant
            from <= i <= v.len(),
            forall|j: int| from <= j < i ==> #[trigger] v@[j] != c,
        decreases v.len() - i,
    {
        i += 1;
    }
    proof {
        let t = v@.skip(from as int);
        assert forall|j: int| 0 <= j < i - from implies #[trigger] t[j] != c by {
            assert(t[j] == v@[from + j]);
        }
        lemma_index_of(t, c, i - from);
    }
    i
}

/// The last index of `c` in the first `upto` characters of `v`, if there is one.
pub fn find_last(v: &Vec<char>, c: char, upto: usize) -> (r: Option<usize>)
    requires
        upto <= v.len(),
    ensures
        match r {
            Some(i) => i == last_index_of(v@.take(upto as int), c) && i < upto,
            None => last_index_of(v@.take(upto as int), c) == -1,
        },
{
    let mut i: usize = upto;
    while i > 0 && v[i - 1] != c
        invariant
            i <= upto <= v.len(),
            forall|j: int| i <= j < upto ==> #[trigger] v@[j] != c,
        decreases i,
    {
        i -= 1;
    }
    proof {
        let t = v@.take(upto as int);
        assert forall|j: int| i - 1 < j < t.len() implies #[trigger] t[j] != c by {
            assert(t[j] == v@[j]);
        }
        lemma_last_index_of(t, c, i - 1);
    }
    if i == 0 {
        None
    } else {
        Some(i - 1)
    }
}

/// Whether `pattern` stands in `s` at index `i`.
pub open spec fn occurs_at(s: Seq<char>, pattern: Seq<char>, i: int) -> bool {
    0 <= i && i + pattern.len() <= s.len() && s.subrange(i, i + pattern.len()) == pattern
}

/// Whether `pattern` stands in `v` at index `i`.
pub fn matches_at(v: &Vec<char>, pattern: &Vec<char>, i: usize) -> (b: bool)
    ensures
        b == occurs_at(v@, pattern@, i as int),
{
    if i > v.len() || pattern.len() > v.len() - i {
        return false;
    }
    let mut k: usize = 0;
    while k < pattern.len()
        invariant
            k <= pattern.len(),
            i + pattern.len() <= v.len(),
            forall|j: int| 0 <= j < k ==> v@[i + j] == pattern@[j],
        decreases pattern.len() - k,
    {
        if v[i + k] != pattern[k] {
            assert(v@.subrange(i as int, i + pattern@.len())[k as int] != pattern@[k as int]);
            return false;
        }
        k += 1;
    }
    assert(v@.subrange(i as int, i + pattern@.len()) =~= pattern@);
    true
}

/// The first index at which `pattern` stands in `v`, if it stands anywhere.
pub fn find_sub(v: &Vec<char>, pattern: &Vec<char>) -> (r: Option<usize>)
    ensures
        match r {
            Some(i) => occurs_at(v@, pattern@, i as int) && forall|j: int|
                0 <= j < i ==> !occurs_at(v@, pattern@, j),
            None => forall|j: int| !occurs_at(v@, pattern@, j),
        },
{
    let mut i: usize = 0;
    loop
        invariant
            i <= v.len(),
            forall|j: int| 0 <= j < i ==> !occurs_at(v@, pattern@, j),
        decreases v.len() - i,
    {
        if matches_at(v, pattern, i) {
            return Some(i);
        }
        if i == v.len() {
            return None;
        }
        i += 1;
    }
}

/// The last index at which `pattern` stands in `v`, if it stands anywhere.
pub fn rfind_sub(v: &Vec<char>, pattern: &Vec<char>) -> (r: Option<usize>)
    ensures
        match r {
            Some(i) => occurs_at(v@, pattern@, i as int) && forall|j: int|
                i < j ==> !occurs_at(v@, pattern@, j),
            None => forall|j: int| !occurs_at(v@, pattern@, j),
        },
{
    let mut i: usize = v.len();
    loop
        invariant
            i <= v.len(),
            forall|j: int| i < j ==> !occurs_at(v@, pattern@, j),
        decreases i,
    {
        if matches_at(v, pattern, i) {
            return Some(i);
        }
        if i == 0 {
            return None;
        }
        i -= 1;
    }
}

/// `s` with `with` before each of its characters and at its end.
pub open spec fn interleaved(s: Seq<char>, with: Seq<char>) -> Seq<char>
    decreases s.len(),
{
    if s.len() == 0 {
        with
    } else {
        with + seq![s[0]] + interleaved(s.skip(1), with)
    }
}

/// `s` with `with` in place of each occurrence of `pattern`, the
/// occurrences taken from left to right, none overlapping another. The
/// empty pattern occurs before each character and at the end.
pub open spec fn replaced(s: Seq<char>, pattern: Seq<char>, with: Seq<char>) -> Seq<char>
    decreases s.len(),
{
    if pattern.len() == 0 {
        interleaved(s, with)
    } else if s.len() < pattern.len() {
        s
    } else if pattern.is_prefix_of(s) {
        with + replaced(s.skip(pattern.len() as int), pattern, with)
    } else {
        seq![s[0]] + replaced(s.skip(1), pattern, with)
    }
}

/// `v` with `with` before each of its characters and at its end.
fn interleave(v: &Vec<char>, with: &Vec<char>) -> (r: Vec<char>)
    ensures
        r@ == interleaved(v@, with@),
{
    let mut r: Vec<char> = Vec::new();
    let mut i: usize = 0;
    proof {
        assert(v@.skip(0) =~= v@);
        assert(r@ + interleaved(v@, with@) =~= interleaved(v@, with@));
    }
    while i < v.len()
        invariant
            i <= v.len(),
            r@ + interleaved(v@.skip(i as int), with@) == interleaved(v@, with@),
        decreases v.len() - i,
    {
        let ghost before = r@;
        let ghost rest = v@.skip(i as int);
        append(&mut r, with);
        r.push(v[i]);
        proof {
            assert(rest.skip(1) =~= v@.skip(i + 1));
            assert(r@ + interleaved(v@.skip(i + 1), with@) =~= before + interleaved(rest, with@));
        }
        i += 1;
    }
    let ghost before = r@;
    append(&mut r, with);
    proof {
        assert(v@.skip(i as int) =~= Seq::<char>::empty());
        assert(r@ =~= before + interleaved(v@.skip(i as int), with@));
    }
    r
}

/// `v` with `with` in place of each occurrence of `pattern`.
pub fn replace_all(v: &Vec<char>, pattern: &Vec<char>, with: &Vec<char>) -> (r: Vec<char>)
    ensures
        r@ == replaced(v@, pattern@, with@),
{
    if pattern.len() == 0 {
        return interleave(v, with);
    }
    let mut r: Vec<char> = Vec::new();
    let mut i: usize = 0;
    proof {
        assert(v@.skip(0) =~= v@);
        assert(r@ + replaced(v@, pattern@, with@) =~= replaced(v@, pattern@, with@));
    }
    while i < v.len()
        invariant
            i <= v.len(),
            pattern.len() > 0,
            r@ + replaced(v@.skip(i as int), pattern@, with@) == replaced(v@, pattern@, with@),
        decreases v.len() - i,
    {
        let ghost rest = v@.skip(i as int);
        let ghost before = r@;
        if v.len() - i < pattern.len() {
            let tail = subrange(v, i, v.len());
            append(&mut r, &tail);
            proof {
                assert(tail@ =~= rest);
                assert(v@.skip(v@.len() as int) =~= Seq::<char>::empty());
                assert(r@ + replaced(v@.skip(v@.len() as int), pattern@, with@) =~= before
                    + replaced(rest, pattern@, with@));
            }
            i = v.len();
        } else if matches_at(v, pattern, i) {
            append(&mut r, with);
            proof {
                assert(rest.subrange(0, pattern@.len() as int) =~= v@.subrange(
                    i as int,
                    i + pattern@.len(),
                ));
                assert(rest.skip(pattern@.len() as int) =~= v@.skip(i + pattern@.len()));
                assert(r@ + replaced(v@.skip(i + pattern@.len()), pattern@, with@) =~= before
                    + replaced(rest, pattern@, with@));
            }
            i += pattern.len();
        } else {
            r.push(v[i]);
            proof {
                assert(rest.subrange(0, pattern@.len() as int) =~= v@.subrange(
                    i as int,
                    i + pattern@.len(),
                ));
                assert(rest.skip(1) =~= v@.skip(i + 1));
                assert(r@ + replaced(v@.skip(i + 1), pattern@, with@) =~= before + replaced(
                    rest,
                    pattern@,
                    with@,
                ));
            }
            i += 1;
        }
    }
    proof {
        assert(v@.skip(i as int) =~= Seq::<char>::empty());
        assert(r@ + replaced(v@.skip(i as int), pattern@, with@) =~= r@);
    }
    r
}

/// How often `c` stands in `s`.
pub open spec fn occurrences(s: Seq<char>, c: char) -> nat
    decreases s.len(),
{
    if s.len() == 0 {
        0
    } else {
        occurrences(s.drop_last(), c) + if s.last() == c {
            1nat
        } else {
            0nat
        }
    }
}

/// How often `c` stands in `v` from index `from` up to, not including, `to`.
pub fn count_char(v: &Vec<char>, c: char, from: usize, to: usize) -> (n: usize)
    requires
        from <= to <= v.len(),
    ensures
        n == occurrences(v@.subrange(from as int, to as int), c),
        n <= to - from,
{
    let mut n: usize = 0;
    let mut i: usize = from;
    proof {
        assert(v@.subrange(from as int, from as int) =~= Seq::<char>::empty());
    }
    while i < to
        invariant
            from <= i <= to <= v.len(),
            n == occurrences(v@.subrange(from as int, i as int), c),
            n <= i - from,
        decreases to - i,
    {
        proof {
            assert(v@.subrange(from as int, i + 1).drop_last() =~= v@.subrange(
                from as int,
                i as int,
            ));
        }
        if v[i] == c {
            n += 1;
        }
        i += 1;
    }
    n
}

/// `s` without one carriage return at its end, if it ends with one.
pub open spec fn strip_cr(s: Seq<char>) -> Seq<char> {
    if s.len() > 0 && s.last() == '\r' {
        s.drop_last()
    } else {
        s
    }
}

/// The lines of `s`. A line ends at a line feed, or at a carriage return that
/// a line feed follows; neither belongs to the line. What stands after the
/// last line feed is a line too, unless it is empty.
pub open spec fn lines(s: Seq<char>) -> Seq<Seq<char>>
    decreases s.len(),
{
    let i = index_of(s, '\n');
    if s.len() == 0 {
        seq![]
    } else if 0 <= i < s.len() {
        seq![strip_cr(s.take(i))] + lines(s.skip(i + 1))
    } else {
        seq![s]
    }
}

/// The character sequences that the vectors of `rows` hold.
pub open spec fn rows(v: Seq<Vec<char>>) -> Seq<Seq<char>> {
    Seq::new(v.len(), |i: int| v[i]@)
}

/// No text has more lines than characters.
pub proof fn lemma_lines_len(s: Seq<char>)
    ensures
        lines(s).len() <= s.len(),
    decreases s.len(),
{
    let i = index_of(s, '\n');
    if s.len() > 0 && 0 <= i < s.len() {
        lemma_lines_len(s.skip(i + 1));
    }
}

/// The lines of `v`.
pub fn split_lines(v: &Vec<char>) -> (r: Vec<Vec<char>>)
    ensures
        rows(r@) == lines(v@),
{
    let mut r: Vec<Vec<char>> = Vec::new();
    let mut pos: usize = 0;
    proof {
        assert(v@.skip(0) =~= v@);
        assert(rows(r@) + lines(v@) =~= lines(v@));
    }
    while pos < v.len()
        invariant
            pos <= v.len(),
            rows(r@) + lines(v@.skip(pos as int)) == lines(v@),
        decreases v.len() - pos,
    {
        let end = find_from(v, '\n', pos);
        let ghost rest = v@.skip(pos as int);
        let ghost before = rows(r@);
        if end < v.len() {
            let mut stop: usize = end;
            if stop > pos && v[stop - 1] == '\r' {
                stop -= 1;
            }
            let line = subrange(v, pos, stop);
            proof {
                assert(rest.take(end - pos) =~= v@.subrange(pos as int, end as int));
                assert(line@ =~= strip_cr(rest.take(end - pos)));
                assert(rest.skip(end - pos + 1) =~= v@.skip(end + 1));
            }
            r.push(line);
            pos = end + 1;
            proof {
                assert(rows(r@) =~= before + seq![line@]);
                assert(lines(rest) == seq![line@] + lines(v@.skip(pos as int)));
                assert(rows(r@) + lines(v@.skip(pos as int)) =~= before + lines(rest));
            }
        } else {
            let line = subrange(v, pos, end);
            proof {
                assert(line@ =~= rest);
                assert(lines(rest) == seq![rest]);
            }
            r.push(line);
            pos = end;
            proof {
                assert(rows(r@) =~= before + seq![line@]);
                assert(lines(v@.skip(pos as int)) =~= Seq::<Seq<char>>::empty());
                assert(rows(r@) + lines(v@.skip(pos as int)) =~= before + lines(rest));
            }
        }
    }
    proof {
        assert(lines(v@.skip(pos as int)) =~= Seq::<Seq<char>>::empty());
        assert(rows(r@) + lines(v@.skip(pos as int)) =~= rows(r@));
    }
    r
}

} // verus!
