//! Character-level text handling shared by the parsers of this crate.
//!
//! Strings are read as sequences of `char`; the spec functions below state what
//! the corresponding operations of `str` compute (`lines`, `trim`,
//! `split_whitespace`, integer parsing and printing), and the executable
//! functions are proved against them.
use vstd::multiset::Multiset;
use vstd::prelude::*;

verus! {

/// `String::push` appends one character.
pub assume_specification[ String::push ](s: &mut String, ch: char)
    ensures
        final(s)@ == old(s)@.push(ch),
;

// ---------------------------------------------------------------------------
// Character classes
// ---------------------------------------------------------------------------

/// `char::is_whitespace`: the Unicode `White_Space` property.
pub open spec fn is_ws(c: char) -> bool {
    let u = c as u32;
    ||| u == 0x20
    ||| (0x09 <= u && u <= 0x0d)
    ||| u == 0x85
    ||| u == 0xa0
    ||| u == 0x1680
    ||| (0x2000 <= u && u <= 0x200a)
    ||| u == 0x2028
    ||| u == 0x2029
    ||| u == 0x202f
    ||| u == 0x205f
    ||| u == 0x3000
}

/// An ASCII decimal digit.
pub open spec fn is_digit(c: char) -> bool {
    0x30 <= (c as u32) && (c as u32) <= 0x39
}

/// The value of an ASCII decimal digit.
pub open spec fn digit_value(c: char) -> int {
    (c as u32) - 0x30
}

/// The ASCII character of a decimal digit `d` (0 through 9).
pub open spec fn digit_char(d: int) -> char {
    if d == 0 {
        '0'
    } else if d == 1 {
        '1'
    } else if d == 2 {
        '2'
    } else if d == 3 {
        '3'
    } else if d == 4 {
        '4'
    } else if d == 5 {
        '5'
    } else if d == 6 {
        '6'
    } else if d == 7 {
        '7'
    } else if d == 8 {
        '8'
    } else {
        '9'
    }
}

pub fn is_whitespace(c: char) -> (r: bool)
    ensures
        r == is_ws(c),
{
    let u = c as u32;
    u == 0x20 || (0x09 <= u && u <= 0x0d) || u == 0x85 || u == 0xa0 || u == 0x1680 || (0x2000
        <= u && u <= 0x200a) || u == 0x2028 || u == 0x2029 || u == 0x202f || u == 0x205f || u
        == 0x3000
}

// ---------------------------------------------------------------------------
// Conversions between `str`/`String` and character vectors
// ---------------------------------------------------------------------------

/// The characters of `s`, in order.
pub fn chars_of(s: &str) -> (r: Vec<char>)
    ensures
        r@ == s@,
{
    let mut r: Vec<char> = Vec::new();
    for c in it: s.chars()
        invariant
            r@ == it.seq().take(it.index()),
            it.seq() == s@,
    {
        r.push(c);
    }
    r
}

/// The string made of the characters of `v`.
pub fn string_of(v: &[char]) -> (r: String)
    ensures
        r@ == v@,
{
    let mut r = String::new();
    let mut i: usize = 0;
    while i < v.len()
        invariant
            i <= v.len(),
            r@ == v@.take(i as int),
        decreases v.len() - i,
    {
        r.push(v[i]);
        assert(v@.take(i as int).push(v@[i as int]) == v@.take(i + 1));
        i += 1;
    }
    assert(v@.take(v.len() as int) == v@);
    r
}

/// Appends the characters of `s` to `v`.
pub fn push_all(v: &mut Vec<char>, s: &[char])
    ensures
        final(v)@ == old(v)@ + s@,
{
    let mut i: usize = 0;
    while i < s.len()
        invariant
            i <= s.len(),
            v@ == old(v)@ + s@.take(i as int),
        decreases s.len() - i,
    {
        v.push(s[i]);
        assert(s@.take(i as int).push(s@[i as int]) == s@.take(i + 1));
        i += 1;
    }
    assert(s@.take(s.len() as int) == s@);
}

/// Whether two strings hold the same characters.
pub fn str_equal(a: &str, b: &str) -> (r: bool)
    ensures
        r == (a@ == b@),
{
    let x = chars_of(a);
    let y = chars_of(b);
    if x.len() != y.len() {
        return false;
    }
    let r = matches_at(&x, &y, 0);
    proof {
        assert(x@.subrange(0, y@.len() as int) == x@);
    }
    r
}

/// A copy of a vector of strings.
pub fn clone_strings(v: &Vec<String>) -> (r: Vec<String>)
    ensures
        r@ == v@,
{
    let r = v.clone();
    assert forall|i: int| 0 <= i < v@.len() implies r@[i] == v@[i] by {
        assert(cloned::<String>(v[i], r[i]));
    }
    assert(r@ =~= v@);
    r
}

/// A copy of `v[from..to]`.
pub fn slice_chars(v: &[char], from: usize, to: usize) -> (r: Vec<char>)
    requires
        from <= to <= v.len(),
    ensures
        r@ == v@.subrange(from as int, to as int),
{
    let mut r: Vec<char> = Vec::new();
    let mut i: usize = from;
    while i < to
        invariant
            from <= i <= to,
            to <= v.len(),
            r@ == v@.subrange(from as int, i as int),
        decreases to - i,
    {
        r.push(v[i]);
        assert(v@.subrange(from as int, i as int).push(v@[i as int]) == v@.subrange(
            from as int,
            i + 1,
        ));
        i += 1;
    }
    r
}

/// Concatenation of two character slices.
pub fn concat(a: &[char], b: &[char]) -> (r: Vec<char>)
    ensures
        r@ == a@ + b@,
{
    let mut r = slice_chars(a, 0, a.len());
    assert(a@.subrange(0, a@.len() as int) == a@);
    push_all(&mut r, b);
    r
}

// ---------------------------------------------------------------------------
// Searching
// ---------------------------------------------------------------------------

/// Index of the first occurrence of `c` in `s`, or -1.
pub open spec fn first_index(s: Seq<char>, c: char) -> int
    decreases s.len(),
{
    if s.len() == 0 {
        -1
    } else if s[0] == c {
        0
    } else {
        let r = first_index(s.drop_first(), c);
        if r < 0 {
            -1
        } else {
            r + 1
        }
    }
}

pub proof fn lemma_first_index(s: Seq<char>, c: char)
    ensures
        -1 <= first_index(s, c) < s.len(),
        first_index(s, c) == -1 ==> forall|j: int| 0 <= j < s.len() ==> s[j] != c,
        first_index(s, c) >= 0 ==> s[first_index(s, c)] == c,
        forall|j: int| 0 <= j < first_index(s, c) ==> s[j] != c,
    decreases s.len(),
{
    if s.len() > 0 && s[0] != c {
        lemma_first_index(s.drop_first(), c);
        assert forall|j: int| 1 <= j < s.len() implies s[j] == s.drop_first()[j - 1] by {}
    }
}

/// The characterisation of `first_index` by its properties.
pub proof fn lemma_first_index_is(s: Seq<char>, c: char, k: int)
    requires
        -1 <= k < s.len(),
        k >= 0 ==> s[k] == c,
        forall|j: int| 0 <= j < s.len() && (k < 0 || j < k) ==> s[j] != c,
    ensures
        first_index(s, c) == k,
{
    lemma_first_index(s, c);
    let f = first_index(s, c);
    if f >= 0 && (k < 0 || f < k) {
        assert(s[f] != c);
    }
    if k >= 0 && (f < 0 || k < f) {
        assert(s[k] == c);
    }
}

/// Index of the last occurrence of `c` in `s`, or -1.
pub open spec fn last_index(s: Seq<char>, c: char) -> int
    decreases s.len(),
{
    if s.len() == 0 {
        -1
    } else if s.last() == c {
        s.len() - 1
    } else {
        last_index(s.drop_last(), c)
    }
}

pub proof fn lemma_last_index(s: Seq<char>, c: char)
    ensures
        -1 <= last_index(s, c) < s.len(),
        last_index(s, c) >= 0 ==> s[last_index(s, c)] == c,
        forall|j: int| last_index(s, c) < j < s.len() ==> s[j] != c,
    decreases s.len(),
{
    if s.len() > 0 && s.last() != c {
        lemma_last_index(s.drop_last(), c);
        assert forall|j: int| 0 <= j < s.len() - 1 implies s[j] == s.drop_last()[j] by {}
    }
}

pub proof fn lemma_last_index_is(s: Seq<char>, c: char, k: int)
    requires
        -1 <= k < s.len(),
        k >= 0 ==> s[k] == c,
        forall|j: int| k < j < s.len() ==> s[j] != c,
    ensures
        last_index(s, c) == k,
{
    lemma_last_index(s, c);
    let f = last_index(s, c);
    if f > k {
        assert(s[f] != c);
    }
    if k > f {
        assert(s[k] == c);
    }
}

/// First index `>= from` holding `c`.
pub fn find_char_from(v: &[char], c: char, from: usize) -> (r: Option<usize>)
    requires
        from <= v.len(),
    ensures
        match r {
            Some(k) => from <= k < v.len() && v@[k as int] == c && forall|j: int|
                from <= j < k ==> v@[j] != c,
            None => forall|j: int| from <= j < v.len() ==> v@[j] != c,
        },
{
    let mut i = from;
    while i < v.len()
        invariant
            from <= i <= v.len(),
            forall|j: int| from <= j < i ==> v@[j] != c,
        decreases v.len() - i,
    {
        if v[i] == c {
            return Some(i);
        }
        i += 1;
    }
    None
}

/// `str::find` with a character pattern: index of the first `c`.
pub fn find_char(v: &[char], c: char) -> (r: Option<usize>)
    ensures
        match r {
            Some(k) => k == first_index(v@, c),
            None => first_index(v@, c) == -1,
        },
{
    let r = find_char_from(v, c, 0);
    match r {
        Some(k) => {
            proof {
                lemma_first_index_is(v@, c, k as int);
            }
        },
        None => {
            proof {
                lemma_first_index_is(v@, c, -1);
            }
        },
    }
    r
}

/// `str::rfind` with a character pattern: index of the last `c`.
pub fn rfind_char(v: &[char], c: char) -> (r: Option<usize>)
    ensures
        match r {
            Some(k) => k == last_index(v@, c),
            None => last_index(v@, c) == -1,
        },
{
    let mut i = v.len();
    while i > 0
        invariant
            i <= v.len(),
            forall|j: int| i <= j < v.len() ==> v@[j] != c,
        decreases i,
    {
        if v[i - 1] == c {
            proof {
                lemma_last_index_is(v@, c, i - 1);
            }
            return Some(i - 1);
        }
        i -= 1;
    }
    proof {
        lemma_last_index_is(v@, c, -1);
    }
    None
}

/// `p` is a prefix of `s`.
pub open spec fn starts_with(s: Seq<char>, p: Seq<char>) -> bool {
    p.len() <= s.len() && s.take(p.len() as int) == p
}

/// `p` is a suffix of `s`.
pub open spec fn ends_with(s: Seq<char>, p: Seq<char>) -> bool {
    p.len() <= s.len() && s.skip(s.len() - p.len()) == p
}

/// `n` occurs in `h` at position `i`.
pub open spec fn occurs_at(h: Seq<char>, n: Seq<char>, i: int) -> bool {
    0 <= i && i + n.len() <= h.len() && h.subrange(i, i + n.len()) == n
}

/// `str::contains` with a string pattern.
pub open spec fn contains(h: Seq<char>, n: Seq<char>) -> bool {
    exists|i: int| #[trigger] occurs_at(h, n, i)
}

/// Whether `n` occurs in `h` at `i`.
pub fn matches_at(h: &[char], n: &[char], i: usize) -> (r: bool)
    ensures
        r == occurs_at(h@, n@, i as int),
{
    if i > h.len() || n.len() > h.len() - i {
        return false;
    }
    let mut j: usize = 0;
    while j < n.len()
        invariant
            j <= n.len(),
            i + n.len() <= h.len(),
            forall|k: int| 0 <= k < j ==> h@[i + k] == n@[k],
        decreases n.len() - j,
    {
        if h[i + j] != n[j] {
            assert(h@.subrange(i as int, i + n.len())[j as int] != n@[j as int]);
            return false;
        }
        j += 1;
    }
    assert(h@.subrange(i as int, i + n@.len()) =~= n@);
    true
}

pub fn has_prefix(s: &[char], p: &[char]) -> (r: bool)
    ensures
        r == starts_with(s@, p@),
{
    let r = matches_at(s, p, 0);
    proof {
        if p@.len() <= s@.len() {
            assert(s@.subrange(0, p@.len() as int) == s@.take(p@.len() as int));
        }
    }
    r
}

pub fn has_suffix(s: &[char], p: &[char]) -> (r: bool)
    ensures
        r == ends_with(s@, p@),
{
    if p.len() > s.len() {
        return false;
    }
    let r = matches_at(s, p, s.len() - p.len());
    proof {
        assert(s@.subrange(s@.len() - p@.len(), s@.len() as int) == s@.skip(
            s@.len() - p@.len(),
        ));
    }
    r
}

/// Index of the first occurrence of `n` in `h`, if any.
pub fn find_seq(h: &[char], n: &[char]) -> (r: Option<usize>)
    ensures
        match r {
            Some(k) => occurs_at(h@, n@, k as int) && forall|j: int|
                0 <= j < k ==> !occurs_at(h@, n@, j),
            None => !contains(h@, n@),
        },
{
    if n.len() > h.len() {
        assert forall|i: int| !occurs_at(h@, n@, i) by {}
        return None;
    }
    let last = h.len() - n.len();
    let mut i: usize = 0;
    loop
        invariant
            last == h.len() - n.len(),
            n.len() <= h.len(),
            i <= last,
            forall|j: int| 0 <= j < i ==> !occurs_at(h@, n@, j),
        decreases last - i,
    {
        if matches_at(h, n, i) {
            return Some(i);
        }
        if i == last {
            assert forall|j: int| !occurs_at(h@, n@, j) by {
                if 0 <= j <= i {
                }
            }
            return None;
        }
        i += 1;
    }
}

pub fn contains_seq(h: &[char], n: &[char]) -> (r: bool)
    ensures
        r == contains(h@, n@),
{
    match find_seq(h, n) {
        Some(k) => {
            assert(occurs_at(h@, n@, k as int));
            true
        },
        None => false,
    }
}

// ---------------------------------------------------------------------------
// Lines
// ---------------------------------------------------------------------------

/// Length of the first line of `s`: the index of the first `'\n'`, or `s.len()`.
pub open spec fn line_len(s: Seq<char>) -> nat
    decreases s.len(),
{
    if s.len() == 0 {
        0
    } else if s[0] == '\n' {
        0
    } else {
        1 + line_len(s.drop_first())
    }
}

pub proof fn lemma_line_len(s: Seq<char>)
    ensures
        line_len(s) <= s.len(),
        line_len(s) < s.len() ==> s[line_len(s) as int] == '\n',
        forall|j: int| 0 <= j < line_len(s) ==> s[j] != '\n',
    decreases s.len(),
{
    if s.len() > 0 && s[0] != '\n' {
        lemma_line_len(s.drop_first());
        assert forall|j: int| 1 <= j < s.len() implies s[j] == s.drop_first()[j - 1] by {}
    }
}

pub proof fn lemma_line_len_is(s: Seq<char>, k: nat)
    requires
        k <= s.len(),
        k < s.len() ==> s[k as int] == '\n',
        forall|j: int| 0 <= j < k ==> s[j] != '\n',
    ensures
        line_len(s) == k,
{
    lemma_line_len(s);
    if line_len(s) < k {
        assert(s[line_len(s) as int] != '\n');
    }
    if k < line_len(s) {
        assert(s[k as int] == '\n');
    }
}

/// A line without its one trailing `'\r'`, if it has one.
pub open spec fn strip_cr(t: Seq<char>) -> Seq<char> {
    if t.len() > 0 && t.last() == '\r' {
        t.drop_last()
    } else {
        t
    }
}

/// `str::lines`: the text split at each `'\n'`, each line ending in `"\n"` or
/// `"\r\n"` losing that ending, and no empty last line after a final newline.
pub open spec fn lines(s: Seq<char>) -> Seq<Seq<char>>
    decreases s.len(),
{
    if s.len() == 0 {
        Seq::empty()
    } else {
        let k = line_len(s);
        if k >= s.len() {
            seq![s]
        } else {
            seq![strip_cr(s.take(k as int))] + lines(s.skip((k + 1) as int))
        }
    }
}

/// The views of a vector of character vectors.
pub open spec fn views(v: Seq<Vec<char>>) -> Seq<Seq<char>> {
    v.map_values(|l: Vec<char>| l@)
}

/// `str::lines` on a character slice.
pub fn split_lines(v: &[char]) -> (r: Vec<Vec<char>>)
    ensures
        views(r@) == lines(v@),
{
    let mut r: Vec<Vec<char>> = Vec::new();
    let mut pos: usize = 0;
    assert(v@.skip(0) == v@);
    while pos < v.len()
        invariant
            pos <= v.len(),
            lines(v@) == views(r@) + lines(v@.skip(pos as int)),
        decreases v.len() - pos,
    {
        let ghost rest = v@.skip(pos as int);
        let k = match find_char_from(v, '\n', pos) {
            Some(k) => k,
            None => v.len(),
        };
        proof {
            lemma_line_len_is(rest, (k - pos) as nat);
        }
        let mut line = slice_chars(v, pos, k);
        if k == v.len() {
            assert(rest.take((k - pos) as int) == rest);
            proof {
                assert(lines(rest) == seq![rest]);
                assert(views(r@.push(line)) == views(r@).push(line@));
            }
            r.push(line);
            pos = k;
            assert(lines(v@.skip(pos as int)) == Seq::<Seq<char>>::empty());
            assert(lines(v@) == views(r@) + lines(v@.skip(pos as int)));
        } else {
            if line.len() > 0 && line[line.len() - 1] == '\r' {
                line.pop();
            }
            proof {
                assert(rest.take((k - pos) as int) == v@.subrange(pos as int, k as int));
                assert(rest.skip(k - pos + 1) == v@.skip(k + 1));
                assert(lines(rest) == seq![line@] + lines(v@.skip(k + 1)));
                assert(views(r@.push(line)) == views(r@).push(line@));
            }
            r.push(line);
            pos = k + 1;
        }
    }
    assert(v@.skip(pos as int) == Seq::<char>::empty());
    r
}

// ---------------------------------------------------------------------------
// Whitespace
// ---------------------------------------------------------------------------

/// Number of leading whitespace characters.
pub open spec fn leading_ws(s: Seq<char>) -> nat
    decreases s.len(),
{
    if s.len() == 0 {
        0
    } else if is_ws(s[0]) {
        1 + leading_ws(s.drop_first())
    } else {
        0
    }
}

/// Number of trailing whitespace characters.
pub open spec fn trailing_ws(s: Seq<char>) -> nat
    decreases s.len(),
{
    if s.len() == 0 {
        0
    } else if is_ws(s.last()) {
        1 + trailing_ws(s.drop_last())
    } else {
        0
    }
}

/// Length of the leading run of non-whitespace characters.
pub open spec fn word_len(s: Seq<char>) -> nat
    decreases s.len(),
{
    if s.len() == 0 {
        0
    } else if is_ws(s[0]) {
        0
    } else {
        1 + word_len(s.drop_first())
    }
}

pub proof fn lemma_leading_ws(s: Seq<char>)
    ensures
        leading_ws(s) <= s.len(),
        forall|j: int| 0 <= j < leading_ws(s) ==> is_ws(s[j]),
        leading_ws(s) < s.len() ==> !is_ws(s[leading_ws(s) as int]),
    decreases s.len(),
{
    if s.len() > 0 && is_ws(s[0]) {
        lemma_leading_ws(s.drop_first());
        assert forall|j: int| 1 <= j < s.len() implies s[j] == s.drop_first()[j - 1] by {}
    }
}

pub proof fn lemma_leading_ws_is(s: Seq<char>, k: nat)
    requires
        k <= s.len(),
        forall|j: int| 0 <= j < k ==> is_ws(s[j]),
        k < s.len() ==> !is_ws(s[k as int]),
    ensures
        leading_ws(s) == k,
{
    lemma_leading_ws(s);
    if leading_ws(s) < k {
        assert(is_ws(s[leading_ws(s) as int]));
    }
    if k < leading_ws(s) {
        assert(!is_ws(s[k as int]));
    }
}

pub proof fn lemma_trailing_ws(s: Seq<char>)
    ensures
        trailing_ws(s) <= s.len(),
        forall|j: int| s.len() - trailing_ws(s) <= j < s.len() ==> is_ws(s[j]),
        trailing_ws(s) < s.len() ==> !is_ws(s[s.len() - trailing_ws(s) - 1]),
    decreases s.len(),
{
    if s.len() > 0 && is_ws(s.last()) {
        lemma_trailing_ws(s.drop_last());
        assert forall|j: int| 0 <= j < s.len() - 1 implies s[j] == s.drop_last()[j] by {}
    }
}

pub proof fn lemma_trailing_ws_is(s: Seq<char>, k: nat)
    requires
        k <= s.len(),
        forall|j: int| s.len() - k <= j < s.len() ==> is_ws(s[j]),
        k < s.len() ==> !is_ws(s[s.len() - k - 1]),
    ensures
        trailing_ws(s) == k,
{
    lemma_trailing_ws(s);
    let t = trailing_ws(s);
    if t < k {
        assert(is_ws(s[s.len() - t - 1]));
    }
    if k < t {
        assert(!is_ws(s[s.len() - k - 1]));
    }
}

pub proof fn lemma_word_len(s: Seq<char>)
    ensures
        word_len(s) <= s.len(),
        forall|j: int| 0 <= j < word_len(s) ==> !is_ws(s[j]),
        word_len(s) < s.len() ==> is_ws(s[word_len(s) as int]),
    decreases s.len(),
{
    if s.len() > 0 && !is_ws(s[0]) {
        lemma_word_len(s.drop_first());
        assert forall|j: int| 1 <= j < s.len() implies s[j] == s.drop_first()[j - 1] by {}
    }
}

pub proof fn lemma_word_len_is(s: Seq<char>, k: nat)
    requires
        k <= s.len(),
        forall|j: int| 0 <= j < k ==> !is_ws(s[j]),
        k < s.len() ==> is_ws(s[k as int]),
    ensures
        word_len(s) == k,
{
    lemma_word_len(s);
    if word_len(s) < k {
        assert(!is_ws(s[word_len(s) as int]));
    }
    if k < word_len(s) {
        assert(is_ws(s[k as int]));
    }
}

/// `str::trim`: `s` without its leading and trailing whitespace.
pub open spec fn trim(s: Seq<char>) -> Seq<char> {
    if leading_ws(s) >= s.len() {
        Seq::empty()
    } else {
        s.subrange(leading_ws(s) as int, s.len() - trailing_ws(s))
    }
}

/// `str::trim` on a character slice.
pub fn trim_chars(v: &[char]) -> (r: Vec<char>)
    ensures
        r@ == trim(v@),
{
    let mut a: usize = 0;
    while a < v.len() && is_whitespace(v[a])
        invariant
            a <= v.len(),
            forall|j: int| 0 <= j < a ==> is_ws(v@[j]),
        decreases v.len() - a,
    {
        a += 1;
    }
    proof {
        lemma_leading_ws_is(v@, a as nat);
    }
    if a == v.len() {
        return Vec::new();
    }
    let mut b: usize = v.len();
    while b > a && is_whitespace(v[b - 1])
        invariant
            a < v.len(),
            !is_ws(v@[a as int]),
            a <= b <= v.len(),
            forall|j: int| b <= j < v.len() ==> is_ws(v@[j]),
        decreases b,
    {
        b -= 1;
    }
    proof {
        lemma_trailing_ws_is(v@, (v.len() - b) as nat);
    }
    slice_chars(v, a, b)
}

/// `str::split_whitespace`: the maximal runs of non-whitespace characters.
pub open spec fn words(s: Seq<char>) -> Seq<Seq<char>>
    decreases s.len(),
{
    let rest = s.skip(leading_ws(s) as int);
    if leading_ws(s) >= s.len() {
        Seq::empty()
    } else {
        let w = word_len(rest);
        proof {
            lemma_word_len(rest);
        }
        if w == 0 {
            // unreachable: `rest` starts with a non-whitespace character
            Seq::empty()
        } else {
            seq![rest.take(w as int)] + words(rest.skip(w as int))
        }
    }
}

/// `str::split_whitespace` on a character slice.
pub fn split_whitespace(v: &[char]) -> (r: Vec<Vec<char>>)
    ensures
        views(r@) == words(v@),
{
    let mut r: Vec<Vec<char>> = Vec::new();
    let mut pos: usize = 0;
    assert(v@.skip(0) == v@);
    while pos < v.len()
        invariant
            pos <= v.len(),
            words(v@) == views(r@) + words(v@.skip(pos as int)),
        decreases v.len() - pos,
    {
        let ghost s = v@.skip(pos as int);
        let mut a = pos;
        while a < v.len() && is_whitespace(v[a])
            invariant
                pos <= a <= v.len(),
                forall|j: int| pos <= j < a ==> is_ws(v@[j]),
            decreases v.len() - a,
        {
            a += 1;
        }
        proof {
            lemma_leading_ws_is(s, (a - pos) as nat);
        }
        if a == v.len() {
            assert(words(s) == Seq::<Seq<char>>::empty());
            pos = a;
            assert(v@.skip(pos as int) =~= Seq::<char>::empty());
        } else {
            let mut b = a;
            while b < v.len() && !is_whitespace(v[b])
                invariant
                    a <= b <= v.len(),
                    forall|j: int| a <= j < b ==> !is_ws(v@[j]),
                decreases v.len() - b,
            {
                b += 1;
            }
            let ghost rest = s.skip((a - pos) as int);
            proof {
                assert(rest == v@.skip(a as int));
                lemma_word_len_is(rest, (b - a) as nat);
                assert(rest.take((b - a) as int) == v@.subrange(a as int, b as int));
                assert(rest.skip((b - a) as int) == v@.skip(b as int));
            }
            let w = slice_chars(v, a, b);
            proof {
                assert(words(s) == seq![w@] + words(v@.skip(b as int)));
                assert(views(r@.push(w)) == views(r@).push(w@));
            }
            r.push(w);
            pos = b;
        }
    }
    assert(v@.skip(pos as int) =~= Seq::<char>::empty());
    r
}

// ---------------------------------------------------------------------------
// Integers
// ---------------------------------------------------------------------------

/// Why parsing an integer failed (the kinds of `core::num::ParseIntError`
/// that an unsigned parse can give).
#[derive(Debug, Clone, Copy, PartialEq, Eq)]
pub enum IntErrorKind {
    Empty,
    InvalidDigit,
    PosOverflow,
}

/// Reading the decimal digits `d` after the value `acc`, as `from_str` does:
/// left to right, failing at the first non-digit or at the first step past `max`.
pub open spec fn digits_value(d: Seq<char>, acc: int, max: int) -> Result<int, IntErrorKind>
    decreases d.len(),
{
    if d.len() == 0 {
        Ok(acc)
    } else if !is_digit(d[0]) {
        Err(IntErrorKind::InvalidDigit)
    } else if acc * 10 + digit_value(d[0]) > max {
        Err(IntErrorKind::PosOverflow)
    } else {
        digits_value(d.drop_first(), acc * 10 + digit_value(d[0]), max)
    }
}

/// `from_str` of an unsigned integer type whose largest value is `max`:
/// an optional `+`, then decimal digits.
pub open spec fn parse_unsigned(s: Seq<char>, max: int) -> Result<int, IntErrorKind> {
    if s.len() == 0 {
        Err(IntErrorKind::Empty)
    } else if (s[0] == '+' || s[0] == '-') && s.len() == 1 {
        Err(IntErrorKind::InvalidDigit)
    } else if s[0] == '+' {
        digits_value(s.drop_first(), 0, max)
    } else {
        digits_value(s, 0, max)
    }
}

pub proof fn lemma_digits_value_bound(d: Seq<char>, acc: int, max: int)
    requires
        0 <= acc <= max,
    ensures
        digits_value(d, acc, max) matches Ok(n) ==> 0 <= n <= max,
    decreases d.len(),
{
    if d.len() > 0 && is_digit(d[0]) && acc * 10 + digit_value(d[0]) <= max {
        lemma_digits_value_bound(d.drop_first(), acc * 10 + digit_value(d[0]), max);
    }
}

/// Parses `v[from..]` as decimal digits after the value `acc`.
fn parse_digits(v: &[char], from: usize, acc: u64, max: u64) -> (r: Result<u64, IntErrorKind>)
    requires
        from <= v.len(),
        acc <= max,
    ensures
        match r {
            Ok(n) => digits_value(v@.skip(from as int), acc as int, max as int) == Ok::<
                int,
                IntErrorKind,
            >(n as int),
            Err(e) => digits_value(v@.skip(from as int), acc as int, max as int) == Err::<
                int,
                IntErrorKind,
            >(e),
        },
{
    let mut i = from;
    let mut a = acc;
    while i < v.len()
        invariant
            from <= i <= v.len(),
            a <= max,
            digits_value(v@.skip(from as int), acc as int, max as int) == digits_value(
                v@.skip(i as int),
                a as int,
                max as int,
            ),
        decreases v.len() - i,
    {
        let c = v[i];
        let ghost s = v@.skip(i as int);
        assert(s[0] == c);
        assert(s.drop_first() == v@.skip(i + 1));
        let u = c as u32;
        if u < 0x30 || u > 0x39 {
            return Err(IntErrorKind::InvalidDigit);
        }
        let d = (u - 0x30) as u64;
        if d > max || a > (max - d) / 10 {
            assert(a * 10 + d > max) by (nonlinear_arith)
                requires
                    d > max || a > (max - d) / 10,
                    a >= 0,
            ;
            return Err(IntErrorKind::PosOverflow);
        }
        assert(a * 10 + d <= max) by (nonlinear_arith)
            requires
                a <= (max - d) / 10,
                d <= 9,
        ;
        a = a * 10 + d;
        i += 1;
    }
    assert(v@.skip(i as int).len() == 0);
    Ok(a)
}

/// `from_str` of an unsigned integer whose largest value is `max`.
pub fn parse_unsigned_chars(v: &[char], max: u64) -> (r: Result<u64, IntErrorKind>)
    ensures
        match r {
            Ok(n) => parse_unsigned(v@, max as int) == Ok::<int, IntErrorKind>(n as int),
            Err(e) => parse_unsigned(v@, max as int) == Err::<int, IntErrorKind>(e),
        },
{
    if v.len() == 0 {
        return Err(IntErrorKind::Empty);
    }
    if (v[0] == '+' || v[0] == '-') && v.len() == 1 {
        return Err(IntErrorKind::InvalidDigit);
    }
    if v[0] == '+' {
        assert(v@.skip(1) == v@.drop_first());
        parse_digits(v, 1, 0, max)
    } else {
        assert(v@.skip(0) == v@);
        parse_digits(v, 0, 0, max)
    }
}

/// The decimal representation of `n`, without leading zeros.
pub open spec fn decimal(n: nat) -> Seq<char>
    decreases n,
{
    if n < 10 {
        seq![digit_char(n as int)]
    } else {
        decimal(n / 10).push(digit_char((n % 10) as int))
    }
}

/// Reading `d + e` reads `d`, then goes on with `e` from the value reached.
pub proof fn lemma_digits_value_append(d: Seq<char>, e: Seq<char>, acc: int, max: int)
    ensures
        digits_value(d + e, acc, max) == match digits_value(d, acc, max) {
            Ok(v) => digits_value(e, v, max),
            Err(k) => Err(k),
        },
    decreases d.len(),
{
    if d.len() > 0 {
        assert((d + e)[0] == d[0]);
        assert((d + e).drop_first() == d.drop_first() + e);
        if is_digit(d[0]) && acc * 10 + digit_value(d[0]) <= max {
            lemma_digits_value_append(d.drop_first(), e, acc * 10 + digit_value(d[0]), max);
        }
    } else {
        assert(d + e == e);
    }
}

/// `decimal(n)` is a non-empty run of digits that reads back as `n`.
pub proof fn lemma_decimal_reads_back(n: nat, max: int)
    ensures
        decimal(n).len() >= 1,
        forall|i: int| 0 <= i < decimal(n).len() ==> is_digit(#[trigger] decimal(n)[i]),
        n <= max ==> digits_value(decimal(n), 0, max) == Ok::<int, IntErrorKind>(n as int),
    decreases n,
{
    if n >= 10 {
        lemma_decimal_reads_back(n / 10, max);
        let d = decimal(n / 10);
        let c = digit_char((n % 10) as int);
        assert(is_digit(c) && digit_value(c) == n % 10);
        assert forall|i: int| 0 <= i < decimal(n).len() implies is_digit(#[trigger] decimal(n)[i]) by {
            if i < d.len() {
                assert(decimal(n)[i] == d[i]);
            }
        }
        if n <= max {
            lemma_digits_value_append(d, seq![c], 0, max);
            assert(d.push(c) == d + seq![c]);
            assert(seq![c].drop_first() =~= Seq::<char>::empty());
            assert((n / 10) * 10 + n % 10 == n);
            assert(seq![c][0] == c);
            assert(digits_value(seq![c], (n / 10) as int, max) == digits_value(
                Seq::<char>::empty(),
                n as int,
                max,
            ));
        }
    } else {
        let c = digit_char(n as int);
        assert(is_digit(c) && digit_value(c) == n);
        assert(seq![c].drop_first() =~= Seq::<char>::empty());
        assert(seq![c][0] == c);
        if n <= max {
            assert(digits_value(seq![c], 0, max) == digits_value(Seq::<char>::empty(), n as int, max));
        }
    }
}

fn digit_to_char(d: u64) -> (c: char)
    requires
        d < 10,
    ensures
        c == digit_char(d as int),
{
    if d == 0 {
        '0'
    } else if d == 1 {
        '1'
    } else if d == 2 {
        '2'
    } else if d == 3 {
        '3'
    } else if d == 4 {
        '4'
    } else if d == 5 {
        '5'
    } else if d == 6 {
        '6'
    } else if d == 7 {
        '7'
    } else if d == 8 {
        '8'
    } else {
        '9'
    }
}

/// The decimal representation of `n` (`n.to_string()`).
pub fn decimal_chars(n: u64) -> (r: Vec<char>)
    ensures
        r@ == decimal(n as nat),
    decreases n,
{
    if n < 10 {
        let mut r: Vec<char> = Vec::new();
        r.push(digit_to_char(n));
        r
    } else {
        let mut r = decimal_chars(n / 10);
        r.push(digit_to_char(n % 10));
        r
    }
}

// ---------------------------------------------------------------------------
// Replacement
// ---------------------------------------------------------------------------

/// `s` with every `c` replaced by `rep`.
pub open spec fn replace_char(s: Seq<char>, c: char, rep: Seq<char>) -> Seq<char>
    decreases s.len(),
{
    if s.len() == 0 {
        Seq::empty()
    } else {
        replace_char(s.drop_last(), c, rep) + (if s.last() == c {
            rep
        } else {
            seq![s.last()]
        })
    }
}

/// `str::replace` with a character pattern.
pub fn replace_char_chars(v: &[char], c: char, rep: &[char]) -> (r: Vec<char>)
    ensures
        r@ == replace_char(v@, c, rep@),
{
    let mut r: Vec<char> = Vec::new();
    let mut i: usize = 0;
    while i < v.len()
        invariant
            i <= v.len(),
            r@ == replace_char(v@.take(i as int), c, rep@),
        decreases v.len() - i,
    {
        let ghost t = v@.take(i + 1);
        assert(t.drop_last() == v@.take(i as int));
        assert(t.last() == v@[i as int]);
        if v[i] == c {
            push_all(&mut r, rep);
        } else {
            r.push(v[i]);
        }
        i += 1;
    }
    assert(v@.take(v.len() as int) == v@);
    r
}

} // verus!

verus! {

// ---------------------------------------------------------------------------
// Ordering strings
// ---------------------------------------------------------------------------

/// The views of a sequence of strings.
pub open spec fn str_views(v: Seq<String>) -> Seq<Seq<char>> {
    v.map_values(|s: String| s@)
}

/// The order of `str` (`Ord`): lexicographic by character code. (Rust compares
/// the UTF-8 bytes, and UTF-8 byte order agrees with code point order.)
pub open spec fn lex_le(a: Seq<char>, b: Seq<char>) -> bool
    decreases a.len(),
{
    if a.len() == 0 {
        true
    } else if b.len() == 0 {
        false
    } else if (a[0] as u32) != (b[0] as u32) {
        (a[0] as u32) < (b[0] as u32)
    } else {
        lex_le(a.drop_first(), b.drop_first())
    }
}

pub proof fn lemma_lex_refl(a: Seq<char>)
    ensures
        lex_le(a, a),
    decreases a.len(),
{
    if a.len() > 0 {
        lemma_lex_refl(a.drop_first());
    }
}

pub proof fn lemma_lex_total(a: Seq<char>, b: Seq<char>)
    ensures
        lex_le(a, b) || lex_le(b, a),
    decreases a.len(),
{
    if a.len() > 0 && b.len() > 0 && (a[0] as u32) == (b[0] as u32) {
        lemma_lex_total(a.drop_first(), b.drop_first());
    }
}

pub proof fn lemma_lex_trans(a: Seq<char>, b: Seq<char>, c: Seq<char>)
    requires
        lex_le(a, b),
        lex_le(b, c),
    ensures
        lex_le(a, c),
    decreases a.len(),
{
    if a.len() > 0 && b.len() > 0 && c.len() > 0 && (a[0] as u32) == (b[0] as u32) && (b[0] as u32) == (c[0] as u32) {
        lemma_lex_trans(a.drop_first(), b.drop_first(), c.drop_first());
    }
}

/// Whether `a` comes before `b` or equals it.
pub fn lex_le_chars(a: &[char], b: &[char]) -> (r: bool)
    ensures
        r == lex_le(a@, b@),
{
    let mut i: usize = 0;
    assert(a@.skip(0) == a@ && b@.skip(0) == b@);
    while i < a.len() && i < b.len() && (a[i] as u32) == (b[i] as u32)
        invariant
            i <= a.len(),
            i <= b.len(),
            lex_le(a@, b@) == lex_le(a@.skip(i as int), b@.skip(i as int)),
        decreases a.len() - i,
    {
        assert(a@.skip(i as int).drop_first() == a@.skip(i + 1));
        assert(b@.skip(i as int).drop_first() == b@.skip(i + 1));
        i += 1;
    }
    if i == a.len() {
        true
    } else if i == b.len() {
        false
    } else {
        (a[i] as u32) < (b[i] as u32)
    }
}

/// Ascending in the order of `str`.
pub open spec fn sorted(s: Seq<Seq<char>>) -> bool {
    forall|i: int, j: int| 0 <= i < j < s.len() ==> lex_le(s[i], s[j])
}

/// `Vec<String>::sort`: the same strings, in ascending order.
pub fn sort_strings(v: Vec<String>) -> (r: Vec<String>)
    ensures
        sorted(str_views(r@)),
        str_views(r@).to_multiset() == str_views(v@).to_multiset(),
{
    let ghost orig = str_views(v@);
    let mut rest = v;
    let mut r: Vec<String> = Vec::new();
    proof {
        vstd::seq_lib::to_multiset_len(str_views(r@));
        assert(str_views(r@).to_multiset() =~= Multiset::<Seq<char>>::empty());
        assert(str_views(rest@) == orig);
    }
    while rest.len() > 0
        invariant
            str_views(r@).to_multiset().add(str_views(rest@).to_multiset()) == orig.to_multiset(),
            sorted(str_views(r@)),
            forall|i: int, j: int|
                0 <= i < r@.len() && 0 <= j < rest@.len() ==> lex_le(r@[i]@, rest@[j]@),
        decreases rest.len(),
    {
        let mut m: usize = 0;
        let mut k: usize = 1;
        let first = chars_of(rest[0].as_str());
        let mut best = first;
        proof {
            lemma_lex_refl(rest@[0]@);
        }
        while k < rest.len()
            invariant
                1 <= k <= rest.len(),
                m < rest.len(),
                best@ == rest@[m as int]@,
                forall|j: int| 0 <= j < k ==> lex_le(rest@[m as int]@, rest@[j]@),
            decreases rest.len() - k,
        {
            let cand = chars_of(rest[k].as_str());
            if !lex_le_chars(&best, &cand) {
                proof {
                    lemma_lex_total(best@, cand@);
                    assert forall|j: int| 0 <= j < k + 1 implies lex_le(cand@, rest@[j]@) by {
                        if j < k {
                            lemma_lex_trans(cand@, best@, rest@[j]@);
                        }
                        if j == k {
                            lemma_lex_refl(cand@);
                        }
                    }
                }
                m = k;
                best = cand;
            } else {
                assert(lex_le(rest@[m as int]@, rest@[k as int]@));
            }
            k += 1;
        }
        let ghost rest_before = rest@;
        let ghost r_before = r@;
        let x = rest.remove(m);
        assert(x == rest_before[m as int]);
        proof {
            let rv = str_views(rest_before);
            assert(str_views(rest@) =~= rv.remove(m as int));
            vstd::seq_lib::to_multiset_remove(rv, m as int);
            vstd::seq_lib::to_multiset_contains(rv, x@);
            assert(rv.contains(x@)) by {
                assert(rv[m as int] == x@);
            }
        }
        r.push(x);
        proof {
            let rv = str_views(rest_before);
            assert(str_views(r@) =~= str_views(r_before).push(x@));
            vstd::seq_lib::to_multiset_build(str_views(r_before), x@);
            assert(str_views(r@).to_multiset().add(str_views(rest@).to_multiset()) =~= str_views(
                r_before,
            ).to_multiset().add(rv.to_multiset()));
            assert forall|i: int, j: int| 0 <= i < j < r@.len() implies lex_le(
                str_views(r@)[i],
                str_views(r@)[j],
            ) by {
                if j < r@.len() - 1 {
                    assert(str_views(r_before)[i] == str_views(r@)[i]);
                    assert(str_views(r_before)[j] == str_views(r@)[j]);
                } else {
                    assert(lex_le(r_before[i]@, rest_before[m as int]@));
                }
            }
            assert forall|i: int, j: int|
                0 <= i < r@.len() && 0 <= j < rest@.len() implies lex_le(r@[i]@, rest@[j]@) by {
                let jj = if j < m {
                    j
                } else {
                    j + 1
                };
                assert(rest@[j] == rest_before[jj]);
                if i < r@.len() - 1 {
                    assert(r@[i] == r_before[i]);
                } else {
                    assert(lex_le(rest_before[m as int]@, rest_before[jj]@));
                }
            }
        }
    }
    proof {
        vstd::seq_lib::to_multiset_len(str_views(rest@));
        assert(str_views(rest@).to_multiset() =~= Multiset::<Seq<char>>::empty());
        assert(str_views(r@).to_multiset() =~= orig.to_multiset());
    }
    r
}

} // verus!
