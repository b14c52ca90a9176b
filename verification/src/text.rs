//! Character classes and small string utilities, specified over `Seq<char>`.
//!
//! The exec functions work on `&[char]` and return fresh vectors; the
//! spec functions say what std's `str` methods of the same name compute.
use vstd::prelude::*;

verus! {

// ---------------------------------------------------------------------------
// Conversions between `str`/`String` and vectors of characters
// ---------------------------------------------------------------------------

/// Copies the characters of `s` into a vector.
pub fn chars_of(s: &str) -> (v: Vec<char>)
    ensures
        v@ == s@,
{
    let mut v: Vec<char> = Vec::new();
    for c in it: s.chars()
        invariant
            v@ == it.seq().take(it.index() as int),
    {
        v.push(c);
    }
    v
}

/// Appends one character to a `String` (std's `String::push`).
#[verifier::external_body]
fn push_char(s: &mut String, c: char)
    ensures
        final(s)@ == old(s)@.push(c),
{
    s.push(c);
}

/// Builds a `String` holding exactly the characters of `v`.
pub fn string_of(v: &[char]) -> (s: String)
    ensures
        s@ == v@,
{
    let mut s = String::new();
    let mut i: usize = 0;
    while i < v.len()
        invariant
            i <= v@.len(),
            s@ == v@.take(i as int),
        decreases v@.len() - i,
    {
        push_char(&mut s, v[i]);
        i = i + 1;
    }
    s
}

/// Concatenates two `String`s.
pub fn concat(a: String, b: &str) -> (s: String)
    ensures
        s@ == a@ + b@,
{
    let mut a = a;
    a.append(b);
    a
}

/// Whether two string slices hold the same characters.
pub fn str_equal(a: &str, b: &str) -> (r: bool)
    ensures
        r == (a@ == b@),
{
    let x = chars_of(a);
    let y = chars_of(b);
    chars_equal(&x, &y)
}

/// The views of a sequence of `String`s.
pub open spec fn string_views(v: Seq<String>) -> Seq<Seq<char>> {
    v.map_values(|s: String| s@)
}

/// A copy of `v[from..to]`.
pub fn sub_chars(v: &[char], from: usize, to: usize) -> (r: Vec<char>)
    requires
        from <= to <= v@.len(),
    ensures
        r@ == v@.subrange(from as int, to as int),
{
    let mut r: Vec<char> = Vec::new();
    let mut i = from;
    while i < to
        invariant
            from <= i <= to <= v@.len(),
            r@ == v@.subrange(from as int, i as int),
        decreases to - i,
    {
        r.push(v[i]);
        i = i + 1;
    }
    r
}

/// Whether two character sequences are equal.
pub fn chars_equal(a: &[char], b: &[char]) -> (r: bool)
    ensures
        r == (a@ == b@),
{
    if a.len() != b.len() {
        return false;
    }
    let mut i: usize = 0;
    while i < a.len()
        invariant
            a@.len() == b@.len(),
            i <= a@.len(),
            forall|j: int| 0 <= j < i ==> a@[j] == b@[j],
        decreases a@.len() - i,
    {
        if a[i] != b[i] {
            return false;
        }
        i = i + 1;
    }
    assert(a@ =~= b@);
    true
}

// ---------------------------------------------------------------------------
// Character classes
// ---------------------------------------------------------------------------

/// Unicode's `White_Space` property, which `char::is_whitespace` tests.
pub open spec fn is_white_space(c: char) -> bool {
    ||| ('\u{9}' <= c && c <= '\u{d}')
    ||| c == ' '
    ||| c == '\u{85}'
    ||| c == '\u{a0}'
    ||| c == '\u{1680}'
    ||| ('\u{2000}' <= c && c <= '\u{200a}')
    ||| c == '\u{2028}'
    ||| c == '\u{2029}'
    ||| c == '\u{202f}'
    ||| c == '\u{205f}'
    ||| c == '\u{3000}'
}

/// Exec test of [`is_white_space`].
pub fn is_white_space_char(c: char) -> (r: bool)
    ensures
        r == is_white_space(c),
{
    ('\u{9}' <= c && c <= '\u{d}') || c == ' ' || c == '\u{85}' || c == '\u{a0}' || c
        == '\u{1680}' || ('\u{2000}' <= c && c <= '\u{200a}') || c == '\u{2028}' || c
        == '\u{2029}' || c == '\u{202f}' || c == '\u{205f}' || c == '\u{3000}'
}

/// An ASCII hexadecimal digit: `0-9`, `a-f` or `A-F`.
pub open spec fn is_hex_digit(c: char) -> bool {
    ('0' <= c && c <= '9') || ('a' <= c && c <= 'f') || ('A' <= c && c <= 'F')
}

/// An ASCII decimal digit.
pub open spec fn is_digit(c: char) -> bool {
    '0' <= c && c <= '9'
}

/// The ASCII lower-case form of `c` (other characters are kept).
pub open spec fn ascii_lower(c: char) -> char {
    if 'A' <= c && c <= 'Z' {
        ((c as int) + 32) as char
    } else {
        c
    }
}

/// `str::to_ascii_lowercase` over characters.
pub open spec fn ascii_lowercase(s: Seq<char>) -> Seq<char> {
    s.map_values(|c: char| ascii_lower(c))
}

/// Exec form of [`ascii_lower`].
pub fn ascii_lower_char(c: char) -> (r: char)
    ensures
        r == ascii_lower(c),
{
    if 'A' <= c && c <= 'Z' {
        let u: u32 = c as u32;
        assert(65 <= u <= 90);
        let l: u8 = (u + 32) as u8;
        l as char
    } else {
        c
    }
}

/// Exec form of [`ascii_lowercase`].
pub fn ascii_lowercase_chars(s: &[char]) -> (r: Vec<char>)
    ensures
        r@ == ascii_lowercase(s@),
{
    let mut r: Vec<char> = Vec::new();
    let mut i: usize = 0;
    while i < s.len()
        invariant
            i <= s@.len(),
            r@ == ascii_lowercase(s@.take(i as int)),
        decreases s@.len() - i,
    {
        let c = ascii_lower_char(s[i]);
        r.push(c);
        i = i + 1;
        assert(ascii_lowercase(s@.take(i as int)) =~= ascii_lowercase(s@.take(i - 1)).push(c));
    }
    assert(s@.take(s@.len() as int) =~= s@);
    r
}


// ---------------------------------------------------------------------------
// Trimming
// ---------------------------------------------------------------------------

/// The sets of characters that the trimming functions strip.
#[derive(Clone, Copy, Debug, PartialEq, Eq)]
pub enum CharClass {
    /// Unicode white space (`char::is_whitespace`).
    WhiteSpace,
    /// The quote characters `'` and `"`.
    Quote,
}

/// Whether `c` belongs to `class`.
pub open spec fn in_class(class: CharClass, c: char) -> bool {
    match class {
        CharClass::WhiteSpace => is_white_space(c),
        CharClass::Quote => c == '\'' || c == '"',
    }
}

/// Exec form of [`in_class`].
pub fn class_contains(class: CharClass, c: char) -> (r: bool)
    ensures
        r == in_class(class, c),
{
    match class {
        CharClass::WhiteSpace => is_white_space_char(c),
        CharClass::Quote => c == '\'' || c == '"',
    }
}

/// `s` without its leading characters of `class`.
pub open spec fn trim_start_of(s: Seq<char>, class: CharClass) -> Seq<char>
    decreases s.len(),
{
    if s.len() > 0 && in_class(class, s[0]) {
        trim_start_of(s.drop_first(), class)
    } else {
        s
    }
}

/// `s` without its trailing characters of `class`.
pub open spec fn trim_end_of(s: Seq<char>, class: CharClass) -> Seq<char>
    decreases s.len(),
{
    if s.len() > 0 && in_class(class, s.last()) {
        trim_end_of(s.drop_last(), class)
    } else {
        s
    }
}

/// `s` without leading and trailing characters of `class`.
pub open spec fn trim_of(s: Seq<char>, class: CharClass) -> Seq<char> {
    trim_end_of(trim_start_of(s, class), class)
}

/// Trimming the start drops a prefix of class characters, and stops at the
/// first character outside the class.
pub proof fn lemma_trim_start_of_skips(s: Seq<char>, class: CharClass)
    ensures
        exists|k: int|
            0 <= k <= s.len() && trim_start_of(s, class) == s.skip(k) && (forall|j: int|
                0 <= j < k ==> in_class(class, #[trigger] s[j])) && (k < s.len() ==> !in_class(
                class,
                s[k],
            )),
    decreases s.len(),
{
    if s.len() > 0 && in_class(class, s[0]) {
        lemma_trim_start_of_skips(s.drop_first(), class);
        let k = choose|k: int|
            0 <= k <= s.drop_first().len() && trim_start_of(s.drop_first(), class)
                == s.drop_first().skip(k) && (forall|j: int|
                0 <= j < k ==> in_class(class, #[trigger] s.drop_first()[j])) && (k
                < s.drop_first().len() ==> !in_class(class, s.drop_first()[k]));
        assert(s.drop_first().skip(k) =~= s.skip(k + 1));
        assert forall|j: int| 0 <= j < k + 1 implies in_class(class, #[trigger] s[j]) by {
            if j > 0 {
                assert(s[j] == s.drop_first()[j - 1]);
            }
        }
        assert(k + 1 < s.len() ==> s[k + 1] == s.drop_first()[k]);
    } else {
        assert(s.skip(0) =~= s);
    }
}

/// Trimming the end changes nothing when the last character is outside
/// the class.
pub proof fn lemma_trim_end_of_keeps(s: Seq<char>, class: CharClass)
    requires
        s.len() > 0,
        !in_class(class, s.last()),
    ensures
        trim_end_of(s, class) == s,
{
}

/// `str::trim_start`.
pub open spec fn trim_start(s: Seq<char>) -> Seq<char> {
    trim_start_of(s, CharClass::WhiteSpace)
}

/// `str::trim`.
pub open spec fn trim(s: Seq<char>) -> Seq<char> {
    trim_of(s, CharClass::WhiteSpace)
}

/// The number of leading characters of `class` in `s`.
pub fn leading_count(s: &[char], class: CharClass) -> (n: usize)
    ensures
        n <= s@.len(),
        trim_start_of(s@, class) == s@.skip(n as int),
{
    let mut i: usize = 0;
    assert(s@.skip(0) =~= s@);
    while i < s.len() && class_contains(class, s[i])
        invariant
            i <= s@.len(),
            trim_start_of(s@, class) == trim_start_of(s@.skip(i as int), class),
        decreases s@.len() - i,
    {
        assert(s@.skip(i as int).drop_first() =~= s@.skip(i + 1));
        i = i + 1;
    }
    i
}

/// The length of `s` without its trailing characters of `class`.
pub fn kept_before_trailing(s: &[char], class: CharClass) -> (n: usize)
    ensures
        n <= s@.len(),
        trim_end_of(s@, class) == s@.take(n as int),
{
    let mut n: usize = s.len();
    assert(s@.take(n as int) =~= s@);
    while n > 0 && class_contains(class, s[n - 1])
        invariant
            n <= s@.len(),
            trim_end_of(s@, class) == trim_end_of(s@.take(n as int), class),
        decreases n,
    {
        assert(s@.take(n as int).drop_last() =~= s@.take(n - 1));
        n = n - 1;
    }
    n
}

/// Exec form of [`trim_start_of`].
pub fn trim_start_chars(s: &[char], class: CharClass) -> (r: Vec<char>)
    ensures
        r@ == trim_start_of(s@, class),
{
    let n = leading_count(s, class);
    sub_chars(s, n, s.len())
}

/// Exec form of [`trim_of`].
pub fn trim_chars(s: &[char], class: CharClass) -> (r: Vec<char>)
    ensures
        r@ == trim_of(s@, class),
{
    let t = trim_start_chars(s, class);
    let n = kept_before_trailing(&t, class);
    sub_chars(&t, 0, n)
}

/// `str::trim` of a string slice.
pub fn trim_str(s: &str) -> (r: String)
    ensures
        r@ == trim(s@),
{
    let v = chars_of(s);
    let t = trim_chars(&v, CharClass::WhiteSpace);
    string_of(&t)
}

// ---------------------------------------------------------------------------
// Searching, prefixes and suffixes
// ---------------------------------------------------------------------------

/// `p` occurs in `s` starting at index `i`.
pub open spec fn occurs_at(s: Seq<char>, p: Seq<char>, i: int) -> bool {
    0 <= i && i + p.len() <= s.len() && s.subrange(i, i + p.len()) == p
}

/// The first index `>= i` at which `p` occurs in `s`.
pub open spec fn find_from(s: Seq<char>, p: Seq<char>, i: int) -> Option<int>
    decreases s.len() + 1 - i,
{
    if i < 0 || i + p.len() > s.len() {
        None
    } else if occurs_at(s, p, i) {
        Some(i)
    } else {
        find_from(s, p, i + 1)
    }
}

/// `str::find` with a string pattern: the first index at which `p` occurs.
pub open spec fn find(s: Seq<char>, p: Seq<char>) -> Option<int> {
    find_from(s, p, 0)
}

/// The first index `>= i` of a character of `class` in `s`.
pub open spec fn find_class_from(s: Seq<char>, class: CharClass, i: int) -> Option<int>
    decreases s.len() - i,
{
    if i < 0 || i >= s.len() {
        None
    } else if in_class(class, s[i]) {
        Some(i)
    } else {
        find_class_from(s, class, i + 1)
    }
}

/// Where [`find_class_from`] can land.
pub proof fn lemma_find_class_bounds(s: Seq<char>, class: CharClass, i: int)
    requires
        0 <= i,
    ensures
        find_class_from(s, class, i) matches Some(k) ==> i <= k < s.len() && in_class(class, s[k]),
    decreases s.len() - i,
{
    if i < s.len() && !in_class(class, s[i]) {
        lemma_find_class_bounds(s, class, i + 1);
    }
}

/// Where [`find_from`] can land.
pub proof fn lemma_find_bounds(s: Seq<char>, p: Seq<char>, i: int)
    requires
        0 <= i,
    ensures
        find_from(s, p, i) matches Some(k) ==> i <= k && occurs_at(s, p, k),
    decreases s.len() + 1 - i,
{
    if i + p.len() <= s.len() && !occurs_at(s, p, i) {
        lemma_find_bounds(s, p, i + 1);
    }
}

/// `str::find` with a character predicate.
pub open spec fn find_class(s: Seq<char>, class: CharClass) -> Option<int> {
    find_class_from(s, class, 0)
}

/// `str::strip_prefix`.
pub open spec fn strip_prefix(s: Seq<char>, p: Seq<char>) -> Option<Seq<char>> {
    if p.is_prefix_of(s) {
        Some(s.skip(p.len() as int))
    } else {
        None
    }
}

/// `str::strip_suffix`.
pub open spec fn strip_suffix(s: Seq<char>, p: Seq<char>) -> Option<Seq<char>> {
    if p.is_suffix_of(s) {
        Some(s.take(s.len() - p.len()))
    } else {
        None
    }
}

/// Whether `p` occurs in `s` at index `i`.
pub fn occurs_at_exec(s: &[char], p: &[char], i: usize) -> (r: bool)
    ensures
        r == occurs_at(s@, p@, i as int),
{
    if i > s.len() || p.len() > s.len() - i {
        return false;
    }
    let mut k: usize = 0;
    while k < p.len()
        invariant
            s.len() == s@.len(),
            i + p@.len() <= s@.len(),
            k <= p@.len(),
            forall|j: int| 0 <= j < k ==> s@[i + j] == p@[j],
        decreases p@.len() - k,
    {
        if s[i + k] != p[k] {
            assert(s@.subrange(i as int, i + p@.len())[k as int] != p@[k as int]);
            return false;
        }
        k = k + 1;
    }
    assert(s@.subrange(i as int, i + p@.len()) =~= p@);
    true
}

/// Exec form of [`find`].
pub fn find_chars(s: &[char], p: &[char]) -> (r: Option<usize>)
    ensures
        r matches Some(i) ==> find(s@, p@) == Some(i as int),
        r is None ==> find(s@, p@) is None,
{
    let mut i: usize = 0;
    while i <= s.len()
        invariant
            i <= s@.len() + 1,
            find(s@, p@) == find_from(s@, p@, i as int),
        decreases s@.len() + 1 - i,
    {
        if p.len() > s.len() - i {
            return None;
        }
        if occurs_at_exec(s, p, i) {
            return Some(i);
        }
        assert(p@.len() > 0) by {
            if p@.len() == 0 {
                assert(s@.subrange(i as int, i as int) =~= p@);
            }
        }
        i = i + 1;
    }
    None
}

/// Exec form of [`find_class`].
pub fn find_class_chars(s: &[char], class: CharClass) -> (r: Option<usize>)
    ensures
        r matches Some(i) ==> find_class(s@, class) == Some(i as int),
        r is None ==> find_class(s@, class) is None,
{
    let mut i: usize = 0;
    while i < s.len()
        invariant
            i <= s@.len(),
            find_class(s@, class) == find_class_from(s@, class, i as int),
        decreases s@.len() - i,
    {
        if class_contains(class, s[i]) {
            return Some(i);
        }
        i = i + 1;
    }
    None
}

/// Whether `p` is a prefix of `s`.
pub fn starts_with_chars(s: &[char], p: &[char]) -> (r: bool)
    ensures
        r == p@.is_prefix_of(s@),
{
    let r = occurs_at_exec(s, p, 0);
    assert(r == occurs_at(s@, p@, 0));
    r
}

/// Whether `p` is a suffix of `s`.
pub fn ends_with_chars(s: &[char], p: &[char]) -> (r: bool)
    ensures
        r == p@.is_suffix_of(s@),
{
    if p.len() > s.len() {
        return false;
    }
    let r = occurs_at_exec(s, p, s.len() - p.len());
    r
}

/// Exec form of [`strip_prefix`].
pub fn strip_prefix_chars(s: &[char], p: &[char]) -> (r: Option<Vec<char>>)
    ensures
        r matches Some(v) ==> strip_prefix(s@, p@) == Some(v@),
        r is None ==> strip_prefix(s@, p@) is None,
{
    if starts_with_chars(s, p) {
        Some(sub_chars(s, p.len(), s.len()))
    } else {
        None
    }
}

/// Exec form of [`strip_suffix`].
pub fn strip_suffix_chars(s: &[char], p: &[char]) -> (r: Option<Vec<char>>)
    ensures
        r matches Some(v) ==> strip_suffix(s@, p@) == Some(v@),
        r is None ==> strip_suffix(s@, p@) is None,
{
    if ends_with_chars(s, p) {
        Some(sub_chars(s, 0, s.len() - p.len()))
    } else {
        None
    }
}


// ---------------------------------------------------------------------------
// Lines
// ---------------------------------------------------------------------------

/// The index of the first `'\n'` at or after `i`, or `s.len()` when none.
pub open spec fn line_end_from(s: Seq<char>, i: int) -> int
    decreases s.len() - i,
{
    if i < 0 || i >= s.len() {
        s.len() as int
    } else if s[i] == '\n' {
        i
    } else {
        line_end_from(s, i + 1)
    }
}

/// A line that `'\n'` ended, without a `'\r'` right before that `'\n'`.
pub open spec fn without_cr(line: Seq<char>) -> Seq<char> {
    if line.len() > 0 && line.last() == '\r' {
        line.drop_last()
    } else {
        line
    }
}

/// Where [`line_end_from`] can land.
pub proof fn lemma_line_end_bounds(s: Seq<char>, i: int)
    requires
        0 <= i <= s.len(),
    ensures
        i <= line_end_from(s, i) <= s.len(),
        line_end_from(s, i) < s.len() ==> s[line_end_from(s, i)] == '\n',
        forall|k: int| i <= k < line_end_from(s, i) ==> s[k] != '\n',
    decreases s.len() - i,
{
    if i < s.len() && s[i] != '\n' {
        lemma_line_end_bounds(s, i + 1);
    }
}

/// `str::lines`: the lines of `s`, split at `'\n'`, each without a
/// `'\r'` that stood right before its `'\n'`; a final line ending adds no
/// empty line.
pub open spec fn lines(s: Seq<char>) -> Seq<Seq<char>>
    decreases s.len(),
{
    if s.len() == 0 {
        Seq::empty()
    } else {
        let e = line_end_from(s, 0);
        if e < s.len() {
            proof {
                lemma_line_end_bounds(s, 0);
            }
            seq![without_cr(s.take(e))] + lines(s.skip(e + 1))
        } else {
            seq![s]
        }
    }
}

/// The views of a vector of character vectors.
pub open spec fn views(v: Seq<Vec<char>>) -> Seq<Seq<char>> {
    v.map_values(|x: Vec<char>| x@)
}

/// Exec form of [`lines`].
pub fn lines_of(s: &[char]) -> (r: Vec<Vec<char>>)
    ensures
        views(r@) == lines(s@),
{
    let mut r: Vec<Vec<char>> = Vec::new();
    let mut start: usize = 0;
    assert(s@.skip(0) =~= s@);
    while start < s.len()
        invariant
            start <= s@.len(),
            lines(s@) == views(r@) + lines(s@.skip(start as int)),
        decreases s@.len() - start,
    {
        let ghost rest = s@.skip(start as int);
        let mut e: usize = start;
        while e < s.len() && s[e] != '\n'
            invariant
                start <= e <= s@.len(),
                rest == s@.skip(start as int),
                line_end_from(rest, 0) == line_end_from(rest, e - start),
            decreases s@.len() - e,
        {
            e = e + 1;
        }
        proof {
            lemma_line_end_bounds(rest, 0);
        }
        if e < s.len() {
            let mut line = sub_chars(s, start, e);
            if line.len() > 0 && line[line.len() - 1] == '\r' {
                line.pop();
            }
            let ghost old_r = r@;
            assert(rest.take(e - start) =~= s@.subrange(start as int, e as int));
            r.push(line);
            assert(rest.skip(e - start + 1) =~= s@.skip(e + 1));
            assert(views(r@) =~= views(old_r) + seq![without_cr(rest.take(e - start))]);
            start = e + 1;
        } else {
            let line = sub_chars(s, start, s.len());
            let ghost old_r = r@;
            assert(rest =~= line@);
            r.push(line);
            assert(views(r@) =~= views(old_r) + seq![rest]);
            start = s.len();
            assert(s@.skip(start as int) =~= Seq::<char>::empty());
        }
    }
    assert(lines(s@.skip(start as int)) =~= Seq::<Seq<char>>::empty());
    assert(views(r@) + Seq::<Seq<char>>::empty() =~= views(r@));
    r
}

/// [`find_from`] gives the first occurrence at or after `i`: none lies
/// between `i` and the index found, and none at all where it finds none.
pub proof fn lemma_find_is_first(s: Seq<char>, p: Seq<char>, i: int)
    requires
        0 <= i,
    ensures
        find_from(s, p, i) matches Some(k) ==> i <= k && occurs_at(s, p, k) && forall|j: int|
            i <= j < k ==> !occurs_at(s, p, j),
        find_from(s, p, i) is None ==> forall|j: int| i <= j ==> !occurs_at(s, p, j),
    decreases s.len() + 1 - i,
{
    if i + p.len() <= s.len() && !occurs_at(s, p, i) {
        lemma_find_is_first(s, p, i + 1);
    }
}

/// Where `p` occurs at some index `k >= i`, [`find_from`] finds an occurrence.
pub proof fn lemma_find_finds(s: Seq<char>, p: Seq<char>, i: int, k: int)
    requires
        0 <= i <= k,
        occurs_at(s, p, k),
    ensures
        find_from(s, p, i) is Some,
{
    lemma_find_is_first(s, p, i);
}

/// [`find_class_from`] lands on `k` when `s[k]` is in the class and no
/// character from `i` up to `k` is.
pub proof fn lemma_find_class_first(s: Seq<char>, class: CharClass, i: int, k: int)
    requires
        0 <= i <= k < s.len(),
        in_class(class, s[k]),
        forall|j: int| i <= j < k ==> !in_class(class, #[trigger] s[j]),
    ensures
        find_class_from(s, class, i) == Some(k),
    decreases k - i,
{
    if i < k {
        lemma_find_class_first(s, class, i + 1, k);
    }
}

/// Trimming the start passes over a prefix made of class characters.
pub proof fn lemma_trim_start_of_prefix(a: Seq<char>, b: Seq<char>, class: CharClass)
    requires
        forall|j: int| 0 <= j < a.len() ==> in_class(class, #[trigger] a[j]),
    ensures
        trim_start_of(a + b, class) == trim_start_of(b, class),
    decreases a.len(),
{
    if a.len() > 0 {
        assert((a + b).drop_first() =~= a.drop_first() + b);
        assert((a + b)[0] == a[0]);
        lemma_trim_start_of_prefix(a.drop_first(), b, class);
    } else {
        assert(a + b =~= b);
    }
}

/// Trimming the end passes over a suffix made of class characters, and
/// stops at a last character outside the class.
pub proof fn lemma_trim_end_of_suffix(b: Seq<char>, c: Seq<char>, class: CharClass)
    requires
        b.len() > 0,
        !in_class(class, b.last()),
        forall|j: int| 0 <= j < c.len() ==> in_class(class, #[trigger] c[j]),
    ensures
        trim_end_of(b + c, class) == b,
    decreases c.len(),
{
    if c.len() > 0 {
        assert((b + c).drop_last() =~= b + c.drop_last());
        assert((b + c).last() == c.last());
        lemma_trim_end_of_suffix(b, c.drop_last(), class);
    } else {
        assert(b + c =~= b);
    }
}

} // verus!

