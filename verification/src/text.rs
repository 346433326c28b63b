//! Character-level text operations with their meaning stated over `Seq<char>`.
use vstd::prelude::*;

verus! {

/// The Unicode `White_Space` property, which `char::is_whitespace` and `str::trim` use.
pub open spec fn is_white(c: char) -> bool {
    let u = c as u32;
    ||| 0x9 <= u <= 0xd
    ||| u == 0x20
    ||| u == 0x85
    ||| u == 0xa0
    ||| u == 0x1680
    ||| 0x2000 <= u <= 0x200a
    ||| u == 0x2028
    ||| u == 0x2029
    ||| u == 0x202f
    ||| u == 0x205f
    ||| u == 0x3000
}

/// `s` without its leading white space.
pub open spec fn trim_start(s: Seq<char>) -> Seq<char>
    decreases s.len(),
{
    if s.len() > 0 && is_white(s[0]) {
        trim_start(s.drop_first())
    } else {
        s
    }
}

/// `s` without its trailing white space.
pub open spec fn trim_end(s: Seq<char>) -> Seq<char>
    decreases s.len(),
{
    if s.len() > 0 && is_white(s.last()) {
        trim_end(s.drop_last())
    } else {
        s
    }
}

/// `s` without white space at either end.
pub open spec fn trim(s: Seq<char>) -> Seq<char> {
    trim_end(trim_start(s))
}

/// `s` without any of its leading copies of `c`.
pub open spec fn trim_start_char(s: Seq<char>, c: char) -> Seq<char>
    decreases s.len(),
{
    if s.len() > 0 && s[0] == c {
        trim_start_char(s.drop_first(), c)
    } else {
        s
    }
}

/// Whether `s` begins with `p`.
pub open spec fn starts_with(s: Seq<char>, p: Seq<char>) -> bool {
    p.len() <= s.len() && s.take(p.len() as int) == p
}

/// Whether `s` ends with `p`.
pub open spec fn ends_with(s: Seq<char>, p: Seq<char>) -> bool {
    p.len() <= s.len() && s.skip(s.len() - p.len()) == p
}

/// `p` occurs in `s` as a contiguous piece.
pub open spec fn contains_seq(s: Seq<char>, p: Seq<char>) -> bool {
    exists|i: int| 0 <= i && i + p.len() <= s.len() && #[trigger] s.subrange(i, i + p.len()) == p
}

/// The pieces of `s` between the occurrences of `sep`, as `str::split` with a `char`
/// gives them: never empty, and one more piece than `sep` occurs.
pub open spec fn split_on(s: Seq<char>, sep: char) -> Seq<Seq<char>>
    decreases s.len(),
{
    if s.len() == 0 {
        seq![Seq::empty()]
    } else {
        let rest = split_on(s.drop_last(), sep);
        if s.last() == sep {
            rest.push(Seq::empty())
        } else {
            rest.drop_last().push(rest.last().push(s.last()))
        }
    }
}

/// Every character is ASCII.
pub open spec fn is_ascii_text(s: Seq<char>) -> bool {
    forall|i: int| 0 <= i < s.len() ==> (#[trigger] s[i] as u32) < 128
}

/// ASCII lowercasing: `A` to `Z` become `a` to `z`, every other character stays.
pub open spec fn ascii_lowercase(s: Seq<char>) -> Seq<char> {
    Seq::new(
        s.len(),
        |i: int|
            if 'A' <= s[i] <= 'Z' {
                ((s[i] as u32) + 32) as char
            } else {
                s[i]
            },
    )
}

/// The lowercase form of a text that is not all ASCII, as `str::to_lowercase` gives it
/// under the Unicode case mapping.
pub uninterp spec fn unicode_lowercase(s: Seq<char>) -> Seq<char>;

/// The lowercase form of a text, as `str::to_lowercase` gives it: on ASCII text the
/// letters `A` to `Z` are lowercased one for one and nothing else changes; other text
/// follows the Unicode case mapping.
pub open spec fn lowercase(s: Seq<char>) -> Seq<char> {
    if is_ascii_text(s) {
        ascii_lowercase(s)
    } else {
        unicode_lowercase(s)
    }
}

/// `str::to_lowercase`: the lowercase form of `s`. On ASCII text this lowercases the
/// letters `A` to `Z` and keeps every other character (the Unicode mapping of ASCII,
/// which the function's ASCII path applies); the mapping of other text is not stated.
#[verifier::external_body]
pub(crate) fn to_lowercase(s: &str) -> (r: String)
    ensures
        r@ == lowercase(s@),
        !is_ascii_text(s@) ==> r@ == unicode_lowercase(s@),
{
    s.to_lowercase()
}

/// `String::push`: the character is appended.
#[verifier::external_body]
fn push_char(s: &mut String, c: char)
    ensures
        final(s)@ == old(s)@.push(c),
{
    s.push(c)
}

/// Whether a character is white space (see [`is_white`]).
pub fn is_white_char(c: char) -> (r: bool)
    ensures
        r == is_white(c),
{
    let u = c as u32;
    (0x9 <= u && u <= 0xd) || u == 0x20 || u == 0x85 || u == 0xa0 || u == 0x1680 || (0x2000
        <= u && u <= 0x200a) || u == 0x2028 || u == 0x2029 || u == 0x202f || u == 0x205f || u
        == 0x3000
}

/// The characters of a text.
pub fn chars_of(s: &str) -> (r: Vec<char>)
    ensures
        r@ == s@,
{
    let mut r: Vec<char> = Vec::new();
    for c in it: s.chars()
        invariant
            r@ == it.seq().take(it.index() as int),
            it.seq() == s@,
    {
        r.push(c);
    }
    r
}

/// The text made of the given characters.
pub fn string_of(cs: &[char]) -> (r: String)
    ensures
        r@ == cs@,
{
    let mut r = String::new();
    let mut i: usize = 0;
    while i < cs.len()
        invariant
            i <= cs.len(),
            r@ == cs@.take(i as int),
        decreases cs.len() - i,
    {
        push_char(&mut r, cs[i]);
        assert(cs@.take(i + 1) == cs@.take(i as int).push(cs@[i as int]));
        i = i + 1;
    }
    assert(cs@.take(cs.len() as int) == cs@);
    r
}

/// An owned copy of a text.
pub fn text(s: &str) -> (r: String)
    ensures
        r@ == s@,
{
    let cs = chars_of(s);
    string_of(cs.as_slice())
}

/// The text `a` followed by the text `b`.
pub fn join(a: &str, b: &str) -> (r: String)
    ensures
        r@ == a@ + b@,
{
    let mut cs = chars_of(a);
    let mut bs = chars_of(b);
    cs.append(&mut bs);
    string_of(cs.as_slice())
}

/// The characters `cs[from..to]`.
pub fn piece(cs: &[char], from: usize, to: usize) -> (r: Vec<char>)
    requires
        from <= to <= cs.len(),
    ensures
        r@ == cs@.subrange(from as int, to as int),
{
    let mut r: Vec<char> = Vec::new();
    let mut i = from;
    while i < to
        invariant
            from <= i <= to <= cs.len(),
            r@ == cs@.subrange(from as int, i as int),
        decreases to - i,
    {
        r.push(cs[i]);
        i = i + 1;
    }
    r
}

proof fn lemma_trim_start_skip(s: Seq<char>, j: int)
    requires
        0 <= j <= s.len(),
        forall|k: int| 0 <= k < j ==> is_white(#[trigger] s[k]),
    ensures
        trim_start(s) == trim_start(s.skip(j)),
    decreases j,
{
    if j > 0 {
        assert(s.skip(1) == s.drop_first());
        lemma_trim_start_skip(s.drop_first(), j - 1);
        assert(s.drop_first().skip(j - 1) == s.skip(j));
    } else {
        assert(s.skip(0) == s);
    }
}

proof fn lemma_trim_end_take(s: Seq<char>, j: int)
    requires
        0 <= j <= s.len(),
        forall|k: int| j <= k < s.len() ==> is_white(#[trigger] s[k]),
    ensures
        trim_end(s) == trim_end(s.take(j)),
    decreases s.len() - j,
{
    if j < s.len() {
        assert(s.take(s.len() - 1) == s.drop_last());
        lemma_trim_end_take(s.drop_last(), j);
        assert(s.drop_last().take(j) == s.take(j));
    } else {
        assert(s.take(j) == s);
    }
}

/// `trim_start(s)` is what follows some leading characters of `s`, and it starts
/// with a character that is not white space, when it has one.
pub proof fn lemma_trim_start_shape(s: Seq<char>)
    ensures
        trim_start(s).len() <= s.len(),
        trim_start(s) == s.skip(s.len() - trim_start(s).len()),
        trim_start(s).len() > 0 ==> !is_white(trim_start(s)[0]),
    decreases s.len(),
{
    if s.len() > 0 && is_white(s[0]) {
        lemma_trim_start_shape(s.drop_first());
        assert(s.drop_first().skip(s.drop_first().len() - trim_start(s).len()) == s.skip(
            s.len() - trim_start(s).len(),
        ));
    } else {
        assert(s.skip(0) == s);
    }
}

/// `trim_end(s)` is a beginning of `s`, and it ends with a character that is not
/// white space, when it has one.
pub proof fn lemma_trim_end_shape(s: Seq<char>)
    ensures
        trim_end(s).len() <= s.len(),
        trim_end(s) == s.take(trim_end(s).len() as int),
        trim_end(s).len() > 0 ==> !is_white(trim_end(s).last()),
    decreases s.len(),
{
    if s.len() > 0 && is_white(s.last()) {
        lemma_trim_end_shape(s.drop_last());
        assert(s.drop_last().take(trim_end(s).len() as int) == s.take(trim_end(s).len() as int));
    } else {
        assert(s.take(s.len() as int) == s);
    }
}

/// A text that neither starts nor ends with white space is its own trim.
pub proof fn lemma_trim_fixed(s: Seq<char>)
    requires
        s.len() > 0 ==> !is_white(s[0]) && !is_white(s.last()),
    ensures
        trim(s) == s,
{
}

/// `trim(s)` is a piece of `s` that neither starts nor ends with white space, and
/// trimming it again changes nothing.
pub proof fn lemma_trim_shape(s: Seq<char>)
    ensures
        trim(s).len() > 0 ==> !is_white(trim(s)[0]) && !is_white(trim(s).last()),
        trim(trim(s)) == trim(s),
        exists|a: int| 0 <= a && a + trim(s).len() <= s.len() && #[trigger] s.subrange(
            a,
            a + trim(s).len(),
        ) == trim(s),
{
    let u = trim_start(s);
    lemma_trim_start_shape(s);
    lemma_trim_end_shape(u);
    let w = trim(s);
    if w.len() > 0 {
        assert(w[0] == u[0]);
    }
    lemma_trim_fixed(w);
    let a = s.len() - u.len();
    assert(s.subrange(a, a + w.len()) == w);
}

/// The characters without leading white space.
pub fn trim_start_chars(cs: &[char]) -> (r: Vec<char>)
    ensures
        r@ == trim_start(cs@),
{
    let mut i: usize = 0;
    while i < cs.len() && is_white_char(cs[i])
        invariant
            i <= cs.len(),
            forall|k: int| 0 <= k < i ==> is_white(#[trigger] cs@[k]),
        decreases cs.len() - i,
    {
        i = i + 1;
    }
    proof {
        lemma_trim_start_skip(cs@, i as int);
        assert(cs@.skip(i as int) == cs@.subrange(i as int, cs.len() as int));
    }
    piece(cs, i, cs.len())
}

/// The characters without white space at either end.
pub fn trim_chars(cs: &[char]) -> (r: Vec<char>)
    ensures
        r@ == trim(cs@),
{
    let t = trim_start_chars(cs);
    let mut j: usize = t.len();
    while j > 0 && is_white_char(t[j - 1])
        invariant
            j <= t.len(),
            forall|k: int| j <= k < t@.len() ==> is_white(#[trigger] t@[k]),
        decreases j,
    {
        j = j - 1;
    }
    proof {
        lemma_trim_end_take(t@, j as int);
        assert(t@.take(j as int) == t@.subrange(0, j as int));
    }
    piece(t.as_slice(), 0, j)
}

/// The text without white space at either end.
pub fn trim_str(s: &str) -> (r: String)
    ensures
        r@ == trim(s@),
{
    let cs = chars_of(s);
    let t = trim_chars(cs.as_slice());
    string_of(t.as_slice())
}

/// The characters without leading copies of `c`.
pub fn trim_start_char_chars(cs: &[char], c: char) -> (r: Vec<char>)
    ensures
        r@ == trim_start_char(cs@, c),
{
    let mut i: usize = 0;
    assert(cs@.skip(0) == cs@);
    while i < cs.len() && cs[i] == c
        invariant
            i <= cs.len(),
            trim_start_char(cs@, c) == trim_start_char(cs@.skip(i as int), c),
        decreases cs.len() - i,
    {
        assert(cs@.skip(i as int).drop_first() == cs@.skip(i + 1));
        i = i + 1;
    }
    assert(cs@.skip(i as int) == cs@.subrange(i as int, cs.len() as int));
    piece(cs, i, cs.len())
}

/// Whether the two character sequences are equal.
pub fn chars_eq(a: &[char], b: &[char]) -> (r: bool)
    ensures
        r == (a@ == b@),
{
    if a.len() != b.len() {
        return false;
    }
    let mut i: usize = 0;
    while i < a.len()
        invariant
            i <= a.len() == b.len(),
            forall|k: int| 0 <= k < i ==> a@[k] == b@[k],
        decreases a.len() - i,
    {
        if a[i] != b[i] {
            return false;
        }
        i = i + 1;
    }
    assert(a@ == b@);
    true
}

/// Whether the characters equal the text `lit`.
pub fn chars_eq_str(a: &[char], lit: &str) -> (r: bool)
    ensures
        r == (a@ == lit@),
{
    let b = chars_of(lit);
    chars_eq(a, b.as_slice())
}

/// Whether the two texts are equal.
pub fn str_eq(a: &str, b: &str) -> (r: bool)
    ensures
        r == (a@ == b@),
{
    let x = chars_of(a);
    chars_eq_str(x.as_slice(), b)
}

/// Whether `p` occurs in `cs` at position `i`.
fn occurs_at(cs: &[char], p: &[char], i: usize) -> (r: bool)
    requires
        i + p.len() <= cs.len(),
    ensures
        r == (cs@.subrange(i as int, i + p.len()) == p@),
{
    let mut k: usize = 0;
    while k < p.len()
        invariant
            k <= p.len(),
            i + p.len() <= cs.len(),
            forall|m: int| 0 <= m < k ==> cs@[i + m] == p@[m],
        decreases p.len() - k,
    {
        if cs[i + k] != p[k] {
            assert(cs@.subrange(i as int, i + p.len())[k as int] != p@[k as int]);
            return false;
        }
        k = k + 1;
    }
    assert(cs@.subrange(i as int, i + p.len()) == p@);
    true
}

/// Whether `cs` begins with `p` (see [`starts_with`]).
pub fn starts_with_chars(cs: &[char], p: &[char]) -> (r: bool)
    ensures
        r == starts_with(cs@, p@),
{
    if p.len() > cs.len() {
        return false;
    }
    assert(cs@.take(p.len() as int) == cs@.subrange(0, p.len() as int));
    occurs_at(cs, p, 0)
}

/// Whether `cs` ends with `p` (see [`ends_with`]).
pub fn ends_with_chars(cs: &[char], p: &[char]) -> (r: bool)
    ensures
        r == ends_with(cs@, p@),
{
    if p.len() > cs.len() {
        return false;
    }
    let i = cs.len() - p.len();
    assert(cs@.skip(i as int) == cs@.subrange(i as int, i + p.len()));
    occurs_at(cs, p, i)
}

/// Whether `p` occurs in `cs`.
pub fn contains_chars(cs: &[char], p: &[char]) -> (r: bool)
    ensures
        r == contains_seq(cs@, p@),
{
    if p.len() > cs.len() {
        return false;
    }
    let last = cs.len() - p.len();
    let mut i: usize = 0;
    loop
        invariant
            last + p.len() == cs.len(),
            i <= last,
            forall|j: int| 0 <= j < i ==> #[trigger] cs@.subrange(j, j + p.len()) != p@,
        decreases last - i,
    {
        if occurs_at(cs, p, i) {
            return true;
        }
        if i == last {
            return false;
        }
        i = i + 1;
    }
}

/// Whether the text `lit` occurs in `cs`.
pub fn contains_str(cs: &[char], lit: &str) -> (r: bool)
    ensures
        r == contains_seq(cs@, lit@),
{
    let p = chars_of(lit);
    contains_chars(cs, p.as_slice())
}

/// Whether `c` occurs in `cs`.
pub fn contains_char(cs: &[char], c: char) -> (r: bool)
    ensures
        r == cs@.contains(c),
{
    let mut i: usize = 0;
    while i < cs.len()
        invariant
            i <= cs.len(),
            forall|j: int| 0 <= j < i ==> cs@[j] != c,
        decreases cs.len() - i,
    {
        if cs[i] == c {
            return true;
        }
        i = i + 1;
    }
    false
}

/// The pieces of `cs` between the occurrences of `sep`.
pub fn split_chars(cs: &[char], sep: char) -> (r: Vec<Vec<char>>)
    ensures
        r@.len() == split_on(cs@, sep).len(),
        forall|i: int| 0 <= i < r@.len() ==> (#[trigger] r@[i])@ == split_on(cs@, sep)[i],
{
    let mut done: Vec<Vec<char>> = Vec::new();
    let mut cur: Vec<char> = Vec::new();
    let mut i: usize = 0;
    while i < cs.len()
        invariant
            i <= cs.len(),
            done@.len() + 1 == split_on(cs@.take(i as int), sep).len(),
            forall|k: int|
                0 <= k < done@.len() ==> (#[trigger] done@[k])@ == split_on(
                    cs@.take(i as int),
                    sep,
                )[k],
            cur@ == split_on(cs@.take(i as int), sep).last(),
        decreases cs.len() - i,
    {
        let ghost before = cs@.take(i as int);
        assert(cs@.take(i + 1).drop_last() == before);
        if cs[i] == sep {
            let finished = cur;
            done.push(finished);
            cur = Vec::new();
        } else {
            cur.push(cs[i]);
        }
        i = i + 1;
    }
    assert(cs@.take(cs.len() as int) == cs@);
    done.push(cur);
    done
}

} // verus!
