//! Text as sequences of characters: classes of characters, searching,
//! trimming and splitting. Assembly source is read with these.

use vstd::prelude::*;
use vstd::slice::slice_subrange;

verus! {

/// Whether `c` is white space: the code points with Unicode's `White_Space`
/// property.
pub open spec fn is_space(c: char) -> bool {
    let n = c as u32;
    (0x09 <= n && n <= 0x0D) || n == 0x20 || n == 0x85 || n == 0xA0 || n == 0x1680 || (0x2000 <= n
        && n <= 0x200A) || n == 0x2028 || n == 0x2029 || n == 0x202F || n == 0x205F || n == 0x3000
}

/// `c` with an ASCII lower-case letter replaced by its upper-case letter.
pub open spec fn upper(c: char) -> char {
    if 'a' <= c && c <= 'z' {
        ((c as u8 - 32) as u8) as char
    } else {
        c
    }
}

/// `s` with every ASCII lower-case letter replaced by its upper-case letter.
pub open spec fn upper_text(s: Seq<char>) -> Seq<char> {
    Seq::new(s.len(), |i: int| upper(s[i]))
}

/// A set of characters to search for.
#[derive(Clone, Copy, PartialEq, Eq, Debug, Structural)]
pub enum Class {
    /// White space.
    Space,
    /// Anything but white space.
    Solid,
    /// The characters that start a comment: `;` and `#`.
    Comment,
    /// One character.
    Exactly(char),
    /// Every character but one.
    Except(char),
}

impl Class {
    /// Whether `c` belongs to the class.
    pub open spec fn has(self, c: char) -> bool {
        match self {
            Class::Space => is_space(c),
            Class::Solid => !is_space(c),
            Class::Comment => c == ';' || c == '#',
            Class::Exactly(d) => c == d,
            Class::Except(d) => c != d,
        }
    }

    /// Whether `c` belongs to the class.
    pub fn contains(self, c: char) -> (b: bool)
        ensures
            b == self.has(c),
    {
        match self {
            Class::Space => is_whitespace(c),
            Class::Solid => !is_whitespace(c),
            Class::Comment => c == ';' || c == '#',
            Class::Exactly(d) => c == d,
            Class::Except(d) => c != d,
        }
    }
}

/// The index of the first character of `s` in class `k`, or `s.len()` where
/// there is none.
pub open spec fn first_in(s: Seq<char>, k: Class) -> int
    decreases s.len(),
{
    if s.len() == 0 || k.has(s[0]) {
        0
    } else {
        1 + first_in(s.drop_first(), k)
    }
}

/// The number of characters at the end of `s` that are white space.
pub open spec fn trailing_spaces(s: Seq<char>) -> int
    decreases s.len(),
{
    if s.len() == 0 || !is_space(s.last()) {
        0
    } else {
        1 + trailing_spaces(s.drop_last())
    }
}

/// `s` without the white space at its start.
pub open spec fn trim_start(s: Seq<char>) -> Seq<char> {
    s.skip(first_in(s, Class::Solid))
}

/// `s` without the white space at its end.
pub open spec fn trim_end(s: Seq<char>) -> Seq<char> {
    s.take(s.len() - trailing_spaces(s))
}

/// `s` without the white space at its start and at its end.
pub open spec fn trim(s: Seq<char>) -> Seq<char> {
    trim_end(trim_start(s))
}

/// The pieces of `s` between its characters of class `k`, in order. There is
/// one piece more than there are such characters, and a piece may be empty.
pub open spec fn split_where(s: Seq<char>, k: Class) -> Seq<Seq<char>>
    decreases s.len(),
{
    let p = first_in(s, k);
    if p < 0 || p >= s.len() {
        seq![s]
    } else {
        seq![s.take(p)] + split_where(s.skip(p + 1), k)
    }
}

/// The pieces of `s` between occurrences of `sep`, in order.
pub open spec fn split_on(s: Seq<char>, sep: char) -> Seq<Seq<char>> {
    split_where(s, Class::Exactly(sep))
}

/// The trimmed pieces of `pieces` that are not empty, in order.
pub open spec fn kept(pieces: Seq<Seq<char>>) -> Seq<Seq<char>>
    decreases pieces.len(),
{
    if pieces.len() == 0 {
        Seq::empty()
    } else {
        let t = trim(pieces.last());
        let before = kept(pieces.drop_last());
        if t.len() > 0 {
            before.push(t)
        } else {
            before
        }
    }
}

/// The words of `s`: its runs of characters that are not white space.
pub open spec fn words(s: Seq<char>) -> Seq<Seq<char>> {
    kept(split_where(s, Class::Space))
}

/// The lines of a text: its pieces between line feeds. A carriage return
/// before a line feed is white space at the end of its line.
pub open spec fn lines_of(s: Seq<char>) -> Seq<Seq<char>> {
    split_on(s, '\n')
}

/// The first run of characters of `s` that are not white space; empty where
/// `s` has none.
pub open spec fn first_word(s: Seq<char>) -> Seq<char> {
    let t = trim_start(s);
    t.take(first_in(t, Class::Space))
}

/// The views of a sequence of slices.
pub open spec fn views(pieces: Seq<&[char]>) -> Seq<Seq<char>> {
    Seq::new(pieces.len(), |i: int| pieces[i]@)
}

/// What `first_in` returns is within `0..=s.len()`, no character before it is
/// in the class, and the character at it is, where there is one.
pub proof fn lemma_first_in(s: Seq<char>, k: Class)
    ensures
        0 <= first_in(s, k) <= s.len(),
        forall|j: int| 0 <= j < first_in(s, k) ==> !k.has(#[trigger] s[j]),
        first_in(s, k) < s.len() ==> k.has(s[first_in(s, k)]),
    decreases s.len(),
{
    if s.len() == 0 || k.has(s[0]) {
    } else {
        let t = s.drop_first();
        lemma_first_in(t, k);
        assert forall|j: int| 0 <= j < first_in(s, k) implies !k.has(#[trigger] s[j]) by {
            if j > 0 {
                assert(s[j] == t[j - 1]);
            }
        }
        if first_in(s, k) < s.len() {
            assert(s[first_in(s, k)] == t[first_in(t, k)]);
        }
    }
}

/// An index with the three properties of `lemma_first_in` is what `first_in`
/// returns.
pub proof fn lemma_first_in_is(s: Seq<char>, k: Class, r: int)
    requires
        0 <= r <= s.len(),
        forall|j: int| 0 <= j < r ==> !k.has(#[trigger] s[j]),
        r < s.len() ==> k.has(s[r]),
    ensures
        first_in(s, k) == r,
    decreases s.len(),
{
    if s.len() == 0 || k.has(s[0]) {
        if r > 0 {
            assert(!k.has(s[0]));
        }
    } else {
        let t = s.drop_first();
        assert(r > 0);
        assert forall|j: int| 0 <= j < r - 1 implies !k.has(#[trigger] t[j]) by {
            assert(t[j] == s[j + 1]);
        }
        if r - 1 < t.len() {
            assert(t[r - 1] == s[r]);
        }
        lemma_first_in_is(t, k, r - 1);
    }
}

/// What `trailing_spaces` returns is within `0..=s.len()`, the characters
/// that it counts are white space, and the one before them is not.
pub proof fn lemma_trailing_spaces(s: Seq<char>)
    ensures
        0 <= trailing_spaces(s) <= s.len(),
        forall|j: int| s.len() - trailing_spaces(s) <= j < s.len() ==> is_space(#[trigger] s[j]),
        trailing_spaces(s) < s.len() ==> !is_space(s[s.len() - trailing_spaces(s) - 1]),
    decreases s.len(),
{
    if s.len() == 0 || !is_space(s.last()) {
    } else {
        let t = s.drop_last();
        lemma_trailing_spaces(t);
        assert forall|j: int| s.len() - trailing_spaces(s) <= j < s.len() implies is_space(
            #[trigger] s[j],
        ) by {
            if j < s.len() - 1 {
                assert(s[j] == t[j]);
            }
        }
        if trailing_spaces(s) < s.len() {
            assert(s[s.len() - trailing_spaces(s) - 1] == t[t.len() - trailing_spaces(t) - 1]);
        }
    }
}

/// A count with the three properties of `lemma_trailing_spaces` is what
/// `trailing_spaces` returns.
pub proof fn lemma_trailing_spaces_is(s: Seq<char>, r: int)
    requires
        0 <= r <= s.len(),
        forall|j: int| s.len() - r <= j < s.len() ==> is_space(#[trigger] s[j]),
        r < s.len() ==> !is_space(s[s.len() - r - 1]),
    ensures
        trailing_spaces(s) == r,
    decreases s.len(),
{
    if s.len() == 0 || !is_space(s.last()) {
        if r > 0 {
            assert(is_space(s[s.len() - 1]));
        }
    } else {
        let t = s.drop_last();
        assert(r > 0);
        assert forall|j: int| t.len() - (r - 1) <= j < t.len() implies is_space(
            #[trigger] t[j],
        ) by {
            assert(t[j] == s[j]);
        }
        if r - 1 < t.len() {
            assert(t[t.len() - (r - 1) - 1] == s[s.len() - r - 1]);
        }
        lemma_trailing_spaces_is(t, r - 1);
    }
}

/// A trimmed text neither starts nor ends with white space, and trimming it
/// again changes nothing.
pub proof fn lemma_trim_is_trimmed(s: Seq<char>)
    ensures
        trim(s).len() > 0 ==> !is_space(trim(s).first()) && !is_space(trim(s).last()),
        trim(trim(s)) == trim(s),
{
    let a = trim_start(s);
    lemma_first_in(s, Class::Solid);
    lemma_trailing_spaces(a);
    let t = trim(s);
    if t.len() > 0 {
        assert(t.first() == s[first_in(s, Class::Solid)]);
        assert(t.last() == a[a.len() - trailing_spaces(a) - 1]);
        lemma_first_in_is(t, Class::Solid, 0);
        lemma_trailing_spaces_is(t, 0);
        assert(trim_start(t) =~= t);
        assert(trim_end(t) =~= t);
    } else {
        lemma_first_in_is(t, Class::Solid, 0);
        lemma_trailing_spaces_is(t, 0);
        assert(trim_start(t) =~= t);
        assert(trim_end(t) =~= t);
    }
}

/// Whether `c` is white space.
pub fn is_whitespace(c: char) -> (b: bool)
    ensures
        b == is_space(c),
{
    let n = c as u32;
    (0x09 <= n && n <= 0x0D) || n == 0x20 || n == 0x85 || n == 0xA0 || n == 0x1680 || (0x2000 <= n
        && n <= 0x200A) || n == 0x2028 || n == 0x2029 || n == 0x202F || n == 0x205F || n == 0x3000
}

/// `c` with an ASCII lower-case letter replaced by its upper-case letter.
pub fn to_upper(c: char) -> (u: char)
    ensures
        u == upper(c),
{
    if 'a' <= c && c <= 'z' {
        ((c as u8) - 32) as char
    } else {
        c
    }
}

/// The characters of a string.
pub fn chars_of(s: &str) -> (v: Vec<char>)
    ensures
        v@ == s@,
{
    let mut v: Vec<char> = Vec::new();
    for c in it: s.chars()
        invariant
            v@ == it.seq().take(it.index() as int),
            it.seq() == s@,
    {
        v.push(c);
    }
    v
}

/// The index of the first character of `s` in class `k`, or `s.len()` where
/// there is none.
pub fn find(s: &[char], k: Class) -> (r: usize)
    ensures
        r == first_in(s@, k),
        r <= s@.len(),
{
    let mut i: usize = 0;
    while i < s.len() && !k.contains(s[i])
        invariant
            i <= s@.len(),
            forall|j: int| 0 <= j < i ==> !k.has(#[trigger] s@[j]),
        decreases s@.len() - i,
    {
        i += 1;
    }
    proof {
        lemma_first_in_is(s@, k, i as int);
    }
    i
}

/// `s` from index `from` on.
pub fn tail(s: &[char], from: usize) -> (r: &[char])
    requires
        from <= s@.len(),
    ensures
        r@ == s@.skip(from as int),
{
    slice_subrange(s, from, s.len())
}

/// `s` up to index `to`.
pub fn head(s: &[char], to: usize) -> (r: &[char])
    requires
        to <= s@.len(),
    ensures
        r@ == s@.take(to as int),
{
    slice_subrange(s, 0, to)
}

/// `s` without the white space at its start and at its end.
pub fn trimmed(s: &[char]) -> (r: &[char])
    ensures
        r@ == trim(s@),
{
    let a = find(s, Class::Solid);
    let rest = tail(s, a);
    let mut b: usize = rest.len();
    while b > 0 && is_whitespace(rest[b - 1])
        invariant
            b <= rest@.len(),
            forall|j: int| b <= j < rest@.len() ==> is_space(#[trigger] rest@[j]),
        decreases b,
    {
        b -= 1;
    }
    proof {
        lemma_trailing_spaces_is(rest@, rest@.len() - b);
    }
    head(rest, b)
}

/// The pieces of `s` between its characters of class `k`, in order.
pub fn split_by<'a>(s: &'a [char], k: Class) -> (pieces: Vec<&'a [char]>)
    ensures
        views(pieces@) == split_where(s@, k),
        pieces@.len() >= 1,
{
    let mut pieces: Vec<&'a [char]> = Vec::new();
    let mut start: usize = 0;
    let mut done = false;
    let n = s.len();
    assert(views(pieces@) =~= Seq::<Seq<char>>::empty());
    assert(s@.skip(0) =~= s@);
    while !done
        invariant
            n == s@.len(),
            start <= n,
            !done ==> split_where(s@, k) == views(pieces@) + split_where(s@.skip(start as int), k),
            done ==> split_where(s@, k) == views(pieces@) && pieces@.len() >= 1,
        decreases n - start + (if done { 0int } else { 1int }),
    {
        let rest = tail(s, start);
        let p = find(rest, k);
        assert(rest@.len() == s@.len() - start);
        let ghost before = views(pieces@);
        if p >= rest.len() {
            pieces.push(rest);
            done = true;
            assert(views(pieces@) =~= before + seq![rest@]);
        } else {
            pieces.push(head(rest, p));
            assert(views(pieces@) =~= before + seq![rest@.take(p as int)]);
            assert(rest@.skip(p + 1) =~= s@.skip(start + p + 1));
            start = start + p + 1;
        }
    }
    pieces
}

/// The pieces of `s` between occurrences of `sep`, in order.
pub fn split<'a>(s: &'a [char], sep: char) -> (pieces: Vec<&'a [char]>)
    ensures
        views(pieces@) == split_on(s@, sep),
        pieces@.len() >= 1,
{
    split_by(s, Class::Exactly(sep))
}

/// The trimmed pieces of `s` between its characters of class `k` that are
/// not empty, in order.
pub fn split_trimmed<'a>(s: &'a [char], k: Class) -> (parts: Vec<&'a [char]>)
    ensures
        views(parts@) == kept(split_where(s@, k)),
{
    let pieces = split_by(s, k);
    let mut parts: Vec<&'a [char]> = Vec::new();
    let mut i: usize = 0;
    assert(views(pieces@).take(0) =~= Seq::<Seq<char>>::empty());
    assert(views(parts@) =~= Seq::<Seq<char>>::empty());
    while i < pieces.len()
        invariant
            i <= pieces@.len(),
            views(parts@) == kept(views(pieces@).take(i as int)),
        decreases pieces@.len() - i,
    {
        let t = trimmed(pieces[i]);
        let ghost before = views(parts@);
        proof {
            let longer = views(pieces@).take(i + 1);
            assert(longer.drop_last() =~= views(pieces@).take(i as int));
            assert(longer.last() == pieces@[i as int]@);
        }
        if t.len() > 0 {
            parts.push(t);
            assert(views(parts@) =~= before.push(t@));
        }
        i += 1;
    }
    assert(views(pieces@).take(i as int) =~= views(pieces@));
    parts
}

/// The words of `s`.
pub fn split_words<'a>(s: &'a [char]) -> (parts: Vec<&'a [char]>)
    ensures
        views(parts@) == words(s@),
{
    split_trimmed(s, Class::Space)
}

/// Whether `s` is `word` but for the case of its ASCII letters. `word` is
/// expected in upper case.
pub fn matches_word(s: &[char], word: &[char]) -> (r: bool)
    ensures
        r == (upper_text(s@) == word@),
{
    if s.len() != word.len() {
        return false;
    }
    let mut i: usize = 0;
    while i < s.len()
        invariant
            i <= s@.len(),
            s@.len() == word@.len(),
            forall|j: int| 0 <= j < i ==> upper(s@[j]) == word@[j],
        decreases s@.len() - i,
    {
        if to_upper(s[i]) != word[i] {
            assert(upper_text(s@)[i as int] != word@[i as int]);
            return false;
        }
        i += 1;
    }
    assert(upper_text(s@) =~= word@);
    true
}

/// The first run of characters of `s` that are not white space.
pub fn first_token(s: &[char]) -> (r: &[char])
    ensures
        r@ == first_word(s@),
{
    let t = tail(s, find(s, Class::Solid));
    head(t, find(t, Class::Space))
}

} // verus!
