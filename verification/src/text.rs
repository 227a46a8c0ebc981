//! Text as sequences of characters: searching, trimming, splitting and joining.
use vstd::prelude::*;

verus! {

/// `String::push` appends one character at the end.
pub assume_specification[ String::push ](s: &mut String, ch: char)
    ensures
        final(s)@ == old(s)@.push(ch),
;

/// `String::push_str` appends a string slice at the end.
pub assume_specification[ String::push_str ](s: &mut String, string: &str)
    ensures
        final(s)@ == old(s)@ + string@,
;

// ---------------------------------------------------------------------------
// Character classes
// ---------------------------------------------------------------------------

/// The characters with the Unicode property `White_Space`.
pub open spec fn white_space(c: char) -> bool {
    ||| '\u{9}' <= c <= '\u{d}'
    ||| c == '\u{20}'
    ||| c == '\u{85}'
    ||| c == '\u{a0}'
    ||| c == '\u{1680}'
    ||| '\u{2000}' <= c <= '\u{200a}'
    ||| c == '\u{2028}'
    ||| c == '\u{2029}'
    ||| c == '\u{202f}'
    ||| c == '\u{205f}'
    ||| c == '\u{3000}'
}

/// ASCII decimal digits.
pub open spec fn digit(c: char) -> bool {
    '0' <= c <= '9'
}

/// ASCII letters and digits.
pub open spec fn alphanumeric(c: char) -> bool {
    ||| digit(c)
    ||| 'a' <= c <= 'z'
    ||| 'A' <= c <= 'Z'
}

/// The lower-case form of an ASCII letter; any other character is its own.
pub open spec fn lower(c: char) -> char {
    if 'A' <= c <= 'Z' {
        ((c as u32) + 32) as char
    } else {
        c
    }
}

/// Whether a character is white space.
pub fn is_white_space(c: char) -> (r: bool)
    ensures
        r == white_space(c),
{
    ('\u{9}' <= c && c <= '\u{d}') || c == '\u{20}' || c == '\u{85}' || c == '\u{a0}' || c
        == '\u{1680}' || ('\u{2000}' <= c && c <= '\u{200a}') || c == '\u{2028}' || c == '\u{2029}'
        || c == '\u{202f}' || c == '\u{205f}' || c == '\u{3000}'
}

/// Whether a character is an ASCII letter or digit.
pub fn is_alphanumeric(c: char) -> (r: bool)
    ensures
        r == alphanumeric(c),
{
    ('0' <= c && c <= '9') || ('a' <= c && c <= 'z') || ('A' <= c && c <= 'Z')
}

// ---------------------------------------------------------------------------
// Conversions
// ---------------------------------------------------------------------------

/// The characters of a string slice.
pub fn chars_of(s: &str) -> (r: Vec<char>)
    ensures
        r@ == s@,
{
    let mut out: Vec<char> = Vec::new();
    for c in it: s.chars()
        invariant
            out@ == s@.take(it.index()),
            it.seq() == s@,
    {
        out.push(c);
        assert(s@.take(it.index() + 1) =~= s@.take(it.index()).push(c));
    }
    assert(s@.take(s@.len() as int) =~= s@);
    out
}

/// The string of a slice of characters.
pub fn string_of(s: &[char]) -> (r: String)
    ensures
        r@ == s@,
{
    let mut out = String::new();
    let mut i: usize = 0;
    while i < s.len()
        invariant
            i <= s@.len(),
            out@ == s@.take(i as int),
        decreases s@.len() - i,
    {
        out.push(s[i]);
        assert(s@.take(i + 1) =~= s@.take(i as int).push(s@[i as int]));
        i = i + 1;
    }
    assert(s@.take(s@.len() as int) =~= s@);
    out
}

/// Whether two string slices hold the same characters.
pub fn same_text(a: &str, b: &str) -> (r: bool)
    ensures
        r == (a@ == b@),
{
    let x = a.to_owned();
    let y = b.to_owned();
    x == y
}

// ---------------------------------------------------------------------------
// Searching
// ---------------------------------------------------------------------------

/// `part` stands in `s` at position `i`.
pub open spec fn occurs_at(s: Seq<char>, part: Seq<char>, i: int) -> bool {
    &&& 0 <= i
    &&& i + part.len() <= s.len()
    &&& s.subrange(i, i + part.len()) == part
}

/// `part` stands somewhere in `s`.
pub open spec fn contains(s: Seq<char>, part: Seq<char>) -> bool {
    exists|i: int| occurs_at(s, part, i)
}

/// `i` is the first position at which `part` stands in `s`.
pub open spec fn first_at(s: Seq<char>, part: Seq<char>, i: int) -> bool {
    &&& occurs_at(s, part, i)
    &&& forall|j: int| 0 <= j < i ==> !occurs_at(s, part, j)
}

/// The first position at which `part` stands in `s`, if there is one.
pub open spec fn find(s: Seq<char>, part: Seq<char>) -> Option<int> {
    if contains(s, part) {
        Some(choose|i: int| first_at(s, part, i))
    } else {
        None
    }
}

/// There is at most one first position.
pub proof fn lemma_find_is(s: Seq<char>, part: Seq<char>, i: int)
    requires
        first_at(s, part, i),
    ensures
        find(s, part) == Some(i),
{
    let k = choose|k: int| first_at(s, part, k);
    assert(first_at(s, part, k));
    if k < i {
        assert(!occurs_at(s, part, k));
    }
    if i < k {
        assert(!occurs_at(s, part, i));
    }
}

/// Where `part` stands somewhere, it has a first position.
pub proof fn lemma_find_first(s: Seq<char>, part: Seq<char>)
    ensures
        match find(s, part) {
            Some(i) => first_at(s, part, i),
            None => !contains(s, part),
        },
{
    if contains(s, part) {
        let i = choose|i: int| occurs_at(s, part, i);
        lemma_least(s, part, i);
    }
}

proof fn lemma_least(s: Seq<char>, part: Seq<char>, i: int)
    requires
        occurs_at(s, part, i),
    ensures
        exists|k: int| first_at(s, part, k),
    decreases i,
{
    if exists|j: int| 0 <= j < i && occurs_at(s, part, j) {
        let j = choose|j: int| 0 <= j < i && occurs_at(s, part, j);
        lemma_least(s, part, j);
    } else {
        assert(first_at(s, part, i));
    }
}

/// Whether `part` stands in `s` at position `i`.
pub fn has_at(s: &[char], part: &[char], i: usize) -> (r: bool)
    ensures
        r == occurs_at(s@, part@, i as int),
{
    if i > s.len() || part.len() > s.len() - i {
        return false;
    }
    let total: usize = s.len();
    let mut k: usize = 0;
    while k < part.len()
        invariant
            total == s@.len(),
            i + part@.len() <= total,
            k <= part@.len(),
            forall|j: int| 0 <= j < k ==> s@[i + j] == part@[j],
        decreases part@.len() - k,
    {
        if s[i + k] != part[k] {
            assert(s@.subrange(i as int, i + part@.len())[k as int] != part@[k as int]);
            return false;
        }
        k = k + 1;
    }
    assert(s@.subrange(i as int, i + part@.len()) =~= part@);
    true
}

/// The first position of `part` in `s`.
pub fn position(s: &[char], part: &[char]) -> (r: Option<usize>)
    ensures
        match r {
            Some(i) => find(s@, part@) == Some(i as int) && first_at(s@, part@, i as int),
            None => find(s@, part@) is None && !contains(s@, part@),
        },
{
    let mut i: usize = 0;
    while i < s.len()
        invariant
            i <= s@.len(),
            forall|j: int| 0 <= j < i ==> !occurs_at(s@, part@, j),
        decreases s@.len() - i,
    {
        if has_at(s, part, i) {
            proof {
                lemma_find_is(s@, part@, i as int);
            }
            return Some(i);
        }
        i = i + 1;
    }
    if has_at(s, part, i) {
        proof {
            lemma_find_is(s@, part@, i as int);
        }
        return Some(i);
    }
    assert forall|j: int| !occurs_at(s@, part@, j) by {
        if occurs_at(s@, part@, j) {
            assert(j <= s@.len());
        }
    }
    None
}

/// Whether `s` begins with `part`.
pub fn begins_with(s: &[char], part: &[char]) -> (r: bool)
    ensures
        r == part@.is_prefix_of(s@),
{
    has_at(s, part, 0)
}

/// Whether `s` ends with `part`.
pub fn ends_with(s: &[char], part: &[char]) -> (r: bool)
    ensures
        r == part@.is_suffix_of(s@),
{
    if part.len() > s.len() {
        return false;
    }
    let start: usize = s.len() - part.len();
    has_at(s, part, start)
}

/// Whether `part` stands somewhere in a string slice.
pub fn str_contains(s: &str, part: &str) -> (r: bool)
    ensures
        r == contains(s@, part@),
{
    match position(&chars_of(s), &chars_of(part)) {
        Some(i) => {
            assert(occurs_at(s@, part@, i as int));
            true
        },
        None => false,
    }
}

// ---------------------------------------------------------------------------
// Cutting
// ---------------------------------------------------------------------------

/// What stands before the first `c`; the whole text where there is no `c`.
pub open spec fn before(s: Seq<char>, c: char) -> Seq<char> {
    match find(s, seq![c]) {
        Some(i) => s.take(i),
        None => s,
    }
}

/// What stands after the last `c`; the whole text where there is no `c`.
pub open spec fn after_last(s: Seq<char>, c: char) -> Seq<char>
    decreases s.len(),
{
    if s.len() == 0 || s.last() == c {
        Seq::empty()
    } else {
        after_last(s.drop_last(), c).push(s.last())
    }
}

/// The text without its prefix `p`; `None` where it has no such prefix.
pub open spec fn strip_prefix(s: Seq<char>, p: Seq<char>) -> Option<Seq<char>> {
    if p.is_prefix_of(s) {
        Some(s.skip(p.len() as int))
    } else {
        None
    }
}

/// The text without the prefix `p`, as many times as it stands in front.
pub open spec fn strip_front(s: Seq<char>, p: Seq<char>) -> Seq<char>
    decreases s.len(),
{
    if p.len() > 0 && p.is_prefix_of(s) {
        strip_front(s.skip(p.len() as int), p)
    } else {
        s
    }
}

/// The text without the suffix `p`, as many times as it stands at the end.
pub open spec fn strip_back(s: Seq<char>, p: Seq<char>) -> Seq<char>
    decreases s.len(),
{
    if p.len() > 0 && p.is_suffix_of(s) {
        strip_back(s.take(s.len() - p.len()), p)
    } else {
        s
    }
}

/// The text without leading white space.
pub open spec fn trim_front(s: Seq<char>) -> Seq<char>
    decreases s.len(),
{
    if s.len() > 0 && white_space(s[0]) {
        trim_front(s.skip(1))
    } else {
        s
    }
}

/// The text without trailing white space.
pub open spec fn trim_back(s: Seq<char>) -> Seq<char>
    decreases s.len(),
{
    if s.len() > 0 && white_space(s.last()) {
        trim_back(s.drop_last())
    } else {
        s
    }
}

/// The text without white space at either end.
pub open spec fn trim(s: Seq<char>) -> Seq<char> {
    trim_back(trim_front(s))
}

/// The character `c` stands nowhere in `s`.
pub open spec fn free_of(s: Seq<char>, c: char) -> bool {
    forall|i: int| 0 <= i < s.len() ==> #[trigger] s[i] != c
}

/// What stands before the first `c` is free of `c`.
pub proof fn lemma_before_free(s: Seq<char>, c: char)
    ensures
        free_of(before(s, c), c),
        before(s, c).is_prefix_of(s),
{
    lemma_find_first(s, seq![c]);
    let b = before(s, c);
    assert forall|i: int| 0 <= i < b.len() implies #[trigger] b[i] != c by {
        if s[i] == c {
            assert(s.subrange(i, i + 1) =~= seq![c]);
            assert(occurs_at(s, seq![c], i));
        }
    }
}

/// A text that is free of `c` stands wholly before the first `c`.
pub proof fn lemma_before_same(s: Seq<char>, c: char)
    requires
        free_of(s, c),
    ensures
        before(s, c) == s,
{
    lemma_find_first(s, seq![c]);
    if contains(s, seq![c]) {
        let i = find(s, seq![c])->0;
        assert(s.subrange(i, i + 1)[0] == c);
        assert(s[i] == c);
    }
}

/// What stands before the first `c`.
pub fn cut_before(s: &[char], c: char) -> (r: &[char])
    ensures
        r@ == before(s@, c),
{
    let sep: Vec<char> = vec![c];
    proof {
        assert(sep@ =~= seq![c]);
    }
    match position(s, &sep) {
        Some(i) => {
            let r = &s[0..i];
            assert(r@ =~= s@.take(i as int));
            r
        },
        None => s,
    }
}

/// What stands after the last `c`.
pub fn cut_after_last(s: &[char], c: char) -> (r: &[char])
    ensures
        r@ == after_last(s@, c),
{
    let mut i: usize = s.len();
    assert(s@.take(i as int) =~= s@);
    assert(s@.skip(i as int) =~= Seq::<char>::empty());
    assert(after_last(s@, c) =~= after_last(s@.take(i as int), c) + s@.skip(i as int));
    while i > 0 && s[i - 1] != c
        invariant
            i <= s@.len(),
            after_last(s@, c) == after_last(s@.take(i as int), c) + s@.skip(i as int),
        decreases i,
    {
        proof {
            let t = s@.take(i as int);
            assert(t.last() == s@[i - 1]);
            assert(t.drop_last() =~= s@.take(i - 1));
            assert(s@.skip(i - 1) =~= seq![s@[i - 1]] + s@.skip(i as int));
            assert(after_last(t, c) == after_last(s@.take(i - 1), c).push(s@[i - 1]));
            assert(after_last(s@.take(i - 1), c) + s@.skip(i - 1) =~= after_last(t, c) + s@.skip(
                i as int,
            ));
        }
        i = i - 1;
    }
    proof {
        let t = s@.take(i as int);
        if i > 0 {
            assert(t.last() == s@[i - 1]);
        }
        assert(after_last(t, c) =~= Seq::empty());
        assert(Seq::<char>::empty() + s@.skip(i as int) =~= s@.skip(i as int));
    }
    let r = &s[i..s.len()];
    assert(r@ =~= s@.skip(i as int));
    r
}

/// Removes the prefix `p` once.
pub fn cut_prefix<'a>(s: &'a [char], p: &[char]) -> (r: Option<&'a [char]>)
    ensures
        match r {
            Some(rest) => strip_prefix(s@, p@) == Some(rest@),
            None => strip_prefix(s@, p@) is None,
        },
{
    if begins_with(s, p) {
        let rest = &s[p.len()..s.len()];
        assert(rest@ =~= s@.skip(p@.len() as int));
        Some(rest)
    } else {
        None
    }
}

/// Removes the prefix `p` as often as it stands in front.
pub fn cut_front<'a>(s: &'a [char], p: &[char]) -> (r: &'a [char])
    ensures
        r@ == strip_front(s@, p@),
{
    let total: usize = s.len();
    let mut i: usize = 0;
    assert(s@.skip(0) =~= s@);
    while p.len() > 0 && has_at(s, p, i)
        invariant
            total == s@.len(),
            i <= total,
            strip_front(s@, p@) == strip_front(s@.skip(i as int), p@),
        decreases s@.len() - i,
    {
        proof {
            let t = s@.skip(i as int);
            assert(t.subrange(0, p@.len() as int) =~= s@.subrange(i as int, i + p@.len()));
            assert(t.skip(p@.len() as int) =~= s@.skip(i + p@.len()));
        }
        i = i + p.len();
    }
    proof {
        let t = s@.skip(i as int);
        if p@.len() > 0 && p@.is_prefix_of(t) {
            assert(t.subrange(0, p@.len() as int) =~= s@.subrange(i as int, i + p@.len()));
            assert(occurs_at(s@, p@, i as int));
        }
    }
    let r = &s[i..s.len()];
    assert(r@ =~= s@.skip(i as int));
    r
}

/// Removes the suffix `p` as often as it stands at the end.
pub fn cut_back<'a>(s: &'a [char], p: &[char]) -> (r: &'a [char])
    ensures
        r@ == strip_back(s@, p@),
{
    let mut n: usize = s.len();
    assert(s@.take(n as int) =~= s@);
    while p.len() > 0 && p.len() <= n && has_at(s, p, n - p.len())
        invariant
            n <= s@.len(),
            strip_back(s@, p@) == strip_back(s@.take(n as int), p@),
        decreases n,
    {
        proof {
            let t = s@.take(n as int);
            assert(t.subrange(t.len() - p@.len(), t.len() as int) =~= s@.subrange(
                n - p@.len(),
                n as int,
            ));
            assert(t.take(t.len() - p@.len()) =~= s@.take(n - p@.len()));
        }
        n = n - p.len();
    }
    proof {
        let t = s@.take(n as int);
        if p@.len() > 0 && p@.is_suffix_of(t) {
            assert(t.subrange(t.len() - p@.len(), t.len() as int) =~= s@.subrange(
                n - p@.len(),
                n as int,
            ));
            assert(occurs_at(s@, p@, n - p@.len()));
        }
    }
    let r = &s[0..n];
    assert(r@ =~= s@.take(n as int));
    r
}

/// Removes the white space at both ends.
pub fn trimmed(s: &[char]) -> (r: &[char])
    ensures
        r@ == trim(s@),
{
    let mut i: usize = 0;
    assert(s@.skip(0) =~= s@);
    while i < s.len() && is_white_space(s[i])
        invariant
            i <= s@.len(),
            trim_front(s@) == trim_front(s@.skip(i as int)),
        decreases s@.len() - i,
    {
        assert(s@.skip(i as int).skip(1) =~= s@.skip(i + 1));
        i = i + 1;
    }
    let t = &s[i..s.len()];
    assert(t@ =~= s@.skip(i as int));
    assert(t@ == trim_front(s@));
    let mut n: usize = t.len();
    assert(t@.take(n as int) =~= t@);
    while n > 0 && is_white_space(t[n - 1])
        invariant
            n <= t@.len(),
            trim_back(t@) == trim_back(t@.take(n as int)),
        decreases n,
    {
        assert(t@.take(n as int).drop_last() =~= t@.take(n - 1));
        n = n - 1;
    }
    let r = &t[0..n];
    assert(r@ =~= t@.take(n as int));
    r
}

/// Every character is an ASCII letter or digit.
pub open spec fn all_alphanumeric(s: Seq<char>) -> bool {
    forall|i: int| 0 <= i < s.len() ==> alphanumeric(#[trigger] s[i])
}

/// Whether every character is an ASCII letter or digit.
pub fn is_all_alphanumeric(s: &[char]) -> (r: bool)
    ensures
        r == all_alphanumeric(s@),
{
    let mut i: usize = 0;
    while i < s.len()
        invariant
            i <= s@.len(),
            forall|j: int| 0 <= j < i ==> alphanumeric(#[trigger] s@[j]),
        decreases s@.len() - i,
    {
        if !is_alphanumeric(s[i]) {
            return false;
        }
        i = i + 1;
    }
    true
}

// ---------------------------------------------------------------------------
// Splitting and joining
// ---------------------------------------------------------------------------

/// The pieces between the occurrences of `c`; one piece where there is none.
pub open spec fn split(s: Seq<char>, c: char) -> Seq<Seq<char>>
    decreases s.len(),
{
    if s.len() == 0 {
        seq![s]
    } else if s.last() == c {
        split(s.drop_last(), c).push(Seq::empty())
    } else {
        let rest = split(s.drop_last(), c);
        rest.drop_last().push(rest.last().push(s.last()))
    }
}

/// The pieces in order, with `sep` between each two.
pub open spec fn join(parts: Seq<Seq<char>>, sep: Seq<char>) -> Seq<char>
    decreases parts.len(),
{
    if parts.len() == 0 {
        Seq::empty()
    } else if parts.len() == 1 {
        parts[0]
    } else {
        join(parts.drop_last(), sep) + sep + parts.last()
    }
}

/// The views of a sequence of strings.
pub open spec fn texts(s: Seq<String>) -> Seq<Seq<char>> {
    Seq::new(s.len(), |i: int| s[i]@)
}

/// The view of an optional string.
pub open spec fn opt(s: Option<String>) -> Option<Seq<char>> {
    match s {
        Some(t) => Some(t@),
        None => None,
    }
}

/// The view of an optional string slice.
pub open spec fn opt_str(s: Option<&str>) -> Option<Seq<char>> {
    match s {
        Some(t) => Some(t@),
        None => None,
    }
}

/// A split has at least one piece.
pub proof fn lemma_split_nonempty(s: Seq<char>, c: char)
    ensures
        split(s, c).len() > 0,
    decreases s.len(),
{
    if s.len() > 0 {
        lemma_split_nonempty(s.drop_last(), c);
    }
}

proof fn lemma_split_append(s: Seq<char>, t: Seq<char>, c: char)
    requires
        free_of(t, c),
    ensures
        split(s + t, c) == split(s, c).drop_last().push(split(s, c).last() + t),
    decreases t.len(),
{
    lemma_split_nonempty(s, c);
    if t.len() == 0 {
        assert(s + t =~= s);
        assert(split(s, c).last() + t =~= split(s, c).last());
        assert(split(s, c) =~= split(s, c).drop_last().push(split(s, c).last()));
    } else {
        let front = t.drop_last();
        assert forall|i: int| 0 <= i < front.len() implies #[trigger] front[i] != c by {
            assert(t[i] != c);
        }
        lemma_split_append(s, front, c);
        assert((s + t).drop_last() =~= s + front);
        assert((s + t).last() == t.last());
        assert(t[t.len() - 1] != c);
        let rest = split(s + front, c);
        assert(rest.drop_last() =~= split(s, c).drop_last());
        assert((split(s, c).last() + front).push(t.last()) =~= split(s, c).last() + t);
    }
}

/// Splitting what was joined gives back the pieces, where none of them holds
/// the separator.
pub proof fn law_split_undoes_join(parts: Seq<Seq<char>>, c: char)
    requires
        parts.len() > 0,
        forall|i: int| 0 <= i < parts.len() ==> free_of(#[trigger] parts[i], c),
    ensures
        split(join(parts, seq![c]), c) == parts,
    decreases parts.len(),
{
    if parts.len() == 1 {
        let none = Seq::<char>::empty();
        lemma_split_append(none, parts[0], c);
        assert(none + parts[0] =~= parts[0]);
        assert(split(none, c) =~= seq![none]);
        assert(split(none, c).drop_last().push(parts[0]) =~= parts);
    } else {
        let front = parts.drop_last();
        assert forall|i: int| 0 <= i < front.len() implies free_of(#[trigger] front[i], c) by {
            assert(front[i] == parts[i]);
        }
        law_split_undoes_join(front, c);
        let before = join(front, seq![c]);
        let mid = before + seq![c];
        assert(mid.drop_last() =~= before);
        assert(split(mid, c) == front.push(Seq::empty()));
        assert(free_of(parts[parts.len() - 1], c));
        lemma_split_append(mid, parts.last(), c);
        assert(split(mid, c).drop_last() =~= front);
        assert(split(mid, c).last() + parts.last() =~= parts.last());
        assert(front.push(parts.last()) =~= parts);
    }
}

/// Splits at every `c`.
pub fn split_at_char(s: &[char], c: char) -> (r: Vec<String>)
    ensures
        texts(r@) == split(s@, c),
        r@.len() > 0,
{
    let mut out: Vec<String> = Vec::new();
    let mut piece = String::new();
    let mut i: usize = 0;
    proof {
        assert(s@.take(0) =~= Seq::<char>::empty());
        assert(texts(out@).push(piece@) =~= seq![s@.take(0)]);
    }
    while i < s.len()
        invariant
            i <= s@.len(),
            texts(out@).push(piece@) == split(s@.take(i as int), c),
        decreases s@.len() - i,
    {
        let ghost t = s@.take(i + 1);
        let ghost before_out = texts(out@);
        let ghost before_piece = piece@;
        proof {
            assert(t.drop_last() =~= s@.take(i as int));
            assert(t.last() == s@[i as int]);
        }
        if s[i] == c {
            out.push(piece);
            piece = String::new();
            proof {
                assert(texts(out@) =~= before_out.push(before_piece));
                assert(texts(out@).push(piece@) =~= split(t, c));
            }
        } else {
            piece.push(s[i]);
            proof {
                let rest = before_out.push(before_piece);
                assert(rest.drop_last() =~= before_out);
                assert(texts(out@).push(piece@) =~= split(t, c));
            }
        }
        i = i + 1;
    }
    assert(s@.take(s@.len() as int) =~= s@);
    let ghost last_out = texts(out@);
    let ghost last_piece = piece@;
    out.push(piece);
    assert(texts(out@) =~= last_out.push(last_piece));
    out
}

/// Joins strings with `sep` between each two.
pub fn joined(parts: &[String], sep: &str) -> (r: String)
    ensures
        r@ == join(texts(parts@), sep@),
{
    let mut out = String::new();
    let mut i: usize = 0;
    while i < parts.len()
        invariant
            i <= parts@.len(),
            out@ == join(texts(parts@).take(i as int), sep@),
        decreases parts@.len() - i,
    {
        let ghost t = texts(parts@).take(i + 1);
        let ghost had = out@;
        assert(t.drop_last() =~= texts(parts@).take(i as int));
        if i > 0 {
            out.push_str(sep);
        }
        out.push_str(parts[i].as_str());
        proof {
            assert(t.last() == parts@[i as int]@);
            if i == 0 {
                assert(had =~= Seq::<char>::empty());
                assert(out@ =~= t[0]);
            }
        }
        i = i + 1;
    }
    assert(texts(parts@).take(parts@.len() as int) =~= texts(parts@));
    out
}

/// Every `a` replaced by `b`.
pub open spec fn replace_char(s: Seq<char>, a: char, b: char) -> Seq<char> {
    s.map_values(|c: char| if c == a { b } else { c })
}

/// Replaces every `a` by `b`.
pub fn replaced(s: &[char], a: char, b: char) -> (r: Vec<char>)
    ensures
        r@ == replace_char(s@, a, b),
{
    let mut out: Vec<char> = Vec::new();
    let mut i: usize = 0;
    while i < s.len()
        invariant
            i <= s@.len(),
            out@.len() == i,
            forall|j: int| 0 <= j < i ==> out@[j] == replace_char(s@, a, b)[j],
        decreases s@.len() - i,
    {
        let c: char = s[i];
        if c == a {
            out.push(b);
        } else {
            out.push(c);
        }
        i = i + 1;
    }
    assert(out@ =~= replace_char(s@, a, b));
    out
}

/// The text with every ASCII letter in lower case.
pub open spec fn lower_case(s: Seq<char>) -> Seq<char> {
    s.map_values(|c: char| lower(c))
}

/// The lower-case form of one character.
pub fn to_lower(c: char) -> (r: char)
    ensures
        r == lower(c),
{
    if 'A' <= c && c <= 'Z' {
        let n: u8 = c as u8;
        let r: char = (n + 32u8) as char;
        r
    } else {
        c
    }
}

/// Puts every ASCII letter in lower case.
pub fn lowered(s: &[char]) -> (r: Vec<char>)
    ensures
        r@ == lower_case(s@),
{
    let mut out: Vec<char> = Vec::new();
    let mut i: usize = 0;
    while i < s.len()
        invariant
            i <= s@.len(),
            out@.len() == i,
            forall|j: int| 0 <= j < i ==> out@[j] == lower_case(s@)[j],
        decreases s@.len() - i,
    {
        out.push(to_lower(s[i]));
        i = i + 1;
    }
    assert(out@ =~= lower_case(s@));
    out
}

/// All of a text is white space.
pub open spec fn blank(s: Seq<char>) -> bool {
    forall|i: int| 0 <= i < s.len() ==> white_space(#[trigger] s[i])
}

proof fn lemma_trim_front(s: Seq<char>) -> (n: int)
    ensures
        0 <= n <= s.len(),
        trim_front(s) == s.skip(n),
        blank(s.take(n)),
        n < s.len() ==> !white_space(s[n]),
    decreases s.len(),
{
    if s.len() > 0 && white_space(s[0]) {
        let n = lemma_trim_front(s.skip(1));
        assert(s.skip(1).skip(n) =~= s.skip(n + 1));
        assert forall|i: int| 0 <= i < s.take(n + 1).len() implies white_space(
            #[trigger] s.take(n + 1)[i],
        ) by {
            if i > 0 {
                assert(s.skip(1).take(n)[i - 1] == s[i]);
            }
        }
        if n + 1 < s.len() {
            assert(s.skip(1)[n] == s[n + 1]);
        }
        n + 1
    } else {
        assert(s.skip(0) =~= s);
        0
    }
}

proof fn lemma_trim_back(s: Seq<char>) -> (n: int)
    ensures
        0 <= n <= s.len(),
        trim_back(s) == s.take(n),
        blank(s.skip(n)),
        n > 0 ==> !white_space(s[n - 1]),
    decreases s.len(),
{
    if s.len() > 0 && white_space(s.last()) {
        let n = lemma_trim_back(s.drop_last());
        assert(s.drop_last().take(n) =~= s.take(n));
        assert forall|i: int| 0 <= i < s.skip(n).len() implies white_space(
            #[trigger] s.skip(n)[i],
        ) by {
            if i < s.skip(n).len() - 1 {
                assert(s.drop_last().skip(n)[i] == s.skip(n)[i]);
            }
        }
        n
    } else {
        assert(s.take(s.len() as int) =~= s);
        s.len() as int
    }
}

/// Trimming takes away the white space at both ends of a text, all of it and
/// nothing else.
pub proof fn law_trimming_takes_only_white_space(s: Seq<char>)
    ensures
        exists|a: int, b: int| #![trigger s.subrange(a, b)]
            {
                &&& 0 <= a <= b <= s.len()
                &&& trim(s) == s.subrange(a, b)
                &&& blank(s.take(a))
                &&& blank(s.skip(b))
            },
        trim(s).len() > 0 ==> !white_space(trim(s)[0]) && !white_space(trim(s).last()),
{
    let a = lemma_trim_front(s);
    let rest = s.skip(a);
    let n = lemma_trim_back(rest);
    let b = a + n;
    assert(rest.take(n) =~= s.subrange(a, b));
    assert forall|i: int| 0 <= i < s.skip(b).len() implies white_space(#[trigger] s.skip(b)[i]) by {
        assert(rest.skip(n)[i] == s.skip(b)[i]);
    }
    if n > 0 {
        assert(rest[0] == s[a]);
    }
}

/// A text with no white space at its ends stays as it is.
pub proof fn law_trimmed_texts_stay(s: Seq<char>)
    requires
        s.len() > 0 ==> !white_space(s[0]) && !white_space(s.last()),
    ensures
        trim(s) == s,
{
}

/// Spaces, tabs and line ends are white space. ASCII letters, digits and the
/// other printed ASCII characters are not.
pub proof fn law_printed_characters_are_not_white_space(c: char)
    ensures
        c == ' ' || c == '\t' || c == '\n' || c == '\r' ==> white_space(c),
        '!' <= c <= '~' ==> !white_space(c),
        alphanumeric(c) <==> ('0' <= c <= '9' || 'a' <= c <= 'z' || 'A' <= c <= 'Z'),
        digit(c) <==> '0' <= c <= '9',
{
}

/// Letters count the same in either case, and any other character only as
/// itself.
pub proof fn law_lower_case_changes_letters_only(c: char)
    ensures
        'A' <= c <= 'Z' ==> 'a' <= lower(c) <= 'z' && lower(c) as int - c as int
            == 'a' as int - 'A' as int,
        !('A' <= c <= 'Z') ==> lower(c) == c,
{
}

/// A prefix is taken away from the front as often as it stands there, and a
/// suffix from the end, and nothing else is.
pub proof fn law_ends_are_stripped_as_often_as_they_stand(s: Seq<char>, p: Seq<char>)
    requires
        p.len() > 0,
    ensures
        strip_front(p + s, p) == strip_front(s, p),
        strip_back(s + p, p) == strip_back(s, p),
        !p.is_prefix_of(s) ==> strip_front(s, p) == s,
        !p.is_suffix_of(s) ==> strip_back(s, p) == s,
        !p.is_prefix_of(strip_front(s, p)),
        !p.is_suffix_of(strip_back(s, p)),
        strip_front(s, p).is_suffix_of(s),
        strip_back(s, p).is_prefix_of(s),
        strip_prefix(p + s, p) == Some(s),
        !p.is_prefix_of(s) ==> strip_prefix(s, p) is None,
    decreases s.len(),
{
    assert((p + s).skip(p.len() as int) =~= s);
    assert((p + s).subrange(0, p.len() as int) =~= p);
    assert((s + p).take(s.len() as int) =~= s);
    assert((s + p).subrange(s.len() as int, (s.len() + p.len()) as int) =~= p);
    assert(p.is_prefix_of(p + s));
    assert(p.is_suffix_of(s + p));
    if p.is_prefix_of(s) {
        let rest = s.skip(p.len() as int);
        law_ends_are_stripped_as_often_as_they_stand(rest, p);
        let out = strip_front(rest, p);
        assert(out.is_suffix_of(rest));
        assert(s.subrange((s.len() - out.len()) as int, s.len() as int) =~= rest.subrange(
            (rest.len() - out.len()) as int,
            rest.len() as int,
        ));
    } else {
        assert(s.subrange(0, s.len() as int) =~= s);
    }
    if p.is_suffix_of(s) {
        let rest = s.take(s.len() - p.len());
        law_ends_are_stripped_as_often_as_they_stand(rest, p);
        let out = strip_back(rest, p);
        assert(out.is_prefix_of(rest));
        assert(s.subrange(0, out.len() as int) =~= rest.subrange(0, out.len() as int));
    } else {
        assert(s.subrange(0, s.len() as int) =~= s);
    }
}

/// The pieces of a text, put together with the separator again, are the text,
/// and the separator stands in none of them.
pub proof fn law_join_undoes_split(s: Seq<char>, c: char)
    ensures
        join(split(s, c), seq![c]) == s,
        forall|i: int| 0 <= i < split(s, c).len() ==> free_of(#[trigger] split(s, c)[i], c),
    decreases s.len(),
{
    let pieces = split(s, c);
    lemma_split_nonempty(s, c);
    if s.len() > 0 {
        let front = s.drop_last();
        let had = split(front, c);
        law_join_undoes_split(front, c);
        lemma_split_nonempty(front, c);
        if s.last() == c {
            assert(pieces == had.push(Seq::empty()));
            assert(pieces.drop_last() =~= had);
            assert(join(pieces, seq![c]) =~= s);
            assert forall|i: int| 0 <= i < pieces.len() implies free_of(
                #[trigger] pieces[i],
                c,
            ) by {
                if i < had.len() {
                    assert(pieces[i] == had[i]);
                }
            }
        } else {
            let tail = had.last().push(s.last());
            assert(pieces == had.drop_last().push(tail));
            assert(pieces.drop_last() =~= had.drop_last());
            if had.len() == 1 {
                assert(join(had, seq![c]) == had[0]);
                assert(join(pieces, seq![c]) == tail);
                assert(tail =~= s);
            } else {
                let most = join(had.drop_last(), seq![c]) + seq![c];
                assert(pieces.last() == tail);
                assert(join(pieces, seq![c]) == most + tail);
                assert(join(had, seq![c]) == most + had.last());
                assert(most + tail =~= (most + had.last()).push(s.last()));
                assert(front.push(s.last()) =~= s);
            }
            assert forall|i: int| 0 <= i < pieces.len() implies free_of(
                #[trigger] pieces[i],
                c,
            ) by {
                if i < had.len() - 1 {
                    assert(pieces[i] == had[i]);
                } else {
                    assert(free_of(had[had.len() - 1], c));
                }
            }
        }
    }
}

/// What stands before a character is all that comes before its first place, and
/// the whole text where it has none.
pub proof fn law_texts_end_before_the_character(a: Seq<char>, c: char, b: Seq<char>)
    requires
        free_of(a, c),
    ensures
        before(a + seq![c] + b, c) == a,
        before(a, c) == a,
        after_last(b + seq![c] + a, c) == a,
        after_last(a, c) == a,
    decreases a.len(),
{
    let s = a + seq![c] + b;
    let n = a.len() as int;
    assert(s.subrange(n, n + 1) =~= seq![c]);
    assert forall|j: int| 0 <= j < n implies !occurs_at(s, seq![c], j) by {
        assert(s[j] == a[j]);
        if s.subrange(j, j + 1) == seq![c] {
            assert(s.subrange(j, j + 1)[0] == s[j]);
        }
    }
    assert(first_at(s, seq![c], n));
    lemma_find_is(s, seq![c], n);
    assert(s.take(n) =~= a);
    if a.len() > 0 {
        let front = a.drop_last();
        assert(free_of(front, c)) by {
            assert forall|i: int| 0 <= i < front.len() implies #[trigger] front[i] != c by {
                assert(front[i] == a[i]);
            }
        }
        law_texts_end_before_the_character(front, c, b);
        assert((b + seq![c] + a).drop_last() =~= b + seq![c] + front);
        assert((b + seq![c] + a).last() == a.last());
        assert(a[a.len() - 1] != c);
        assert(front.push(a.last()) =~= a);
    } else {
        assert((b + seq![c] + a).last() == c);
        assert(after_last(b + seq![c] + a, c) =~= a);
        assert(after_last(a, c) =~= a);
    }
    if contains(a, seq![c]) {
        let i = choose|i: int| occurs_at(a, seq![c], i);
        assert(a.subrange(i, i + 1)[0] == a[i]);
    }
}

proof fn lemma_blank_in_front(a: Seq<char>, s: Seq<char>)
    requires
        blank(a),
    ensures
        trim_front(a + s) == trim_front(s),
    decreases a.len(),
{
    if a.len() > 0 {
        let rest = a.skip(1);
        assert(white_space(a[0]));
        assert((a + s)[0] == a[0]);
        assert((a + s).skip(1) =~= rest + s);
        assert(blank(rest)) by {
            assert forall|i: int| 0 <= i < rest.len() implies white_space(#[trigger] rest[i]) by {
                assert(rest[i] == a[i + 1]);
            }
        }
        lemma_blank_in_front(rest, s);
    } else {
        assert(a + s =~= s);
    }
}

proof fn lemma_blank_at_end(s: Seq<char>, b: Seq<char>)
    requires
        blank(b),
    ensures
        trim_back(s + b) == trim_back(s),
    decreases b.len(),
{
    if b.len() > 0 {
        let rest = b.drop_last();
        assert(white_space(b[b.len() - 1]));
        assert((s + b).last() == b[b.len() - 1]);
        assert((s + b).drop_last() =~= s + rest);
        assert(blank(rest)) by {
            assert forall|i: int| 0 <= i < rest.len() implies white_space(#[trigger] rest[i]) by {
                assert(rest[i] == b[i]);
            }
        }
        lemma_blank_at_end(s, rest);
    } else {
        assert(s + b =~= s);
    }
}

/// White space around a text does not matter: trimming gives the text back.
pub proof fn law_white_space_around_is_trimmed(a: Seq<char>, s: Seq<char>, b: Seq<char>)
    requires
        blank(a),
        blank(b),
        s.len() > 0,
        !white_space(s[0]),
        !white_space(s.last()),
    ensures
        trim(a + s + b) == s,
{
    assert(a + s + b =~= a + (s + b));
    lemma_blank_in_front(a, s + b);
    assert((s + b)[0] == s[0]);
    lemma_blank_at_end(s, b);
}

} // verus!
