//! Text as sequences of characters: the vocabulary in which the log formats
//! are described, and the executable scanners that implement it.
//!
//! Executable helpers work on a `Vec<char>` and a half-open index range, so
//! that a line is decoded once and then sliced without copying.

use vstd::prelude::*;
use vstd::std_specs::iter::IteratorSpec;

verus! {

/// `String::push` appends one character.
pub assume_specification[ String::push ](s: &mut String, ch: char)
    ensures
        final(s)@ == old(s)@.push(ch),
;

/// The characters of an optional string.
pub open spec fn text_of(s: Option<String>) -> Option<Seq<char>> {
    match s {
        Some(t) => Some(t@),
        None => None,
    }
}

/// The characters of an optional string slice.
pub open spec fn slice_text(s: Option<&str>) -> Option<Seq<char>> {
    match s {
        Some(t) => Some(t@),
        None => None,
    }
}

/// The characters of each of `strings`.
pub open spec fn texts(strings: Seq<String>) -> Seq<Seq<char>> {
    strings.map_values(|s: String| s@)
}

/// The characters of `s`, in order.
pub fn chars_of(s: &str) -> (v: Vec<char>)
    ensures
        v@ == s@,
{
    let mut v: Vec<char> = Vec::new();
    for c in it: s.chars()
        invariant
            it.seq() == s@,
            v@ == s@.take(it.index() as int),
    {
        v.push(c);
    }
    v
}

/// The string made of `v[from..to]`.
pub fn string_of_range(v: &Vec<char>, from: usize, to: usize) -> (s: String)
    requires
        from <= to <= v.len(),
    ensures
        s@ == v@.subrange(from as int, to as int),
{
    let mut s = String::new();
    let mut i: usize = from;
    while i < to
        invariant
            from <= i <= to <= v.len(),
            s@ == v@.subrange(from as int, i as int),
        decreases to - i,
    {
        s.push(v[i]);
        i += 1;
    }
    s
}

/// Characters with the Unicode `White_Space` property.
pub open spec fn is_whitespace(c: char) -> bool {
    let u = c as u32;
    ||| 0x09 <= u <= 0x0D
    ||| u == 0x20
    ||| u == 0x85
    ||| u == 0xA0
    ||| u == 0x1680
    ||| 0x2000 <= u <= 0x200A
    ||| u == 0x2028
    ||| u == 0x2029
    ||| u == 0x202F
    ||| u == 0x205F
    ||| u == 0x3000
}

/// Whether `c` is whitespace.
pub fn char_is_whitespace(c: char) -> (r: bool)
    ensures
        r == is_whitespace(c),
{
    let u: u32 = c as u32;
    (0x09 <= u && u <= 0x0D) || u == 0x20 || u == 0x85 || u == 0xA0 || u == 0x1680 || (0x2000 <= u
        && u <= 0x200A) || u == 0x2028 || u == 0x2029 || u == 0x202F || u == 0x205F || u == 0x3000
}

/// How many whitespace characters `s` starts with.
pub open spec fn leading_whitespace(s: Seq<char>) -> nat
    decreases s.len(),
{
    if s.len() > 0 && is_whitespace(s[0]) {
        1 + leading_whitespace(s.skip(1))
    } else {
        0
    }
}

/// How many whitespace characters `s` ends with.
pub open spec fn trailing_whitespace(s: Seq<char>) -> nat
    decreases s.len(),
{
    if s.len() > 0 && is_whitespace(s.last()) {
        1 + trailing_whitespace(s.drop_last())
    } else {
        0
    }
}

/// `s` without its leading and trailing whitespace.
pub open spec fn trimmed(s: Seq<char>) -> Seq<char> {
    let rest = s.skip(leading_whitespace(s) as int);
    rest.take(rest.len() - trailing_whitespace(rest))
}

/// The leading whitespace ends at the first character that is none.
pub proof fn lemma_leading_whitespace(s: Seq<char>, k: int)
    requires
        0 <= k <= s.len(),
        forall|i: int| 0 <= i < k ==> is_whitespace(s[i]),
        k == s.len() || !is_whitespace(s[k]),
    ensures
        leading_whitespace(s) == k,
    decreases k,
{
    if k > 0 {
        lemma_leading_whitespace(s.skip(1), k - 1);
    }
}

/// The trailing whitespace begins after the last character that is none.
pub proof fn lemma_trailing_whitespace(s: Seq<char>, k: int)
    requires
        0 <= k <= s.len(),
        forall|i: int| s.len() - k <= i < s.len() ==> is_whitespace(s[i]),
        k == s.len() || !is_whitespace(s[s.len() - k - 1]),
    ensures
        trailing_whitespace(s) == k,
    decreases k,
{
    if k > 0 {
        lemma_trailing_whitespace(s.drop_last(), k - 1);
    }
}

/// The bounds of the trimmed part of `v[from..to]`.
pub fn trim_bounds(v: &Vec<char>, from: usize, to: usize) -> (r: (usize, usize))
    requires
        from <= to <= v.len(),
    ensures
        from <= r.0 <= r.1 <= to,
        r.0 == from + leading_whitespace(v@.subrange(from as int, to as int)),
        v@.subrange(r.0 as int, r.1 as int) == trimmed(v@.subrange(from as int, to as int)),
{
    let mut a: usize = from;
    while a < to && char_is_whitespace(v[a])
        invariant
            from <= a <= to <= v.len(),
            forall|i: int| from <= i < a ==> is_whitespace(v@[i]),
        decreases to - a,
    {
        a += 1;
    }
    let mut b: usize = to;
    while a < b && char_is_whitespace(v[b - 1])
        invariant
            a <= b <= to <= v.len(),
            forall|i: int| b <= i < to ==> is_whitespace(v@[i]),
        decreases b - a,
    {
        b -= 1;
    }
    proof {
        let s = v@.subrange(from as int, to as int);
        lemma_leading_whitespace(s, a - from);
        let rest = s.skip(a - from);
        assert(rest == v@.subrange(a as int, to as int));
        lemma_trailing_whitespace(rest, to - b);
        assert(rest.take(rest.len() - (to - b)) == v@.subrange(a as int, b as int));
    }
    (a, b)
}

/// The index of the first `c` in `s`, or the length of `s` where there is none.
pub open spec fn first_index(s: Seq<char>, c: char) -> int
    decreases s.len(),
{
    if s.len() == 0 || s[0] == c {
        0
    } else {
        1 + first_index(s.skip(1), c)
    }
}

/// An index with no `c` before it, that is the end or holds `c`, is the
/// first index of `c`.
pub proof fn lemma_first_index(s: Seq<char>, c: char, k: int)
    requires
        0 <= k <= s.len(),
        forall|i: int| 0 <= i < k ==> s[i] != c,
        k == s.len() || s[k] == c,
    ensures
        first_index(s, c) == k,
    decreases k,
{
    if k > 0 {
        lemma_first_index(s.skip(1), c, k - 1);
    }
}

/// What `first_index` finds: either the end, or an occurrence of `c` with
/// none before it.
pub proof fn lemma_first_index_is_first(s: Seq<char>, c: char)
    ensures
        0 <= first_index(s, c) <= s.len(),
        first_index(s, c) < s.len() ==> s[first_index(s, c)] == c,
        forall|i: int| 0 <= i < first_index(s, c) ==> s[i] != c,
    decreases s.len(),
{
    if s.len() == 0 || s[0] == c {
    } else {
        lemma_first_index_is_first(s.skip(1), c);
        assert forall|i: int| 0 <= i < first_index(s, c) implies s[i] != c by {
            if i > 0 {
                assert(s[i] == s.skip(1)[i - 1]);
            }
        }
    }
}

/// The index of the first `c` in `v[from..to]`, or `to` where there is none.
pub fn find_char(v: &Vec<char>, from: usize, to: usize, c: char) -> (i: usize)
    requires
        from <= to <= v.len(),
    ensures
        from <= i <= to,
        i == from + first_index(v@.subrange(from as int, to as int), c),
{
    let mut i: usize = from;
    while i < to && v[i] != c
        invariant
            from <= i <= to <= v.len(),
            forall|k: int| from <= k < i ==> v@[k] != c,
        decreases to - i,
    {
        i += 1;
    }
    proof {
        lemma_first_index(v@.subrange(from as int, to as int), c, i - from);
    }
    i
}

/// Whether `c` occurs in `v[from..to]`.
pub fn range_contains(v: &Vec<char>, from: usize, to: usize, c: char) -> (r: bool)
    requires
        from <= to <= v.len(),
    ensures
        r == v@.subrange(from as int, to as int).contains(c),
{
    let i = find_char(v, from, to, c);
    proof {
        let s = v@.subrange(from as int, to as int);
        lemma_first_index_is_first(s, c);
        if i < to {
            assert(s[i - from] == c);
        }
    }
    i < to
}

/// The number of bytes that `c` takes in UTF-8.
pub open spec fn utf8_width(c: char) -> nat {
    let u = c as u32;
    if u < 0x80 {
        1
    } else if u < 0x800 {
        2
    } else if u < 0x10000 {
        3
    } else {
        4
    }
}

/// The number of bytes that `s` takes in UTF-8.
pub open spec fn utf8_len(s: Seq<char>) -> nat
    decreases s.len(),
{
    if s.len() == 0 {
        0
    } else {
        utf8_len(s.drop_last()) + utf8_width(s.last())
    }
}

/// A prefix takes no more bytes than the whole.
pub proof fn lemma_utf8_len_grows(s: Seq<char>, k: int)
    requires
        0 <= k <= s.len(),
    ensures
        utf8_len(s.take(k)) <= utf8_len(s),
    decreases s.len() - k,
{
    if k == s.len() {
        assert(s.take(k) == s);
    } else {
        lemma_utf8_len_grows(s, k + 1);
        assert(s.take(k + 1).drop_last() == s.take(k));
    }
}

/// Whether `v[from..to]` takes at least `min` bytes in UTF-8.
pub fn utf8_len_at_least(v: &Vec<char>, from: usize, to: usize, min: usize) -> (r: bool)
    requires
        from <= to <= v.len(),
    ensures
        r == (utf8_len(v@.subrange(from as int, to as int)) >= min),
{
    let ghost s = v@.subrange(from as int, to as int);
    let mut total: usize = 0;
    let mut i: usize = from;
    while i < to && total < min
        invariant
            from <= i <= to <= v.len(),
            s == v@.subrange(from as int, to as int),
            total == utf8_len(s.take(i - from)),
        decreases to - i,
    {
        let u: u32 = v[i] as u32;
        let w: usize = if u < 0x80 {
            1
        } else if u < 0x800 {
            2
        } else if u < 0x10000 {
            3
        } else {
            4
        };
        proof {
            let t = s.take(i - from + 1);
            assert(t.drop_last() == s.take(i - from));
            assert(t.last() == v@[i as int]);
            lemma_utf8_len_grows(s, i - from + 1);
        }
        if w >= min - total {
            return true;
        }
        total = total + w;
        i += 1;
    }
    proof {
        if i == to {
            assert(s.take(i - from) == s);
        } else {
            lemma_utf8_len_grows(s, i - from);
        }
    }
    total >= min
}

/// The part of `s` after its last `sep`, or all of `s` where it holds none.
pub open spec fn last_segment(s: Seq<char>, sep: char) -> Seq<char>
    decreases s.len(),
{
    if s.len() == 0 || s.last() == sep {
        Seq::empty()
    } else {
        last_segment(s.drop_last(), sep).push(s.last())
    }
}

/// The last segment begins after a `sep` that no other follows, or at the
/// start where there is no `sep`.
pub proof fn lemma_last_segment(s: Seq<char>, sep: char, k: int)
    requires
        0 <= k <= s.len(),
        forall|i: int| k <= i < s.len() ==> s[i] != sep,
        k == 0 || s[k - 1] == sep,
    ensures
        last_segment(s, sep) == s.skip(k),
    decreases s.len(),
{
    if k < s.len() {
        lemma_last_segment(s.drop_last(), sep, k);
        assert(s.drop_last().skip(k).push(s.last()) == s.skip(k));
    } else {
        assert(s.skip(k) == Seq::<char>::empty());
    }
}

/// Where the last segment of `v`, as `sep` divides it, begins.
pub fn last_segment_start(v: &Vec<char>, sep: char) -> (k: usize)
    ensures
        k <= v.len(),
        v@.skip(k as int) == last_segment(v@, sep),
{
    let mut k: usize = v.len();
    while k > 0 && v[k - 1] != sep
        invariant
            k <= v.len(),
            forall|i: int| k <= i < v.len() ==> v@[i] != sep,
        decreases k,
    {
        k -= 1;
    }
    proof {
        lemma_last_segment(v@, sep, k as int);
    }
    k
}

/// The code of `c`, with the ASCII capitals mapped to their small letters.
pub open spec fn folded(c: char) -> u32 {
    let u = c as u32;
    if 65 <= u <= 90 {
        (u + 32) as u32
    } else {
        u
    }
}

/// Whether `word` stands in `s` at index `i`, ASCII letters compared without
/// regard to case. `word` is meant to hold no capitals.
pub open spec fn occurs_at(s: Seq<char>, i: int, word: Seq<char>) -> bool {
    &&& 0 <= i
    &&& i + word.len() <= s.len()
    &&& forall|j: int| 0 <= j < word.len() ==> folded(#[trigger] s[i + j]) == word[j] as u32
}

/// Whether `word` stands somewhere in `s`, ASCII letters compared without
/// regard to case.
pub open spec fn mentions(s: Seq<char>, word: Seq<char>) -> bool {
    exists|i: int| occurs_at(s, i, word)
}

fn fold_char(c: char) -> (u: u32)
    ensures
        u == folded(c),
{
    let u: u32 = c as u32;
    if 65 <= u && u <= 90 {
        u + 32
    } else {
        u
    }
}

fn word_at(v: &Vec<char>, i: usize, word: &Vec<char>) -> (r: bool)
    requires
        i + word.len() <= v.len(),
    ensures
        r == occurs_at(v@, i as int, word@),
{
    let mut j: usize = 0;
    while j < word.len()
        invariant
            j <= word.len(),
            i + word.len() <= v.len(),
            forall|k: int| 0 <= k < j ==> folded(#[trigger] v@[i + k]) == word@[k] as u32,
        decreases word.len() - j,
    {
        if fold_char(v[i + j]) != word[j] as u32 {
            return false;
        }
        j += 1;
    }
    true
}

/// Whether `word` stands somewhere in `v`, ASCII letters compared without
/// regard to case.
pub fn mentions_word(v: &Vec<char>, word: &str) -> (r: bool)
    ensures
        r == mentions(v@, word@),
{
    let w = chars_of(word);
    if w.len() > v.len() {
        assert(forall|i: int| !occurs_at(v@, i, w@));
        return false;
    }
    let last: usize = v.len() - w.len();
    let mut i: usize = 0;
    loop
        invariant
            i <= last,
            last == v.len() - w.len(),
            w.len() <= v.len(),
            w@ == word@,
            forall|k: int| 0 <= k < i ==> !occurs_at(v@, k, w@),
        decreases last - i,
    {
        if word_at(v, i, &w) {
            return true;
        }
        if i == last {
            assert(forall|k: int| !occurs_at(v@, k, w@));
            return false;
        }
        i += 1;
    }
}

/// Whether `a` comes strictly before `b` in the order of strings:
/// character by character, a proper prefix first.
pub open spec fn lex_less(a: Seq<char>, b: Seq<char>) -> bool
    decreases a.len(),
{
    if b.len() == 0 {
        false
    } else if a.len() == 0 {
        true
    } else if a[0] != b[0] {
        a[0] < b[0]
    } else {
        lex_less(a.skip(1), b.skip(1))
    }
}

/// Whether `a` comes strictly before `b` in the order of strings.
pub fn string_less(a: &str, b: &str) -> (r: bool)
    ensures
        r == lex_less(a@, b@),
{
    let mut ia = a.chars();
    let mut ib = b.chars();
    loop
        invariant
            lex_less(a@, b@) == lex_less(ia.remaining(), ib.remaining()),
            ib.decrease() is Some,
        decreases ib.decrease()->0,
    {
        let ghost ra = ia.remaining();
        let ghost rb = ib.remaining();
        let nb = ib.next();
        match nb {
            None => {
                return false;
            },
            Some(cb) => {
                let na = ia.next();
                match na {
                    None => {
                        return true;
                    },
                    Some(ca) => {
                        if ca != cb {
                            return ca < cb;
                        }
                        assert(ia.remaining() == ra.skip(1));
                        assert(ib.remaining() == rb.skip(1));
                    },
                }
            },
        }
    }
}

/// Whether `a` and `b` hold the same characters.
pub fn same_text(a: &str, b: &str) -> (r: bool)
    ensures
        r == (a@ == b@),
{
    let mut ia = a.chars();
    let mut ib = b.chars();
    loop
        invariant
            (a@ == b@) == (ia.remaining() == ib.remaining()),
            ib.decrease() is Some,
        decreases ib.decrease()->0,
    {
        let ghost ra = ia.remaining();
        let ghost rb = ib.remaining();
        let nb = ib.next();
        let na = ia.next();
        match (na, nb) {
            (None, None) => {
                assert(ra =~= rb);
                return true;
            },
            (Some(ca), Some(cb)) => {
                if ca != cb {
                    assert(ra[0] != rb[0]);
                    return false;
                }
                assert(ia.remaining() == ra.skip(1));
                assert(ib.remaining() == rb.skip(1));
                assert(ra =~= seq![ca] + ra.skip(1));
                assert(rb =~= seq![cb] + rb.skip(1));
            },
            _ => {
                assert(ra.len() != rb.len());
                return false;
            },
        }
    }
}

/// No string comes before itself.
pub proof fn lemma_lex_irreflexive(a: Seq<char>)
    ensures
        !lex_less(a, a),
    decreases a.len(),
{
    if a.len() > 0 {
        lemma_lex_irreflexive(a.skip(1));
    }
}

/// The order of strings is transitive.
pub proof fn lemma_lex_transitive(a: Seq<char>, b: Seq<char>, c: Seq<char>)
    requires
        lex_less(a, b),
        lex_less(b, c),
    ensures
        lex_less(a, c),
    decreases a.len(),
{
    if a.len() > 0 && a[0] == b[0] && b[0] == c[0] {
        lemma_lex_transitive(a.skip(1), b.skip(1), c.skip(1));
    }
}

/// Of two different strings one comes before the other.
pub proof fn lemma_lex_total(a: Seq<char>, b: Seq<char>)
    ensures
        lex_less(a, b) || lex_less(b, a) || a == b,
    decreases a.len(),
{
    if a.len() > 0 && b.len() > 0 && a[0] == b[0] {
        lemma_lex_total(a.skip(1), b.skip(1));
        if a.skip(1) == b.skip(1) {
            assert(a =~= seq![a[0]] + a.skip(1));
            assert(b =~= seq![b[0]] + b.skip(1));
        }
    } else if a.len() == 0 && b.len() == 0 {
        assert(a =~= b);
    }
}

/// Whether `word` stands in `s` at index `i`.
pub open spec fn stands_at(s: Seq<char>, i: int, word: Seq<char>) -> bool {
    0 <= i && i + word.len() <= s.len() && s.subrange(i, i + word.len()) == word
}

/// Whether `word` stands somewhere in `s`.
pub open spec fn holds(s: Seq<char>, word: Seq<char>) -> bool {
    exists|i: int| stands_at(s, i, word)
}

/// Whether `s` begins with `word`.
pub open spec fn starts_with(s: Seq<char>, word: Seq<char>) -> bool {
    stands_at(s, 0, word)
}

/// Whether `s` ends with `word`.
pub open spec fn ends_with(s: Seq<char>, word: Seq<char>) -> bool {
    stands_at(s, s.len() - word.len(), word)
}

/// Whether `word` stands in `v[..to]` at index `i`.
pub fn range_stands_at(v: &Vec<char>, to: usize, i: usize, word: &Vec<char>) -> (r: bool)
    requires
        i <= to <= v.len(),
    ensures
        r == stands_at(v@.take(to as int), i as int, word@),
{
    if word.len() > to - i {
        return false;
    }
    let ghost s = v@.take(to as int);
    let mut j: usize = 0;
    while j < word.len()
        invariant
            j <= word.len(),
            i + word.len() <= to <= v.len(),
            s == v@.take(to as int),
            s.subrange(i as int, i + j) == word@.take(j as int),
        decreases word.len() - j,
    {
        if v[i + j] != word[j] {
            assert(s.subrange(i as int, i + word.len())[j as int] != word@[j as int]);
            return false;
        }
        assert(s.subrange(i as int, i + j + 1) == s.subrange(i as int, i + j).push(
            v@[i + j],
        ));
        assert(word@.take(j + 1) == word@.take(j as int).push(word@[j as int]));
        j += 1;
    }
    assert(word@.take(word.len() as int) == word@);
    true
}

/// Whether `s` begins with `word`.
pub fn str_starts_with(s: &Vec<char>, word: &str) -> (r: bool)
    ensures
        r == starts_with(s@, word@),
{
    let w = chars_of(word);
    assert(s@.take(s.len() as int) == s@);
    range_stands_at(s, s.len(), 0, &w)
}

/// Whether `v[..to]` ends with `word`.
pub fn range_ends_with(v: &Vec<char>, to: usize, word: &Vec<char>) -> (r: bool)
    requires
        to <= v.len(),
    ensures
        r == ends_with(v@.take(to as int), word@),
{
    if word.len() > to {
        return false;
    }
    range_stands_at(v, to, to - word.len(), word)
}

/// Whether `word` stands somewhere in `s`.
pub fn str_holds(s: &Vec<char>, word: &str) -> (r: bool)
    ensures
        r == holds(s@, word@),
{
    let w = chars_of(word);
    assert(s@.take(s.len() as int) == s@);
    if w.len() > s.len() {
        assert(forall|i: int| !stands_at(s@, i, w@));
        return false;
    }
    let last: usize = s.len() - w.len();
    let mut i: usize = 0;
    loop
        invariant
            i <= last,
            last == s.len() - w.len(),
            w.len() <= s.len(),
            w@ == word@,
            s@.take(s.len() as int) == s@,
            forall|k: int| 0 <= k < i ==> !stands_at(s@, k, w@),
        decreases last - i,
    {
        if range_stands_at(s, s.len(), i, &w) {
            return true;
        }
        if i == last {
            assert(forall|k: int| !stands_at(s@, k, w@));
            return false;
        }
        i += 1;
    }
}

/// `s` with every `word` that it ends with taken off, one after another.
pub open spec fn without_suffixes(s: Seq<char>, word: Seq<char>) -> Seq<char>
    decreases s.len(),
{
    if word.len() > 0 && ends_with(s, word) {
        without_suffixes(s.take(s.len() - word.len()), word)
    } else {
        s
    }
}

/// The length of `v[..to]` with every `word` that it ends with taken off.
pub fn suffixes_start(v: &Vec<char>, to: usize, word: &str) -> (k: usize)
    requires
        to <= v.len(),
    ensures
        k <= to,
        v@.take(k as int) == without_suffixes(v@.take(to as int), word@),
{
    let w = chars_of(word);
    let mut k: usize = to;
    if w.len() == 0 {
        return k;
    }
    while range_ends_with(v, k, &w)
        invariant
            k <= to <= v.len(),
            w@ == word@,
            w.len() > 0,
            without_suffixes(v@.take(k as int), w@) == without_suffixes(v@.take(to as int), w@),
        decreases k,
    {
        assert(v@.take(k as int).take(k - w.len()) == v@.take(k - w.len()));
        k = k - w.len();
    }
    k
}

/// The words of `s`: its longest runs of characters that are no whitespace,
/// in order.
pub open spec fn words(s: Seq<char>) -> Seq<Seq<char>>
    decreases s.len(),
{
    if s.len() == 0 {
        Seq::empty()
    } else if is_whitespace(s[0]) {
        words(s.skip(1))
    } else {
        let end = word_end(s);
        if 0 < end <= s.len() {
            seq![s.take(end)] + words(s.skip(end))
        } else {
            Seq::empty()
        }
    }
}

/// The index of the first whitespace in `s`, or its length where there is
/// none.
pub open spec fn word_end(s: Seq<char>) -> int
    decreases s.len(),
{
    if s.len() == 0 || is_whitespace(s[0]) {
        0
    } else {
        1 + word_end(s.skip(1))
    }
}

/// A word ends at the first whitespace.
pub proof fn lemma_word_end(s: Seq<char>, k: int)
    requires
        0 <= k <= s.len(),
        forall|i: int| 0 <= i < k ==> !is_whitespace(s[i]),
        k == s.len() || is_whitespace(s[k]),
    ensures
        word_end(s) == k,
    decreases k,
{
    if k > 0 {
        lemma_word_end(s.skip(1), k - 1);
    }
}

/// The bounds of each word of `v[from..to]`.
pub fn split_words(v: &Vec<char>, from: usize, to: usize) -> (found: Vec<(usize, usize)>)
    requires
        from <= to <= v.len(),
    ensures
        found@.len() == words(v@.subrange(from as int, to as int)).len(),
        forall|i: int|
            0 <= i < found@.len() ==> {
                &&& from <= (#[trigger] found@[i]).0 < found@[i].1 <= to
                &&& v@.subrange(found@[i].0 as int, found@[i].1 as int) == words(
                    v@.subrange(from as int, to as int),
                )[i]
            },
        forall|i: int, j: int|
            0 <= i < j < found@.len() ==> (#[trigger] found@[i]).1 < (#[trigger] found@[j]).0,
{
    let ghost all = words(v@.subrange(from as int, to as int));
    let mut found: Vec<(usize, usize)> = Vec::new();
    let mut i: usize = from;
    let ghost mut done: Seq<Seq<char>> = Seq::empty();
    while i < to
        invariant
            from <= i <= to <= v.len(),
            all == words(v@.subrange(from as int, to as int)),
            done + words(v@.subrange(i as int, to as int)) == all,
            done.len() == found@.len(),
            forall|k: int|
                0 <= k < found@.len() ==> {
                    &&& from <= (#[trigger] found@[k]).0 < found@[k].1 <= i
                    &&& (found@[k].1 < i || i == to || is_whitespace(v@[i as int]))
                    &&& v@.subrange(found@[k].0 as int, found@[k].1 as int) == done[k]
                },
            forall|a: int, b: int|
                0 <= a < b < found@.len() ==> (#[trigger] found@[a]).1 < (#[trigger] found@[b]).0,
        decreases to - i,
    {
        let ghost rest = v@.subrange(i as int, to as int);
        if char_is_whitespace(v[i]) {
            assert(rest.skip(1) == v@.subrange(i + 1, to as int));
            i += 1;
        } else {
            let start = i;
            while i < to && !char_is_whitespace(v[i])
                invariant
                    start <= i <= to <= v.len(),
                    forall|k: int| start <= k < i ==> !is_whitespace(v@[k]),
                decreases to - i,
            {
                i += 1;
            }
            proof {
                lemma_word_end(rest, i - start);
                assert(rest.take(i - start) == v@.subrange(start as int, i as int));
                assert(rest.skip(i - start) == v@.subrange(i as int, to as int));
                let word = v@.subrange(start as int, i as int);
                assert(done.push(word) + words(v@.subrange(i as int, to as int)) == done + words(
                    rest,
                ));
                done = done.push(word);
            }
            found.push((start, i));
        }
    }
    proof {
        assert(words(v@.subrange(to as int, to as int)) == Seq::<Seq<char>>::empty());
        assert(done + Seq::<Seq<char>>::empty() == done);
    }
    found
}


/// `line` without the carriage return that it may end with.
pub open spec fn without_carriage_return(line: Seq<char>) -> Seq<char> {
    if line.len() > 0 && line.last() == '\r' {
        line.drop_last()
    } else {
        line
    }
}

/// The lines of `text`. A line ends with a line feed, which may follow a
/// carriage return; neither belongs to the line. What follows the last line
/// feed is a line too, whole, unless it is empty.
pub open spec fn lines(text: Seq<char>) -> Seq<Seq<char>>
    decreases text.len(),
{
    if text.len() == 0 {
        Seq::empty()
    } else {
        let end = first_index(text, '\n');
        if 0 <= end < text.len() {
            seq![without_carriage_return(text.take(end))] + lines(text.skip(end + 1))
        } else {
            seq![text]
        }
    }
}

/// The bounds of each line of `v[from..to]`.
pub fn line_bounds(v: &Vec<char>, from: usize, to: usize) -> (found: Vec<(usize, usize)>)
    requires
        from <= to <= v.len(),
    ensures
        found@.len() == lines(v@.subrange(from as int, to as int)).len(),
        forall|k: int|
            0 <= k < found@.len() ==> {
                &&& from <= (#[trigger] found@[k]).0 <= found@[k].1 <= to
                &&& v@.subrange(found@[k].0 as int, found@[k].1 as int) == lines(
                    v@.subrange(from as int, to as int),
                )[k]
            },
{
    let ghost all = lines(v@.subrange(from as int, to as int));
    let ghost mut done: Seq<Seq<char>> = Seq::empty();
    let mut found: Vec<(usize, usize)> = Vec::new();
    let mut start: usize = from;
    while start < to
        invariant
            from <= start <= to <= v.len(),
            all == lines(v@.subrange(from as int, to as int)),
            done + lines(v@.subrange(start as int, to as int)) == all,
            done.len() == found@.len(),
            forall|k: int|
                0 <= k < found@.len() ==> {
                    &&& from <= (#[trigger] found@[k]).0 <= found@[k].1 <= to
                    &&& v@.subrange(found@[k].0 as int, found@[k].1 as int) == done[k]
                },
        decreases to - start,
    {
        let ghost rest = v@.subrange(start as int, to as int);
        let p = find_char(v, start, to, '\n');
        if p < to {
            let end: usize = if p > start && v[p - 1] == '\r' {
                p - 1
            } else {
                p
            };
            proof {
                let line = v@.subrange(start as int, end as int);
                assert(rest.take(p - start) == v@.subrange(start as int, p as int));
                assert(line == without_carriage_return(rest.take(p - start)));
                assert(rest.skip(p - start + 1) == v@.subrange(p + 1, to as int));
                assert(done.push(line) + lines(v@.subrange(p + 1, to as int)) == done + lines(
                    rest,
                ));
                done = done.push(line);
            }
            found.push((start, end));
            start = p + 1;
        } else {
            proof {
                assert(lines(v@.subrange(to as int, to as int)) == Seq::<Seq<char>>::empty());
                assert(done.push(rest) + lines(v@.subrange(to as int, to as int)) == done + lines(
                    rest,
                ));
                done = done.push(rest);
            }
            found.push((start, to));
            start = to;
        }
    }
    proof {
        assert(lines(v@.subrange(to as int, to as int)) == Seq::<Seq<char>>::empty());
        assert(done + Seq::<Seq<char>>::empty() == done);
    }
    found
}

} // verus!
