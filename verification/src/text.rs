//! Character-level helpers shared by the attribute parsers: Unicode and
//! ASCII whitespace, trimming, ASCII case folding, and literal matching.
//!
//! Every helper is specified over `Seq<char>`, the view of `str` and
//! `String`, so callers can state their own contracts in the same terms.
use vstd::prelude::*;

verus! {

/// Unicode `White_Space`, the set that `char::is_whitespace` tests.
pub open spec fn is_white_space(c: char) -> bool {
    let u = c as u32;
    ||| 0x9 <= u <= 0xd
    ||| u == 0x20
    ||| u == 0x85
    ||| u == 0xa0
    ||| u == 0x1680
    ||| 0x2000 <= u <= 0x200a
    ||| u == 0x2028
    ||| u == 0x2029
    ||| u == 0x202f
    ||| u == 0x205f
    ||| u == 0x3000
}

/// ASCII whitespace as `u8::is_ascii_whitespace` defines it: space, tab,
/// line feed, form feed and carriage return.
pub open spec fn is_ascii_white_space(c: char) -> bool {
    c == ' ' || c == '\t' || c == '\n' || c == '\x0C' || c == '\r'
}

/// `s` without its leading Unicode whitespace.
pub open spec fn trim_start(s: Seq<char>) -> Seq<char>
    decreases s.len(),
{
    if s.len() > 0 && is_white_space(s[0]) {
        trim_start(s.drop_first())
    } else {
        s
    }
}

/// `s` without its trailing Unicode whitespace.
pub open spec fn trim_end(s: Seq<char>) -> Seq<char>
    decreases s.len(),
{
    if s.len() > 0 && is_white_space(s.last()) {
        trim_end(s.drop_last())
    } else {
        s
    }
}

/// `s` without leading and trailing Unicode whitespace (`str::trim`).
pub open spec fn trim(s: Seq<char>) -> Seq<char> {
    trim_end(trim_start(s))
}

/// ASCII lower-casing of one character (`char::to_ascii_lowercase`).
pub open spec fn lower_char(c: char) -> char {
    if 'A' <= c <= 'Z' {
        ((c as u32) + 32) as char
    } else {
        c
    }
}

/// ASCII lower-casing of a whole string (`str::to_ascii_lowercase`).
pub open spec fn ascii_lower(s: Seq<char>) -> Seq<char> {
    s.map_values(|c: char| lower_char(c))
}

/// ASCII case-insensitive equality (`str::eq_ignore_ascii_case`).
pub open spec fn eq_ignore_case(a: Seq<char>, b: Seq<char>) -> bool {
    ascii_lower(a) == ascii_lower(b)
}

/// Whether `s` begins with `p`.
pub open spec fn has_prefix(s: Seq<char>, p: Seq<char>) -> bool {
    p.len() <= s.len() && s.take(p.len() as int) == p
}

/// The index of the first occurrence of `c` in `s`, if any.
pub open spec fn first_index_of(s: Seq<char>, c: char) -> Option<int>
    decreases s.len(),
{
    if s.len() == 0 {
        None
    } else if s[0] == c {
        Some(0)
    } else {
        match first_index_of(s.drop_first(), c) {
            Some(i) => Some(i + 1),
            None => None,
        }
    }
}

proof fn lemma_first_index_of(s: Seq<char>, c: char)
    ensures
        first_index_of(s, c) matches Some(i) ==> 0 <= i < s.len() && s[i] == c && forall|j: int|
            0 <= j < i ==> s[j] != c,
        first_index_of(s, c) is None ==> forall|j: int| 0 <= j < s.len() ==> s[j] != c,
    decreases s.len(),
{
    if s.len() > 0 && s[0] != c {
        lemma_first_index_of(s.drop_first(), c);
        assert forall|j: int| 1 <= j < s.len() implies s[j] == s.drop_first()[j - 1] by {}
    }
}

/// The characters of `s`, in order.
pub fn chars_of(s: &str) -> (v: Vec<char>)
    ensures
        v@ == s@,
{
    let mut v: Vec<char> = Vec::new();
    for c in it: s.chars()
        invariant
            v@ == it.seq().take(it.index() as int),
            it.seq() == s@,
    {
        v.push(c);
    }
    v
}

/// `char::is_whitespace`.
pub fn char_is_white_space(c: char) -> (r: bool)
    ensures
        r == is_white_space(c),
{
    let u = c as u32;
    (0x9 <= u && u <= 0xd) || u == 0x20 || u == 0x85 || u == 0xa0 || u == 0x1680 || (0x2000 <= u
        && u <= 0x200a) || u == 0x2028 || u == 0x2029 || u == 0x202f || u == 0x205f || u == 0x3000
}

/// `u8::is_ascii_whitespace`, on a character.
pub fn char_is_ascii_white_space(c: char) -> (r: bool)
    ensures
        r == is_ascii_white_space(c),
{
    c == ' ' || c == '\t' || c == '\n' || c == '\x0C' || c == '\r'
}

/// `char::to_ascii_lowercase`.
pub fn char_to_lower(c: char) -> (r: char)
    ensures
        r == lower_char(c),
{
    if 'A' <= c && c <= 'Z' {
        let u = (c as u32) + 32;
        assert(0x61 <= u <= 0x7a);
        char_from_ascii(u)
    } else {
        c
    }
}

fn char_from_ascii(u: u32) -> (r: char)
    requires
        u < 0x80,
    ensures
        r == u as char,
{
    let b = u as u8;
    let c = b as char;
    assert(c as u32 == u);
    c
}

proof fn lemma_trim_start_skip(s: Seq<char>, i: int)
    requires
        0 <= i <= s.len(),
        forall|j: int| 0 <= j < i ==> is_white_space(s[j]),
    ensures
        trim_start(s) == trim_start(s.subrange(i, s.len() as int)),
    decreases i,
{
    if i > 0 {
        assert(s.drop_first() =~= s.subrange(1, s.len() as int));
        lemma_trim_start_skip(s.drop_first(), i - 1);
        assert(s.drop_first().subrange(i - 1, s.drop_first().len() as int) =~= s.subrange(
            i,
            s.len() as int,
        ));
    } else {
        assert(s =~= s.subrange(0, s.len() as int));
    }
}

proof fn lemma_trim_end_drop(s: Seq<char>, k: int)
    requires
        0 <= k <= s.len(),
        forall|j: int| k <= j < s.len() ==> is_white_space(s[j]),
    ensures
        trim_end(s) == trim_end(s.subrange(0, k)),
    decreases s.len() - k,
{
    if k < s.len() {
        assert(s.drop_last() =~= s.subrange(0, s.len() - 1));
        lemma_trim_end_drop(s.drop_last(), k);
        assert(s.drop_last().subrange(0, k) =~= s.subrange(0, k));
    } else {
        assert(s =~= s.subrange(0, k));
    }
}

/// The character range `[start, end)` of `v` that `trim` keeps.
pub fn trim_bounds(v: &Vec<char>) -> (r: (usize, usize))
    ensures
        r.0 <= r.1 <= v@.len(),
        v@.subrange(r.0 as int, r.1 as int) == trim(v@),
{
    let n = v.len();
    let mut i: usize = 0;
    while i < n && char_is_white_space(v[i])
        invariant
            i <= n == v@.len(),
            forall|j: int| 0 <= j < i ==> is_white_space(v@[j]),
        decreases n - i,
    {
        i = i + 1;
    }
    proof {
        lemma_trim_start_skip(v@, i as int);
    }
    let ghost rest = v@.subrange(i as int, n as int);
    assert(trim_start(rest) == rest);
    let mut k: usize = n;
    while k > i && char_is_white_space(v[k - 1])
        invariant
            i <= k <= n == v@.len(),
            forall|j: int| k <= j < n ==> is_white_space(v@[j]),
        decreases k,
    {
        k = k - 1;
    }
    proof {
        assert forall|j: int| k - i <= j < rest.len() implies is_white_space(rest[j]) by {
            assert(rest[j] == v@[j + i]);
        }
        lemma_trim_end_drop(rest, k - i);
        assert(rest.subrange(0, k - i) =~= v@.subrange(i as int, k as int));
        let t = v@.subrange(i as int, k as int);
        if t.len() > 0 {
            assert(t.last() == v@[k - 1]);
        }
        assert(trim_end(t) == t);
    }
    (i, k)
}

/// `s.trim()`.
pub fn trim_str(s: &str) -> (r: &str)
    ensures
        r@ == trim(s@),
{
    let v = chars_of(s);
    let (a, b) = trim_bounds(&v);
    s.substring_char(a, b)
}

/// Whether `a` and `b` hold the same characters.
pub fn str_eq(a: &str, b: &str) -> (r: bool)
    ensures
        r == (a@ == b@),
{
    let va = chars_of(a);
    let vb = chars_of(b);
    if va.len() != vb.len() {
        return false;
    }
    let mut i: usize = 0;
    while i < va.len()
        invariant
            i <= va@.len() == vb@.len(),
            va@ == a@,
            vb@ == b@,
            forall|j: int| 0 <= j < i ==> va@[j] == vb@[j],
        decreases va@.len() - i,
    {
        if va[i] != vb[i] {
            return false;
        }
        i = i + 1;
    }
    assert(va@ =~= vb@);
    true
}

/// `a.eq_ignore_ascii_case(b)`.
pub fn eq_ignore_ascii_case(a: &str, b: &str) -> (r: bool)
    ensures
        r == eq_ignore_case(a@, b@),
{
    let va = chars_of(a);
    let vb = chars_of(b);
    if va.len() != vb.len() {
        assert(ascii_lower(a@).len() != ascii_lower(b@).len());
        return false;
    }
    let mut i: usize = 0;
    while i < va.len()
        invariant
            i <= va@.len() == vb@.len(),
            va@ == a@,
            vb@ == b@,
            forall|j: int| 0 <= j < i ==> lower_char(va@[j]) == lower_char(vb@[j]),
        decreases va@.len() - i,
    {
        if char_to_lower(va[i]) != char_to_lower(vb[i]) {
            assert(ascii_lower(a@)[i as int] != ascii_lower(b@)[i as int]);
            return false;
        }
        i = i + 1;
    }
    assert(ascii_lower(a@) =~= ascii_lower(b@));
    true
}

/// The range of `v[a..b]` that `trim` keeps, as absolute positions.
pub fn trim_range(v: &Vec<char>, a: usize, b: usize) -> (r: (usize, usize))
    requires
        a <= b <= v@.len(),
    ensures
        a <= r.0 <= r.1 <= b,
        v@.subrange(r.0 as int, r.1 as int) == trim(v@.subrange(a as int, b as int)),
{
    let ghost s = v@.subrange(a as int, b as int);
    let mut i: usize = a;
    while i < b && char_is_white_space(v[i])
        invariant
            a <= i <= b <= v@.len(),
            forall|j: int| a <= j < i ==> is_white_space(v@[j]),
        decreases b - i,
    {
        i = i + 1;
    }
    proof {
        assert forall|j: int| 0 <= j < i - a implies is_white_space(s[j]) by {
            assert(s[j] == v@[j + a]);
        }
        lemma_trim_start_skip(s, i - a);
        assert(s.subrange(i - a, s.len() as int) =~= v@.subrange(i as int, b as int));
    }
    let ghost rest = v@.subrange(i as int, b as int);
    assert(trim_start(rest) == rest);
    let mut k: usize = b;
    while k > i && char_is_white_space(v[k - 1])
        invariant
            a <= i <= k <= b <= v@.len(),
            forall|j: int| k <= j < b ==> is_white_space(v@[j]),
        decreases k,
    {
        k = k - 1;
    }
    proof {
        assert forall|j: int| k - i <= j < rest.len() implies is_white_space(rest[j]) by {
            assert(rest[j] == v@[j + i]);
        }
        lemma_trim_end_drop(rest, k - i);
        assert(rest.subrange(0, k - i) =~= v@.subrange(i as int, k as int));
        let t = v@.subrange(i as int, k as int);
        if t.len() > 0 {
            assert(t.last() == v@[k - 1]);
        }
        assert(trim_end(t) == t);
    }
    (i, k)
}

/// Whether `v[a..b]` holds exactly the characters of `lit`.
pub fn range_eq(v: &Vec<char>, a: usize, b: usize, lit: &str) -> (r: bool)
    requires
        a <= b <= v@.len(),
    ensures
        r == (v@.subrange(a as int, b as int) == lit@),
{
    let l = chars_of(lit);
    if b - a != l.len() {
        return false;
    }
    let mut i: usize = 0;
    while i < l.len()
        invariant
            a <= b <= v@.len(),
            l@ == lit@,
            b - a == l@.len(),
            i <= l@.len(),
            forall|j: int| 0 <= j < i ==> v@[a + j] == l@[j],
        decreases l@.len() - i,
    {
        if v[a + i] != l[i] {
            assert(v@.subrange(a as int, b as int)[i as int] != lit@[i as int]);
            return false;
        }
        i = i + 1;
    }
    assert(v@.subrange(a as int, b as int) =~= l@);
    true
}

/// Whether `v[a..b]`, lower-cased in ASCII, holds exactly `lit`.
pub fn range_lower_eq(v: &Vec<char>, a: usize, b: usize, lit: &str) -> (r: bool)
    requires
        a <= b <= v@.len(),
    ensures
        r == (ascii_lower(v@.subrange(a as int, b as int)) == lit@),
{
    let l = chars_of(lit);
    if b - a != l.len() {
        assert(ascii_lower(v@.subrange(a as int, b as int)).len() != lit@.len());
        return false;
    }
    let mut i: usize = 0;
    while i < l.len()
        invariant
            a <= b <= v@.len(),
            l@ == lit@,
            b - a == l@.len(),
            i <= l@.len(),
            forall|j: int| 0 <= j < i ==> lower_char(v@[a + j]) == l@[j],
        decreases l@.len() - i,
    {
        if char_to_lower(v[a + i]) != l[i] {
            assert(ascii_lower(v@.subrange(a as int, b as int))[i as int] != lit@[i as int]);
            return false;
        }
        i = i + 1;
    }
    assert(ascii_lower(v@.subrange(a as int, b as int)) =~= l@);
    true
}

/// Whether `v[a..b]` and `lit` are equal ignoring ASCII case.
pub fn range_eq_ignore_case(v: &Vec<char>, a: usize, b: usize, lit: &str) -> (r: bool)
    requires
        a <= b <= v@.len(),
    ensures
        r == eq_ignore_case(v@.subrange(a as int, b as int), lit@),
{
    let l = chars_of(lit);
    if b - a != l.len() {
        assert(ascii_lower(v@.subrange(a as int, b as int)).len() != ascii_lower(lit@).len());
        return false;
    }
    let mut i: usize = 0;
    while i < l.len()
        invariant
            a <= b <= v@.len(),
            l@ == lit@,
            b - a == l@.len(),
            i <= l@.len(),
            forall|j: int| 0 <= j < i ==> lower_char(v@[a + j]) == lower_char(l@[j]),
        decreases l@.len() - i,
    {
        if char_to_lower(v[a + i]) != char_to_lower(l[i]) {
            assert(ascii_lower(v@.subrange(a as int, b as int))[i as int] != ascii_lower(
                lit@,
            )[i as int]);
            return false;
        }
        i = i + 1;
    }
    assert(ascii_lower(v@.subrange(a as int, b as int)) =~= ascii_lower(l@));
    true
}

/// The position of the first `c` in `v[a..b]`, if any.
pub fn find_in_range(v: &Vec<char>, a: usize, b: usize, c: char) -> (r: Option<usize>)
    requires
        a <= b <= v@.len(),
    ensures
        r matches Some(i) ==> first_index_of(v@.subrange(a as int, b as int), c) == Some(
            i - a,
        ) && a <= i < b,
        r is None ==> first_index_of(v@.subrange(a as int, b as int), c) is None,
{
    let ghost s = v@.subrange(a as int, b as int);
    proof {
        lemma_first_index_of(s, c);
    }
    let mut i = a;
    while i < b
        invariant
            a <= i <= b <= v@.len(),
            s == v@.subrange(a as int, b as int),
            forall|j: int| a <= j < i ==> v@[j] != c,
        decreases b - i,
    {
        if v[i] == c {
            proof {
                lemma_first_index_of(s, c);
                match first_index_of(s, c) {
                    Some(k) => {
                        if k < i - a {
                            assert(s[k] == v@[k + a]);
                        }
                        if i - a < k {
                            assert(s[i - a] == v@[i as int]);
                        }
                    },
                    None => {
                        assert(s[i - a] == v@[i as int]);
                    },
                }
            }
            return Some(i);
        }
        i = i + 1;
    }
    proof {
        if let Some(k) = first_index_of(s, c) {
            assert(s[k] == v@[k + a]);
        }
    }
    None
}


/// ASCII upper-casing of one character (`char::to_ascii_uppercase`).
pub open spec fn upper_char(c: char) -> char {
    if 'a' <= c <= 'z' {
        ((c as u32) - 32) as char
    } else {
        c
    }
}

/// ASCII upper-casing of a whole string (`str::to_ascii_uppercase`).
pub open spec fn ascii_upper(s: Seq<char>) -> Seq<char> {
    s.map_values(|c: char| upper_char(c))
}

/// `char::to_ascii_uppercase`.
pub fn char_to_upper(c: char) -> (r: char)
    ensures
        r == upper_char(c),
{
    if 'a' <= c && c <= 'z' {
        let u = (c as u32) - 32;
        char_from_ascii(u)
    } else {
        c
    }
}

/// Whether `v[a..b]`, upper-cased in ASCII, holds exactly `lit`.
pub fn range_upper_eq(v: &Vec<char>, a: usize, b: usize, lit: &str) -> (r: bool)
    requires
        a <= b <= v@.len(),
    ensures
        r == (ascii_upper(v@.subrange(a as int, b as int)) == lit@),
{
    let l = chars_of(lit);
    if b - a != l.len() {
        assert(ascii_upper(v@.subrange(a as int, b as int)).len() != lit@.len());
        return false;
    }
    let mut i: usize = 0;
    while i < l.len()
        invariant
            a <= b <= v@.len(),
            l@ == lit@,
            b - a == l@.len(),
            i <= l@.len(),
            forall|j: int| 0 <= j < i ==> upper_char(v@[a + j]) == l@[j],
        decreases l@.len() - i,
    {
        if char_to_upper(v[a + i]) != l[i] {
            assert(ascii_upper(v@.subrange(a as int, b as int))[i as int] != lit@[i as int]);
            return false;
        }
        i = i + 1;
    }
    assert(ascii_upper(v@.subrange(a as int, b as int)) =~= l@);
    true
}

/// `s` without its leading ASCII whitespace.
pub open spec fn skip_ascii_ws(s: Seq<char>) -> Seq<char>
    decreases s.len(),
{
    if s.len() > 0 && is_ascii_white_space(s[0]) {
        skip_ascii_ws(s.drop_first())
    } else {
        s
    }
}

/// Number of leading characters of `s` that are not ASCII whitespace.
pub open spec fn word_len(s: Seq<char>) -> nat
    decreases s.len(),
{
    if s.len() > 0 && !is_ascii_white_space(s[0]) {
        1 + word_len(s.drop_first())
    } else {
        0
    }
}

/// The first word of `s` split at ASCII whitespace
/// (`str::split_ascii_whitespace`), and what follows it.
pub open spec fn first_word(s: Seq<char>) -> Option<(Seq<char>, Seq<char>)> {
    let t = skip_ascii_ws(s);
    if t.len() == 0 {
        None
    } else {
        Some((t.take(word_len(t) as int), t.skip(word_len(t) as int)))
    }
}

proof fn lemma_skip_ascii_ws(s: Seq<char>, i: int)
    requires
        0 <= i <= s.len(),
        forall|j: int| 0 <= j < i ==> is_ascii_white_space(s[j]),
    ensures
        skip_ascii_ws(s) == skip_ascii_ws(s.skip(i)),
    decreases i,
{
    if i > 0 {
        lemma_skip_ascii_ws(s.drop_first(), i - 1);
        assert(s.drop_first().skip(i - 1) =~= s.skip(i));
    } else {
        assert(s.skip(0) =~= s);
    }
}

proof fn lemma_word_len(s: Seq<char>, i: int)
    requires
        0 <= i <= s.len(),
        forall|j: int| 0 <= j < i ==> !is_ascii_white_space(s[j]),
        i == s.len() || is_ascii_white_space(s[i]),
    ensures
        word_len(s) == i,
    decreases i,
{
    if i > 0 {
        lemma_word_len(s.drop_first(), i - 1);
    }
}

/// The range of the first word of `v[a..b]` (see [`first_word`]).
pub fn first_word_range(v: &Vec<char>, a: usize, b: usize) -> (r: Option<(usize, usize)>)
    requires
        a <= b <= v@.len(),
    ensures
        r matches Some((x, y)) ==> a <= x < y <= b && first_word(v@.subrange(a as int, b as int)) == Some(
            (v@.subrange(x as int, y as int), v@.subrange(y as int, b as int)),
        ),
        r is None ==> first_word(v@.subrange(a as int, b as int)) is None,
{
    let ghost s = v@.subrange(a as int, b as int);
    let mut i = a;
    while i < b && char_is_ascii_white_space(v[i])
        invariant
            a <= i <= b <= v@.len(),
            forall|j: int| a <= j < i ==> is_ascii_white_space(v@[j]),
        decreases b - i,
    {
        i = i + 1;
    }
    proof {
        assert forall|j: int| 0 <= j < i - a implies is_ascii_white_space(s[j]) by {
            assert(s[j] == v@[j + a]);
        }
        lemma_skip_ascii_ws(s, i - a);
        assert(s.skip(i - a) =~= v@.subrange(i as int, b as int));
    }
    let ghost t = v@.subrange(i as int, b as int);
    if i < b {
        assert(!is_ascii_white_space(t[0]));
        assert(skip_ascii_ws(t) == t);
    } else {
        assert(skip_ascii_ws(t) == t);
        return None;
    }
    let mut k = i;
    while k < b && !char_is_ascii_white_space(v[k])
        invariant
            a <= i <= k <= b <= v@.len(),
            forall|j: int| i <= j < k ==> !is_ascii_white_space(v@[j]),
        decreases b - k,
    {
        k = k + 1;
    }
    proof {
        assert forall|j: int| 0 <= j < k - i implies !is_ascii_white_space(t[j]) by {
            assert(t[j] == v@[j + i]);
        }
        if k < b {
            assert(t[k - i] == v@[k as int]);
        }
        lemma_word_len(t, k - i);
        assert(t.take(k - i) =~= v@.subrange(i as int, k as int));
        assert(t.skip(k - i) =~= v@.subrange(k as int, b as int));
    }
    Some((i, k))
}

} // verus!
