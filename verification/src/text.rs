//! Character-level helpers shared by the parsers: character classes,
//! conversions between strings and character vectors, and lexicographic
//! comparison of character sequences.
use vstd::prelude::*;

verus! {

/// ASCII whitespace as `u8::is_ascii_whitespace` defines it.
pub open spec fn is_ws(c: char) -> bool {
    c == ' ' || c == '\t' || c == '\n' || c == '\x0C' || c == '\r'
}

pub open spec fn is_upper(c: char) -> bool {
    'A' <= c && c <= 'Z'
}

pub open spec fn is_lower(c: char) -> bool {
    'a' <= c && c <= 'z'
}

pub open spec fn is_digit(c: char) -> bool {
    '0' <= c && c <= '9'
}

pub fn char_is_ws(c: char) -> (r: bool)
    ensures
        r == is_ws(c),
{
    c == ' ' || c == '\t' || c == '\n' || c == '\x0C' || c == '\r'
}

pub fn char_is_upper(c: char) -> (r: bool)
    ensures
        r == is_upper(c),
{
    'A' <= c && c <= 'Z'
}

pub fn char_is_digit(c: char) -> (r: bool)
    ensures
        r == is_digit(c),
{
    '0' <= c && c <= '9'
}

/// The characters of a string slice, in order.
pub fn chars_of(s: &str) -> (r: Vec<char>)
    ensures
        r@ == s@,
{
    let n = s.unicode_len();
    let mut r: Vec<char> = Vec::new();
    let mut i: usize = 0;
    while i < n
        invariant
            n == s@.len(),
            i <= n,
            r@ == s@.subrange(0, i as int),
        decreases n - i,
    {
        let c = s.get_char(i);
        r.push(c);
        i = i + 1;
        assert(r@ =~= s@.subrange(0, i as int));
    }
    assert(r@ =~= s@);
    r
}

/// Appends one character to a string (`String::push`).
#[verifier::external_body]
pub fn push_char(s: &mut String, c: char)
    ensures
        final(s)@ == old(s)@.push(c),
{
    s.push(c);
}

/// The string made of the characters `v[lo..hi]`.
pub fn string_of_range(v: &Vec<char>, lo: usize, hi: usize) -> (r: String)
    requires
        lo <= hi <= v.len(),
    ensures
        r@ == v@.subrange(lo as int, hi as int),
{
    let mut r = String::new();
    let mut i = lo;
    while i < hi
        invariant
            lo <= i <= hi <= v.len(),
            r@ == v@.subrange(lo as int, i as int),
        decreases hi - i,
    {
        push_char(&mut r, v[i]);
        i = i + 1;
        assert(r@ =~= v@.subrange(lo as int, i as int));
    }
    r
}

/// The string made of all characters of `v`.
pub fn string_of(v: &Vec<char>) -> (r: String)
    ensures
        r@ == v@,
{
    let r = string_of_range(v, 0, v.len());
    assert(v@.subrange(0, v@.len() as int) =~= v@);
    r
}

/// Appends a string slice to a string.
pub fn push_str(s: &mut String, t: &str)
    ensures
        final(s)@ == old(s)@ + t@,
{
    s.append(t);
}

/// A string slice as an owned string.
pub fn owned(s: &str) -> (r: String)
    ensures
        r@ == s@,
{
    String::from_str(s)
}

/// A string, duplicated.
pub fn copy_string(s: &String) -> (r: String)
    ensures
        r@ == s@,
{
    s.clone()
}

/// A copy of an optional string.
pub fn copy_opt_string(s: &Option<String>) -> (r: Option<String>)
    ensures
        opt_view(r) == opt_view(*s),
{
    match s {
        Some(v) => Some(v.clone()),
        None => None,
    }
}

/// A copy of a vector of strings.
pub fn copy_strings(v: &Vec<String>) -> (r: Vec<String>)
    ensures
        strings_view(r@) == strings_view(v@),
{
    let mut r: Vec<String> = Vec::new();
    let mut i: usize = 0;
    while i < v.len()
        invariant
            i <= v.len(),
            r.len() == i,
            forall|j: int| 0 <= j < i ==> r@[j]@ == v@[j]@,
        decreases v.len() - i,
    {
        r.push(v[i].clone());
        i = i + 1;
    }
    assert(strings_view(r@) =~= strings_view(v@));
    r
}

pub open spec fn opt_view(o: Option<String>) -> Option<Seq<char>> {
    match o {
        Some(s) => Some(s@),
        None => None,
    }
}

pub open spec fn vecs_view(v: Seq<Vec<char>>) -> Seq<Seq<char>> {
    v.map_values(|x: Vec<char>| x@)
}

pub open spec fn strings_view(v: Seq<String>) -> Seq<Seq<char>> {
    v.map_values(|s: String| s@)
}

/// Whether `v[from..]` begins with the characters of `lit`.
pub open spec fn has_at(v: Seq<char>, from: int, lit: Seq<char>) -> bool {
    0 <= from && from + lit.len() <= v.len() && v.subrange(from, from + lit.len()) == lit
}

pub open spec fn starts_with(v: Seq<char>, lit: Seq<char>) -> bool {
    has_at(v, 0, lit)
}

/// Whether the characters `v[from..]` begin with `lit`.
pub fn chars_have_at(v: &Vec<char>, from: usize, lit: &str) -> (r: bool)
    ensures
        r == has_at(v@, from as int, lit@),
{
    let n = lit.unicode_len();
    if n > v.len() || from > v.len() - n {
        return false;
    }
    let mut i: usize = 0;
    while i < n
        invariant
            n == lit@.len(),
            from + n <= v.len(),
            i <= n,
            forall|j: int| 0 <= j < i ==> v@[from + j] == lit@[j],
        decreases n - i,
    {
        if v[from + i] != lit.get_char(i) {
            assert(v@.subrange(from as int, from + n)[i as int] != lit@[i as int]);
            return false;
        }
        i = i + 1;
    }
    assert(v@.subrange(from as int, from + n) =~= lit@);
    true
}

/// Whether the characters `v` are exactly `lit`.
pub fn chars_eq_lit(v: &Vec<char>, lit: &str) -> (r: bool)
    ensures
        r == (v@ == lit@),
{
    let n = lit.unicode_len();
    if v.len() != n {
        return false;
    }
    let r = chars_have_at(v, 0, lit);
    assert(v@.subrange(0, n as int) =~= v@);
    r
}

/// Whether a string equals a literal.
pub fn str_eq_lit(s: &str, lit: &str) -> (r: bool)
    ensures
        r == (s@ == lit@),
{
    let v = chars_of(s);
    chars_eq_lit(&v, lit)
}

/// Whether two character vectors are equal.
pub fn chars_eq(a: &Vec<char>, b: &Vec<char>) -> (r: bool)
    ensures
        r == (a@ == b@),
{
    if a.len() != b.len() {
        return false;
    }
    let mut i: usize = 0;
    while i < a.len()
        invariant
            a.len() == b.len(),
            i <= a.len(),
            forall|j: int| 0 <= j < i ==> a@[j] == b@[j],
        decreases a.len() - i,
    {
        if a[i] != b[i] {
            return false;
        }
        i = i + 1;
    }
    assert(a@ =~= b@);
    true
}

/// Whether two strings are equal.
pub fn str_eq(a: &str, b: &str) -> (r: bool)
    ensures
        r == (a@ == b@),
{
    let x = chars_of(a);
    let y = chars_of(b);
    chars_eq(&x, &y)
}

/// Whether `c` occurs in `v`.
pub fn chars_contain(v: &Vec<char>, c: char) -> (r: bool)
    ensures
        r == v@.contains(c),
{
    let mut i: usize = 0;
    while i < v.len()
        invariant
            i <= v.len(),
            forall|j: int| 0 <= j < i ==> v@[j] != c,
        decreases v.len() - i,
    {
        if v[i] == c {
            assert(v@[i as int] == c);
            return true;
        }
        i = i + 1;
    }
    false
}

/// Three-way comparison result.
#[derive(Debug, Clone, Copy, PartialEq, Eq, Structural)]
pub enum Order3 {
    Less,
    Equal,
    Greater,
}

impl Order3 {
    pub open spec fn flip(self) -> Order3 {
        match self {
            Order3::Less => Order3::Greater,
            Order3::Equal => Order3::Equal,
            Order3::Greater => Order3::Less,
        }
    }

    /// The reversed comparison.
    pub fn reverse(self) -> (r: Order3)
        ensures
            r == self.flip(),
    {
        match self {
            Order3::Less => Order3::Greater,
            Order3::Equal => Order3::Equal,
            Order3::Greater => Order3::Less,
        }
    }

    pub fn is_equal(self) -> (r: bool)
        ensures
            r == (self == Order3::Equal),
    {
        match self {
            Order3::Equal => true,
            _ => false,
        }
    }
}

pub open spec fn int_order(a: int, b: int) -> Order3 {
    if a < b {
        Order3::Less
    } else if a == b {
        Order3::Equal
    } else {
        Order3::Greater
    }
}

/// Lexicographic order of character sequences by code point; for strings this
/// is the order in which Rust orders strings, which compares the UTF-8 bytes.
pub open spec fn lex_order(a: Seq<char>, b: Seq<char>) -> Order3
    decreases a.len(),
{
    if a.len() == 0 {
        if b.len() == 0 {
            Order3::Equal
        } else {
            Order3::Less
        }
    } else if b.len() == 0 {
        Order3::Greater
    } else if a[0] != b[0] {
        int_order(a[0] as int, b[0] as int)
    } else {
        lex_order(a.drop_first(), b.drop_first())
    }
}

pub proof fn lemma_lex_order_flip(a: Seq<char>, b: Seq<char>)
    ensures
        lex_order(b, a) == lex_order(a, b).flip(),
    decreases a.len(),
{
    if a.len() > 0 && b.len() > 0 && a[0] == b[0] {
        lemma_lex_order_flip(a.drop_first(), b.drop_first());
    }
}

pub proof fn lemma_lex_order_equal(a: Seq<char>, b: Seq<char>)
    ensures
        (lex_order(a, b) == Order3::Equal) == (a == b),
    decreases a.len(),
{
    if a.len() > 0 && b.len() > 0 && a[0] == b[0] {
        lemma_lex_order_equal(a.drop_first(), b.drop_first());
        if a.drop_first() == b.drop_first() {
            assert(a =~= seq![a[0]] + a.drop_first());
            assert(b =~= seq![b[0]] + b.drop_first());
        } else {
            assert(a != b) by {
                if a == b {
                    assert(a.drop_first() =~= b.drop_first());
                }
            }
        }
    } else if a.len() > 0 && b.len() > 0 {
        assert(a != b) by {
            if a == b {
                assert(a[0] == b[0]);
            }
        }
    } else if a.len() == 0 && b.len() == 0 {
        assert(a =~= b);
    }
}

/// Compares `a[i..]` with `b[j..]` lexicographically.
pub fn chars_order(a: &Vec<char>, b: &Vec<char>) -> (r: Order3)
    ensures
        r == lex_order(a@, b@),
{
    let mut i: usize = 0;
    assert(a@.skip(0) =~= a@);
    assert(b@.skip(0) =~= b@);
    while i < a.len() && i < b.len() && a[i] == b[i]
        invariant
            i <= a.len(),
            i <= b.len(),
            lex_order(a@, b@) == lex_order(a@.skip(i as int), b@.skip(i as int)),
        decreases a.len() - i,
    {
        assert(a@.skip(i as int).drop_first() =~= a@.skip(i + 1));
        assert(b@.skip(i as int).drop_first() =~= b@.skip(i + 1));
        i = i + 1;
    }
    if i == a.len() {
        if i == b.len() {
            Order3::Equal
        } else {
            Order3::Less
        }
    } else if i == b.len() {
        Order3::Greater
    } else if a[i] < b[i] {
        Order3::Less
    } else {
        Order3::Greater
    }
}

/// Compares two strings lexicographically.
pub fn str_order(a: &str, b: &str) -> (r: Order3)
    ensures
        r == lex_order(a@, b@),
{
    let x = chars_of(a);
    let y = chars_of(b);
    chars_order(&x, &y)
}

} // verus!

verus! {

/// Unicode `White_Space`, as `char::is_whitespace` decides it.
pub open spec fn is_space(c: char) -> bool {
    ('\t' <= c && c <= '\r') || c == ' ' || c == '\u{85}' || c == '\u{a0}' || c == '\u{1680}'
        || ('\u{2000}' <= c && c <= '\u{200a}') || c == '\u{2028}' || c == '\u{2029}'
        || c == '\u{202f}' || c == '\u{205f}' || c == '\u{3000}'
}

pub fn char_is_space(c: char) -> (r: bool)
    ensures
        r == is_space(c),
{
    ('\t' <= c && c <= '\r') || c == ' ' || c == '\u{85}' || c == '\u{a0}' || c == '\u{1680}'
        || ('\u{2000}' <= c && c <= '\u{200a}') || c == '\u{2028}' || c == '\u{2029}'
        || c == '\u{202f}' || c == '\u{205f}' || c == '\u{3000}'
}

/// The number of leading whitespace characters.
pub open spec fn lead_space(s: Seq<char>) -> int
    decreases s.len(),
{
    if s.len() > 0 && is_space(s[0]) {
        1 + lead_space(s.drop_first())
    } else {
        0
    }
}

/// The number of trailing whitespace characters.
pub open spec fn trail_space(s: Seq<char>) -> int
    decreases s.len(),
{
    if s.len() > 0 && is_space(s.last()) {
        1 + trail_space(s.drop_last())
    } else {
        0
    }
}

/// `str::trim_start`.
pub open spec fn trim_start(s: Seq<char>) -> Seq<char> {
    s.subrange(lead_space(s), s.len() as int)
}

/// `str::trim_end`.
pub open spec fn trim_end(s: Seq<char>) -> Seq<char> {
    s.subrange(0, s.len() - trail_space(s))
}

/// `str::trim`.
pub open spec fn trim(s: Seq<char>) -> Seq<char> {
    trim_end(trim_start(s))
}

pub proof fn lemma_lead_space_bounds(s: Seq<char>)
    ensures
        0 <= lead_space(s) <= s.len(),
    decreases s.len(),
{
    if s.len() > 0 && is_space(s[0]) {
        lemma_lead_space_bounds(s.drop_first());
    }
}

pub proof fn lemma_trail_space_bounds(s: Seq<char>)
    ensures
        0 <= trail_space(s) <= s.len(),
    decreases s.len(),
{
    if s.len() > 0 && is_space(s.last()) {
        lemma_trail_space_bounds(s.drop_last());
    }
}

proof fn lemma_lead_space_at(s: Seq<char>, i: int)
    requires
        0 <= i <= s.len(),
        forall|k: int| 0 <= k < i ==> is_space(s[k]),
        i == s.len() || !is_space(s[i]),
    ensures
        lead_space(s) == i,
    decreases i,
{
    if i > 0 {
        lemma_lead_space_at(s.drop_first(), i - 1);
    }
}

proof fn lemma_trail_space_at(s: Seq<char>, j: int)
    requires
        0 <= j <= s.len(),
        forall|k: int| j <= k < s.len() ==> is_space(s[k]),
        j == 0 || !is_space(s[j - 1]),
    ensures
        trail_space(s) == s.len() - j,
    decreases s.len() - j,
{
    if j < s.len() {
        lemma_trail_space_at(s.drop_last(), j);
    }
}

/// The range `[lo, hi)` of `v` without leading and trailing whitespace.
pub fn trim_bounds(v: &Vec<char>) -> (r: (usize, usize))
    ensures
        r.0 <= r.1 <= v.len(),
        v@.subrange(r.0 as int, r.1 as int) == trim(v@),
        r.0 == lead_space(v@),
{
    let mut i: usize = 0;
    while i < v.len() && char_is_space(v[i])
        invariant
            i <= v.len(),
            forall|k: int| 0 <= k < i ==> is_space(v@[k]),
        decreases v.len() - i,
    {
        i = i + 1;
    }
    proof {
        lemma_lead_space_at(v@, i as int);
    }
    let ghost t = v@.subrange(i as int, v.len() as int);
    let mut j: usize = v.len();
    while j > i && char_is_space(v[j - 1])
        invariant
            i <= j <= v.len(),
            forall|k: int| j <= k < v.len() ==> is_space(v@[k]),
        decreases j,
    {
        j = j - 1;
    }
    proof {
        lemma_trail_space_at(t, j - i);
        assert(trim_start(v@) == t);
        assert(v@.subrange(i as int, j as int) =~= t.subrange(0, t.len() - trail_space(t)));
    }
    (i, j)
}

/// The characters of `v` without leading and trailing whitespace.
pub fn trim_chars(v: &Vec<char>) -> (r: Vec<char>)
    ensures
        r@ == trim(v@),
{
    let (lo, hi) = trim_bounds(v);
    slice_of(v, lo, hi)
}

/// The characters `v[lo..hi]`.
pub fn slice_of(v: &Vec<char>, lo: usize, hi: usize) -> (r: Vec<char>)
    requires
        lo <= hi <= v.len(),
    ensures
        r@ == v@.subrange(lo as int, hi as int),
{
    let mut r: Vec<char> = Vec::new();
    let mut i = lo;
    while i < hi
        invariant
            lo <= i <= hi <= v.len(),
            r@ == v@.subrange(lo as int, i as int),
        decreases hi - i,
    {
        r.push(v[i]);
        i = i + 1;
        assert(r@ =~= v@.subrange(lo as int, i as int));
    }
    r
}

/// The index of the first occurrence of `c` in `s`, or its length.
pub open spec fn index_of(s: Seq<char>, c: char) -> int
    decreases s.len(),
{
    if s.len() == 0 {
        0
    } else if s[0] == c {
        0
    } else {
        1 + index_of(s.drop_first(), c)
    }
}

pub proof fn lemma_index_of_bounds(s: Seq<char>, c: char)
    ensures
        0 <= index_of(s, c) <= s.len(),
        index_of(s, c) < s.len() ==> s[index_of(s, c)] == c,
        forall|k: int| 0 <= k < index_of(s, c) ==> s[k] != c,
    decreases s.len(),
{
    if s.len() > 0 && s[0] != c {
        lemma_index_of_bounds(s.drop_first(), c);
        assert forall|k: int| 0 <= k < index_of(s, c) implies s[k] != c by {
            if k > 0 {
                assert(s[k] == s.drop_first()[k - 1]);
            }
        }
    }
}

pub proof fn lemma_index_of_at(s: Seq<char>, c: char, i: int)
    requires
        0 <= i <= s.len(),
        forall|k: int| 0 <= k < i ==> s[k] != c,
        i == s.len() || s[i] == c,
    ensures
        index_of(s, c) == i,
    decreases i,
{
    if i > 0 {
        lemma_index_of_at(s.drop_first(), c, i - 1);
    }
}

/// The index of the first `c` in `v[from..]`, relative to `from`, or the
/// length of that rest.
pub fn find_char(v: &Vec<char>, from: usize, c: char) -> (r: usize)
    requires
        from <= v.len(),
    ensures
        from <= r <= v.len(),
        r - from == index_of(v@.subrange(from as int, v.len() as int), c),
{
    let mut i = from;
    while i < v.len() && v[i] != c
        invariant
            from <= i <= v.len(),
            forall|k: int| from <= k < i ==> v@[k] != c,
        decreases v.len() - i,
    {
        i = i + 1;
    }
    proof {
        lemma_index_of_at(v@.subrange(from as int, v.len() as int), c, i - from);
    }
    i
}

/// `str::lines` on text without `"\r\n"`: pieces between `'\n'`, each
/// without a trailing `'\r'`, and no last empty piece.
pub open spec fn lines_of(s: Seq<char>) -> Seq<Seq<char>>
    decreases s.len(),
{
    if s.len() == 0 {
        seq![]
    } else {
        let i = index_of(s, '\n');
        proof {
            lemma_index_of_bounds(s, '\n');
        }
        let line = s.subrange(0, i);
        let line = if line.len() > 0 && line.last() == '\r' {
            line.drop_last()
        } else {
            line
        };
        if i >= s.len() {
            seq![line]
        } else {
            seq![line] + lines_of(s.subrange(i + 1, s.len() as int))
        }
    }
}

/// The lines of `v`.
pub fn split_lines(v: &Vec<char>) -> (r: Vec<Vec<char>>)
    ensures
        vecs_view(r@) == lines_of(v@),
{
    let mut r: Vec<Vec<char>> = Vec::new();
    let mut i: usize = 0;
    let n = v.len();
    assert(v@.subrange(0, n as int) =~= v@);
    while i < n
        invariant
            n == v.len(),
            i <= n,
            vecs_view(r@) + lines_of(v@.subrange(i as int, n as int)) == lines_of(v@),
        decreases n - i,
    {
        let ghost t = v@.subrange(i as int, n as int);
        let e = find_char(v, i, '\n');
        let mut hi = e;
        if hi > i && v[hi - 1] == '\r' {
            hi = hi - 1;
        }
        let line = slice_of(v, i, hi);
        proof {
            lemma_index_of_bounds(t, '\n');
            let raw = t.subrange(0, e - i);
            assert(raw =~= v@.subrange(i as int, e as int));
            if raw.len() > 0 && raw.last() == '\r' {
                assert(line@ =~= raw.drop_last());
            } else {
                assert(line@ =~= raw);
            }
        }
        let ghost before = vecs_view(r@);
        r.push(line);
        assert(vecs_view(r@) =~= before.push(line@));
        if e >= n {
            assert(lines_of(t) == seq![line@]);
            assert(v@.subrange(n as int, n as int) =~= Seq::<char>::empty());
            assert(lines_of(v@.subrange(n as int, n as int)) =~= Seq::<Seq<char>>::empty());
            assert(before + lines_of(t) =~= before.push(line@) + lines_of(v@.subrange(n as int, n as int)));
            i = n;
        } else {
            assert(t.subrange(e - i + 1, t.len() as int) =~= v@.subrange(e + 1, n as int));
            assert(lines_of(t) == seq![line@] + lines_of(v@.subrange(e + 1, n as int)));
            assert(before + lines_of(t) =~= before.push(line@) + lines_of(v@.subrange(e + 1, n as int)));
            i = e + 1;
        }
    }
    assert(v@.subrange(n as int, n as int) =~= Seq::<char>::empty());
    assert(vecs_view(r@) =~= lines_of(v@));
    r
}

} // verus!

verus! {

/// The number of characters of a literal.
pub fn lit_len(lit: &str) -> (n: usize)
    ensures
        n == lit@.len(),
{
    lit.unicode_len()
}

/// `v` without the first `lit.len()` characters.
pub open spec fn after_lit(v: Seq<char>, lit: Seq<char>) -> Seq<char> {
    v.subrange(lit.len() as int, v.len() as int)
}

/// Whether `c` occurs in `v[lo..]`: the index of the first one, relative to
/// `lo`, is below the length of the rest.
pub fn trim_range(v: &Vec<char>, lo: usize, hi: usize) -> (r: Vec<char>)
    requires
        lo <= hi <= v.len(),
    ensures
        r@ == trim(v@.subrange(lo as int, hi as int)),
{
    let s = slice_of(v, lo, hi);
    trim_chars(&s)
}

/// `trim_start` of `v[lo..]`.
pub fn trim_start_from(v: &Vec<char>, lo: usize) -> (r: Vec<char>)
    requires
        lo <= v.len(),
    ensures
        r@ == trim_start(v@.subrange(lo as int, v.len() as int)),
{
    let s = slice_of(v, lo, v.len());
    let mut i: usize = 0;
    while i < s.len() && char_is_space(s[i])
        invariant
            i <= s.len(),
            forall|k: int| 0 <= k < i ==> is_space(s@[k]),
        decreases s.len() - i,
    {
        i = i + 1;
    }
    proof {
        lemma_lead_space_at(s@, i as int);
    }
    slice_of(&s, i, s.len())
}

} // verus!

verus! {

pub proof fn lemma_trim_idempotent(s: Seq<char>)
    ensures
        trim(trim(s)) == trim(s),
{
    let a = trim_start(s);
    lemma_lead_space_bounds(s);
    lemma_trail_space_bounds(a);
    let t = trim(s);
    lemma_lead_space_bounds(t);
    lemma_trail_space_bounds(t);
    if t.len() > 0 {
        // t starts and ends with non-space characters
        assert(!is_space(t[0])) by {
            lemma_lead_space_first(s);
        }
        assert(!is_space(t.last())) by {
            lemma_trail_space_last(a);
        }
        lemma_lead_space_at(t, 0);
        lemma_trail_space_at(t, t.len() as int);
        assert(trim_start(t) =~= t);
        assert(trim_end(t) =~= t);
    } else {
        assert(trim(t) =~= t);
    }
}

proof fn lemma_lead_space_first(s: Seq<char>)
    ensures
        lead_space(s) < s.len() ==> !is_space(s[lead_space(s)]),
        lead_space(s) < s.len() ==> trim_start(s)[0] == s[lead_space(s)],
    decreases s.len(),
{
    lemma_lead_space_bounds(s);
    if s.len() > 0 && is_space(s[0]) {
        let t = s.drop_first();
        lemma_lead_space_first(t);
        lemma_lead_space_bounds(t);
        if lead_space(s) < s.len() {
            assert(s[lead_space(s)] == t[lead_space(t)]);
            assert(trim_start(s) =~= trim_start(t));
        }
    }
}

proof fn lemma_trail_space_last(s: Seq<char>)
    ensures
        trail_space(s) < s.len() ==> !is_space(s[s.len() - trail_space(s) - 1]),
    decreases s.len(),
{
    lemma_trail_space_bounds(s);
    if s.len() > 0 && is_space(s.last()) {
        let t = s.drop_last();
        lemma_trail_space_last(t);
        lemma_trail_space_bounds(t);
        if trail_space(s) < s.len() {
            assert(s[s.len() - trail_space(s) - 1] == t[t.len() - trail_space(t) - 1]);
        }
    }
}

} // verus!

verus! {

/// What `str::to_lowercase` returns for a string: its Unicode lowercase
/// form, where a character may map to several and a final sigma depends on
/// its neighbours.
pub uninterp spec fn lowercase(s: Seq<char>) -> Seq<char>;

/// `str::to_lowercase`.  Its result is a function of the string alone, named
/// `lowercase`; nothing more is claimed of it.
#[verifier::external_body]
pub(crate) fn to_lower(s: &str) -> (r: String)
    ensures
        r@ == lowercase(s@),
{
    s.to_lowercase()
}

/// `needle` occurs in `hay` as a contiguous piece (the empty needle always
/// does), as `str::contains` decides it.
pub open spec fn has_substring(hay: Seq<char>, needle: Seq<char>) -> bool {
    exists|i: int|
        0 <= i && i + needle.len() <= hay.len() && #[trigger] hay.subrange(i, i + needle.len())
            == needle
}

/// Whether `needle` occurs in `hay` at position `i`.
fn occurs_at(hay: &Vec<char>, needle: &Vec<char>, i: usize) -> (r: bool)
    requires
        i + needle.len() <= hay.len(),
    ensures
        r == (hay@.subrange(i as int, i + needle.len()) == needle@),
{
    let mut k: usize = 0;
    while k < needle.len()
        invariant
            i + needle.len() <= hay.len(),
            k <= needle.len(),
            forall|j: int| 0 <= j < k ==> hay@[i + j] == needle@[j],
        decreases needle.len() - k,
    {
        if hay[i + k] != needle[k] {
            assert(hay@.subrange(i as int, i + needle.len())[k as int] != needle@[k as int]);
            return false;
        }
        k = k + 1;
    }
    assert(hay@.subrange(i as int, i + needle.len()) =~= needle@);
    true
}

/// Whether `needle` occurs in `hay`.
pub fn chars_include(hay: &Vec<char>, needle: &Vec<char>) -> (r: bool)
    ensures
        r == has_substring(hay@, needle@),
{
    if needle.len() > hay.len() {
        return false;
    }
    if needle.len() == 0 {
        assert(hay@.subrange(0int, 0int + needle@.len()) =~= needle@);
        return true;
    }
    let end = hay.len() - needle.len() + 1;
    let mut i: usize = 0;
    while i < end
        invariant
            end + needle.len() == hay.len() + 1,
            i <= end,
            forall|j: int| 0 <= j < i ==> #[trigger] hay@.subrange(j, j + needle.len()) != needle@,
        decreases end - i,
    {
        if occurs_at(hay, needle, i) {
            return true;
        }
        i = i + 1;
    }
    false
}

/// Whether `needle` occurs in `haystack` (`str::contains`).
pub fn includes_text(haystack: &str, needle: &str) -> (r: bool)
    ensures
        r == has_substring(haystack@, needle@),
{
    let h = chars_of(haystack);
    let n = chars_of(needle);
    chars_include(&h, &n)
}

} // verus!

verus! {

/// The index of the first Unicode whitespace character of `s`, or its
/// length.
pub open spec fn first_space(s: Seq<char>) -> int
    decreases s.len(),
{
    if s.len() == 0 {
        0
    } else if is_space(s[0]) {
        0
    } else {
        1 + first_space(s.drop_first())
    }
}

pub proof fn lemma_first_space(s: Seq<char>)
    ensures
        0 <= first_space(s) <= s.len(),
        first_space(s) < s.len() ==> is_space(s[first_space(s)]),
        forall|k: int| 0 <= k < first_space(s) ==> !is_space(#[trigger] s[k]),
    decreases s.len(),
{
    if s.len() > 0 && !is_space(s[0]) {
        lemma_first_space(s.drop_first());
        assert forall|k: int| 0 <= k < first_space(s) implies !is_space(#[trigger] s[k]) by {
            if k > 0 {
                assert(s[k] == s.drop_first()[k - 1]);
            }
        }
    }
}

/// The words of `s` as `str::split_whitespace` yields them: the non-empty
/// pieces between runs of Unicode whitespace.
pub open spec fn words(s: Seq<char>) -> Seq<Seq<char>>
    decreases s.len(),
{
    if s.len() == 0 {
        seq![]
    } else if is_space(s[0]) {
        words(s.drop_first())
    } else {
        let e = first_space(s);
        proof {
            lemma_first_space(s);
        }
        seq![s.subrange(0, e)] + words(s.subrange(e, s.len() as int))
    }
}

/// The words of `v` (`str::split_whitespace`).
pub fn split_words(v: &Vec<char>) -> (r: Vec<Vec<char>>)
    ensures
        vecs_view(r@) == words(v@),
{
    let mut r: Vec<Vec<char>> = Vec::new();
    let n = v.len();
    let mut i: usize = 0;
    assert(v@.subrange(0, n as int) =~= v@);
    while i < n
        invariant
            n == v.len(),
            i <= n,
            vecs_view(r@) + words(v@.subrange(i as int, n as int)) == words(v@),
        decreases n - i,
    {
        let ghost t = v@.subrange(i as int, n as int);
        let ghost before = vecs_view(r@);
        if char_is_space(v[i]) {
            assert(t.drop_first() =~= v@.subrange(i + 1, n as int));
            i = i + 1;
        } else {
            let mut e = i;
            while e < n && !char_is_space(v[e])
                invariant
                    i <= e <= n,
                    n == v.len(),
                    forall|k: int| i <= k < e ==> !is_space(v@[k]),
                decreases n - e,
            {
                e = e + 1;
            }
            proof {
                lemma_first_space(t);
                let f = first_space(t);
                assert(f == e - i) by {
                    if f < e - i {
                        assert(is_space(t[f]));
                        assert(t[f] == v@[i + f]);
                    } else if f > e - i {
                        assert(t[e - i] == v@[e as int]);
                    }
                }
                assert(t.subrange(f, t.len() as int) =~= v@.subrange(e as int, n as int));
                assert(t.subrange(0, f) =~= v@.subrange(i as int, e as int));
            }
            let w = slice_of(v, i, e);
            r.push(w);
            assert(vecs_view(r@) =~= before.push(w@));
            assert(vecs_view(r@) + words(v@.subrange(e as int, n as int)) =~= before + words(t));
            i = e;
        }
    }
    assert(v@.subrange(n as int, n as int) =~= Seq::<char>::empty());
    assert(vecs_view(r@) + words(Seq::<char>::empty()) =~= vecs_view(r@));
    r
}

} // verus!

verus! {

/// The pieces joined by `sep`.
pub open spec fn join_by(parts: Seq<Seq<char>>, sep: char) -> Seq<char>
    decreases parts.len(),
{
    if parts.len() == 0 {
        seq![]
    } else if parts.len() == 1 {
        parts[0]
    } else {
        join_by(parts.drop_last(), sep) + seq![sep] + parts.last()
    }
}

/// The pieces joined by `sep`.
pub fn join_chars(parts: &Vec<Vec<char>>, sep: char) -> (r: Vec<char>)
    ensures
        r@ == join_by(vecs_view(parts@), sep),
{
    let mut r: Vec<char> = Vec::new();
    let mut i: usize = 0;
    while i < parts.len()
        invariant
            i <= parts.len(),
            r@ == join_by(vecs_view(parts@).subrange(0, i as int), sep),
        decreases parts.len() - i,
    {
        let ghost before = r@;
        if i > 0 {
            r.push(sep);
        }
        let p = &parts[i];
        let mut k: usize = 0;
        let ghost mid = r@;
        while k < p.len()
            invariant
                k <= p.len(),
                r@ == mid + p@.subrange(0, k as int),
            decreases p.len() - k,
        {
            r.push(p[k]);
            k = k + 1;
            assert(r@ =~= mid + p@.subrange(0, k as int));
        }
        proof {
            assert(p@.subrange(0, p.len() as int) =~= p@);
            let s = vecs_view(parts@).subrange(0, i + 1);
            assert(s.drop_last() =~= vecs_view(parts@).subrange(0, i as int));
            assert(s.last() == p@);
            if i == 0 {
                assert(r@ =~= s[0]);
            } else {
                assert(r@ =~= join_by(s.drop_last(), sep) + seq![sep] + s.last());
            }
        }
        i = i + 1;
    }
    assert(vecs_view(parts@).subrange(0, parts.len() as int) =~= vecs_view(parts@));
    r
}

} // verus!

verus! {

/// The pieces joined by the separator `sep`.
pub open spec fn join_seq(parts: Seq<Seq<char>>, sep: Seq<char>) -> Seq<char>
    decreases parts.len(),
{
    if parts.len() == 0 {
        seq![]
    } else if parts.len() == 1 {
        parts[0]
    } else {
        join_seq(parts.drop_last(), sep) + sep + parts.last()
    }
}

/// The strings joined by `sep`.
pub fn join_strings(parts: &Vec<String>, sep: &str) -> (r: String)
    ensures
        r@ == join_seq(strings_view(parts@), sep@),
{
    let mut r = String::new();
    let mut i: usize = 0;
    while i < parts.len()
        invariant
            i <= parts.len(),
            r@ == join_seq(strings_view(parts@).subrange(0, i as int), sep@),
        decreases parts.len() - i,
    {
        let ghost before = r@;
        if i > 0 {
            push_str(&mut r, sep);
        }
        push_str(&mut r, parts[i].as_str());
        proof {
            let s = strings_view(parts@).subrange(0, i + 1);
            assert(s.drop_last() =~= strings_view(parts@).subrange(0, i as int));
            assert(s.last() == parts@[i as int]@);
            if i == 0 {
                assert(r@ =~= s[0]);
            } else {
                assert(r@ =~= join_seq(s.drop_last(), sep@) + sep@ + s.last());
            }
        }
        i = i + 1;
    }
    assert(strings_view(parts@).subrange(0, parts.len() as int) =~= strings_view(parts@));
    r
}

/// The number of bytes of a character in UTF-8.
pub open spec fn utf8_width(c: char) -> int {
    if (c as int) < 0x80 {
        1
    } else if (c as int) < 0x800 {
        2
    } else if (c as int) < 0x10000 {
        3
    } else {
        4
    }
}

/// The number of bytes of a string in UTF-8.
pub open spec fn byte_len(s: Seq<char>) -> int
    decreases s.len(),
{
    if s.len() == 0 {
        0
    } else {
        byte_len(s.drop_last()) + utf8_width(s.last())
    }
}

pub fn char_width(c: char) -> (r: usize)
    ensures
        r == utf8_width(c),
{
    let v = c as u32;
    if v < 0x80 {
        1
    } else if v < 0x800 {
        2
    } else if v < 0x10000 {
        3
    } else {
        4
    }
}

/// The UTF-8 length of `v[0..n]`, capped at `cap`.
pub fn byte_len_upto(v: &Vec<char>, n: usize, cap: usize) -> (r: usize)
    requires
        n <= v.len(),
    ensures
        r == (if byte_len(v@.subrange(0, n as int)) < cap { byte_len(v@.subrange(0, n as int)) } else { cap as int }),
{
    let mut acc: usize = 0;
    let mut i: usize = 0;
    assert(v@.subrange(0, 0) =~= Seq::<char>::empty());
    while i < n
        invariant
            i <= n <= v.len(),
            acc == (if byte_len(v@.subrange(0, i as int)) < cap { byte_len(v@.subrange(0, i as int)) } else { cap as int }),
        decreases n - i,
    {
        assert(v@.subrange(0, i + 1).drop_last() =~= v@.subrange(0, i as int));
        proof {
            lemma_byte_len_nonneg(v@.subrange(0, i as int));
        }
        let w = char_width(v[i]);
        if acc < cap {
            acc = if w < cap - acc { acc + w } else { cap };
        }
        i = i + 1;
    }
    acc
}

pub proof fn lemma_byte_len_nonneg(s: Seq<char>)
    ensures
        byte_len(s) >= s.len(),
    decreases s.len(),
{
    if s.len() > 0 {
        lemma_byte_len_nonneg(s.drop_last());
    }
}

} // verus!
