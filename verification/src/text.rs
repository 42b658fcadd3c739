//! Character-level text utilities shared by the audits.
//!
//! Text is handled as `Vec<char>` (viewed as `Seq<char>`), so that every
//! operation the audits perform on lines, tokens and paths has a precise
//! specification over sequences of Unicode scalar values.
use vstd::prelude::*;

verus! {

broadcast use vstd::string::group_string_axioms;

/// Unicode `White_Space`, the set that `char::is_whitespace` and `str::trim` use.
pub open spec fn is_ws(c: char) -> bool {
    ||| c == '\t'
    ||| c == '\n'
    ||| c == '\u{0B}'
    ||| c == '\u{0C}'
    ||| c == '\r'
    ||| c == ' '
    ||| c == '\u{85}'
    ||| c == '\u{A0}'
    ||| c == '\u{1680}'
    ||| ('\u{2000}' <= c && c <= '\u{200A}')
    ||| c == '\u{2028}'
    ||| c == '\u{2029}'
    ||| c == '\u{202F}'
    ||| c == '\u{205F}'
    ||| c == '\u{3000}'
}

/// Whether `c` is Unicode whitespace.
pub fn is_whitespace(c: char) -> (r: bool)
    ensures
        r == is_ws(c),
{
    c == '\t' || c == '\n' || c == '\u{0B}' || c == '\u{0C}' || c == '\r' || c == ' ' || c
        == '\u{85}' || c == '\u{A0}' || c == '\u{1680}' || ('\u{2000}' <= c && c <= '\u{200A}')
        || c == '\u{2028}' || c == '\u{2029}' || c == '\u{202F}' || c == '\u{205F}' || c
        == '\u{3000}'
}

/// The classes of characters that the audits trim from the ends of text.
#[derive(Clone, Copy)]
pub enum Trim {
    /// Unicode whitespace.
    Space,
    /// Quotes, commas, semicolons and parentheses around a shell token.
    TokenEdge,
    /// The path separator `/`.
    Slash,
}

pub open spec fn trims(k: Trim, c: char) -> bool {
    match k {
        Trim::Space => is_ws(c),
        Trim::TokenEdge => c == '\'' || c == '"' || c == ',' || c == ';' || c == ')' || c == '(',
        Trim::Slash => c == '/',
    }
}

fn trims_char(k: Trim, c: char) -> (r: bool)
    ensures
        r == trims(k, c),
{
    match k {
        Trim::Space => is_whitespace(c),
        Trim::TokenEdge => c == '\'' || c == '"' || c == ',' || c == ';' || c == ')' || c == '(',
        Trim::Slash => c == '/',
    }
}

/// Number of leading characters of class `k`.
pub open spec fn lead(s: Seq<char>, k: Trim) -> nat
    decreases s.len(),
{
    if s.len() > 0 && trims(k, s[0]) {
        1 + lead(s.drop_first(), k)
    } else {
        0
    }
}

/// Number of trailing characters of class `k`.
pub open spec fn trail(s: Seq<char>, k: Trim) -> nat
    decreases s.len(),
{
    if s.len() > 0 && trims(k, s.last()) {
        1 + trail(s.drop_last(), k)
    } else {
        0
    }
}

pub proof fn lemma_lead_bound(s: Seq<char>, k: Trim)
    ensures
        lead(s, k) <= s.len(),
    decreases s.len(),
{
    if s.len() > 0 && trims(k, s[0]) {
        lemma_lead_bound(s.drop_first(), k);
    }
}

pub proof fn lemma_trail_bound(s: Seq<char>, k: Trim)
    ensures
        trail(s, k) <= s.len(),
    decreases s.len(),
{
    if s.len() > 0 && trims(k, s.last()) {
        lemma_trail_bound(s.drop_last(), k);
    }
}

/// `s` without its leading characters of class `k`.
pub open spec fn trim_start(s: Seq<char>, k: Trim) -> Seq<char> {
    s.skip(lead(s, k) as int)
}

/// `s` without its trailing characters of class `k`.
pub open spec fn trim_end(s: Seq<char>, k: Trim) -> Seq<char> {
    s.take(s.len() - trail(s, k))
}

/// `s` without leading and trailing characters of class `k`.
pub open spec fn trim(s: Seq<char>, k: Trim) -> Seq<char> {
    trim_end(trim_start(s, k), k)
}

pub open spec fn starts_with(s: Seq<char>, p: Seq<char>) -> bool {
    p.len() <= s.len() && s.take(p.len() as int) == p
}

pub open spec fn ends_with(s: Seq<char>, p: Seq<char>) -> bool {
    p.len() <= s.len() && s.skip(s.len() - p.len()) == p
}

/// `needle` occurs in `s` at position `i`.
pub open spec fn occurs_at(s: Seq<char>, needle: Seq<char>, i: int) -> bool {
    0 <= i && i + needle.len() <= s.len() && s.subrange(i, i + needle.len()) == needle
}

/// The first position at or after `i` where `needle` occurs in `s`.
pub open spec fn find_from(s: Seq<char>, needle: Seq<char>, i: int) -> Option<int>
    decreases s.len() + 1 - i,
{
    if i < 0 || i + needle.len() > s.len() {
        None
    } else if occurs_at(s, needle, i) {
        Some(i)
    } else {
        find_from(s, needle, i + 1)
    }
}

/// The first position where `needle` occurs in `s` (as `str::find`).
pub open spec fn find(s: Seq<char>, needle: Seq<char>) -> Option<int> {
    find_from(s, needle, 0)
}

pub open spec fn contains(s: Seq<char>, needle: Seq<char>) -> bool {
    find(s, needle) is Some
}

/// The first position at or after `i` that holds `c`.
pub open spec fn find_char_from(s: Seq<char>, c: char, i: int) -> Option<int>
    decreases s.len() - i,
{
    if i < 0 || i >= s.len() {
        None
    } else if s[i] == c {
        Some(i)
    } else {
        find_char_from(s, c, i + 1)
    }
}

/// The last position of `c` in `s`, or -1.
pub open spec fn last_index_of(s: Seq<char>, c: char) -> int
    decreases s.len(),
{
    if s.len() == 0 {
        -1
    } else if s.last() == c {
        s.len() - 1
    } else {
        last_index_of(s.drop_last(), c)
    }
}

pub proof fn lemma_last_index_of_bound(s: Seq<char>, c: char)
    ensures
        -1 <= last_index_of(s, c) < s.len(),
    decreases s.len(),
{
    if s.len() > 0 && s.last() != c {
        lemma_last_index_of_bound(s.drop_last(), c);
    }
}

/// What follows the last `/` of `s` (all of `s` when it holds none).
pub open spec fn last_segment(s: Seq<char>) -> Seq<char> {
    s.skip(last_index_of(s, '/') + 1)
}

pub open spec fn replace_char(s: Seq<char>, from: char, to: char) -> Seq<char> {
    s.map_values(|c: char| if c == from { to } else { c })
}

pub open spec fn ascii_lower_char(c: char) -> char {
    if 'A' <= c && c <= 'Z' {
        ((c as u8) + 32) as u8 as char
    } else {
        c
    }
}

pub open spec fn ascii_lower(s: Seq<char>) -> Seq<char> {
    s.map_values(|c: char| ascii_lower_char(c))
}

/// The text of each `Vec<char>` of a sequence.
pub open spec fn views(v: Seq<Vec<char>>) -> Seq<Seq<char>> {
    v.map_values(|t: Vec<char>| t@)
}

/// The text of each `String` of a sequence.
pub open spec fn string_views(v: Seq<String>) -> Seq<Seq<char>> {
    v.map_values(|t: String| t@)
}

pub open spec fn digit_char(d: nat) -> char {
    if d == 0 {
        '0'
    } else if d == 1 {
        '1'
    } else if d == 2 {
        '2'
    } else if d == 3 {
        '3'
    } else if d == 4 {
        '4'
    } else if d == 5 {
        '5'
    } else if d == 6 {
        '6'
    } else if d == 7 {
        '7'
    } else if d == 8 {
        '8'
    } else {
        '9'
    }
}

/// The decimal numeral of `n`, as `Display` writes it.
pub open spec fn decimal(n: nat) -> Seq<char>
    decreases n,
{
    if n < 10 {
        seq![digit_char(n)]
    } else {
        decimal(n / 10).push(digit_char(n % 10))
    }
}

/// The characters of `s`, in order.
pub fn chars_of(s: &str) -> (r: Vec<char>)
    ensures
        r@ == s@,
{
    let mut out: Vec<char> = Vec::new();
    for c in it: s.chars()
        invariant
            out@ == it.seq().take(it.index() as int),
            it.seq() == s@,
    {
        out.push(c);
    }
    out
}

/// Appends `c` to `s` (`String::push`).
#[verifier::external_body]
fn push_char(s: &mut String, c: char)
    ensures
        final(s)@ == old(s)@.push(c),
{
    s.push(c);
}

/// The string whose characters are `v`.
pub fn string_of(v: &Vec<char>) -> (r: String)
    ensures
        r@ == v@,
{
    let mut out = String::new();
    let mut i: usize = 0;
    while i < v.len()
        invariant
            i <= v.len(),
            out@ == v@.take(i as int),
        decreases v.len() - i,
    {
        push_char(&mut out, v[i]);
        assert(v@.take(i + 1) =~= v@.take(i as int).push(v@[i as int]));
        i = i + 1;
    }
    assert(v@.take(v.len() as int) =~= v@);
    out
}

/// Characters `from..to` of `v`.
pub fn slice_of(v: &Vec<char>, from: usize, to: usize) -> (r: Vec<char>)
    requires
        from <= to <= v.len(),
    ensures
        r@ == v@.subrange(from as int, to as int),
{
    let mut out: Vec<char> = Vec::new();
    let mut i = from;
    while i < to
        invariant
            from <= i <= to,
            to <= v.len(),
            out@ == v@.subrange(from as int, i as int),
        decreases to - i,
    {
        out.push(v[i]);
        assert(v@.subrange(from as int, i + 1) =~= v@.subrange(from as int, i as int).push(
            v@[i as int],
        ));
        i = i + 1;
    }
    out
}

/// The concatenation `a + b`.
pub fn concat(a: &Vec<char>, b: &Vec<char>) -> (r: Vec<char>)
    ensures
        r@ == a@ + b@,
{
    let mut out = slice_of(a, 0, a.len());
    let mut i: usize = 0;
    while i < b.len()
        invariant
            i <= b.len(),
            out@ == a@ + b@.take(i as int),
        decreases b.len() - i,
    {
        out.push(b[i]);
        assert(b@.take(i + 1) =~= b@.take(i as int).push(b@[i as int]));
        i = i + 1;
    }
    assert(b@.take(b.len() as int) =~= b@);
    assert(a@.subrange(0, a.len() as int) =~= a@);
    out
}

/// Whether `a` and `b` hold the same characters.
pub fn same(a: &Vec<char>, b: &Vec<char>) -> (r: bool)
    ensures
        r == (a@ == b@),
{
    if a.len() != b.len() {
        return false;
    }
    let mut i: usize = 0;
    while i < a.len()
        invariant
            i <= a.len(),
            a.len() == b.len(),
            a@.take(i as int) == b@.take(i as int),
        decreases a.len() - i,
    {
        if a[i] != b[i] {
            assert(a@[i as int] != b@[i as int]);
            return false;
        }
        assert(a@.take(i + 1) =~= a@.take(i as int).push(a@[i as int]));
        assert(b@.take(i + 1) =~= b@.take(i as int).push(b@[i as int]));
        i = i + 1;
    }
    assert(a@.take(a.len() as int) =~= a@);
    assert(b@.take(b.len() as int) =~= b@);
    true
}

/// Whether `s` equals the literal `l`.
pub fn equals_lit(s: &Vec<char>, l: &str) -> (r: bool)
    ensures
        r == (s@ == l@),
{
    same(s, &chars_of(l))
}

/// Whether `v`, from position `at`, holds `p`.
fn matches_at(v: &Vec<char>, p: &Vec<char>, at: usize) -> (r: bool)
    requires
        at + p.len() <= v.len(),
    ensures
        r == (v@.subrange(at as int, at + p.len()) == p@),
{
    let mut i: usize = 0;
    while i < p.len()
        invariant
            i <= p.len(),
            at + p.len() <= v.len(),
            v@.subrange(at as int, at + i) == p@.take(i as int),
        decreases p.len() - i,
    {
        if v[at + i] != p[i] {
            assert(v@.subrange(at as int, at + p.len())[i as int] != p@[i as int]);
            return false;
        }
        assert(v@.subrange(at as int, at + i + 1) =~= v@.subrange(at as int, at + i).push(
            v@[at + i],
        ));
        assert(p@.take(i + 1) =~= p@.take(i as int).push(p@[i as int]));
        i = i + 1;
    }
    assert(p@.take(p.len() as int) =~= p@);
    true
}

pub fn starts_with_chars(v: &Vec<char>, p: &Vec<char>) -> (r: bool)
    ensures
        r == starts_with(v@, p@),
{
    if p.len() > v.len() {
        return false;
    }
    let r = matches_at(v, p, 0);
    assert(v@.subrange(0, p.len() as int) =~= v@.take(p.len() as int));
    r
}

/// Whether `v` starts with the literal `l`.
pub fn starts_with_lit(v: &Vec<char>, l: &str) -> (r: bool)
    ensures
        r == starts_with(v@, l@),
{
    starts_with_chars(v, &chars_of(l))
}

/// Whether `v` ends with the literal `l`.
pub fn ends_with_lit(v: &Vec<char>, l: &str) -> (r: bool)
    ensures
        r == ends_with(v@, l@),
{
    let p = chars_of(l);
    if p.len() > v.len() {
        return false;
    }
    let r = matches_at(v, &p, v.len() - p.len());
    assert(v@.subrange(v.len() - p.len(), v.len() as int) =~= v@.skip(v.len() - p.len()));
    r
}

/// `v` without the literal prefix `l`, when it has it.
pub fn strip_prefix_lit(v: &Vec<char>, l: &str) -> (r: Option<Vec<char>>)
    ensures
        match r {
            Some(t) => starts_with(v@, l@) && t@ == v@.skip(l@.len() as int),
            None => !starts_with(v@, l@),
        },
{
    let p = chars_of(l);
    if starts_with_chars(v, &p) {
        let t = slice_of(v, p.len(), v.len());
        assert(t@ =~= v@.skip(l@.len() as int));
        Some(t)
    } else {
        None
    }
}

/// The first position of `needle` in `v` (`str::find`).
pub fn find_chars(v: &Vec<char>, needle: &Vec<char>) -> (r: Option<usize>)
    ensures
        match r {
            Some(i) => find(v@, needle@) == Some(i as int),
            None => find(v@, needle@) is None,
        },
{
    if needle.len() > v.len() {
        return None;
    }
    if needle.len() == 0 {
        assert(v@.subrange(0, 0) =~= needle@);
        return Some(0);
    }
    let last = v.len() - needle.len();
    let mut i: usize = 0;
    while i <= last
        invariant
            1 <= needle.len() <= v.len(),
            last == v.len() - needle.len(),
            i <= last + 1,
            find(v@, needle@) == find_from(v@, needle@, i as int),
        decreases last + 1 - i,
    {
        if matches_at(v, needle, i) {
            return Some(i);
        }
        i = i + 1;
    }
    None
}

/// The first position of the literal `l` in `v`.
pub fn find_lit(v: &Vec<char>, l: &str) -> (r: Option<usize>)
    ensures
        match r {
            Some(i) => find(v@, l@) == Some(i as int),
            None => find(v@, l@) is None,
        },
{
    find_chars(v, &chars_of(l))
}

/// Whether `v` contains the literal `l`.
pub fn contains_lit(v: &Vec<char>, l: &str) -> (r: bool)
    ensures
        r == contains(v@, l@),
{
    find_lit(v, l).is_some()
}

/// The first position at or after `from` that holds `c`.
pub fn find_char(v: &Vec<char>, c: char, from: usize) -> (r: Option<usize>)
    ensures
        match r {
            Some(i) => find_char_from(v@, c, from as int) == Some(i as int),
            None => find_char_from(v@, c, from as int) is None,
        },
{
    let mut i = from;
    while i < v.len()
        invariant
            from <= i,
            find_char_from(v@, c, from as int) == find_char_from(v@, c, i as int),
        decreases v.len() - i,
    {
        if v[i] == c {
            return Some(i);
        }
        i = i + 1;
    }
    None
}

/// Whether `v` holds the character `c`.
pub fn has_char(v: &Vec<char>, c: char) -> (r: bool)
    ensures
        r == v@.contains(c),
{
    let mut i: usize = 0;
    while i < v.len()
        invariant
            i <= v.len(),
            forall|j: int| 0 <= j < i ==> v@[j] != c,
        decreases v.len() - i,
    {
        if v[i] == c {
            assert(v@[i as int] == c);
            return true;
        }
        i = i + 1;
    }
    false
}

/// The last position of `c` in `v`, or `None`.
pub fn last_index(v: &Vec<char>, c: char) -> (r: Option<usize>)
    ensures
        match r {
            Some(i) => last_index_of(v@, c) == i as int && i < v.len(),
            None => last_index_of(v@, c) == -1,
        },
{
    let mut j = v.len();
    assert(v@.take(j as int) =~= v@);
    while j > 0
        invariant
            j <= v.len(),
            last_index_of(v@, c) == last_index_of(v@.take(j as int), c),
        decreases j,
    {
        assert(v@.take(j as int).drop_last() =~= v@.take(j - 1));
        if v[j - 1] == c {
            return Some(j - 1);
        }
        j = j - 1;
    }
    assert(v@.take(0) =~= Seq::<char>::empty());
    None
}

/// What follows the last `/` of `v`.
pub fn last_segment_of(v: &Vec<char>) -> (r: Vec<char>)
    ensures
        r@ == last_segment(v@),
{
    match last_index(v, '/') {
        Some(i) => slice_of(v, i + 1, v.len()),
        None => {
            assert(v@.skip(0) =~= v@);
            slice_of(v, 0, v.len())
        },
    }
}

/// `v` without leading characters of class `k`.
pub fn trim_start_chars(v: &Vec<char>, k: Trim) -> (r: Vec<char>)
    ensures
        r@ == trim_start(v@, k),
{
    let mut i: usize = 0;
    assert(v@.skip(0) =~= v@);
    while i < v.len() && trims_char(k, v[i])
        invariant
            i <= v.len(),
            lead(v@, k) == i + lead(v@.skip(i as int), k),
        decreases v.len() - i,
    {
        assert(v@.skip(i as int).drop_first() =~= v@.skip(i + 1));
        i = i + 1;
    }
    assert(lead(v@.skip(i as int), k) == 0);
    slice_of(v, i, v.len())
}

/// `v` without trailing characters of class `k`.
pub fn trim_end_chars(v: &Vec<char>, k: Trim) -> (r: Vec<char>)
    ensures
        r@ == trim_end(v@, k),
{
    let mut j = v.len();
    assert(v@.take(j as int) =~= v@);
    while j > 0 && trims_char(k, v[j - 1])
        invariant
            j <= v.len(),
            trail(v@, k) == (v.len() - j) + trail(v@.take(j as int), k),
        decreases j,
    {
        assert(v@.take(j as int).drop_last() =~= v@.take(j - 1));
        j = j - 1;
    }
    assert(trail(v@.take(j as int), k) == 0);
    let r = slice_of(v, 0, j);
    assert(r@ =~= v@.take(j as int));
    r
}

/// `v` without leading and trailing characters of class `k`.
pub fn trim_chars(v: &Vec<char>, k: Trim) -> (r: Vec<char>)
    ensures
        r@ == trim(v@, k),
{
    let t = trim_start_chars(v, k);
    trim_end_chars(&t, k)
}

/// `v` with every `from` replaced by `to`.
pub fn replace_chars(v: &Vec<char>, from: char, to: char) -> (r: Vec<char>)
    ensures
        r@ == replace_char(v@, from, to),
{
    let mut out: Vec<char> = Vec::new();
    let mut i: usize = 0;
    while i < v.len()
        invariant
            i <= v.len(),
            out@ == replace_char(v@.take(i as int), from, to),
        decreases v.len() - i,
    {
        let c = v[i];
        out.push(if c == from { to } else { c });
        assert(replace_char(v@.take(i + 1), from, to) =~= replace_char(
            v@.take(i as int),
            from,
            to,
        ).push(if c == from { to } else { c }));
        i = i + 1;
    }
    assert(v@.take(v.len() as int) =~= v@);
    out
}

/// `v` with ASCII capitals lowered (`str::to_ascii_lowercase`).
pub fn ascii_lowercase(v: &Vec<char>) -> (r: Vec<char>)
    ensures
        r@ == ascii_lower(v@),
{
    let mut out: Vec<char> = Vec::new();
    let mut i: usize = 0;
    while i < v.len()
        invariant
            i <= v.len(),
            out@ == ascii_lower(v@.take(i as int)),
        decreases v.len() - i,
    {
        let c = v[i];
        let l = if 'A' <= c && c <= 'Z' {
            lower_ascii(c)
        } else {
            c
        };
        out.push(l);
        assert(ascii_lower(v@.take(i + 1)) =~= ascii_lower(v@.take(i as int)).push(l));
        i = i + 1;
    }
    assert(v@.take(v.len() as int) =~= v@);
    out
}

fn lower_ascii(c: char) -> (r: char)
    requires
        'A' <= c <= 'Z',
    ensures
        r == ascii_lower_char(c),
{
    let n: u8 = c as u8 + 32;
    n as char
}

fn digit(d: u64) -> (r: char)
    requires
        d < 10,
    ensures
        r == digit_char(d as nat),
{
    if d == 0 {
        '0'
    } else if d == 1 {
        '1'
    } else if d == 2 {
        '2'
    } else if d == 3 {
        '3'
    } else if d == 4 {
        '4'
    } else if d == 5 {
        '5'
    } else if d == 6 {
        '6'
    } else if d == 7 {
        '7'
    } else if d == 8 {
        '8'
    } else {
        '9'
    }
}

/// The decimal numeral of `n`.
pub fn decimal_chars(n: u64) -> (r: Vec<char>)
    ensures
        r@ == decimal(n as nat),
    decreases n,
{
    if n < 10 {
        let mut v: Vec<char> = Vec::new();
        v.push(digit(n));
        assert(v@ =~= seq![digit_char(n as nat)]);
        v
    } else {
        let mut v = decimal_chars(n / 10);
        v.push(digit(n % 10));
        v
    }
}


/// A line without the `\r` of a `\r\n` ending.
pub open spec fn strip_cr(c: Seq<char>) -> Seq<char> {
    if c.len() > 0 && c.last() == '\r' {
        c.drop_last()
    } else {
        c
    }
}

/// Splitting lines from position `i`, given the finished lines and the line
/// being read.
pub open spec fn line_scan(s: Seq<char>, i: int, done: Seq<Seq<char>>, cur: Seq<char>) -> Seq<
    Seq<char>,
>
    decreases s.len() - i,
{
    if i < 0 || i >= s.len() {
        if cur.len() > 0 {
            done.push(cur)
        } else {
            done
        }
    } else if s[i] == '\n' {
        line_scan(s, i + 1, done.push(strip_cr(cur)), seq![])
    } else {
        line_scan(s, i + 1, done, cur.push(s[i]))
    }
}

/// The lines of a text, as `str::lines` gives them: split after each `\n`,
/// each without its `\n` or `\r\n`, and no empty last line.
pub open spec fn lines(s: Seq<char>) -> Seq<Seq<char>> {
    line_scan(s, 0, seq![], seq![])
}

/// Splits a text into lines.
pub fn lines_of(s: &Vec<char>) -> (r: Vec<Vec<char>>)
    ensures
        views(r@) == lines(s@),
{
    let mut done: Vec<Vec<char>> = Vec::new();
    let mut cur: Vec<char> = Vec::new();
    let mut i: usize = 0;
    assert(views(done@) =~= Seq::<Seq<char>>::empty());
    assert(cur@ =~= Seq::<char>::empty());
    while i < s.len()
        invariant
            i <= s.len(),
            lines(s@) == line_scan(s@, i as int, views(done@), cur@),
        decreases s.len() - i,
    {
        if s[i] == '\n' {
            let ghost before = views(done@);
            if cur.len() > 0 && cur[cur.len() - 1] == '\r' {
                cur.pop();
            }
            let ghost stripped = cur@;
            done.push(cur);
            assert(views(done@) =~= before.push(stripped));
            cur = Vec::new();
            assert(cur@ =~= Seq::<char>::empty());
        } else {
            cur.push(s[i]);
        }
        i = i + 1;
    }
    if cur.len() > 0 {
        let ghost before = views(done@);
        let ghost last = cur@;
        done.push(cur);
        assert(views(done@) =~= before.push(last));
    }
    done
}

} // verus!
