//! Recognition of automation lines that write to an authored contract source.
//!
//! A line writes an authority when a `cp`/`mv`/`install` transfer, a shell
//! redirect, an output flag, or a file-writing API call names it as its
//! destination. Reading an authority on the same line is not a write.
use vstd::prelude::*;

use crate::text::{
    ascii_lower, ascii_lowercase, chars_of, concat, contains, contains_lit, ends_with,
    ends_with_lit, find, find_char, find_char_from, find_chars, find_from, has_char, equals_lit,
    is_whitespace, is_ws, last_segment, last_segment_of, occurs_at, replace_char, replace_chars,
    same, slice_of, starts_with, starts_with_chars, starts_with_lit, strip_prefix_lit, trim,
    trim_chars, trim_end, trim_end_chars, trim_start, trim_start_chars, views, Trim,
};

verus! {

broadcast use vstd::string::group_string_axioms;

// ---------------------------------------------------------------------------
// Candidate paths
// ---------------------------------------------------------------------------

/// A path as written in automation, reduced to repository-relative form:
/// trimmed, without a leading `./` or workspace variable, with `/` separators.
pub open spec fn normalize_candidate(p: Seq<char>) -> Seq<char> {
    let t = trim(p, Trim::Space);
    let t = if starts_with(t, "./"@) {
        t.skip("./"@.len() as int)
    } else {
        t
    };
    let t = if starts_with(t, "$GITHUB_WORKSPACE/"@) {
        t.skip("$GITHUB_WORKSPACE/"@.len() as int)
    } else if starts_with(t, "${GITHUB_WORKSPACE}/"@) {
        t.skip("${GITHUB_WORKSPACE}/"@.len() as int)
    } else {
        t
    };
    replace_char(t, '\\', '/')
}

/// The written path names one of the authorities `a`.
pub open spec fn authority_matches(p: Seq<char>, a: Seq<Seq<char>>) -> bool {
    a.contains(normalize_candidate(p))
}

/// Some path of `ps` names one of the authorities `a`.
pub open spec fn any_authority(ps: Seq<Seq<char>>, a: Seq<Seq<char>>) -> bool {
    exists|k: int| 0 <= k < ps.len() && authority_matches(#[trigger] ps[k], a)
}

/// Normalizes a path written in automation.
pub fn normalize_candidate_chars(p: &Vec<char>) -> (r: Vec<char>)
    ensures
        r@ == normalize_candidate(p@),
{
    let t = trim_chars(p, Trim::Space);
    let t = match strip_prefix_lit(&t, "./") {
        Some(u) => u,
        None => t,
    };
    let t = match strip_prefix_lit(&t, "$GITHUB_WORKSPACE/") {
        Some(u) => u,
        None => match strip_prefix_lit(&t, "${GITHUB_WORKSPACE}/") {
            Some(u) => u,
            None => t,
        },
    };
    replace_chars(&t, '\\', '/')
}

/// Whether the written path `p` names one of the authorities.
pub fn authority_matches_chars(p: &Vec<char>, authorities: &Vec<Vec<char>>) -> (r: bool)
    ensures
        r == authority_matches(p@, views(authorities@)),
{
    let n = normalize_candidate_chars(p);
    let mut i: usize = 0;
    while i < authorities.len()
        invariant
            i <= authorities.len(),
            n@ == normalize_candidate(p@),
            forall|j: int| 0 <= j < i ==> views(authorities@)[j] != n@,
        decreases authorities.len() - i,
    {
        if same(&authorities[i], &n) {
            assert(views(authorities@)[i as int] == n@);
            return true;
        }
        i = i + 1;
    }
    assert(!views(authorities@).contains(n@));
    false
}

/// Whether some path of `ps` names one of the authorities.
pub fn any_authority_chars(ps: &Vec<Vec<char>>, authorities: &Vec<Vec<char>>) -> (r: bool)
    ensures
        r == any_authority(views(ps@), views(authorities@)),
{
    let mut i: usize = 0;
    while i < ps.len()
        invariant
            i <= ps.len(),
            forall|k: int|
                0 <= k < i ==> !authority_matches(#[trigger] views(ps@)[k], views(authorities@)),
        decreases ps.len() - i,
    {
        if authority_matches_chars(&ps[i], authorities) {
            assert(authority_matches(views(ps@)[i as int], views(authorities@)));
            return true;
        }
        i = i + 1;
    }
    false
}

// ---------------------------------------------------------------------------
// Tokens
// ---------------------------------------------------------------------------

/// A token with the quotes and punctuation around it removed.
pub open spec fn clean_token(t: Seq<char>) -> Seq<char> {
    trim(t, Trim::TokenEdge)
}

/// Cleans a token: drops the quotes, commas, semicolons and parentheses
/// around it.
pub fn clean_token_chars(t: &Vec<char>) -> (r: Vec<char>)
    ensures
        r@ == clean_token(t@),
{
    trim_chars(t, Trim::TokenEdge)
}

/// Shell-like tokenization from position `i` on, given the tokens so far, the
/// token being read, and the quote that is open.
pub open spec fn tok_scan(
    s: Seq<char>,
    i: int,
    tokens: Seq<Seq<char>>,
    cur: Seq<char>,
    quote: Option<char>,
) -> Seq<Seq<char>>
    decreases s.len() - i,
{
    if i < 0 || i >= s.len() {
        if cur.len() > 0 {
            tokens.push(clean_token(cur))
        } else {
            tokens
        }
    } else {
        let ch = s[i];
        match quote {
            Some(q) => if ch == q {
                tok_scan(s, i + 1, tokens, cur, None)
            } else {
                tok_scan(s, i + 1, tokens, cur.push(ch), quote)
            },
            None => if ch == '\'' || ch == '"' {
                tok_scan(s, i + 1, tokens, cur, Some(ch))
            } else if is_ws(ch) {
                if cur.len() > 0 {
                    tok_scan(s, i + 1, tokens.push(clean_token(cur)), seq![], None)
                } else {
                    tok_scan(s, i + 1, tokens, cur, None)
                }
            } else {
                tok_scan(s, i + 1, tokens, cur.push(ch), None)
            },
        }
    }
}

/// The tokens of a line: whitespace separates tokens outside quotes, quote
/// characters are dropped, and each token is cleaned.
pub open spec fn tokenize(s: Seq<char>) -> Seq<Seq<char>> {
    tok_scan(s, 0, seq![], seq![], None)
}

/// Splits a line into tokens.
pub fn tokenize_chars(s: &Vec<char>) -> (r: Vec<Vec<char>>)
    ensures
        views(r@) == tokenize(s@),
{
    let mut tokens: Vec<Vec<char>> = Vec::new();
    let mut cur: Vec<char> = Vec::new();
    let mut quote: Option<char> = None;
    let mut i: usize = 0;
    assert(views(tokens@) =~= Seq::<Seq<char>>::empty());
    assert(cur@ =~= Seq::<char>::empty());
    while i < s.len()
        invariant
            i <= s.len(),
            tokenize(s@) == tok_scan(s@, i as int, views(tokens@), cur@, quote),
        decreases s.len() - i,
    {
        let ch = s[i];
        match quote {
            Some(q) => {
                if ch == q {
                    quote = None;
                } else {
                    cur.push(ch);
                }
            },
            None => {
                if ch == '\'' || ch == '"' {
                    quote = Some(ch);
                } else if is_whitespace(ch) {
                    if cur.len() > 0 {
                        let t = clean_token_chars(&cur);
                        let ghost old_tokens = tokens@;
                        tokens.push(t);
                        assert(views(tokens@) =~= views(old_tokens).push(clean_token(cur@)));
                        cur = Vec::new();
                        assert(cur@ =~= Seq::<char>::empty());
                    }
                } else {
                    cur.push(ch);
                }
            },
        }
        i = i + 1;
    }
    if cur.len() > 0 {
        let t = clean_token_chars(&cur);
        let ghost old_tokens = tokens@;
        tokens.push(t);
        assert(views(tokens@) =~= views(old_tokens).push(clean_token(cur@)));
    }
    tokens
}

// ---------------------------------------------------------------------------
// Redirects and string arguments
// ---------------------------------------------------------------------------

/// The position of the first `>` outside quotes, scanning from `i` with
/// `quote` open.
pub open spec fn redirect_scan(s: Seq<char>, i: int, quote: Option<char>) -> Option<int>
    decreases s.len() - i,
{
    if i < 0 || i >= s.len() {
        None
    } else {
        let ch = s[i];
        match quote {
            Some(q) => if ch == q {
                redirect_scan(s, i + 1, None)
            } else {
                redirect_scan(s, i + 1, quote)
            },
            None => if ch == '\'' || ch == '"' {
                redirect_scan(s, i + 1, Some(ch))
            } else if ch == '>' {
                Some(i)
            } else {
                redirect_scan(s, i + 1, None)
            },
        }
    }
}

pub proof fn lemma_redirect_scan_bound(s: Seq<char>, i: int, quote: Option<char>)
    ensures
        redirect_scan(s, i, quote) matches Some(p) ==> 0 <= p < s.len(),
    decreases s.len() - i,
{
    if 0 <= i < s.len() {
        let ch = s[i];
        lemma_redirect_scan_bound(s, i + 1, None);
        lemma_redirect_scan_bound(s, i + 1, quote);
        lemma_redirect_scan_bound(s, i + 1, Some(ch));
    }
}

/// The first token after the first unquoted `>` or `>>` of a line.
pub open spec fn redirect_destination(s: Seq<char>) -> Option<Seq<char>> {
    match redirect_scan(s, 0, None) {
        None => None,
        Some(p) => {
            let start = if p + 1 < s.len() && s[p + 1] == '>' {
                p + 2
            } else {
                p + 1
            };
            let toks = tokenize(trim_start(s.skip(start), Trim::Space));
            if toks.len() > 0 {
                Some(toks[0])
            } else {
                None
            }
        },
    }
}

/// Finds the destination of a shell redirect.
pub fn redirect_destination_chars(s: &Vec<char>) -> (r: Option<Vec<char>>)
    ensures
        match r {
            Some(t) => redirect_destination(s@) == Some(t@),
            None => redirect_destination(s@) is None,
        },
{
    let mut quote: Option<char> = None;
    let mut i: usize = 0;
    while i < s.len()
        invariant
            i <= s.len(),
            redirect_scan(s@, 0, None) == redirect_scan(s@, i as int, quote),
        decreases s.len() - i,
    {
        let ch = s[i];
        match quote {
            Some(q) => {
                if ch == q {
                    quote = None;
                }
            },
            None => {
                if ch == '\'' || ch == '"' {
                    quote = Some(ch);
                } else if ch == '>' {
                    let start = if i + 1 < s.len() && s[i + 1] == '>' {
                        i + 2
                    } else {
                        i + 1
                    };
                    let rest = slice_of(s, start, s.len());
                    assert(rest@ =~= s@.skip(start as int));
                    let toks = tokenize_chars(&trim_start_chars(&rest, Trim::Space));
                    if toks.len() > 0 {
                        let t = slice_of(&toks[0], 0, toks[0].len());
                        assert(t@ =~= views(toks@)[0]);
                        return Some(t);
                    } else {
                        return None;
                    }
                }
            },
        }
        i = i + 1;
    }
    None
}

/// The quoted first argument after the first occurrence of `needle`.
pub open spec fn first_string_argument_after(s: Seq<char>, needle: Seq<char>) -> Option<
    Seq<char>,
> {
    match find(s, needle) {
        None => None,
        Some(p) => {
            let tail = trim_start(s.skip(p + needle.len()), Trim::Space);
            if tail.len() == 0 {
                None
            } else {
                let q = tail[0];
                if q != '\'' && q != '"' {
                    None
                } else {
                    let rest = tail.skip(1);
                    match find_char_from(rest, q, 0) {
                        None => None,
                        Some(e) => Some(rest.take(e)),
                    }
                }
            }
        },
    }
}

pub proof fn lemma_find_from_bound(s: Seq<char>, needle: Seq<char>, i: int)
    ensures
        find_from(s, needle, i) matches Some(p) ==> 0 <= p && p + needle.len() <= s.len(),
    decreases s.len() + 1 - i,
{
    if !(i < 0 || i + needle.len() > s.len()) && !occurs_at(s, needle, i) {
        lemma_find_from_bound(s, needle, i + 1);
    }
}

pub proof fn lemma_find_char_from_bound(s: Seq<char>, c: char, i: int)
    ensures
        find_char_from(s, c, i) matches Some(p) ==> 0 <= p < s.len(),
    decreases s.len() - i,
{
    if 0 <= i < s.len() && s[i] != c {
        lemma_find_char_from_bound(s, c, i + 1);
    }
}

/// The quoted first argument after the literal `needle`.
pub fn first_string_argument_after_chars(s: &Vec<char>, needle: &str) -> (r: Option<Vec<char>>)
    ensures
        match r {
            Some(t) => first_string_argument_after(s@, needle@) == Some(t@),
            None => first_string_argument_after(s@, needle@) is None,
        },
{
    let n = chars_of(needle);
    let found = find_chars(s, &n);
    if found.is_none() {
        return None;
    }
    let p = found.unwrap();
    proof {
        lemma_find_from_bound(s@, n@, 0);
        assert(find_from(s@, n@, 0) == Some(p as int));
        assert(p + n@.len() <= s@.len());
    }
    assert(n@.len() == n.len());
    assert(s@.len() == s.len());
    let after = slice_of(s, p + n.len(), s.len());
    assert(after@ =~= s@.skip(p + needle@.len()));
    let tail = trim_start_chars(&after, Trim::Space);
    if tail.len() == 0 {
        return None;
    }
    let q = tail[0];
    if q != '\'' && q != '"' {
        return None;
    }
    let rest = slice_of(&tail, 1, tail.len());
    assert(rest@ =~= tail@.skip(1));
    match find_char(&rest, q, 0) {
        None => None,
        Some(e) => {
            proof {
                lemma_find_char_from_bound(rest@, q, 0);
            }
            let t = slice_of(&rest, 0, e);
            assert(t@ =~= rest@.take(e as int));
            Some(t)
        },
    }
}

// ---------------------------------------------------------------------------
// Output flags and write APIs
// ---------------------------------------------------------------------------

/// The value that token `idx` gives to the output flag `flag`, if any:
/// the next token after `flag`, or the non-empty text after `flag=`.
pub open spec fn flag_value(tokens: Seq<Seq<char>>, idx: int, flag: Seq<char>) -> Seq<
    Seq<char>,
> {
    let t = tokens[idx];
    if t == flag {
        if idx + 1 < tokens.len() {
            seq![tokens[idx + 1]]
        } else {
            seq![]
        }
    } else if starts_with(t, flag.push('=')) {
        let v = t.skip(flag.len() + 1 as int);
        if v.len() > 0 {
            seq![v]
        } else {
            seq![]
        }
    } else {
        seq![]
    }
}

/// The output values that token `idx` gives, flag by flag.
pub open spec fn token_outputs(tokens: Seq<Seq<char>>, idx: int) -> Seq<Seq<char>> {
    flag_value(tokens, idx, "--output"@) + flag_value(tokens, idx, "--out"@) + flag_value(
        tokens,
        idx,
        "--output-file"@,
    ) + flag_value(tokens, idx, "-o"@)
}

/// The output values given by tokens `i..`.
pub open spec fn outputs_from(tokens: Seq<Seq<char>>, i: int) -> Seq<Seq<char>>
    decreases tokens.len() - i,
{
    if i < 0 || i >= tokens.len() {
        seq![]
    } else {
        token_outputs(tokens, i) + outputs_from(tokens, i + 1)
    }
}

/// The destinations named by `--output`, `--out`, `--output-file` and `-o`.
pub open spec fn output_destinations(s: Seq<char>) -> Seq<Seq<char>> {
    outputs_from(tokenize(s), 0)
}

fn flag_value_chars(tokens: &Vec<Vec<char>>, idx: usize, flag: &str, out: &mut Vec<Vec<char>>)
    requires
        idx < tokens.len(),
    ensures
        views(final(out)@) == views(old(out)@) + flag_value(views(tokens@), idx as int, flag@),
{
    let ghost tv = views(tokens@);
    let t = &tokens[idx];
    assert(t@ == tv[idx as int]);
    let f = chars_of(flag);
    let ghost before = views(out@);
    if same(t, &f) {
        if idx + 1 < tokens.len() {
            let v = slice_of(&tokens[idx + 1], 0, tokens[idx + 1].len());
            assert(v@ =~= tv[idx + 1]);
            out.push(v);
            assert(views(out@) =~= before + seq![tv[idx + 1]]);
        } else {
            assert(views(out@) =~= before + Seq::<Seq<char>>::empty());
        }
    } else {
        let mut fe = chars_of(flag);
        fe.push('=');
        if starts_with_chars(t, &fe) {
            let v = slice_of(t, fe.len(), t.len());
            assert(v@ =~= t@.skip(flag@.len() + 1 as int));
            if v.len() > 0 {
                out.push(v);
                assert(views(out@) =~= before + seq![v@]);
            } else {
                assert(views(out@) =~= before + Seq::<Seq<char>>::empty());
            }
        } else {
            assert(views(out@) =~= before + Seq::<Seq<char>>::empty());
        }
    }
}

/// Collects the destinations of output flags on a line.
pub fn output_destinations_chars(s: &Vec<char>) -> (r: Vec<Vec<char>>)
    ensures
        views(r@) == output_destinations(s@),
{
    let tokens = tokenize_chars(s);
    let ghost tv = views(tokens@);
    let mut out: Vec<Vec<char>> = Vec::new();
    let mut i: usize = 0;
    assert(views(out@) + outputs_from(tv, 0) =~= outputs_from(tv, 0));
    while i < tokens.len()
        invariant
            i <= tokens.len(),
            tv == views(tokens@),
            tv == tokenize(s@),
            views(out@) + outputs_from(tv, i as int) == output_destinations(s@),
        decreases tokens.len() - i,
    {
        let ghost before = views(out@);
        flag_value_chars(&tokens, i, "--output", &mut out);
        flag_value_chars(&tokens, i, "--out", &mut out);
        flag_value_chars(&tokens, i, "--output-file", &mut out);
        flag_value_chars(&tokens, i, "-o", &mut out);
        assert(views(out@) =~= before + token_outputs(tv, i as int));
        assert(outputs_from(tv, i as int) == token_outputs(tv, i as int) + outputs_from(
            tv,
            i + 1,
        ));
        assert(before + outputs_from(tv, i as int) =~= views(out@) + outputs_from(tv, i + 1));
        i = i + 1;
    }
    assert(views(out@) =~= views(out@) + outputs_from(tv, i as int));
    out
}

pub open spec fn opt_seq(o: Option<Seq<char>>) -> Seq<Seq<char>> {
    match o {
        Some(x) => seq![x],
        None => seq![],
    }
}

/// The destinations of file-writing API calls on a line: the quoted first
/// argument of `writeFileSync(`, `writeFile(`, `write_file(`, `std::fs::write(`,
/// `fs::write(`, `File::create(`, and of `Path(` when the line calls
/// `.write_text(` or `.write_bytes(`.
pub open spec fn write_api_destinations(s: Seq<char>) -> Seq<Seq<char>> {
    opt_seq(first_string_argument_after(s, "writeFileSync("@)) + opt_seq(
        first_string_argument_after(s, "writeFile("@),
    ) + opt_seq(first_string_argument_after(s, "write_file("@)) + opt_seq(
        first_string_argument_after(s, "std::fs::write("@),
    ) + opt_seq(first_string_argument_after(s, "fs::write("@)) + opt_seq(
        first_string_argument_after(s, "File::create("@),
    ) + (if contains(s, ".write_text("@) || contains(s, ".write_bytes("@) {
        opt_seq(first_string_argument_after(s, "Path("@))
    } else {
        seq![]
    })
}

fn push_argument(s: &Vec<char>, needle: &str, out: &mut Vec<Vec<char>>)
    ensures
        views(final(out)@) == views(old(out)@) + opt_seq(
            first_string_argument_after(s@, needle@),
        ),
{
    let ghost before = views(out@);
    match first_string_argument_after_chars(s, needle) {
        Some(t) => {
            out.push(t);
            assert(views(out@) =~= before + opt_seq(first_string_argument_after(s@, needle@)));
        },
        None => {
            assert(views(out@) =~= before + opt_seq(first_string_argument_after(s@, needle@)));
        },
    }
}

/// Collects the destinations of file-writing API calls on a line.
pub fn write_api_destinations_chars(s: &Vec<char>) -> (r: Vec<Vec<char>>)
    ensures
        views(r@) == write_api_destinations(s@),
{
    let mut out: Vec<Vec<char>> = Vec::new();
    assert(views(out@) =~= Seq::<Seq<char>>::empty());
    push_argument(s, "writeFileSync(", &mut out);
    push_argument(s, "writeFile(", &mut out);
    push_argument(s, "write_file(", &mut out);
    push_argument(s, "std::fs::write(", &mut out);
    push_argument(s, "fs::write(", &mut out);
    push_argument(s, "File::create(", &mut out);
    let ghost six = views(out@);
    if contains_lit(s, ".write_text(") || contains_lit(s, ".write_bytes(") {
        push_argument(s, "Path(", &mut out);
    } else {
        assert(views(out@) =~= six + Seq::<Seq<char>>::empty());
    }
    assert(views(out@) =~= write_api_destinations(s@));
    out
}

// ---------------------------------------------------------------------------
// Transfers: cp, mv, install
// ---------------------------------------------------------------------------

pub open spec fn is_transfer_command(t: Seq<char>) -> bool {
    t == "cp"@ || t == "mv"@ || t == "install"@
}

pub open spec fn is_separator(t: Seq<char>) -> bool {
    t == "&&"@ || t == "||"@ || t == ";"@ || t == "|"@ || t == "&"@
}

/// The operands and target directory of a transfer, reading tokens `i..` up
/// to the first command separator.
pub open spec fn transfer_scan(
    tokens: Seq<Seq<char>>,
    i: int,
    operands: Seq<Seq<char>>,
    target: Option<Seq<char>>,
) -> (Seq<Seq<char>>, Option<Seq<char>>)
    decreases tokens.len() - i,
{
    if i < 0 || i >= tokens.len() {
        (operands, target)
    } else {
        let t = tokens[i];
        if is_separator(t) {
            (operands, target)
        } else if t == "-t"@ || t == "--target-directory"@ {
            if i + 1 < tokens.len() {
                transfer_scan(tokens, i + 2, operands, Some(tokens[i + 1]))
            } else {
                (operands, None)
            }
        } else if starts_with(t, "--target-directory="@) {
            transfer_scan(
                tokens,
                i + 1,
                operands,
                Some(t.skip("--target-directory="@.len() as int)),
            )
        } else if starts_with(t, "-"@) {
            transfer_scan(tokens, i + 1, operands, target)
        } else {
            transfer_scan(tokens, i + 1, operands.push(t), target)
        }
    }
}

/// Whether a destination may be a directory: it ends with `/`, holds a
/// workflow expression, is `.`/`..`/empty, or its file name has no `.` (so a
/// bare variable such as `$RUNNER_TEMP` counts, while `$RUNNER_TEMP/x.tsp`
/// names a file).
pub open spec fn destination_is_directory_like(d: Seq<char>) -> bool {
    let n = normalize_candidate(d);
    let f = last_segment(n);
    ||| (n.len() > 0 && n.last() == '/')
    ||| contains(n, "${{"@)
    ||| f.len() == 0
    ||| f == "."@
    ||| f == ".."@
    ||| !f.contains('.')
}

/// Whether copying `source` into `directory` lands on an authority.
pub open spec fn directory_transfer_hits_authority(
    source: Seq<char>,
    directory: Seq<char>,
    a: Seq<Seq<char>>,
) -> bool {
    let name = last_segment(normalize_candidate(source));
    let dir = trim_end(normalize_candidate(directory), Trim::Slash);
    name.len() > 0 && !starts_with(dir, "$"@) && !contains(dir, "${{"@) && authority_matches(
        dir.push('/') + name,
        a,
    )
}

pub open spec fn any_directory_hit(
    sources: Seq<Seq<char>>,
    directory: Seq<char>,
    a: Seq<Seq<char>>,
) -> bool {
    exists|k: int|
        0 <= k < sources.len() && directory_transfer_hits_authority(
            #[trigger] sources[k],
            directory,
            a,
        )
}

/// Whether a path ends in a canonical authority file name (`main.tsp` or
/// `authored.schema.json`, ignoring ASCII case).
pub open spec fn canonical_authority_literal(p: Seq<char>) -> bool {
    let n = ascii_lower(normalize_candidate(p));
    ||| ends_with(n, "/main.tsp"@)
    ||| n == "main.tsp"@
    ||| ends_with(n, "/authored.schema.json"@)
    ||| n == "authored.schema.json"@
}

pub open spec fn any_canonical(sources: Seq<Seq<char>>) -> bool {
    exists|k: int| 0 <= k < sources.len() && canonical_authority_literal(#[trigger] sources[k])
}

/// Fail-closed rule for transfers into an unknown directory: moving a
/// canonical authority anywhere, or copying one into a directory-like target.
pub open spec fn canonical_unknown_directory_transfer_is_risky(
    command: Seq<char>,
    sources: Seq<Seq<char>>,
    destination: Seq<char>,
) -> bool {
    (command == "mv"@ && any_canonical(sources)) || (destination_is_directory_like(destination)
        && any_canonical(sources))
}

/// Whether the transfer command at token `ci` (its `cp`, `mv` or `install`)
/// can overwrite (or, for `mv`, remove) an authority. Its operands and
/// target directory are read up to the next command separator.
pub open spec fn transfer_writes_authority(tokens: Seq<Seq<char>>, ci: int, a: Seq<Seq<char>>) -> bool {
    let command = tokens[ci];
    let (ops, target) = transfer_scan(tokens, ci + 1, seq![], None);
    let moved = if ops.len() > 0 {
        ops.take(ops.len() - 1)
    } else {
        ops
    };
    if command == "mv"@ && any_authority(moved, a) {
        true
    } else {
        match target {
            Some(d) => any_directory_hit(ops, d, a) || canonical_unknown_directory_transfer_is_risky(
                command,
                ops,
                d,
            ),
            None => if ops.len() < 2 {
                false
            } else {
                let dest = ops.last();
                let sources = ops.drop_last();
                ||| authority_matches(dest, a)
                ||| ((ops.len() > 2 || destination_is_directory_like(dest)) && any_directory_hit(
                    sources,
                    dest,
                    a,
                ))
                ||| canonical_unknown_directory_transfer_is_risky(command, sources, dest)
            },
        }
    }
}

/// Scanning the commands of a line from token `i`: the tokens between
/// separators (`&&`, `||`, `;`, `|`, `&`) form one command, whose first
/// `cp`/`mv`/`install` is its transfer; `found` says whether the current
/// command's transfer was already seen. True when some transfer can
/// overwrite an authority.
pub open spec fn commands_write_authority(
    tokens: Seq<Seq<char>>,
    i: int,
    found: bool,
    a: Seq<Seq<char>>,
) -> bool
    decreases tokens.len() - i,
{
    if i < 0 || i >= tokens.len() {
        false
    } else if is_separator(tokens[i]) {
        commands_write_authority(tokens, i + 1, false, a)
    } else if !found && is_transfer_command(tokens[i]) {
        transfer_writes_authority(tokens, i, a) || commands_write_authority(tokens, i + 1, true, a)
    } else {
        commands_write_authority(tokens, i + 1, found, a)
    }
}

/// Whether some command of a line (the line split at its separators) is a
/// `cp`/`mv`/`install` that can overwrite (or, for `mv`, remove) an
/// authority.
pub open spec fn shell_transfer_writes_authority(s: Seq<char>, a: Seq<Seq<char>>) -> bool {
    commands_write_authority(tokenize(s), 0, false, a)
}

fn copy_chars(v: &Vec<char>) -> (r: Vec<char>)
    ensures
        r@ == v@,
{
    let r = slice_of(v, 0, v.len());
    assert(r@ =~= v@);
    r
}

/// Decides whether a destination may be a directory.
pub fn destination_is_directory_like_chars(d: &Vec<char>) -> (r: bool)
    ensures
        r == destination_is_directory_like(d@),
{
    let n = normalize_candidate_chars(d);
    if n.len() > 0 && n[n.len() - 1] == '/' {
        return true;
    }
    if contains_lit(&n, "${{") {
        return true;
    }
    let f = last_segment_of(&n);
    f.len() == 0 || equals_lit(&f, ".") || equals_lit(&f, "..") || !has_char(&f, '.')
}

/// Whether copying `source` into `directory` lands on an authority.
pub fn directory_transfer_hits_authority_chars(
    source: &Vec<char>,
    directory: &Vec<char>,
    authorities: &Vec<Vec<char>>,
) -> (r: bool)
    ensures
        r == directory_transfer_hits_authority(source@, directory@, views(authorities@)),
{
    let name = last_segment_of(&normalize_candidate_chars(source));
    if name.len() == 0 {
        return false;
    }
    let dir = trim_end_chars(&normalize_candidate_chars(directory), Trim::Slash);
    if starts_with_lit(&dir, "$") || contains_lit(&dir, "${{") {
        return false;
    }
    let mut joined = copy_chars(&dir);
    joined.push('/');
    let joined = concat(&joined, &name);
    authority_matches_chars(&joined, authorities)
}

fn any_directory_hit_chars(
    sources: &Vec<Vec<char>>,
    count: usize,
    directory: &Vec<char>,
    authorities: &Vec<Vec<char>>,
) -> (r: bool)
    requires
        count <= sources.len(),
    ensures
        r == any_directory_hit(views(sources@).take(count as int), directory@, views(authorities@)),
{
    let ghost srcs = views(sources@).take(count as int);
    let mut i: usize = 0;
    while i < count
        invariant
            i <= count <= sources.len(),
            srcs == views(sources@).take(count as int),
            forall|k: int|
                0 <= k < i ==> !directory_transfer_hits_authority(
                    #[trigger] srcs[k],
                    directory@,
                    views(authorities@),
                ),
        decreases count - i,
    {
        if directory_transfer_hits_authority_chars(&sources[i], directory, authorities) {
            assert(directory_transfer_hits_authority(srcs[i as int], directory@, views(authorities@)));
            return true;
        }
        i = i + 1;
    }
    false
}

/// Whether a path ends in a canonical authority file name.
pub fn canonical_authority_literal_chars(p: &Vec<char>) -> (r: bool)
    ensures
        r == canonical_authority_literal(p@),
{
    let n = ascii_lowercase(&normalize_candidate_chars(p));
    ends_with_lit(&n, "/main.tsp") || equals_lit(&n, "main.tsp") || ends_with_lit(
        &n,
        "/authored.schema.json",
    ) || equals_lit(&n, "authored.schema.json")
}

fn any_canonical_chars(sources: &Vec<Vec<char>>, count: usize) -> (r: bool)
    requires
        count <= sources.len(),
    ensures
        r == any_canonical(views(sources@).take(count as int)),
{
    let ghost srcs = views(sources@).take(count as int);
    let mut i: usize = 0;
    while i < count
        invariant
            i <= count <= sources.len(),
            srcs == views(sources@).take(count as int),
            forall|k: int| 0 <= k < i ==> !canonical_authority_literal(#[trigger] srcs[k]),
        decreases count - i,
    {
        if canonical_authority_literal_chars(&sources[i]) {
            assert(canonical_authority_literal(srcs[i as int]));
            return true;
        }
        i = i + 1;
    }
    false
}

/// Applies the fail-closed rule for transfers into an unknown directory to
/// the first `count` operands as sources.
pub fn canonical_unknown_directory_transfer_is_risky_chars(
    command: &Vec<char>,
    sources: &Vec<Vec<char>>,
    count: usize,
    destination: &Vec<char>,
) -> (r: bool)
    requires
        count <= sources.len(),
    ensures
        r == canonical_unknown_directory_transfer_is_risky(
            command@,
            views(sources@).take(count as int),
            destination@,
        ),
{
    if equals_lit(command, "mv") && any_canonical_chars(sources, count) {
        return true;
    }
    if !destination_is_directory_like_chars(destination) {
        return false;
    }
    any_canonical_chars(sources, count)
}

fn is_separator_chars(t: &Vec<char>) -> (r: bool)
    ensures
        r == is_separator(t@),
{
    equals_lit(t, "&&") || equals_lit(t, "||") || equals_lit(t, ";") || equals_lit(t, "|") || equals_lit(t, "&")
}

/// Decides whether some command of a line is a transfer that can overwrite
/// an authority.
pub fn shell_transfer_writes_authority_chars(s: &Vec<char>, authorities: &Vec<Vec<char>>) -> (r:
    bool)
    ensures
        r == shell_transfer_writes_authority(s@, views(authorities@)),
{
    let ghost a = views(authorities@);
    let tokens = tokenize_chars(s);
    let ghost tv = views(tokens@);
    let mut found = false;
    let mut i: usize = 0;
    while i < tokens.len()
        invariant
            i <= tokens.len(),
            tv == views(tokens@),
            tv == tokenize(s@),
            a == views(authorities@),
            commands_write_authority(tv, 0, false, a) == commands_write_authority(
                tv,
                i as int,
                found,
                a,
            ),
        decreases tokens.len() - i,
    {
        assert(tv[i as int] == tokens@[i as int]@);
        if is_separator_chars(&tokens[i]) {
            found = false;
        } else if !found && (equals_lit(&tokens[i], "cp") || equals_lit(&tokens[i], "mv")
            || equals_lit(&tokens[i], "install")) {
            assert(is_transfer_command(tv[i as int]));
            if transfer_writes_authority_chars(&tokens, i, authorities) {
                assert(commands_write_authority(tv, i as int, found, a));
                return true;
            }
            found = true;
        }
        i = i + 1;
    }
    false
}

/// Decides whether the transfer command at token `ci` can overwrite an
/// authority (see `transfer_writes_authority`).
pub fn transfer_writes_authority_chars(
    tokens: &Vec<Vec<char>>,
    ci: usize,
    authorities: &Vec<Vec<char>>,
) -> (r: bool)
    requires
        ci < tokens.len(),
    ensures
        r == transfer_writes_authority(views(tokens@), ci as int, views(authorities@)),
{
    let ghost a = views(authorities@);
    let ghost tv = views(tokens@);
    assert(tv[ci as int] == tokens@[ci as int]@);
    let command = &tokens[ci];
    // operands and target directory
    let mut operands: Vec<Vec<char>> = Vec::new();
    let mut target: Option<Vec<char>> = None;
    let mut index = ci + 1;
    assert(views(operands@) =~= Seq::<Seq<char>>::empty());
    let ghost scanned = transfer_scan(tv, ci + 1, seq![], None);
    while index < tokens.len()
        invariant_except_break
            ci < index,
            tv == views(tokens@),
            scanned == transfer_scan(
                tv,
                index as int,
                views(operands@),
                match target {
                    Some(t) => Some(t@),
                    None => None,
                },
            ),
        invariant
            tv == views(tokens@),
        ensures
            scanned == (
                views(operands@),
                match target {
                    Some(t) => Some(t@),
                    None => None,
                },
            ),
        decreases tokens.len() - index,
    {
        let token = &tokens[index];
        assert(tv[index as int] == token@);
        if is_separator_chars(token) {
            break;
        }
        if equals_lit(token, "-t") || equals_lit(token, "--target-directory") {
            if index + 1 < tokens.len() {
                target = Some(copy_chars(&tokens[index + 1]));
                assert(tv[index + 1] == tokens@[index + 1]@);
                index = index + 2;
            } else {
                target = None;
                break;
            }
            continue;
        }
        match strip_prefix_lit(token, "--target-directory=") {
            Some(value) => {
                target = Some(value);
                index = index + 1;
                continue;
            },
            None => {},
        }
        if starts_with_lit(token, "-") {
            index = index + 1;
            continue;
        }
        let ghost before = views(operands@);
        operands.push(copy_chars(token));
        assert(views(operands@) =~= before.push(token@));
        index = index + 1;
    }
    let ghost ops = views(operands@);
    let n = operands.len();
    // `mv` removes its sources
    let moved = if n > 0 {
        n - 1
    } else {
        0
    };
    assert(ops.take(moved as int) =~= (if ops.len() > 0 {
        ops.take(ops.len() - 1)
    } else {
        ops
    }));
    if equals_lit(command, "mv") && any_authority_prefix(&operands, moved, authorities) {
        return true;
    }
    match target {
        Some(directory) => {
            assert(ops.take(n as int) =~= ops);
            any_directory_hit_chars(&operands, n, &directory, authorities)
                || canonical_unknown_directory_transfer_is_risky_chars(
                command,
                &operands,
                n,
                &directory,
            )
        },
        None => {
            if n < 2 {
                return false;
            }
            let destination = &operands[n - 1];
            assert(ops.last() == destination@);
            assert(ops.take(n - 1) =~= ops.drop_last());
            if authority_matches_chars(destination, authorities) {
                return true;
            }
            let directory_like = n > 2 || destination_is_directory_like_chars(destination);
            if directory_like && any_directory_hit_chars(
                &operands,
                n - 1,
                destination,
                authorities,
            ) {
                return true;
            }
            canonical_unknown_directory_transfer_is_risky_chars(
                command,
                &operands,
                n - 1,
                destination,
            )
        },
    }
}

fn any_authority_prefix(ps: &Vec<Vec<char>>, count: usize, authorities: &Vec<Vec<char>>) -> (r:
    bool)
    requires
        count <= ps.len(),
    ensures
        r == any_authority(views(ps@).take(count as int), views(authorities@)),
{
    let ghost p = views(ps@).take(count as int);
    let mut i: usize = 0;
    while i < count
        invariant
            i <= count <= ps.len(),
            p == views(ps@).take(count as int),
            forall|k: int| 0 <= k < i ==> !authority_matches(#[trigger] p[k], views(authorities@)),
        decreases count - i,
    {
        if authority_matches_chars(&ps[i], authorities) {
            assert(authority_matches(p[i as int], views(authorities@)));
            return true;
        }
        i = i + 1;
    }
    false
}

// ---------------------------------------------------------------------------
// Lines
// ---------------------------------------------------------------------------

/// The shell command of a line: what follows a workflow `run:` key, trimmed.
pub open spec fn shell_of(line: Seq<char>) -> Seq<char> {
    if starts_with(line, "run:"@) {
        trim(line.skip("run:"@.len() as int), Trim::Space)
    } else {
        line
    }
}

/// A (trimmed) automation line writes one of the authorities `a`.
pub open spec fn line_writes_authority(line: Seq<char>, a: Seq<Seq<char>>) -> bool {
    let shell = shell_of(line);
    ||| shell_transfer_writes_authority(shell, a)
    ||| (match redirect_destination(shell) {
        Some(p) => authority_matches(p, a),
        None => false,
    })
    ||| any_authority(output_destinations(shell), a)
    ||| any_authority(write_api_destinations(shell), a)
}

/// Decides whether a (trimmed) automation line writes an authority.
pub fn line_writes_authority_chars(line: &Vec<char>, authorities: &Vec<Vec<char>>) -> (r: bool)
    ensures
        r == line_writes_authority(line@, views(authorities@)),
{
    let shell = match strip_prefix_lit(line, "run:") {
        Some(rest) => trim_chars(&rest, Trim::Space),
        None => copy_chars(line),
    };
    if shell_transfer_writes_authority_chars(&shell, authorities) {
        return true;
    }
    match redirect_destination_chars(&shell) {
        Some(p) => {
            if authority_matches_chars(&p, authorities) {
                return true;
            }
        },
        None => {},
    }
    if any_authority_chars(&output_destinations_chars(&shell), authorities) {
        return true;
    }
    any_authority_chars(&write_api_destinations_chars(&shell), authorities)
}

} // verus!
