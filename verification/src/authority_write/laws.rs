//! Properties of the authority-write audit that hold of every input.
use vstd::prelude::*;

use crate::authority_write::audit::{
    audit_files, audit_outcome, audit_source, authority_limit, collect_walk, collect_walks,
    config_authorities, configs_read, configs_scan, direct_write, discover_authorities,
    discover_walk, discovery_failed, file_limit, file_not_utf8, file_too_large, file_unreadable,
    insert_authority, is_authority_step, resolve_declared, resolution, saturating_sum, scan_failed,
    scan_lines, walk_of, automation_sources, is_source_step, find_source, AuthorityRepository,
    ConfigSnapshot, SourceSnapshot, DIRECT_WRITE, MAX_AUTHORITIES, MAX_FILES, MAX_FILE_BYTES,
    below, config_readable, declared_paths, entry_path, scan_root,
};
use crate::authority_write::sources::path_has_generated_component;
use crate::text::string_views;
use crate::paths::{sort_unique, lemma_sort_unique, strictly_sorted, lemma_path_less_asymmetric, relative_display};
use crate::authority_write::model::Note;
use crate::authority_write::audit::is_skipped_line;
use crate::text::{
    contains, ends_with, is_ws, last_index_of, lead, lemma_last_index_of_bound, starts_with, trail, trim,
    trim_end, trim_start, trims, Trim,
};
use crate::shell::{redirect_destination, redirect_scan, tok_scan, tokenize};
use crate::shell::{normalize_candidate, output_destinations, outputs_from};
use crate::authority_write::sources::{
    extension, is_authored_schema, is_authored_typespec, is_generated_name, is_source_file,
    should_descend,
};
use crate::paths::join;
use crate::snapshot::WalkStep;
use crate::shell::{
    any_authority, any_directory_hit, authority_matches, clean_token, directory_transfer_hits_authority,
    commands_write_authority, line_writes_authority, shell_transfer_writes_authority,
    transfer_writes_authority,
};

verus! {

/// Every authority of `a` is one of `b`.
pub open spec fn covers(b: Seq<Seq<char>>, a: Seq<Seq<char>>) -> bool {
    forall|x: Seq<char>| a.contains(x) ==> b.contains(x)
}

proof fn lemma_any_authority_monotone(ps: Seq<Seq<char>>, a: Seq<Seq<char>>, b: Seq<Seq<char>>)
    requires
        covers(b, a),
        any_authority(ps, a),
    ensures
        any_authority(ps, b),
{
    let k = choose|k: int| 0 <= k < ps.len() && authority_matches(#[trigger] ps[k], a);
    assert(authority_matches(ps[k], b));
}

proof fn lemma_directory_hit_monotone(
    sources: Seq<Seq<char>>,
    d: Seq<char>,
    a: Seq<Seq<char>>,
    b: Seq<Seq<char>>,
)
    requires
        covers(b, a),
        any_directory_hit(sources, d, a),
    ensures
        any_directory_hit(sources, d, b),
{
    let k = choose|k: int|
        0 <= k < sources.len() && directory_transfer_hits_authority(#[trigger] sources[k], d, a);
    assert(directory_transfer_hits_authority(sources[k], d, b));
}

/// Protecting more authorities never lets a line through that was rejected:
/// if every authority of `a` is one of `b`, a line that writes one of `a`
/// writes one of `b`.
pub proof fn lemma_line_writes_authority_monotone(
    line: Seq<char>,
    a: Seq<Seq<char>>,
    b: Seq<Seq<char>>,
)
    requires
        covers(b, a),
        line_writes_authority(line, a),
    ensures
        line_writes_authority(line, b),
{
    let shell = crate::shell::shell_of(line);
    if any_authority(crate::shell::output_destinations(shell), a) {
        lemma_any_authority_monotone(crate::shell::output_destinations(shell), a, b);
    }
    if any_authority(crate::shell::write_api_destinations(shell), a) {
        lemma_any_authority_monotone(crate::shell::write_api_destinations(shell), a, b);
    }
    if shell_transfer_writes_authority(shell, a) {
        lemma_commands_monotone(crate::shell::tokenize(shell), 0, false, a, b);
    }
}

proof fn lemma_transfer_monotone(tokens: Seq<Seq<char>>, ci: int, a: Seq<Seq<char>>, b: Seq<Seq<char>>)
    requires
        covers(b, a),
        transfer_writes_authority(tokens, ci, a),
    ensures
        transfer_writes_authority(tokens, ci, b),
{
    let (ops, target) = crate::shell::transfer_scan(tokens, ci + 1, seq![], None);
    let moved = if ops.len() > 0 {
        ops.take(ops.len() - 1)
    } else {
        ops
    };
    if any_authority(moved, a) {
        lemma_any_authority_monotone(moved, a, b);
    }
    match target {
        Some(d) => {
            if any_directory_hit(ops, d, a) {
                lemma_directory_hit_monotone(ops, d, a, b);
            }
        },
        None => {
            if ops.len() >= 2 && any_directory_hit(ops.drop_last(), ops.last(), a) {
                lemma_directory_hit_monotone(ops.drop_last(), ops.last(), a, b);
            }
        },
    }
}

proof fn lemma_commands_monotone(
    tokens: Seq<Seq<char>>,
    i: int,
    found: bool,
    a: Seq<Seq<char>>,
    b: Seq<Seq<char>>,
)
    requires
        covers(b, a),
        commands_write_authority(tokens, i, found, a),
    ensures
        commands_write_authority(tokens, i, found, b),
    decreases tokens.len() - i,
{
    if 0 <= i < tokens.len() {
        if crate::shell::is_separator(tokens[i]) {
            lemma_commands_monotone(tokens, i + 1, false, a, b);
        } else if !found && crate::shell::is_transfer_command(tokens[i]) {
            if transfer_writes_authority(tokens, i, a) {
                lemma_transfer_monotone(tokens, i, a, b);
            } else {
                lemma_commands_monotone(tokens, i + 1, true, a, b);
            }
        } else {
            lemma_commands_monotone(tokens, i + 1, found, a, b);
        }
    }
}

// ---------------------------------------------------------------------------
// Earlier findings are kept; only findings are added
// ---------------------------------------------------------------------------

/// `r` starts with `ns`.
pub open spec fn extends(r: Seq<Note>, ns: Seq<Note>) -> bool {
    ns.len() <= r.len() && r.take(ns.len() as int) == ns
}

/// The number of notes with code `code`.
pub open spec fn count_code(ns: Seq<Note>, code: Seq<char>) -> nat
    decreases ns.len(),
{
    if ns.len() == 0 {
        0
    } else {
        count_code(ns.drop_last(), code) + if ns.last().code == code {
            1nat
        } else {
            0nat
        }
    }
}

proof fn lemma_push(ns: Seq<Note>, x: Note, code: Seq<char>)
    ensures
        extends(ns.push(x), ns),
        count_code(ns.push(x), code) == count_code(ns, code) + if x.code == code {
            1nat
        } else {
            0nat
        },
{
    assert(ns.push(x).drop_last() =~= ns);
    assert(ns.push(x).take(ns.len() as int) =~= ns);
}

proof fn lemma_extends_refl(ns: Seq<Note>)
    ensures
        extends(ns, ns),
{
    assert(ns.take(ns.len() as int) =~= ns);
}

proof fn lemma_extends_trans(a: Seq<Note>, b: Seq<Note>, c: Seq<Note>)
    requires
        extends(b, a),
        extends(c, b),
    ensures
        extends(c, a),
{
    assert(c.take(a.len() as int) =~= b.take(a.len() as int));
}

/// The codes of the notes that discovery, collection and file reading add
/// differ from the code of a direct write.
proof fn lemma_codes_differ(m: Seq<char>, t: Seq<char>)
    ensures
        discovery_failed(m).code != DIRECT_WRITE@,
        authority_limit().code != DIRECT_WRITE@,
        scan_failed(m, t).code != DIRECT_WRITE@,
        file_limit(t).code != DIRECT_WRITE@,
        file_unreadable(m, t).code != DIRECT_WRITE@,
        file_too_large(t).code != DIRECT_WRITE@,
        file_not_utf8(m, t).code != DIRECT_WRITE@,
        direct_write(t, 0).code == DIRECT_WRITE@,
{
    reveal_strlit("peer-authority-direct-write");
    reveal_strlit("peer-authority-write-discovery-failed");
    reveal_strlit("peer-authority-write-authority-limit");
    reveal_strlit("peer-authority-write-scan-failed");
    reveal_strlit("peer-authority-write-file-limit");
    reveal_strlit("peer-authority-write-file-unreadable");
    reveal_strlit("peer-authority-write-file-too-large");
    reveal_strlit("peer-authority-write-file-not-utf8");
    assert("peer-authority-write-discovery-failed"@[15] != "peer-authority-direct-write"@[15]);
    assert("peer-authority-write-authority-limit"@[15] != "peer-authority-direct-write"@[15]);
    assert("peer-authority-write-scan-failed"@[15] != "peer-authority-direct-write"@[15]);
    assert("peer-authority-write-file-limit"@[15] != "peer-authority-direct-write"@[15]);
    assert("peer-authority-write-file-unreadable"@[15] != "peer-authority-direct-write"@[15]);
    assert("peer-authority-write-file-too-large"@[15] != "peer-authority-direct-write"@[15]);
    assert("peer-authority-write-file-not-utf8"@[15] != "peer-authority-direct-write"@[15]);
}

// ---------------------------------------------------------------------------
// Discovery: distinct authorities within the limit
// ---------------------------------------------------------------------------

/// The state of discovery: distinct authorities within the limit.
pub open spec fn sound_authorities(a: Seq<Seq<char>>) -> bool {
    a.no_duplicates() && a.len() <= MAX_AUTHORITIES
}

/// What a discovery step keeps: the authorities stay distinct and within the
/// limit, earlier findings stay, and no direct write is reported.
pub open spec fn discovery_step(
    before: (Seq<Seq<char>>, Seq<Note>),
    after: (Seq<Seq<char>>, Seq<Note>),
) -> bool {
    &&& sound_authorities(before.0) ==> sound_authorities(after.0)
    &&& extends(after.1, before.1)
    &&& count_code(after.1, DIRECT_WRITE@) == count_code(before.1, DIRECT_WRITE@)
}

proof fn lemma_step_trans(
    a: (Seq<Seq<char>>, Seq<Note>),
    b: (Seq<Seq<char>>, Seq<Note>),
    c: (Seq<Seq<char>>, Seq<Note>),
)
    requires
        discovery_step(a, b),
        discovery_step(b, c),
    ensures
        discovery_step(a, c),
{
    lemma_extends_trans(a.1, b.1, c.1);
}

proof fn lemma_step_refl(a: (Seq<Seq<char>>, Seq<Note>))
    ensures
        discovery_step(a, a),
{
    lemma_extends_refl(a.1);
}

proof fn lemma_insert_authority(auth: Seq<Seq<char>>, ns: Seq<Note>, p: Seq<char>)
    ensures
        discovery_step((auth, ns), insert_authority(auth, ns, p)),
{
    lemma_codes_differ(seq![], seq![]);
    lemma_push(ns, authority_limit(), DIRECT_WRITE@);
    lemma_extends_refl(ns);
    if auth.len() < MAX_AUTHORITIES && !auth.contains(p) {
        assert(sound_authorities(auth) ==> auth.push(p).no_duplicates()) by {
            if sound_authorities(auth) {
                assert forall|i: int, j: int|
                    0 <= i < auth.push(p).len() && 0 <= j < auth.push(p).len() && i != j implies auth.push(
                    p,
                )[i] != auth.push(p)[j] by {
                    if i < auth.len() && j == auth.len() {
                        assert(auth.contains(auth[i]));
                    } else if j < auth.len() && i == auth.len() {
                        assert(auth.contains(auth[j]));
                    }
                }
            }
        }
    }
}

proof fn lemma_discover_walk(steps: Seq<WalkStep>, i: int, auth: Seq<Seq<char>>, ns: Seq<Note>)
    ensures
        discovery_step((auth, ns), discover_walk(steps, i, auth, ns)),
    decreases steps.len() - i,
{
    if i < 0 || i >= steps.len() {
        lemma_step_refl((auth, ns));
    } else {
        match steps[i] {
            WalkStep::Failed { message, .. } => {
                let n2 = ns.push(discovery_failed(message@));
                lemma_codes_differ(message@, seq![]);
                lemma_push(ns, discovery_failed(message@), DIRECT_WRITE@);
                lemma_discover_walk(steps, i + 1, auth, n2);
                lemma_step_trans((auth, ns), (auth, n2), discover_walk(steps, i + 1, auth, n2));
            },
            WalkStep::Entry(e) => if is_authority_step(steps[i]) {
                let st = insert_authority(auth, ns, join(crate::authority_write::audit::entry_path(e)));
                lemma_insert_authority(auth, ns, join(crate::authority_write::audit::entry_path(e)));
                lemma_discover_walk(steps, i + 1, st.0, st.1);
                lemma_step_trans((auth, ns), st, discover_walk(steps, i + 1, st.0, st.1));
            } else {
                lemma_discover_walk(steps, i + 1, auth, ns);
            },
        }
    }
}

proof fn lemma_resolve_declared(
    c: ConfigSnapshot,
    root: Seq<Seq<char>>,
    n: int,
    j: int,
    auth: Seq<Seq<char>>,
    ns: Seq<Note>,
)
    ensures
        discovery_step((auth, ns), resolve_declared(c, root, n, j, auth, ns)),
    decreases n - j,
{
    if j < 0 || j >= n {
        lemma_step_refl((auth, ns));
    } else {
        match resolution(c, j) {
            Some(p) => if crate::authority_write::audit::below(p, root)
                && !crate::authority_write::sources::path_has_generated_component(
                p.skip(root.len() as int),
            ) {
                let st = insert_authority(auth, ns, join(p.skip(root.len() as int)));
                lemma_insert_authority(auth, ns, join(p.skip(root.len() as int)));
                lemma_resolve_declared(c, root, n, j + 1, st.0, st.1);
                lemma_step_trans((auth, ns), st, resolve_declared(c, root, n, j + 1, st.0, st.1));
            } else {
                lemma_resolve_declared(c, root, n, j + 1, auth, ns);
            },
            None => {
                lemma_resolve_declared(c, root, n, j + 1, auth, ns);
            },
        }
    }
}

proof fn lemma_configs_scan(
    repo: AuthorityRepository,
    n: int,
    k: int,
    auth: Seq<Seq<char>>,
    ns: Seq<Note>,
)
    ensures
        discovery_step((auth, ns), configs_scan(repo, n, k, auth, ns)),
    decreases n - k,
{
    if k < 0 || k >= n {
        lemma_step_refl((auth, ns));
    } else {
        let c = repo.configs@[k];
        let st = config_authorities(c, repo.canonical_root, auth, ns);
        if crate::authority_write::audit::config_readable(c) && repo.canonical_root is Some {
            lemma_resolve_declared(
                c,
                crate::text::string_views(repo.canonical_root->0@),
                crate::authority_write::audit::declared_paths(c.text->0@).len() as int,
                0,
                auth,
                ns,
            );
        } else {
            lemma_step_refl((auth, ns));
        }
        lemma_configs_scan(repo, n, k + 1, st.0, st.1);
        lemma_step_trans((auth, ns), st, configs_scan(repo, n, k + 1, st.0, st.1));
    }
}

/// Discovery records distinct authorities, at most `MAX_AUTHORITIES` of
/// them; it keeps the report's earlier findings and reports no direct write.
pub proof fn lemma_discovery_sound(repo: AuthorityRepository, ns: Seq<Note>)
    ensures
        sound_authorities(discover_authorities(repo, ns).0),
        extends(discover_authorities(repo, ns).1, ns),
        count_code(discover_authorities(repo, ns).1, DIRECT_WRITE@) == count_code(ns, DIRECT_WRITE@),
{
    let empty: Seq<Seq<char>> = seq![];
    assert(empty.no_duplicates());
    if repo.contracts_is_dir {
        lemma_discover_walk(repo.contract_walk@, 0, empty, ns);
        let st = discover_walk(repo.contract_walk@, 0, empty, ns);
        lemma_configs_scan(repo, configs_read(repo), 0, st.0, st.1);
        lemma_step_trans((empty, ns), st, configs_scan(repo, configs_read(repo), 0, st.0, st.1));
    } else {
        lemma_extends_refl(ns);
    }
}


// ---------------------------------------------------------------------------
// Collection of automation sources
// ---------------------------------------------------------------------------

proof fn lemma_collect_walk(
    steps: Seq<WalkStep>,
    i: int,
    root: Seq<char>,
    files: Seq<Seq<Seq<char>>>,
    ns: Seq<Note>,
    overflow: bool,
)
    requires
        files.len() <= MAX_FILES,
    ensures
        ({
            let (f, n, _) = collect_walk(steps, i, root, files, ns, overflow);
            &&& f.len() <= MAX_FILES
            &&& extends(n, ns)
            &&& count_code(n, DIRECT_WRITE@) == count_code(ns, DIRECT_WRITE@)
        }),
    decreases steps.len() - i,
{
    if i < 0 || i >= steps.len() {
        lemma_extends_refl(ns);
    } else {
        lemma_codes_differ(seq![], root);
        match steps[i] {
            WalkStep::Failed { message, .. } => {
                lemma_codes_differ(message@, root);
                let n2 = ns.push(crate::authority_write::audit::scan_failed(message@, root));
                lemma_push(ns, crate::authority_write::audit::scan_failed(message@, root), DIRECT_WRITE@);
                lemma_collect_walk(steps, i + 1, root, files, n2, overflow);
                lemma_extends_trans(ns, n2, collect_walk(steps, i + 1, root, files, n2, overflow).1);
            },
            WalkStep::Entry(e) => if !is_source_step(steps[i]) {
                lemma_collect_walk(steps, i + 1, root, files, ns, overflow);
            } else if files.len() >= MAX_FILES {
                if overflow {
                    lemma_collect_walk(steps, i + 1, root, files, ns, overflow);
                } else {
                    let n2 = ns.push(file_limit(root));
                    lemma_push(ns, file_limit(root), DIRECT_WRITE@);
                    lemma_collect_walk(steps, i + 1, root, files, n2, true);
                    lemma_extends_trans(ns, n2, collect_walk(steps, i + 1, root, files, n2, true).1);
                }
            } else {
                lemma_collect_walk(
                    steps,
                    i + 1,
                    root,
                    files.push(crate::authority_write::audit::entry_path(e)),
                    ns,
                    overflow,
                );
            },
        }
    }
}

proof fn lemma_collect_walks(
    walks: Seq<Vec<WalkStep>>,
    r: int,
    files: Seq<Seq<Seq<char>>>,
    ns: Seq<Note>,
    overflow: bool,
)
    requires
        files.len() <= MAX_FILES,
    ensures
        ({
            let (f, n) = collect_walks(walks, r, files, ns, overflow);
            &&& f.len() <= MAX_FILES
            &&& extends(n, ns)
            &&& count_code(n, DIRECT_WRITE@) == count_code(ns, DIRECT_WRITE@)
        }),
    decreases 3 - r,
{
    if r < 0 || r >= 3 {
        lemma_extends_refl(ns);
    } else {
        let root = crate::authority_write::audit::scan_root(r);
        let (f2, n2, o2) = collect_walk(walk_of(walks, r), 0, root, files, ns, overflow);
        lemma_collect_walk(walk_of(walks, r), 0, root, files, ns, overflow);
        lemma_collect_walks(walks, r + 1, f2, n2, o2);
        lemma_extends_trans(ns, n2, collect_walks(walks, r + 1, f2, n2, o2).1);
    }
}

/// A strictly ascending sequence of paths holds each path once.
proof fn lemma_sorted_unique_len(s: Seq<Seq<Seq<char>>>, input: Seq<Seq<Seq<char>>>)
    requires
        strictly_sorted(s),
        s.to_set() == input.to_set(),
    ensures
        s.len() <= input.len(),
{
    assert(s.no_duplicates()) by {
        assert forall|i: int, j: int| 0 <= i < s.len() && 0 <= j < s.len() && i != j implies s[i]
            != s[j] by {
            if i < j {
                lemma_path_less_asymmetric(s[i], s[j]);
            } else {
                lemma_path_less_asymmetric(s[j], s[i]);
            }
        }
    }
    s.unique_seq_to_set();
    input.lemma_cardinality_of_set();
}

/// The audit reads at most `MAX_FILES` automation files, in ascending path
/// order without duplicates; collecting them keeps the report's earlier
/// findings and reports no direct write.
pub proof fn lemma_automation_sources(repo: AuthorityRepository, ns: Seq<Note>)
    ensures
        ({
            let (files, n) = automation_sources(repo, ns);
            &&& strictly_sorted(files)
            &&& files.len() <= MAX_FILES
            &&& extends(n, ns)
            &&& count_code(n, DIRECT_WRITE@) == count_code(ns, DIRECT_WRITE@)
        }),
{
    let (raw, n) = collect_walks(repo.scan_walks@, 0, seq![], ns, false);
    lemma_collect_walks(repo.scan_walks@, 0, seq![], ns, false);
    lemma_sort_unique(raw);
    lemma_sorted_unique_len(sort_unique(raw), raw);
}

// ---------------------------------------------------------------------------
// Reading files: one direct-write finding per rejected line
// ---------------------------------------------------------------------------

proof fn lemma_scan_lines(
    ls: Seq<Seq<char>>,
    i: int,
    target: Seq<char>,
    a: Seq<Seq<char>>,
    ns: Seq<Note>,
    count: nat,
)
    ensures
        ({
            let (n, c) = scan_lines(ls, i, target, a, ns, count);
            &&& c >= count
            &&& extends(n, ns)
            &&& count_code(n, DIRECT_WRITE@) == count_code(ns, DIRECT_WRITE@) + (c - count)
        }),
    decreases ls.len() - i,
{
    if i < 0 || i >= ls.len() {
        lemma_extends_refl(ns);
    } else {
        let t = crate::text::trim(ls[i], crate::text::Trim::Space);
        if !crate::authority_write::audit::is_skipped_line(t) && line_writes_authority(t, a) {
            let note = direct_write(target, (i + 1) as nat);
            lemma_codes_differ(seq![], target);
            lemma_push(ns, note, DIRECT_WRITE@);
            lemma_scan_lines(ls, i + 1, target, a, ns.push(note), count + 1);
            lemma_extends_trans(
                ns,
                ns.push(note),
                scan_lines(ls, i + 1, target, a, ns.push(note), count + 1).0,
            );
        } else {
            lemma_scan_lines(ls, i + 1, target, a, ns, count);
        }
    }
}

proof fn lemma_audit_source(src: SourceSnapshot, target: Seq<char>, a: Seq<Seq<char>>, ns: Seq<Note>)
    ensures
        ({
            let (n, c) = audit_source(src, target, a, ns);
            &&& extends(n, ns)
            &&& count_code(n, DIRECT_WRITE@) == count_code(ns, DIRECT_WRITE@) + c
        }),
{
    match src.metadata {
        Err(m) => {
            lemma_codes_differ(m@, target);
            lemma_push(ns, file_unreadable(m@, target), DIRECT_WRITE@);
        },
        Ok(len) => if len > MAX_FILE_BYTES {
            lemma_codes_differ(seq![], target);
            lemma_push(ns, file_too_large(target), DIRECT_WRITE@);
        } else {
            match src.text {
                Err(m) => {
                    lemma_codes_differ(m@, target);
                    lemma_push(ns, file_not_utf8(m@, target), DIRECT_WRITE@);
                },
                Ok(text) => {
                    lemma_scan_lines(crate::text::lines(text@), 0, target, a, ns, 0);
                },
            }
        },
    }
}

proof fn lemma_saturating_sum(x: nat, c: nat, d: nat)
    requires
        x <= u64::MAX,
    ensures
        saturating_sum(saturating_sum(x, c), d) == saturating_sum(x, c + d),
        saturating_sum(x, c) <= u64::MAX,
{
}

proof fn lemma_audit_files(
    files: Seq<Seq<Seq<char>>>,
    j: int,
    sources: Seq<SourceSnapshot>,
    a: Seq<Seq<char>>,
    ns: Seq<Note>,
    total: nat,
)
    requires
        total <= u64::MAX,
    ensures
        ({
            let (n, t) = audit_files(files, j, sources, a, ns, total);
            &&& extends(n, ns)
            &&& count_code(n, DIRECT_WRITE@) >= count_code(ns, DIRECT_WRITE@)
            &&& t == saturating_sum(
                total,
                (count_code(n, DIRECT_WRITE@) - count_code(ns, DIRECT_WRITE@)) as nat,
            )
        }),
    decreases files.len() - j,
{
    if j < 0 || j >= files.len() {
        lemma_extends_refl(ns);
    } else {
        match find_source(sources, files[j], 0) {
            Some(k) => {
                let (n2, c) = audit_source(sources[k], relative_display(files[j]), a, ns);
                lemma_audit_source(sources[k], relative_display(files[j]), a, ns);
                let t2 = saturating_sum(total, c);
                lemma_saturating_sum(total, c, 0);
                lemma_audit_files(files, j + 1, sources, a, n2, t2);
                let (n, t) = audit_files(files, j + 1, sources, a, n2, t2);
                lemma_extends_trans(ns, n2, n);
                lemma_saturating_sum(
                    total,
                    c,
                    (count_code(n, DIRECT_WRITE@) - count_code(n2, DIRECT_WRITE@)) as nat,
                );
            },
            None => {
                lemma_audit_files(files, j + 1, sources, a, ns, total);
            },
        }
    }
}

/// The audit keeps the report's earlier findings and only adds findings
/// after them. When there are no authorities it reports no direct write and
/// records no counts; otherwise it protects at most `MAX_AUTHORITIES`
/// authorities, reads at most `MAX_FILES` files, and its violation count is
/// the number of direct-write findings it adds (saturating at `u64::MAX`).
pub proof fn lemma_violation_count(repo: AuthorityRepository, ns: Seq<Note>)
    ensures
        ({
            let (n, counts) = audit_outcome(repo, ns);
            let added = (count_code(n, DIRECT_WRITE@) - count_code(ns, DIRECT_WRITE@)) as nat;
            &&& extends(n, ns)
            &&& count_code(n, DIRECT_WRITE@) >= count_code(ns, DIRECT_WRITE@)
            &&& counts is None ==> added == 0
            &&& counts matches Some((authorities, files, violations)) ==> {
                &&& 0 < authorities <= MAX_AUTHORITIES
                &&& files <= MAX_FILES
                &&& violations == saturating_sum(0, added)
            }
        }),
{
    lemma_discovery_sound(repo, ns);
    let (a, n1) = discover_authorities(repo, ns);
    if a.len() > 0 {
        lemma_automation_sources(repo, n1);
        let (files, n2) = automation_sources(repo, n1);
        lemma_audit_files(files, 0, repo.sources@, a, n2, 0);
        let (n3, v) = audit_files(files, 0, repo.sources@, a, n2, 0);
        lemma_extends_trans(ns, n1, n2);
        lemma_extends_trans(ns, n2, n3);
    }
}

// ---------------------------------------------------------------------------
// Cleaning a token
// ---------------------------------------------------------------------------

proof fn lemma_lead_stops(s: Seq<char>, k: Trim)
    ensures
        lead(s, k) <= s.len(),
        lead(s, k) < s.len() ==> !trims(k, s[lead(s, k) as int]),
    decreases s.len(),
{
    if s.len() > 0 && trims(k, s[0]) {
        lemma_lead_stops(s.drop_first(), k);
    }
}

proof fn lemma_trail_stops(s: Seq<char>, k: Trim)
    ensures
        trail(s, k) <= s.len(),
        trail(s, k) < s.len() ==> !trims(k, s[s.len() - 1 - trail(s, k)]),
    decreases s.len(),
{
    if s.len() > 0 && trims(k, s.last()) {
        lemma_trail_stops(s.drop_last(), k);
    }
}

/// Trimming the characters of a class from both ends leaves text that
/// neither starts nor ends with one, so trimming again changes nothing.
pub proof fn lemma_trim_idempotent(s: Seq<char>, k: Trim)
    ensures
        trim(trim(s, k), k) == trim(s, k),
        trim(s, k).len() > 0 ==> !trims(k, trim(s, k)[0]) && !trims(k, trim(s, k).last()),
{
    let u = trim_start(s, k);
    lemma_lead_stops(s, k);
    lemma_trail_stops(u, k);
    let v = trim(s, k);
    assert(v == u.take(u.len() - trail(u, k)));
    if v.len() > 0 {
        assert(v[0] == u[0]);
        assert(u[0] == s[lead(s, k) as int]);
        assert(v.last() == u[u.len() - 1 - trail(u, k)]);
    }
    assert(lead(v, k) == 0);
    assert(trim_start(v, k) =~= v);
    assert(trail(v, k) == 0);
    assert(trim_end(v, k) =~= v);
}

/// Cleaning a shell token is idempotent, and a cleaned token neither starts
/// nor ends with a quote, comma, semicolon or parenthesis.
pub proof fn lemma_clean_token_idempotent(t: Seq<char>)
    ensures
        clean_token(clean_token(t)) == clean_token(t),
        clean_token(t).len() > 0 ==> !trims(Trim::TokenEdge, clean_token(t)[0]) && !trims(
            Trim::TokenEdge,
            clean_token(t).last(),
        ),
{
    lemma_trim_idempotent(t, Trim::TokenEdge);
}

// ---------------------------------------------------------------------------
// One finding per rejected line
// ---------------------------------------------------------------------------

/// The indices, in order, of the lines of `ls` from the `i`-th on that the
/// audit rejects: trimmed, neither blank nor a comment, and writing an
/// authority.
pub open spec fn flagged_lines(ls: Seq<Seq<char>>, i: int, a: Seq<Seq<char>>) -> Seq<int>
    decreases ls.len() - i,
{
    if i < 0 || i >= ls.len() {
        seq![]
    } else {
        let t = crate::text::trim(ls[i], Trim::Space);
        if !is_skipped_line(t) && line_writes_authority(t, a) {
            seq![i] + flagged_lines(ls, i + 1, a)
        } else {
            flagged_lines(ls, i + 1, a)
        }
    }
}

/// The direct-write findings of the file `target` for the given line indices.
pub open spec fn line_notes(target: Seq<char>, w: Seq<int>) -> Seq<Note> {
    w.map_values(|i: int| direct_write(target, (i + 1) as nat))
}

proof fn lemma_scan_lines_exact(
    ls: Seq<Seq<char>>,
    i: int,
    target: Seq<char>,
    a: Seq<Seq<char>>,
    ns: Seq<Note>,
    count: nat,
)
    requires
        0 <= i,
    ensures
        scan_lines(ls, i, target, a, ns, count) == (
            ns + line_notes(target, flagged_lines(ls, i, a)),
            count + flagged_lines(ls, i, a).len(),
        ),
        forall|j: int|
            0 <= j < flagged_lines(ls, i, a).len() ==> i <= #[trigger] flagged_lines(ls, i, a)[j]
                < ls.len(),
        forall|j: int, l: int|
            0 <= j < l < flagged_lines(ls, i, a).len() ==> #[trigger] flagged_lines(ls, i, a)[j]
                < #[trigger] flagged_lines(ls, i, a)[l],
    decreases ls.len() - i,
{
    if i >= ls.len() {
        assert(ns + line_notes(target, seq![]) =~= ns);
    } else {
        let t = crate::text::trim(ls[i], Trim::Space);
        let rest = flagged_lines(ls, i + 1, a);
        if !is_skipped_line(t) && line_writes_authority(t, a) {
            let x = direct_write(target, (i + 1) as nat);
            lemma_scan_lines_exact(ls, i + 1, target, a, ns.push(x), count + 1);
            assert(line_notes(target, seq![i] + rest) =~= seq![x] + line_notes(target, rest));
            assert(ns.push(x) + line_notes(target, rest) =~= ns + line_notes(target, seq![i] + rest));
            let w = seq![i] + rest;
            assert forall|j: int| 0 <= j < w.len() implies i <= #[trigger] w[j] < ls.len() by {
                if j > 0 {
                    assert(w[j] == rest[j - 1]);
                }
            }
            assert forall|j: int, l: int| 0 <= j < l < w.len() implies #[trigger] w[j]
                < #[trigger] w[l] by {
                assert(w[l] == rest[l - 1]);
                if j > 0 {
                    assert(w[j] == rest[j - 1]);
                }
            }
        } else {
            lemma_scan_lines_exact(ls, i + 1, target, a, ns, count);
        }
    }
}

/// Auditing a readable automation source (its size within the bound and its
/// text UTF-8) adds, after the earlier findings, one direct-write finding
/// `target:n` per rejected line `n` (counted from 1), in ascending line
/// order, and returns how many lines were rejected.
pub proof fn lemma_audit_file_lines(
    src: SourceSnapshot,
    target: Seq<char>,
    a: Seq<Seq<char>>,
    ns: Seq<Note>,
)
    requires
        src.metadata matches Ok(len) && len <= MAX_FILE_BYTES,
        src.text is Ok,
    ensures
        ({
            let ls = crate::text::lines(src.text->Ok_0@);
            let w = flagged_lines(ls, 0, a);
            &&& audit_source(src, target, a, ns) == (ns + line_notes(target, w), w.len())
            &&& forall|j: int| 0 <= j < w.len() ==> 0 <= #[trigger] w[j] < ls.len()
            &&& forall|j: int, l: int| 0 <= j < l < w.len() ==> #[trigger] w[j] < #[trigger] w[l]
        }),
{
    lemma_scan_lines_exact(crate::text::lines(src.text->Ok_0@), 0, target, a, ns, 0);
}

// ---------------------------------------------------------------------------
// Discovery depends on repository-relative paths only
// ---------------------------------------------------------------------------

/// The `j`-th declared path of a config relative to `root`, where it
/// resolves below it.
pub open spec fn relative_resolution(c: ConfigSnapshot, root: Seq<Seq<char>>, j: int) -> Option<
    Seq<Seq<char>>,
> {
    match resolution(c, j) {
        Some(p) => if below(p, root) {
            Some(p.skip(root.len() as int))
        } else {
            None
        },
        None => None,
    }
}

/// Two snapshots show the same repository, perhaps under different roots:
/// the same contracts walk, the same config files, and declared paths that
/// resolve to the same places relative to each root.
pub open spec fn same_relative_repository(r1: AuthorityRepository, r2: AuthorityRepository) -> bool {
    &&& r1.contracts_is_dir == r2.contracts_is_dir
    &&& r1.contract_walk@ == r2.contract_walk@
    &&& r1.configs@.len() == r2.configs@.len()
    &&& (r1.canonical_root is Some <==> r2.canonical_root is Some)
    &&& forall|k: int|
        0 <= k < r1.configs@.len() ==> {
            &&& (#[trigger] r1.configs@[k]).metadata == r2.configs@[k].metadata
            &&& r1.configs@[k].text == r2.configs@[k].text
            &&& (r1.canonical_root matches Some(root1) ==> r2.canonical_root matches Some(root2)
                && forall|j: int|
                relative_resolution(r1.configs@[k], string_views(root1@), j)
                    == #[trigger] relative_resolution(r2.configs@[k], string_views(root2@), j))
        }
}

proof fn lemma_resolve_declared_relative(
    c1: ConfigSnapshot,
    root1: Seq<Seq<char>>,
    c2: ConfigSnapshot,
    root2: Seq<Seq<char>>,
    n: int,
    j: int,
    auth: Seq<Seq<char>>,
    ns: Seq<Note>,
)
    requires
        forall|i: int| relative_resolution(c1, root1, i) == #[trigger] relative_resolution(c2, root2, i),
    ensures
        resolve_declared(c1, root1, n, j, auth, ns) == resolve_declared(c2, root2, n, j, auth, ns),
    decreases n - j,
{
    if !(j < 0 || j >= n) {
        assert(relative_resolution(c1, root1, j) == relative_resolution(c2, root2, j));
        match relative_resolution(c1, root1, j) {
            Some(q) => {
                if !path_has_generated_component(q) {
                    let (a2, n2) = insert_authority(auth, ns, join(q));
                    lemma_resolve_declared_relative(c1, root1, c2, root2, n, j + 1, a2, n2);
                } else {
                    lemma_resolve_declared_relative(c1, root1, c2, root2, n, j + 1, auth, ns);
                }
            },
            None => {
                lemma_resolve_declared_relative(c1, root1, c2, root2, n, j + 1, auth, ns);
            },
        }
    }
}

proof fn lemma_configs_scan_relative(
    r1: AuthorityRepository,
    r2: AuthorityRepository,
    n: int,
    k: int,
    auth: Seq<Seq<char>>,
    ns: Seq<Note>,
)
    requires
        same_relative_repository(r1, r2),
        n <= r1.configs@.len(),
    ensures
        configs_scan(r1, n, k, auth, ns) == configs_scan(r2, n, k, auth, ns),
    decreases n - k,
{
    if !(k < 0 || k >= n) {
        let c1 = r1.configs@[k];
        let c2 = r2.configs@[k];
        assert(c1.metadata == c2.metadata && c1.text == c2.text);
        if config_readable(c1) && r1.canonical_root is Some {
            let root1 = string_views(r1.canonical_root->0@);
            let root2 = string_views(r2.canonical_root->0@);
            lemma_resolve_declared_relative(
                c1,
                root1,
                c2,
                root2,
                declared_paths(c1.text->0@).len() as int,
                0,
                auth,
                ns,
            );
        }
        let (a2, n2) = config_authorities(c1, r1.canonical_root, auth, ns);
        assert(config_authorities(c2, r2.canonical_root, auth, ns) == (a2, n2));
        lemma_configs_scan_relative(r1, r2, n, k + 1, a2, n2);
    }
}

/// Discovery depends only on paths relative to the repository root: two
/// snapshots of the same repository under different roots discover the
/// same authorities and report the same findings.
pub proof fn lemma_discovery_relative(r1: AuthorityRepository, r2: AuthorityRepository, ns: Seq<Note>)
    requires
        same_relative_repository(r1, r2),
    ensures
        discover_authorities(r1, ns) == discover_authorities(r2, ns),
{
    if r1.contracts_is_dir {
        let (a, n) = discover_walk(r1.contract_walk@, 0, seq![], ns);
        assert(configs_read(r1) == configs_read(r2));
        lemma_configs_scan_relative(r1, r2, configs_read(r1), 0, a, n);
    }
}

// ---------------------------------------------------------------------------
// Which automation files are read
// ---------------------------------------------------------------------------

/// The code of the file-limit finding.
pub open spec fn file_limit_code() -> Seq<char> {
    "peer-authority-write-file-limit"@
}

/// The paths of the source steps of a walk from step `i` on, in walk order:
/// regular files (not links) with an automation source extension.
pub open spec fn sources_from(steps: Seq<WalkStep>, i: int) -> Seq<Seq<Seq<char>>>
    decreases steps.len() - i,
{
    if i < 0 || i >= steps.len() {
        seq![]
    } else {
        match steps[i] {
            WalkStep::Entry(e) => if is_source_step(steps[i]) {
                seq![entry_path(e)] + sources_from(steps, i + 1)
            } else {
                sources_from(steps, i + 1)
            },
            WalkStep::Failed { .. } => sources_from(steps, i + 1),
        }
    }
}

/// The source files of the automation walks from the `r`-th on, in order.
pub open spec fn walks_sources(walks: Seq<Vec<WalkStep>>, r: int) -> Seq<Seq<Seq<char>>>
    decreases 3 - r,
{
    if r < 0 || r >= 3 {
        seq![]
    } else {
        sources_from(walk_of(walks, r), 0) + walks_sources(walks, r + 1)
    }
}

/// The first `MAX_FILES` of `s`.
pub open spec fn capped(s: Seq<Seq<Seq<char>>>) -> Seq<Seq<Seq<char>>> {
    if s.len() <= MAX_FILES {
        s
    } else {
        s.take(MAX_FILES as int)
    }
}

proof fn lemma_limit_code(m: Seq<char>, t: Seq<char>)
    ensures
        scan_failed(m, t).code != file_limit_code(),
        file_limit(t).code == file_limit_code(),
{
    reveal_strlit("peer-authority-write-scan-failed");
    reveal_strlit("peer-authority-write-file-limit");
    assert("peer-authority-write-scan-failed"@[21] != "peer-authority-write-file-limit"@[21]);
}

proof fn lemma_collect_walk_exact(
    steps: Seq<WalkStep>,
    i: int,
    root: Seq<char>,
    files: Seq<Seq<Seq<char>>>,
    ns: Seq<Note>,
    overflow: bool,
)
    requires
        0 <= i,
        files.len() <= MAX_FILES,
    ensures
        ({
            let src = sources_from(steps, i);
            let (f, n, o) = collect_walk(steps, i, root, files, ns, overflow);
            &&& f == capped(files + src)
            &&& o == (overflow || files.len() + src.len() > MAX_FILES)
            &&& count_code(n, file_limit_code()) == count_code(ns, file_limit_code()) + if !overflow
                && files.len() + src.len() > MAX_FILES {
                1nat
            } else {
                0nat
            }
        }),
    decreases steps.len() - i,
{
    lemma_limit_code(seq![], root);
    if i >= steps.len() {
        assert(files + sources_from(steps, i) =~= files);
    } else {
        let rest = sources_from(steps, i + 1);
        match steps[i] {
            WalkStep::Failed { message, .. } => {
                lemma_limit_code(message@, root);
                let x = scan_failed(message@, root);
                lemma_push(ns, x, file_limit_code());
                lemma_collect_walk_exact(steps, i + 1, root, files, ns.push(x), overflow);
            },
            WalkStep::Entry(e) => if !is_source_step(steps[i]) {
                lemma_collect_walk_exact(steps, i + 1, root, files, ns, overflow);
            } else {
                let p = entry_path(e);
                assert(sources_from(steps, i) == seq![p] + rest);
                if files.len() >= MAX_FILES {
                    assert((files + (seq![p] + rest)).take(MAX_FILES as int) =~= files);
                    if rest.len() > 0 {
                        assert((files + rest).take(MAX_FILES as int) =~= files);
                    } else {
                        assert(files + rest =~= files);
                    }
                    if overflow {
                        lemma_collect_walk_exact(steps, i + 1, root, files, ns, overflow);
                    } else {
                        lemma_push(ns, file_limit(root), file_limit_code());
                        lemma_collect_walk_exact(steps, i + 1, root, files, ns.push(file_limit(root)), true);
                    }
                } else {
                    assert(files.push(p) + rest =~= files + (seq![p] + rest));
                    lemma_collect_walk_exact(steps, i + 1, root, files.push(p), ns, overflow);
                }
            },
        }
    }
}

proof fn lemma_capped_append(a: Seq<Seq<Seq<char>>>, b: Seq<Seq<Seq<char>>>)
    ensures
        capped(capped(a) + b) == capped(a + b),
{
    if a.len() <= MAX_FILES {
    } else if b.len() > 0 {
        assert((a.take(MAX_FILES as int) + b).take(MAX_FILES as int) =~= (a + b).take(MAX_FILES as int));
    } else {
        assert(a.take(MAX_FILES as int) + b =~= a.take(MAX_FILES as int));
        assert(a + b =~= a);
    }
}

proof fn lemma_collect_walks_exact(
    walks: Seq<Vec<WalkStep>>,
    r: int,
    files: Seq<Seq<Seq<char>>>,
    ns: Seq<Note>,
    overflow: bool,
)
    requires
        0 <= r,
        files.len() <= MAX_FILES,
    ensures
        ({
            let src = walks_sources(walks, r);
            let (f, n) = collect_walks(walks, r, files, ns, overflow);
            &&& f == capped(files + src)
            &&& count_code(n, file_limit_code()) == count_code(ns, file_limit_code()) + if !overflow
                && files.len() + src.len() > MAX_FILES {
                1nat
            } else {
                0nat
            }
        }),
    decreases 3 - r,
{
    if r >= 3 {
        assert(files + walks_sources(walks, r) =~= files);
    } else {
        let w = walk_of(walks, r);
        let s1 = sources_from(w, 0);
        let rest = walks_sources(walks, r + 1);
        lemma_collect_walk_exact(w, 0, scan_root(r), files, ns, overflow);
        let (f2, n2, o2) = collect_walk(w, 0, scan_root(r), files, ns, overflow);
        lemma_collect_walks_exact(walks, r + 1, f2, n2, o2);
        lemma_capped_append(files + s1, rest);
        assert(files + s1 + rest =~= files + (s1 + rest));
    }
}

/// The automation files the audit reads are, in path order without
/// duplicates, the first `MAX_FILES` regular files (not links) with an
/// automation source extension that the walks of `.github/workflows`,
/// `scripts` and `tools` reach, in walk order: every one when there are at
/// most `MAX_FILES`. The file-limit finding is added exactly once when there
/// are more, and never otherwise.
pub proof fn lemma_automation_sources_exact(repo: AuthorityRepository, ns: Seq<Note>)
    ensures
        ({
            let all = walks_sources(repo.scan_walks@, 0);
            let (files, n) = automation_sources(repo, ns);
            &&& files == sort_unique(capped(all))
            &&& files.to_set() == capped(all).to_set()
            &&& all.len() <= MAX_FILES ==> files.to_set() == all.to_set()
            &&& forall|p: Seq<Seq<char>>| files.contains(p) ==> all.contains(p)
            &&& count_code(n, file_limit_code()) == count_code(ns, file_limit_code()) + if all.len()
                > MAX_FILES {
                1nat
            } else {
                0nat
            }
        }),
{
    let all = walks_sources(repo.scan_walks@, 0);
    lemma_collect_walks_exact(repo.scan_walks@, 0, seq![], ns, false);
    assert(seq![] + all =~= all);
    lemma_sort_unique(capped(all));
    let (files, n) = automation_sources(repo, ns);
    assert forall|p: Seq<Seq<char>>| files.contains(p) implies all.contains(p) by {
        assert(files.to_set().contains(p));
        assert(capped(all).to_set().contains(p));
        if all.len() > MAX_FILES {
            let k = choose|k: int| 0 <= k < capped(all).len() && capped(all)[k] == p;
            assert(all[k] == p);
        }
    }
}

// ---------------------------------------------------------------------------
// Which paths are authorities
// ---------------------------------------------------------------------------

/// The paths of the authored sources along the contracts walk from step `i`:
/// regular files, not links, named as authored TypeSpec or JSON Schema
/// outside generated directories.
pub open spec fn walk_authorities(steps: Seq<WalkStep>, i: int) -> Seq<Seq<char>>
    decreases steps.len() - i,
{
    if i < 0 || i >= steps.len() {
        seq![]
    } else {
        match steps[i] {
            WalkStep::Entry(e) => if is_authority_step(steps[i]) {
                seq![join(entry_path(e))] + walk_authorities(steps, i + 1)
            } else {
                walk_authorities(steps, i + 1)
            },
            WalkStep::Failed { .. } => walk_authorities(steps, i + 1),
        }
    }
}

/// The declared paths `j..n` of a config that resolve below `root` outside
/// generated directories, relative to the root.
pub open spec fn declared_from(c: ConfigSnapshot, root: Seq<Seq<char>>, n: int, j: int) -> Seq<
    Seq<char>,
>
    decreases n - j,
{
    if j < 0 || j >= n {
        seq![]
    } else {
        match relative_resolution(c, root, j) {
            Some(q) => if !path_has_generated_component(q) {
                seq![join(q)] + declared_from(c, root, n, j + 1)
            } else {
                declared_from(c, root, n, j + 1)
            },
            None => declared_from(c, root, n, j + 1),
        }
    }
}

/// The authority paths that a readable config declares.
pub open spec fn config_declared(c: ConfigSnapshot, root: Option<Vec<String>>) -> Seq<Seq<char>> {
    if config_readable(c) && root is Some {
        declared_from(c, string_views(root->0@), declared_paths(c.text->0@).len() as int, 0)
    } else {
        seq![]
    }
}

/// The authority paths that configs `k..n` declare.
pub open spec fn configs_declared(repo: AuthorityRepository, n: int, k: int) -> Seq<Seq<char>>
    decreases n - k,
{
    if k < 0 || k >= n {
        seq![]
    } else {
        config_declared(repo.configs@[k], repo.canonical_root) + configs_declared(repo, n, k + 1)
    }
}

/// The paths that discovery takes for authorities, in the order it meets
/// them.
pub open spec fn candidate_authorities(repo: AuthorityRepository) -> Seq<Seq<char>> {
    if repo.contracts_is_dir {
        walk_authorities(repo.contract_walk@, 0) + configs_declared(repo, configs_read(repo), 0)
    } else {
        seq![]
    }
}

/// What one discovery stage from `auth` to `a` keeps, given the candidates
/// `c` it met.
pub open spec fn stage(auth: Seq<Seq<char>>, a: Seq<Seq<char>>, c: Seq<Seq<char>>) -> bool {
    &&& auth.len() <= a.len()
    &&& forall|x: Seq<char>| auth.contains(x) ==> a.contains(x)
    &&& forall|x: Seq<char>| a.contains(x) ==> auth.contains(x) || c.contains(x)
    &&& a.len() < MAX_AUTHORITIES ==> forall|x: Seq<char>| c.contains(x) ==> a.contains(x)
}

proof fn lemma_stage_insert(auth: Seq<Seq<char>>, ns: Seq<Note>, p: Seq<char>)
    ensures
        stage(auth, insert_authority(auth, ns, p).0, seq![p]),
{
    let a = insert_authority(auth, ns, p).0;
    if auth.len() < MAX_AUTHORITIES && !auth.contains(p) {
        assert(a == auth.push(p));
        assert forall|x: Seq<char>| auth.contains(x) implies a.contains(x) by {
            let k = choose|k: int| 0 <= k < auth.len() && auth[k] == x;
            assert(a[k] == x);
        }
        assert(a[auth.len() as int] == p);
        assert forall|x: Seq<char>| a.contains(x) implies auth.contains(x) || seq![p].contains(x) by {
            let k = choose|k: int| 0 <= k < a.len() && a[k] == x;
            if k < auth.len() {
                assert(auth[k] == x);
            } else {
                assert(seq![p][0] == x);
            }
        }
    } else {
        assert forall|x: Seq<char>| seq![p].contains(x) && a.len() < MAX_AUTHORITIES implies a.contains(
            x,
        ) by {
            assert(seq![p][0] == x);
        }
    }
}

proof fn lemma_stage_chain(
    auth: Seq<Seq<char>>,
    a1: Seq<Seq<char>>,
    a2: Seq<Seq<char>>,
    c1: Seq<Seq<char>>,
    c2: Seq<Seq<char>>,
)
    requires
        stage(auth, a1, c1),
        stage(a1, a2, c2),
    ensures
        stage(auth, a2, c1 + c2),
{
    assert forall|x: Seq<char>| a2.contains(x) implies auth.contains(x) || (c1 + c2).contains(x) by {
        if a1.contains(x) {
            if c1.contains(x) {
                let k = choose|k: int| 0 <= k < c1.len() && c1[k] == x;
                assert((c1 + c2)[k] == x);
            }
        } else {
            let k = choose|k: int| 0 <= k < c2.len() && c2[k] == x;
            assert((c1 + c2)[c1.len() + k] == x);
        }
    }
    assert forall|x: Seq<char>| (c1 + c2).contains(x) && a2.len() < MAX_AUTHORITIES implies a2.contains(
        x,
    ) by {
        let k = choose|k: int| 0 <= k < (c1 + c2).len() && (c1 + c2)[k] == x;
        if k < c1.len() {
            assert(c1[k] == x);
        } else {
            assert(c2[k - c1.len()] == x);
        }
    }
}

proof fn lemma_stage_same(auth: Seq<Seq<char>>)
    ensures
        stage(auth, auth, seq![]),
{
}

proof fn lemma_discover_walk_stage(steps: Seq<WalkStep>, i: int, auth: Seq<Seq<char>>, ns: Seq<Note>)
    ensures
        stage(auth, discover_walk(steps, i, auth, ns).0, walk_authorities(steps, i)),
    decreases steps.len() - i,
{
    if i < 0 || i >= steps.len() {
        lemma_stage_same(auth);
    } else {
        let rest = walk_authorities(steps, i + 1);
        match steps[i] {
            WalkStep::Failed { message, .. } => {
                lemma_discover_walk_stage(steps, i + 1, auth, ns.push(discovery_failed(message@)));
            },
            WalkStep::Entry(e) => if is_authority_step(steps[i]) {
                let p = join(entry_path(e));
                let (a2, n2) = insert_authority(auth, ns, p);
                lemma_stage_insert(auth, ns, p);
                lemma_discover_walk_stage(steps, i + 1, a2, n2);
                lemma_stage_chain(auth, a2, discover_walk(steps, i + 1, a2, n2).0, seq![p], rest);
            } else {
                lemma_discover_walk_stage(steps, i + 1, auth, ns);
            },
        }
    }
}

proof fn lemma_resolve_declared_stage(
    c: ConfigSnapshot,
    root: Seq<Seq<char>>,
    n: int,
    j: int,
    auth: Seq<Seq<char>>,
    ns: Seq<Note>,
)
    ensures
        stage(auth, resolve_declared(c, root, n, j, auth, ns).0, declared_from(c, root, n, j)),
    decreases n - j,
{
    if j < 0 || j >= n {
        lemma_stage_same(auth);
    } else {
        let rest = declared_from(c, root, n, j + 1);
        match relative_resolution(c, root, j) {
            Some(q) => if !path_has_generated_component(q) {
                let (a2, n2) = insert_authority(auth, ns, join(q));
                lemma_stage_insert(auth, ns, join(q));
                lemma_resolve_declared_stage(c, root, n, j + 1, a2, n2);
                lemma_stage_chain(auth, a2, resolve_declared(c, root, n, j + 1, a2, n2).0, seq![join(q)], rest);
            } else {
                lemma_resolve_declared_stage(c, root, n, j + 1, auth, ns);
            },
            None => {
                lemma_resolve_declared_stage(c, root, n, j + 1, auth, ns);
            },
        }
    }
}

proof fn lemma_configs_scan_stage(
    repo: AuthorityRepository,
    n: int,
    k: int,
    auth: Seq<Seq<char>>,
    ns: Seq<Note>,
)
    ensures
        stage(auth, configs_scan(repo, n, k, auth, ns).0, configs_declared(repo, n, k)),
    decreases n - k,
{
    if k < 0 || k >= n {
        lemma_stage_same(auth);
    } else {
        let c = repo.configs@[k];
        let (a2, n2) = config_authorities(c, repo.canonical_root, auth, ns);
        if config_readable(c) && repo.canonical_root is Some {
            lemma_resolve_declared_stage(
                c,
                string_views(repo.canonical_root->0@),
                declared_paths(c.text->0@).len() as int,
                0,
                auth,
                ns,
            );
        } else {
            lemma_stage_same(auth);
        }
        lemma_configs_scan_stage(repo, n, k + 1, a2, n2);
        lemma_stage_chain(
            auth,
            a2,
            configs_scan(repo, n, k + 1, a2, n2).0,
            config_declared(c, repo.canonical_root),
            configs_declared(repo, n, k + 1),
        );
    }
}

/// Every authority is an authored source the contracts walk reached (a
/// regular file, not a link, named as authored TypeSpec or JSON Schema
/// outside generated directories) or a path that a readable config declares
/// and that resolves below the root outside generated directories. While
/// fewer than `MAX_AUTHORITIES` are recorded, every such path is one.
pub proof fn lemma_discovery_complete(repo: AuthorityRepository, ns: Seq<Note>)
    ensures
        ({
            let a = discover_authorities(repo, ns).0;
            let c = candidate_authorities(repo);
            &&& forall|x: Seq<char>| a.contains(x) ==> c.contains(x)
            &&& a.len() < MAX_AUTHORITIES ==> forall|x: Seq<char>| c.contains(x) ==> a.contains(x)
        }),
{
    if repo.contracts_is_dir {
        let (a1, n1) = discover_walk(repo.contract_walk@, 0, seq![], ns);
        lemma_discover_walk_stage(repo.contract_walk@, 0, seq![], ns);
        lemma_configs_scan_stage(repo, configs_read(repo), 0, a1, n1);
        lemma_stage_chain(
            seq![],
            a1,
            configs_scan(repo, configs_read(repo), 0, a1, n1).0,
            walk_authorities(repo.contract_walk@, 0),
            configs_declared(repo, configs_read(repo), 0),
        );
    }
}

// ---------------------------------------------------------------------------
// Redirects: `>>` appends to the same destination as `>`
// ---------------------------------------------------------------------------

/// Text with no `>` and no quote character.
pub open spec fn plain_prefix(x: Seq<char>) -> bool {
    forall|k: int| 0 <= k < x.len() ==> #[trigger] x[k] != '>' && x[k] != '\'' && x[k] != '"'
}

/// A bare word: non-empty, without whitespace or quotes, and neither
/// starting nor ending with a quote, comma, semicolon or parenthesis.
pub open spec fn bare_word(w: Seq<char>) -> bool {
    &&& w.len() > 0
    &&& forall|k: int| 0 <= k < w.len() ==> !is_ws(#[trigger] w[k]) && w[k] != '\'' && w[k] != '"'
    &&& !trims(Trim::TokenEdge, w[0])
    &&& !trims(Trim::TokenEdge, w.last())
}

proof fn lemma_redirect_scan_prefix(x: Seq<char>, r: Seq<char>, i: int)
    requires
        plain_prefix(x),
        0 <= i <= x.len(),
    ensures
        redirect_scan(x + seq!['>'] + r, i, None) == Some(x.len() as int),
    decreases x.len() - i,
{
    let s = x + seq!['>'] + r;
    if i < x.len() {
        assert(s[i] == x[i]);
        lemma_redirect_scan_prefix(x, r, i + 1);
    } else {
        assert(s[i] == '>');
    }
}

/// An append redirect writes where a plain one does: when the text before
/// the first `>` has no other `>` and no quote, `X >> P` and `X > P` have
/// the same destination (for any `P` that does not itself start with `>`).
pub proof fn lemma_append_redirect_same_destination(x: Seq<char>, r: Seq<char>)
    requires
        plain_prefix(x),
        r.len() == 0 || r[0] != '>',
    ensures
        redirect_destination(x + ">>"@ + r) == redirect_destination(x + ">"@ + r),
{
    reveal_strlit(">>");
    reveal_strlit(">");
    let s1 = x + ">>"@ + r;
    let s2 = x + ">"@ + r;
    assert(s1 =~= x + seq!['>'] + (seq!['>'] + r));
    assert(s2 =~= x + seq!['>'] + r);
    lemma_redirect_scan_prefix(x, seq!['>'] + r, 0);
    lemma_redirect_scan_prefix(x, r, 0);
    assert(s1[x.len() + 1int] == '>');
    assert(s1.skip(x.len() + 2int) =~= r);
    if r.len() > 0 {
        assert(s2[x.len() + 1int] == r[0]);
    }
    assert(s2.skip(x.len() + 1int) =~= r);
}

proof fn lemma_tok_scan_bare(w: Seq<char>, i: int)
    requires
        bare_word(w),
        0 <= i <= w.len(),
    ensures
        tok_scan(w, i, seq![], w.take(i), None) == seq![clean_token(w)],
    decreases w.len() - i,
{
    if i < w.len() {
        assert(w.take(i).push(w[i]) =~= w.take(i + 1));
        lemma_tok_scan_bare(w, i + 1);
    } else {
        assert(w.take(i) =~= w);
    }
}

proof fn lemma_tokenize_bare(w: Seq<char>)
    requires
        bare_word(w),
    ensures
        tokenize(w) == seq![w],
{
    lemma_tok_scan_bare(w, 0);
    assert(w.take(0) =~= Seq::<char>::empty());
    assert(lead(w, Trim::TokenEdge) == 0);
    assert(trim_start(w, Trim::TokenEdge) =~= w);
    assert(trail(w, Trim::TokenEdge) == 0);
    assert(trim_end(w, Trim::TokenEdge) =~= w);
}

/// The destination of `X >> W` and of `X > W`, for a bare word `W` after a
/// space, is `W`; so the line writes an authority when `W` names one.
pub proof fn lemma_redirect_writes(x: Seq<char>, w: Seq<char>, a: Seq<Seq<char>>)
    requires
        plain_prefix(x),
        bare_word(w),
    ensures
        redirect_destination(x + ">>"@ + " "@ + w) == Some(w),
        redirect_destination(x + ">"@ + " "@ + w) == Some(w),
        authority_matches(w, a) && !starts_with(x + ">>"@ + " "@ + w, "run:"@) ==> line_writes_authority(
            x + ">>"@ + " "@ + w,
            a,
        ),
        authority_matches(w, a) && !starts_with(x + ">"@ + " "@ + w, "run:"@) ==> line_writes_authority(
            x + ">"@ + " "@ + w,
            a,
        ),
{
    reveal_strlit(" ");
    reveal_strlit(">");
    let r = " "@ + w;
    assert(x + ">>"@ + " "@ + w =~= x + ">>"@ + r);
    assert(x + ">"@ + " "@ + w =~= x + ">"@ + r);
    lemma_append_redirect_same_destination(x, r);
    lemma_redirect_scan_prefix(x, r, 0);
    assert(x + ">"@ + r =~= x + seq!['>'] + r);
    let s2 = x + ">"@ + r;
    assert(s2[x.len() + 1int] == ' ');
    assert(s2.skip(x.len() + 1int) =~= r);
    assert(r.drop_first() =~= w);
    assert(lead(w, Trim::Space) == 0);
    assert(lead(r, Trim::Space) == 1);
    assert(trim_start(r, Trim::Space) =~= w);
    lemma_tokenize_bare(w);
}

// ---------------------------------------------------------------------------
// Which files are automation sources, and which are authored schemas
// ---------------------------------------------------------------------------

proof fn lemma_last_index_append(a: Seq<char>, e: Seq<char>, c: char)
    requires
        !e.contains(c),
    ensures
        last_index_of(a + e, c) == last_index_of(a, c),
    decreases e.len(),
{
    if e.len() > 0 {
        assert(e[e.len() - 1] == e.last());
        assert((a + e).drop_last() =~= a + e.drop_last());
        assert(!e.drop_last().contains(c)) by {
            if e.drop_last().contains(c) {
                let k = choose|k: int| 0 <= k < e.drop_last().len() && e.drop_last()[k] == c;
                assert(e[k] == c);
            }
        }
        lemma_last_index_append(a, e.drop_last(), c);
    } else {
        assert(a + e =~= a);
    }
}

proof fn lemma_last_index_found(s: Seq<char>, c: char)
    ensures
        last_index_of(s, c) >= 0 ==> s[last_index_of(s, c)] == c,
    decreases s.len(),
{
    if s.len() > 0 && s.last() != c {
        lemma_last_index_found(s.drop_last(), c);
        lemma_last_index_of_bound(s.drop_last(), c);
        let d = last_index_of(s.drop_last(), c);
        if d >= 0 {
            assert(s.drop_last()[d] == s[d]);
        }
    }
}

proof fn lemma_extension_of(stem: Seq<char>, e: Seq<char>)
    requires
        stem.len() > 0,
        e.len() >= 2,
        !e.contains('.'),
    ensures
        extension(stem + "."@ + e) == Some(e),
{
    reveal_strlit(".");
    reveal_strlit("..");
    let name = stem + "."@ + e;
    assert(name.len() >= 4);
    assert(name != ".."@);
    lemma_last_index_append(stem + "."@, e, '.');
    assert(name =~= (stem + "."@) + e);
    assert((stem + "."@).drop_last() =~= stem);
    assert(last_index_of(stem + "."@, '.') == stem.len());
    assert(name.skip(stem.len() + 1int) =~= e);
}

/// A file is an automation source exactly when its name is a non-empty stem,
/// a `.` and one of the extensions `yml`, `yaml`, `sh`, `bash`, `mjs`,
/// `js`, `ts`, `py`.
pub proof fn lemma_source_files(p: Seq<Seq<char>>)
    ensures
        is_source_file(p) <==> p.len() > 0 && exists|stem: Seq<char>, e: Seq<char>|
            {
                &&& stem.len() > 0
                &&& p.last() == stem + "."@ + e
                &&& (e == "yml"@ || e == "yaml"@ || e == "sh"@ || e == "bash"@ || e == "mjs"@
                    || e == "js"@ || e == "ts"@ || e == "py"@)
            },
{
    reveal_strlit("yml");
    reveal_strlit("yaml");
    reveal_strlit("sh");
    reveal_strlit("bash");
    reveal_strlit("mjs");
    reveal_strlit("js");
    reveal_strlit("ts");
    reveal_strlit("py");
    reveal_strlit(".");
    if is_source_file(p) {
        let name = p.last();
        let d = last_index_of(name, '.');
        lemma_last_index_found(name, '.');
        lemma_last_index_of_bound(name, '.');
        let stem = name.take(d);
        let e = name.skip(d + 1);
        assert(name =~= stem + "."@ + e);
    }
    if p.len() > 0 && exists|stem: Seq<char>, e: Seq<char>|
        {
            &&& stem.len() > 0
            &&& p.last() == stem + "."@ + e
            &&& (e == "yml"@ || e == "yaml"@ || e == "sh"@ || e == "bash"@ || e == "mjs"@ || e
                == "js"@ || e == "ts"@ || e == "py"@)
        } {
        let (stem, e) = choose|stem: Seq<char>, e: Seq<char>|
            {
                &&& stem.len() > 0
                &&& p.last() == stem + "."@ + e
                &&& (e == "yml"@ || e == "yaml"@ || e == "sh"@ || e == "bash"@ || e == "mjs"@
                    || e == "js"@ || e == "ts"@ || e == "py"@)
            };
        assert(!e.contains('.')) by {
            if e.contains('.') {
                let k = choose|k: int| 0 <= k < e.len() && e[k] == '.';
            }
        }
        lemma_extension_of(stem, e);
    }
}

/// A generated schema is never an authored one: no authored schema's file
/// name ends in `.generated.schema.json` (`typespec.generated.schema.json`
/// included); and a `*.schema.json` file that is not generated and lies
/// outside generated directories is one.
pub proof fn lemma_generated_schemas_not_authored(p: Seq<Seq<char>>)
    ensures
        is_authored_schema(p) ==> !ends_with(p.last(), ".generated.schema.json"@) && p.last()
            != "typespec.generated.schema.json"@,
        p.len() > 0 && ends_with(p.last(), ".schema.json"@) && !ends_with(
            p.last(),
            ".generated.schema.json"@,
        ) && !path_has_generated_component(p) ==> is_authored_schema(p),
{
    reveal_strlit(".generated.schema.json");
    reveal_strlit("typespec.generated.schema.json");
    let t = "typespec.generated.schema.json"@;
    assert(ends_with(t, ".generated.schema.json"@)) by {
        assert(t.skip(t.len() - ".generated.schema.json"@.len()) =~= ".generated.schema.json"@);
    }
}

// ---------------------------------------------------------------------------
// Lines of bare words
// ---------------------------------------------------------------------------

/// Words written one after another, separated by single spaces.
pub open spec fn spaced(ws: Seq<Seq<char>>) -> Seq<char>
    decreases ws.len(),
{
    if ws.len() == 0 {
        seq![]
    } else if ws.len() == 1 {
        ws[0]
    } else {
        ws[0] + " "@ + spaced(ws.drop_first())
    }
}

pub open spec fn bare_words(ws: Seq<Seq<char>>) -> bool {
    forall|k: int| 0 <= k < ws.len() ==> bare_word(#[trigger] ws[k])
}

proof fn lemma_clean_bare(w: Seq<char>)
    requires
        bare_word(w),
    ensures
        clean_token(w) == w,
{
    assert(lead(w, Trim::TokenEdge) == 0);
    assert(trim_start(w, Trim::TokenEdge) =~= w);
    assert(trail(w, Trim::TokenEdge) == 0);
    assert(trim_end(w, Trim::TokenEdge) =~= w);
}

proof fn lemma_tok_scan_through(s: Seq<char>, i: int, w: Seq<char>, j: int, toks: Seq<Seq<char>>)
    requires
        bare_word(w),
        0 <= i,
        i + w.len() <= s.len(),
        s.subrange(i, i + w.len()) == w,
        0 <= j <= w.len(),
    ensures
        tok_scan(s, i + j, toks, w.take(j), None) == tok_scan(s, i + w.len(), toks, w, None),
    decreases w.len() - j,
{
    if j < w.len() {
        assert(s[i + j] == w[j]);
        assert(w.take(j).push(w[j]) =~= w.take(j + 1));
        lemma_tok_scan_through(s, i, w, j + 1, toks);
    } else {
        assert(w.take(j) =~= w);
    }
}

proof fn lemma_spaced_len(ws: Seq<Seq<char>>)
    ensures
        ws.len() > 0 ==> spaced(ws).len() >= ws[0].len(),
        ws.len() > 1 ==> spaced(ws) == ws[0] + " "@ + spaced(ws.drop_first()),
        ws.len() == 1 ==> spaced(ws) == ws[0],
{
}

proof fn lemma_tok_scan_words(s: Seq<char>, i: int, toks: Seq<Seq<char>>, ws: Seq<Seq<char>>)
    requires
        bare_words(ws),
        ws.len() > 0,
        0 <= i <= s.len(),
        s.skip(i) == spaced(ws),
    ensures
        tok_scan(s, i, toks, seq![], None) == toks + ws,
    decreases ws.len(),
{
    reveal_strlit(" ");
    let w = ws[0];
    assert(bare_word(w));
    let rest = if ws.len() > 1 { " "@ + spaced(ws.drop_first()) } else { seq![] };
    assert(spaced(ws) == w + rest);
    assert(s.subrange(i, i + w.len()) =~= w) by {
        assert forall|k: int| 0 <= k < w.len() implies s.subrange(i, i + w.len())[k] == w[k] by {
            assert(s.skip(i)[k] == s[i + k]);
            assert((w + rest)[k] == w[k]);
        }
    }
    lemma_tok_scan_through(s, i, w, 0, toks);
    assert(w.take(0) =~= Seq::<char>::empty());
    lemma_clean_bare(w);
    if ws.len() == 1 {
        assert(s.len() == i + w.len()) by {
            assert(s.skip(i).len() == w.len());
        }
        assert(toks.push(w) =~= toks + ws);
    } else {
        let e = i + w.len();
        assert(s[e] == ' ') by {
            assert(s.skip(i)[w.len() as int] == s[e]);
            assert((w + rest)[w.len() as int] == rest[0]);
        }
        assert(s.skip(e + 1) =~= spaced(ws.drop_first())) by {
            assert forall|k: int| 0 <= k < s.skip(e + 1).len() implies s.skip(e + 1)[k] == spaced(
                ws.drop_first(),
            )[k] by {
                assert(s.skip(i)[w.len() + 1 + k] == s[e + 1 + k]);
                assert((w + rest)[w.len() + 1 + k] == rest[1 + k]);
            }
        }
        assert(bare_words(ws.drop_first())) by {
            assert forall|k: int| 0 <= k < ws.drop_first().len() implies bare_word(
                #[trigger] ws.drop_first()[k],
            ) by {
                assert(ws.drop_first()[k] == ws[k + 1]);
            }
        }
        lemma_tok_scan_words(s, e + 1, toks.push(w), ws.drop_first());
        assert(toks.push(w) + ws.drop_first() =~= toks + ws);
    }
}

/// A line of bare words separated by single spaces splits into exactly
/// those words.
pub proof fn lemma_tokenize_words(ws: Seq<Seq<char>>)
    requires
        bare_words(ws),
    ensures
        tokenize(spaced(ws)) == ws,
{
    if ws.len() == 0 {
    } else {
        assert(spaced(ws).skip(0) =~= spaced(ws));
        lemma_tok_scan_words(spaced(ws), 0, seq![], ws);
        assert(Seq::<Seq<char>>::empty() + ws =~= ws);
    }
}

// ---------------------------------------------------------------------------
// Transfers and output flags onto an authority
// ---------------------------------------------------------------------------

/// A bare word that a transfer takes as an operand: not an option and not
/// a command separator.
pub open spec fn operand_word(w: Seq<char>) -> bool {
    &&& bare_word(w)
    &&& w[0] != '-'
    &&& w != "&&"@
    &&& w != "||"@
    &&& w != ";"@
    &&& w != "|"@
    &&& w != "&"@
}

proof fn lemma_reveal_words()
    ensures
        "cp"@ == seq!['c', 'p'],
        "mv"@ == seq!['m', 'v'],
        "install"@ == seq!['i', 'n', 's', 't', 'a', 'l', 'l'],
        "&&"@ == seq!['&', '&'],
        "||"@ == seq!['|', '|'],
        ";"@ == seq![';'],
        "|"@ == seq!['|'],
        "&"@ == seq!['&'],
        "-t"@ == seq!['-', 't'],
        "--target-directory"@.len() > 0 && "--target-directory"@[0] == '-',
        "--target-directory="@.len() > 0 && "--target-directory="@[0] == '-',
        "-"@ == seq!['-'],
        "run:"@ == seq!['r', 'u', 'n', ':'],
{
    reveal_strlit("cp");
    reveal_strlit("mv");
    reveal_strlit("install");
    reveal_strlit("&&");
    reveal_strlit("||");
    reveal_strlit(";");
    reveal_strlit("|");
    reveal_strlit("&");
    reveal_strlit("-t");
    reveal_strlit("--target-directory");
    reveal_strlit("--target-directory=");
    reveal_strlit("-");
    reveal_strlit("run:");
}

proof fn lemma_operand_scan(tokens: Seq<Seq<char>>, i: int, ops: Seq<Seq<char>>, target: Option<Seq<char>>)
    requires
        0 <= i <= tokens.len(),
        forall|k: int| i <= k < tokens.len() ==> operand_word(#[trigger] tokens[k]),
    ensures
        crate::shell::transfer_scan(tokens, i, ops, target) == (ops + tokens.skip(i), target),
    decreases tokens.len() - i,
{
    lemma_reveal_words();
    if i < tokens.len() {
        let t = tokens[i];
        assert(operand_word(t));
        assert(!crate::shell::is_separator(t));
        assert(t != "-t"@);
        assert(t != "--target-directory"@);
        assert(!starts_with(t, "--target-directory="@)) by {
            if starts_with(t, "--target-directory="@) {
                assert(t[0] == "--target-directory="@[0]);
            }
        }
        assert(!starts_with(t, "-"@)) by {
            if starts_with(t, "-"@) {
                assert(t[0] == "-"@[0]);
            }
        }
        lemma_operand_scan(tokens, i + 1, ops.push(t), target);
        assert(ops.push(t) + tokens.skip(i + 1) =~= ops + tokens.skip(i));
    } else {
        assert(ops + tokens.skip(i) =~= ops);
    }
}

proof fn lemma_commands_from_separator(tokens: Seq<Seq<char>>, i: int, k: int, found: bool, a: Seq<Seq<char>>)
    requires
        0 <= i <= k < tokens.len(),
        crate::shell::is_separator(tokens[k]),
        commands_write_authority(tokens, k + 1, false, a),
    ensures
        commands_write_authority(tokens, i, found, a),
    decreases k - i,
{
    if i < k {
        if crate::shell::is_separator(tokens[i]) {
            lemma_commands_from_separator(tokens, i + 1, k, false, a);
        } else if !found && crate::shell::is_transfer_command(tokens[i]) {
            lemma_commands_from_separator(tokens, i + 1, k, true, a);
        } else {
            lemma_commands_from_separator(tokens, i + 1, k, found, a);
        }
    }
}

proof fn lemma_transfer_tokens(tokens: Seq<Seq<char>>, ci: int, a: Seq<Seq<char>>)
    requires
        0 <= ci,
        ci + 3 == tokens.len(),
        tokens[ci] == "cp"@ || tokens[ci] == "install"@ || tokens[ci] == "mv"@,
        operand_word(tokens[ci + 1]),
        operand_word(tokens[ci + 2]),
        authority_matches(tokens[ci + 2], a) || (tokens[ci] == "mv"@ && authority_matches(
            tokens[ci + 1],
            a,
        )),
    ensures
        commands_write_authority(tokens, ci, false, a),
{
    lemma_reveal_words();
    lemma_operand_scan(tokens, ci + 1, seq![], None);
    let ops = tokens.skip(ci + 1);
    assert(seq![] + ops =~= ops);
    assert(ops.len() == 2);
    assert(ops[0] == tokens[ci + 1] && ops[1] == tokens[ci + 2]);
    assert(!crate::shell::is_separator(tokens[ci]));
    assert(crate::shell::is_transfer_command(tokens[ci]));
    if tokens[ci] == "mv"@ && authority_matches(tokens[ci + 1], a) {
        assert(ops.take(1)[0] == tokens[ci + 1]);
        assert(any_authority(ops.take(1), a));
    }
    assert(transfer_writes_authority(tokens, ci, a));
}

/// A `cp`, `install` or `mv` of a bare source onto a bare destination that
/// names an authority writes it, and an `mv` of an authority anywhere
/// removes it; alone on the line, or as the command after a separator
/// (`&&`, `||`, `|` or `&`; a bare `;` is cleaned away as a token, so it
/// never separates).
pub proof fn lemma_transfer_onto_authority(
    before: Seq<Seq<char>>,
    sep: Seq<char>,
    cmd: Seq<char>,
    src: Seq<char>,
    dst: Seq<char>,
    a: Seq<Seq<char>>,
)
    requires
        cmd == "cp"@ || cmd == "install"@ || cmd == "mv"@,
        operand_word(src),
        operand_word(dst),
        authority_matches(dst, a) || (cmd == "mv"@ && authority_matches(src, a)),
        bare_words(before),
        sep == "&&"@ || sep == "||"@ || sep == "|"@ || sep == "&"@,
    ensures
        line_writes_authority(spaced(seq![cmd, src, dst]), a),
        before.len() > 0 && !starts_with(before[0], "run:"@) ==> line_writes_authority(
            spaced(before + seq![sep, cmd, src, dst]),
            a,
        ),
{
    lemma_reveal_words();
    let ws = seq![cmd, src, dst];
    assert(bare_word(cmd)) by {
        assert(!is_ws(cmd[0]) && !is_ws(cmd[cmd.len() - 1]));
    }
    assert(bare_words(ws));
    lemma_tokenize_words(ws);
    assert(!starts_with(spaced(ws), "run:"@)) by {
        assert(spaced(ws)[0] == cmd[0]);
    }
    lemma_transfer_tokens(ws, 0, a);
    if before.len() > 0 && !starts_with(before[0], "run:"@) {
        let all = before + seq![sep, cmd, src, dst];
        assert(bare_word(sep)) by {
            assert(forall|k: int| 0 <= k < sep.len() ==> sep[k] == '&' || sep[k] == '|');
        }
        assert(bare_words(all)) by {
            assert forall|k: int| 0 <= k < all.len() implies bare_word(#[trigger] all[k]) by {
                if k < before.len() {
                    assert(all[k] == before[k]);
                }
            }
        }
        lemma_tokenize_words(all);
        let b = before.len() as int;
        assert(all.skip(b + 1) =~= ws);
        lemma_transfer_tokens(all, b + 1, a);
        assert(crate::shell::is_separator(all[b]));
        lemma_commands_from_separator(all, 0, b, false, a);
        assert(all[0] == before[0]);
        lemma_spaced_not_run(all);
    }
}

proof fn lemma_spaced_not_run(ws: Seq<Seq<char>>)
    requires
        bare_words(ws),
        ws.len() > 0,
        !starts_with(ws[0], "run:"@),
    ensures
        !starts_with(spaced(ws), "run:"@),
{
    lemma_reveal_words();
    lemma_spaced_prefix(ws);
    assert(bare_word(ws[0]));
    if starts_with(spaced(ws), "run:"@) {
        if ws[0].len() >= 4 {
            assert(ws[0].take(4) =~= spaced(ws).take(4));
        } else if ws.len() > 1 {
            assert(spaced(ws)[ws[0].len() as int] == ' ');
            assert("run:"@[ws[0].len() as int] != ' ');
        } else {
            assert(spaced(ws).len() == ws[0].len());
        }
    }
}

proof fn lemma_spaced_prefix(ws: Seq<Seq<char>>)
    requires
        ws.len() > 0,
    ensures
        forall|k: int| 0 <= k < ws[0].len() ==> spaced(ws)[k] == ws[0][k],
        ws.len() > 1 ==> spaced(ws).len() > ws[0].len() && spaced(ws)[ws[0].len() as int] == ' ',
{
    reveal_strlit(" ");
}

proof fn lemma_outputs_contain(tokens: Seq<Seq<char>>, i: int, k: int)
    requires
        0 <= i <= k,
        k + 1 < tokens.len(),
        tokens[k] == "-o"@ || tokens[k] == "--output"@ || tokens[k] == "--out"@ || tokens[k]
            == "--output-file"@,
    ensures
        outputs_from(tokens, i).contains(tokens[k + 1]),
    decreases k - i,
{
    reveal_strlit("-o");
    reveal_strlit("--output");
    reveal_strlit("--out");
    reveal_strlit("--output-file");
    reveal_strlit("-o=");
    reveal_strlit("--output=");
    reveal_strlit("--out=");
    reveal_strlit("--output-file=");
    let x = tokens[k + 1];
    if i < k {
        lemma_outputs_contain(tokens, i + 1, k);
        let rest = outputs_from(tokens, i + 1);
        let j = choose|j: int| 0 <= j < rest.len() && rest[j] == x;
        let head = crate::shell::token_outputs(tokens, i);
        assert((head + rest)[head.len() + j] == x);
    } else {
        let f1 = crate::shell::flag_value(tokens, k, "--output"@);
        let f2 = crate::shell::flag_value(tokens, k, "--out"@);
        let f3 = crate::shell::flag_value(tokens, k, "--output-file"@);
        let f4 = crate::shell::flag_value(tokens, k, "-o"@);
        let t = tokens[k];
        assert("--output"@.push('=') =~= "--output="@);
        assert("--out"@.push('=') =~= "--out="@);
        assert("--output-file"@.push('=') =~= "--output-file="@);
        assert("-o"@.push('=') =~= "-o="@);
        let head = f1 + f2 + f3 + f4;
        if t == "--output"@ {
            assert(f1 == seq![x]);
            assert(head[0] == x);
        } else if t == "--out"@ {
            assert(!starts_with(t, "--output="@));
            assert(f1.len() == 0);
            assert(f2 == seq![x]);
            assert(head[0] == x);
        } else if t == "--output-file"@ {
            assert(!starts_with(t, "--output="@)) by {
                if starts_with(t, "--output="@) {
                    assert(t[8] == "--output="@[8]);
                }
            }
            assert(f1.len() == 0);
            assert(!starts_with(t, "--out="@)) by {
                if starts_with(t, "--out="@) {
                    assert(t[5] == "--out="@[5]);
                }
            }
            assert(f2.len() == 0);
            assert(f3 == seq![x]);
            assert(head[0] == x);
        } else {
            assert(f1.len() == 0);
            assert(f2.len() == 0);
            assert(f3.len() == 0);
            assert(f4 == seq![x]);
            assert(head[0] == x);
        }
        let rest = outputs_from(tokens, k + 1);
        assert(outputs_from(tokens, k) == head + rest);
        assert((head + rest)[0] == x);
    }
}

/// A line of bare words in which `-o`, `--output`, `--out` or
/// `--output-file` is followed by a word naming an authority writes it.
pub proof fn lemma_output_flag_writes(ws: Seq<Seq<char>>, k: int, a: Seq<Seq<char>>)
    requires
        bare_words(ws),
        0 <= k,
        k + 1 < ws.len(),
        ws[k] == "-o"@ || ws[k] == "--output"@ || ws[k] == "--out"@ || ws[k] == "--output-file"@,
        authority_matches(ws[k + 1], a),
        !starts_with(ws[0], "run:"@),
    ensures
        line_writes_authority(spaced(ws), a),
{
    lemma_tokenize_words(ws);
    lemma_spaced_not_run(ws);
    lemma_outputs_contain(ws, 0, k);
    let outs = output_destinations(spaced(ws));
    let j = choose|j: int| 0 <= j < outs.len() && outs[j] == ws[k + 1];
    assert(authority_matches(outs[j], a));
}

// ---------------------------------------------------------------------------
// Generated directories
// ---------------------------------------------------------------------------

/// The directory names whose contents are generated, evidence, dependencies,
/// build output or temporary files, listed one by one.
pub open spec fn listed_generated(n: Seq<char>) -> bool {
    n == ".typespec-json-schema-validator"@ || n == "artifacts"@ || n == "build"@ || n == "dist"@
        || n == "evidence"@ || n == "generated"@ || n == "node_modules"@ || n == "out"@ || n
        == "target"@ || n == "tmp"@ || n == "vendor"@
}

/// No authored source lies below a generated directory, and the walks
/// descend into a directory exactly when it is neither `.git` nor a
/// generated directory.
pub proof fn lemma_generated_dirs_excluded(p: Seq<Seq<char>>, name: Seq<char>)
    ensures
        is_authored_typespec(p) || is_authored_schema(p) ==> forall|k: int|
            0 <= k < p.len() ==> !listed_generated(#[trigger] p[k]),
        should_descend(name, true) <==> name != ".git"@ && !listed_generated(name),
        should_descend(name, false),
{
    if is_authored_typespec(p) || is_authored_schema(p) {
        assert forall|k: int| 0 <= k < p.len() implies !listed_generated(#[trigger] p[k]) by {
            if listed_generated(p[k]) {
                assert(is_generated_name(p[k]));
            }
        }
    }
}

// ---------------------------------------------------------------------------
// File-writing calls
// ---------------------------------------------------------------------------

proof fn lemma_find_char_stops(r: Seq<char>, q: char, i: int, e: int)
    requires
        0 <= i <= e < r.len(),
        r[e] == q,
        forall|k: int| 0 <= k < e ==> r[k] != q,
    ensures
        crate::text::find_char_from(r, q, i) == Some(e),
    decreases e - i,
{
    if i < e {
        lemma_find_char_stops(r, q, i + 1, e);
    }
}

/// The quoted first argument of a call at the start of a line is what the
/// quotes enclose.
pub proof fn lemma_first_string_argument(needle: Seq<char>, q: char, w: Seq<char>, rest: Seq<char>)
    requires
        needle.len() > 0,
        q == '\'' || q == '"',
        !w.contains(q),
    ensures
        crate::shell::first_string_argument_after(needle + seq![q] + w + seq![q] + rest, needle)
            == Some(w),
{
    let s = needle + seq![q] + w + seq![q] + rest;
    assert(s.subrange(0, needle.len() as int) =~= needle);
    assert(crate::text::occurs_at(s, needle, 0));
    assert(crate::text::find(s, needle) == Some(0int));
    let after = s.skip(needle.len() as int);
    assert(after =~= seq![q] + (w + seq![q] + rest));
    assert(!is_ws(q));
    assert(lead(after, Trim::Space) == 0);
    assert(trim_start(after, Trim::Space) =~= after);
    let r = after.skip(1);
    assert(r =~= w + seq![q] + rest);
    assert forall|k: int| 0 <= k < w.len() implies r[k] != q by {
        assert(r[k] == w[k]);
        if w[k] == q {
            assert(w.contains(q));
        }
    }
    assert(r[w.len() as int] == q);
    lemma_find_char_stops(r, q, 0, w.len() as int);
    assert(r.take(w.len() as int) =~= w);
}

proof fn lemma_contains_left(a: Seq<Seq<char>>, b: Seq<Seq<char>>, x: Seq<char>)
    requires
        a.contains(x),
    ensures
        (a + b).contains(x),
{
    let k = choose|k: int| 0 <= k < a.len() && a[k] == x;
    assert((a + b)[k] == x);
}

proof fn lemma_contains_right(a: Seq<Seq<char>>, b: Seq<Seq<char>>, x: Seq<char>)
    requires
        b.contains(x),
    ensures
        (a + b).contains(x),
{
    let k = choose|k: int| 0 <= k < b.len() && b[k] == x;
    assert((a + b)[a.len() + k] == x);
}

proof fn lemma_call_not_run(needle: Seq<char>, line: Seq<char>)
    requires
        needle == "writeFileSync("@ || needle == "writeFile("@ || needle == "write_file("@ || needle
            == "std::fs::write("@ || needle == "fs::write("@ || needle == "File::create("@,
        line.len() > 0,
        line[0] == needle[0],
    ensures
        !starts_with(line, "run:"@),
{
    reveal_strlit("writeFileSync(");
    reveal_strlit("writeFile(");
    reveal_strlit("write_file(");
    reveal_strlit("std::fs::write(");
    reveal_strlit("fs::write(");
    reveal_strlit("File::create(");
    reveal_strlit("run:");
    if starts_with(line, "run:"@) {
        assert(line.take(4)[0] == line[0]);
    }
}

/// A line that opens with `writeFileSync(`, `writeFile(`, `write_file(`,
/// `std::fs::write(`, `fs::write(` or `File::create(` and a quoted path
/// names that path as a destination; the line writes an authority when the
/// path names one.
pub proof fn lemma_write_call_writes(
    needle: Seq<char>,
    q: char,
    w: Seq<char>,
    rest: Seq<char>,
    a: Seq<Seq<char>>,
)
    requires
        needle == "writeFileSync("@ || needle == "writeFile("@ || needle == "write_file("@ || needle
            == "std::fs::write("@ || needle == "fs::write("@ || needle == "File::create("@,
        q == '\'' || q == '"',
        !w.contains(q),
    ensures
        crate::shell::write_api_destinations(needle + seq![q] + w + seq![q] + rest).contains(w),
        authority_matches(w, a) ==> line_writes_authority(needle + seq![q] + w + seq![q] + rest, a),
{
    let line = needle + seq![q] + w + seq![q] + rest;
    assert(needle.len() > 0) by {
        reveal_strlit("writeFileSync(");
        reveal_strlit("writeFile(");
        reveal_strlit("write_file(");
        reveal_strlit("std::fs::write(");
        reveal_strlit("fs::write(");
        reveal_strlit("File::create(");
    }
    lemma_first_string_argument(needle, q, w, rest);
    assert(line[0] == needle[0]);
    lemma_call_not_run(needle, line);
    let p1 = crate::shell::opt_seq(crate::shell::first_string_argument_after(line, "writeFileSync("@));
    let p2 = crate::shell::opt_seq(crate::shell::first_string_argument_after(line, "writeFile("@));
    let p3 = crate::shell::opt_seq(crate::shell::first_string_argument_after(line, "write_file("@));
    let p4 = crate::shell::opt_seq(crate::shell::first_string_argument_after(line, "std::fs::write("@));
    let p5 = crate::shell::opt_seq(crate::shell::first_string_argument_after(line, "fs::write("@));
    let p6 = crate::shell::opt_seq(crate::shell::first_string_argument_after(line, "File::create("@));
    let p7 = if contains(line, ".write_text("@) || contains(line, ".write_bytes("@) {
        crate::shell::opt_seq(crate::shell::first_string_argument_after(line, "Path("@))
    } else {
        seq![]
    };
    let own = crate::shell::opt_seq(crate::shell::first_string_argument_after(line, needle));
    assert(own == seq![w]);
    assert(own.contains(w)) by {
        assert(own[0] == w);
    }
    if needle == "writeFileSync("@ {
        lemma_contains_left(p1, p2, w);
        lemma_contains_left(p1 + p2, p3, w);
        lemma_contains_left(p1 + p2 + p3, p4, w);
        lemma_contains_left(p1 + p2 + p3 + p4, p5, w);
        lemma_contains_left(p1 + p2 + p3 + p4 + p5, p6, w);
    } else if needle == "writeFile("@ {
        lemma_contains_right(p1, p2, w);
        lemma_contains_left(p1 + p2, p3, w);
        lemma_contains_left(p1 + p2 + p3, p4, w);
        lemma_contains_left(p1 + p2 + p3 + p4, p5, w);
        lemma_contains_left(p1 + p2 + p3 + p4 + p5, p6, w);
    } else if needle == "write_file("@ {
        lemma_contains_right(p1 + p2, p3, w);
        lemma_contains_left(p1 + p2 + p3, p4, w);
        lemma_contains_left(p1 + p2 + p3 + p4, p5, w);
        lemma_contains_left(p1 + p2 + p3 + p4 + p5, p6, w);
    } else if needle == "std::fs::write("@ {
        lemma_contains_right(p1 + p2 + p3, p4, w);
        lemma_contains_left(p1 + p2 + p3 + p4, p5, w);
        lemma_contains_left(p1 + p2 + p3 + p4 + p5, p6, w);
    } else if needle == "fs::write("@ {
        lemma_contains_right(p1 + p2 + p3 + p4, p5, w);
        lemma_contains_left(p1 + p2 + p3 + p4 + p5, p6, w);
    } else {
        lemma_contains_right(p1 + p2 + p3 + p4 + p5, p6, w);
    }
    lemma_contains_left(p1 + p2 + p3 + p4 + p5 + p6, p7, w);
    let dests = crate::shell::write_api_destinations(line);
    assert(dests == p1 + p2 + p3 + p4 + p5 + p6 + p7);
    if authority_matches(w, a) {
        let k = choose|k: int| 0 <= k < dests.len() && dests[k] == w;
        assert(authority_matches(dests[k], a));
    }
}

// ---------------------------------------------------------------------------
// Spellings of a path
// ---------------------------------------------------------------------------

/// A path written without surrounding whitespace and without a leading
/// `./` or workspace variable.
pub open spec fn plain_path(p: Seq<char>) -> bool {
    &&& p.len() > 0 ==> !is_ws(p[0]) && !is_ws(p.last())
    &&& !starts_with(p, "./"@)
    &&& !starts_with(p, "$GITHUB_WORKSPACE/"@)
    &&& !starts_with(p, "${GITHUB_WORKSPACE}/"@)
}

proof fn lemma_trim_fixed(x: Seq<char>)
    requires
        x.len() > 0,
        !is_ws(x[0]),
        !is_ws(x.last()),
    ensures
        trim(x, Trim::Space) == x,
{
    assert(lead(x, Trim::Space) == 0);
    assert(trim_start(x, Trim::Space) =~= x);
    assert(trail(x, Trim::Space) == 0);
    assert(trim_end(x, Trim::Space) =~= x);
}

proof fn lemma_prefix_facts(w: Seq<char>, p: Seq<char>)
    ensures
        starts_with(w + p, w),
        (w + p).skip(w.len() as int) == p,
{
    assert((w + p).take(w.len() as int) =~= w);
    assert((w + p).skip(w.len() as int) =~= p);
}

/// A path names the same file whether written plainly, after `./`, or
/// after `$GITHUB_WORKSPACE/` or `${GITHUB_WORKSPACE}/`: all normalize
/// alike, to the path with `/` separators.
pub proof fn lemma_workspace_spellings(p: Seq<char>)
    requires
        plain_path(p),
    ensures
        normalize_candidate(p) == crate::text::replace_char(p, '\\', '/'),
        normalize_candidate("./"@ + p) == normalize_candidate(p),
        normalize_candidate("$GITHUB_WORKSPACE/"@ + p) == normalize_candidate(p),
        normalize_candidate("${GITHUB_WORKSPACE}/"@ + p) == normalize_candidate(p),
{
    reveal_strlit("./");
    reveal_strlit("$GITHUB_WORKSPACE/");
    reveal_strlit("${GITHUB_WORKSPACE}/");
    if p.len() > 0 {
        lemma_trim_fixed(p);
    } else {
        assert(trim(p, Trim::Space) =~= p);
    }
    let w1 = "./"@;
    let w2 = "$GITHUB_WORKSPACE/"@;
    let w3 = "${GITHUB_WORKSPACE}/"@;
    lemma_trim_fixed(w1 + p);
    lemma_trim_fixed(w2 + p);
    lemma_trim_fixed(w3 + p);
    lemma_prefix_facts(w1, p);
    lemma_prefix_facts(w2, p);
    lemma_prefix_facts(w3, p);
    assert(!starts_with(w2 + p, w1)) by {
        if starts_with(w2 + p, w1) {
            assert((w2 + p)[0] == w1[0]);
        }
    }
    assert(!starts_with(w3 + p, w1)) by {
        if starts_with(w3 + p, w1) {
            assert((w3 + p)[0] == w1[0]);
        }
    }
    assert(!starts_with(w3 + p, w2)) by {
        if starts_with(w3 + p, w2) {
            assert((w3 + p)[1] == w2[1]);
        }
    }
}

proof fn lemma_find_some(s: Seq<char>, n: Seq<char>, i: int, k: int)
    requires
        0 <= i <= k,
        crate::text::occurs_at(s, n, k),
    ensures
        crate::text::find_from(s, n, i) is Some,
    decreases k - i,
{
    if !crate::text::occurs_at(s, n, i) {
        lemma_find_some(s, n, i + 1, k);
    }
}

/// A line `Path('W').write_text(...)` (or `.write_bytes(`) names `W` as a
/// destination; it writes an authority when `W` names one.
pub proof fn lemma_path_write_writes(q: char, w: Seq<char>, call: Seq<char>, rest: Seq<char>, a: Seq<Seq<char>>)
    requires
        q == '\'' || q == '"',
        !w.contains(q),
        call == ".write_text("@ || call == ".write_bytes("@,
    ensures
        crate::shell::write_api_destinations("Path("@ + seq![q] + w + seq![q] + call + rest).contains(
            w,
        ),
        authority_matches(w, a) ==> line_writes_authority(
            "Path("@ + seq![q] + w + seq![q] + call + rest,
            a,
        ),
{
    reveal_strlit("Path(");
    reveal_strlit("run:");
    let tail = call + rest;
    let line = "Path("@ + seq![q] + w + seq![q] + tail;
    assert(line =~= "Path("@ + seq![q] + w + seq![q] + call + rest);
    lemma_first_string_argument("Path("@, q, w, tail);
    let k: int = "Path("@.len() + 2int + w.len();
    assert(line.subrange(k, k + call.len()) =~= call);
    assert(crate::text::occurs_at(line, call, k));
    lemma_find_some(line, call, 0, k);
    assert(contains(line, ".write_text("@) || contains(line, ".write_bytes("@));
    let p7 = crate::shell::opt_seq(crate::shell::first_string_argument_after(line, "Path("@));
    assert(p7 == seq![w]);
    let dests = crate::shell::write_api_destinations(line);
    assert(dests[dests.len() - 1] == w);
    assert(dests.contains(w));
    assert(!starts_with(line, "run:"@)) by {
        if starts_with(line, "run:"@) {
            assert(line.take(4)[0] == line[0]);
        }
    }
    if authority_matches(w, a) {
        let j = choose|j: int| 0 <= j < dests.len() && dests[j] == w;
        assert(authority_matches(dests[j], a));
    }
}

} // verus!
