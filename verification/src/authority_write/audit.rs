//! The authority-write audit over a snapshot of the repository.
//!
//! Automation must not write directly to an independently authored TypeSpec
//! or Draft 2020-12 JSON Schema source; generated schemas, reports and other
//! evidence go to distinct generated paths. Detection is destination-aware:
//! reading an authority on a line whose output goes elsewhere is not a write.
use vstd::prelude::*;

use crate::authority_write::model::{notes, targeted, CommandReport, Finding, Note};
use crate::authority_write::sources::{
    is_authored_schema, is_authored_schema_exec, is_authored_typespec, is_authored_typespec_exec,
    is_config_file, is_config_file_exec, is_source_file, is_source_file_exec,
    path_has_generated_component, path_has_generated_component_exec,
};
use crate::json::{json_member, json_root_members, JsonMember};
use crate::paths::{
    components_of, join, normalize_path, path_views, relative_display, relative_display_of,
    same_path, sort_unique, sort_unique_exec,
};
use crate::shell::{line_writes_authority, line_writes_authority_chars};
use crate::snapshot::{FileMeta, TreeEntry, WalkStep};
use crate::text::{
    chars_of, concat, decimal, decimal_chars, equals_lit, lines, lines_of, same, starts_with,
    starts_with_lit, string_of, string_views, trim, trim_chars, views, Trim,
};

verus! {

broadcast use vstd::string::group_string_axioms;

/// The most authored sources the audit records.
pub const MAX_AUTHORITIES: usize = 1024;

/// The most automation source files the audit reads.
pub const MAX_FILES: usize = 1024;

/// The largest file, in bytes, that the audit reads.
pub const MAX_FILE_BYTES: u64 = 2 * 1024 * 1024;

/// The deepest level below a walked directory that the walks reach.
pub const MAX_DEPTH: usize = 20;

/// The number of automation directories (see `scan_root`).
pub const SCAN_ROOT_COUNT: usize = 3;

/// The code of a direct write to an authority.
pub const DIRECT_WRITE: &'static str = "peer-authority-direct-write";

/// The message of a direct write to an authority.
pub const DIRECT_WRITE_MESSAGE: &'static str = "automation must not overwrite independently authored TypeSpec or JSON Schema; write generated comparison evidence to a distinct path";

/// The metadata key of the number of authorities.
pub const AUTHORITY_COUNT: &'static str = "peerAuthorityWriteProtectionAuthorityCount";

/// The metadata key of the number of automation files read.
pub const FILE_COUNT: &'static str = "peerAuthorityWriteProtectionFileCount";

/// The metadata key of the number of rejected lines.
pub const VIOLATION_COUNT: &'static str = "peerAuthorityWriteProtectionViolationCount";

// ---------------------------------------------------------------------------
// The snapshot
// ---------------------------------------------------------------------------

/// What the audit knows of one `contracts.config.json` file.
#[derive(Debug, Clone)]
pub struct ConfigSnapshot {
    /// Its `symlink_metadata`, when that could be read.
    pub metadata: Option<FileMeta>,
    /// Its text, when it could be read as UTF-8.
    pub text: Option<String>,
    /// For each path the config declares (see `declared_paths`), in order,
    /// the canonical absolute path of the config's directory joined with it,
    /// as components, when it could be canonicalized.
    pub resolved: Vec<Option<Vec<String>>>,
}

/// What the audit knows of one automation source file.
#[derive(Debug)]
pub struct SourceSnapshot {
    /// The file's path relative to the repository root.
    pub path: Vec<String>,
    /// Its size from `symlink_metadata`, or the error's message.
    pub metadata: Result<u64, String>,
    /// Its text, or the message of the error reading it as UTF-8.
    pub text: Result<String, String>,
}

/// A snapshot of the repository, as the audit reads it.
#[derive(Debug)]
pub struct AuthorityRepository {
    /// Whether `contracts` is a directory.
    pub contracts_is_dir: bool,
    /// The walk of `contracts`, in file-name order, not descending where
    /// `should_descend` says no.
    pub contract_walk: Vec<WalkStep>,
    /// For each `contracts.config.json` file of the walk, in walk order.
    pub configs: Vec<ConfigSnapshot>,
    /// The repository root's canonical absolute path, as components.
    pub canonical_root: Option<Vec<String>>,
    /// The walks of `.github/workflows`, `scripts` and `tools`, in that order
    /// (empty where the directory is missing).
    pub scan_walks: Vec<Vec<WalkStep>>,
    /// The automation source files that were read.
    pub sources: Vec<SourceSnapshot>,
}

// ---------------------------------------------------------------------------
// Notes the audit reports
// ---------------------------------------------------------------------------

pub open spec fn discovery_failed(message: Seq<char>) -> Note {
    targeted(
        "peer-authority-write-discovery-failed"@,
        "part of the contracts tree could not be inspected: "@ + message,
        "contracts"@,
    )
}

pub open spec fn authority_limit() -> Note {
    targeted(
        "peer-authority-write-authority-limit"@,
        "more than 1024 authored contract sources were discovered"@,
        "contracts"@,
    )
}

pub open spec fn scan_failed(message: Seq<char>, root: Seq<char>) -> Note {
    targeted(
        "peer-authority-write-scan-failed"@,
        "automation tree could not be inspected: "@ + message,
        root,
    )
}

pub open spec fn file_limit(root: Seq<char>) -> Note {
    targeted(
        "peer-authority-write-file-limit"@,
        "more than 1024 automation source files were discovered"@,
        root,
    )
}

pub open spec fn file_unreadable(message: Seq<char>, target: Seq<char>) -> Note {
    targeted(
        "peer-authority-write-file-unreadable"@,
        "automation source metadata could not be read: "@ + message,
        target,
    )
}

pub open spec fn file_too_large(target: Seq<char>) -> Note {
    targeted(
        "peer-authority-write-file-too-large"@,
        "automation source exceeds the 2 MiB authority-write audit bound"@,
        target,
    )
}

pub open spec fn file_not_utf8(message: Seq<char>, target: Seq<char>) -> Note {
    targeted(
        "peer-authority-write-file-not-utf8"@,
        "automation source could not be read as UTF-8: "@ + message,
        target,
    )
}

/// A direct write on line `line` (counted from 1) of the file `target`.
pub open spec fn direct_write(target: Seq<char>, line: nat) -> Note {
    targeted(DIRECT_WRITE@, DIRECT_WRITE_MESSAGE@, target + ":"@ + decimal(line))
}

pub open spec fn has_code(ns: Seq<Note>, code: Seq<char>) -> bool {
    exists|k: int| 0 <= k < ns.len() && (#[trigger] ns[k]).code == code
}

// ---------------------------------------------------------------------------
// Discovery of authorities
// ---------------------------------------------------------------------------

/// Records `path` as an authority, unless the limit is reached; the first
/// time the limit stops a path, the report says so once.
pub open spec fn insert_authority(auth: Seq<Seq<char>>, ns: Seq<Note>, path: Seq<char>) -> (
    Seq<Seq<char>>,
    Seq<Note>,
) {
    if auth.len() >= MAX_AUTHORITIES {
        if has_code(ns, "peer-authority-write-authority-limit"@) {
            (auth, ns)
        } else {
            (auth, ns.push(authority_limit()))
        }
    } else if auth.contains(path) {
        (auth, ns)
    } else {
        (auth.push(path), ns)
    }
}

/// The path of a walk entry, as text.
pub open spec fn entry_path(e: TreeEntry) -> Seq<Seq<char>> {
    string_views(e.path@)
}

/// A regular file (not a link) at a path that satisfies `pred`.
pub open spec fn is_authority_step(s: WalkStep) -> bool {
    match s {
        WalkStep::Entry(e) => !e.is_symlink && e.is_file && (is_authored_typespec(entry_path(e))
            || is_authored_schema(entry_path(e))),
        WalkStep::Failed { .. } => false,
    }
}

pub open spec fn is_config_step(s: WalkStep) -> bool {
    match s {
        WalkStep::Entry(e) => !e.is_symlink && e.is_file && is_config_file(entry_path(e)),
        WalkStep::Failed { .. } => false,
    }
}

/// Discovery along the contracts walk, from step `i`.
pub open spec fn discover_walk(steps: Seq<WalkStep>, i: int, auth: Seq<Seq<char>>, ns: Seq<Note>) -> (
    Seq<Seq<char>>,
    Seq<Note>,
)
    decreases steps.len() - i,
{
    if i < 0 || i >= steps.len() {
        (auth, ns)
    } else {
        match steps[i] {
            WalkStep::Failed { message, .. } => discover_walk(
                steps,
                i + 1,
                auth,
                ns.push(discovery_failed(message@)),
            ),
            WalkStep::Entry(e) => if is_authority_step(steps[i]) {
                let (a2, n2) = insert_authority(auth, ns, join(entry_path(e)));
                discover_walk(steps, i + 1, a2, n2)
            } else {
                discover_walk(steps, i + 1, auth, ns)
            },
        }
    }
}

/// The number of `contracts.config.json` files among the first `n` steps.
pub open spec fn config_count(steps: Seq<WalkStep>, n: int) -> int
    decreases n,
{
    if n <= 0 || n > steps.len() {
        0
    } else {
        config_count(steps, n - 1) + if is_config_step(steps[n - 1]) {
            1int
        } else {
            0
        }
    }
}

pub open spec fn declared_field(m: Map<Seq<char>, Option<Seq<char>>>, k: Seq<char>) -> Seq<
    Seq<char>,
> {
    if m.dom().contains(k) && m[k] is Some {
        seq![m[k]->0]
    } else {
        seq![]
    }
}

/// The authority paths that a config declares: its `typespec` and then its
/// `jsonSchema` member, where they are strings.
pub open spec fn declared_paths(text: Seq<char>) -> Seq<Seq<char>> {
    match json_root_members(text) {
        Ok(Some(m)) => declared_field(m, "typespec"@) + declared_field(m, "jsonSchema"@),
        _ => seq![],
    }
}

/// The audit reads a config that is a regular file within the size bound.
pub open spec fn config_readable(c: ConfigSnapshot) -> bool {
    &&& c.metadata is Some
    &&& c.metadata->0.len <= MAX_FILE_BYTES
    &&& c.metadata->0.is_file
    &&& c.text is Some
}

/// `p` lies below `root`.
pub open spec fn below(p: Seq<Seq<char>>, root: Seq<Seq<char>>) -> bool {
    root.len() <= p.len() && p.take(root.len() as int) == root
}

/// The resolution of the `j`-th declared path of a config.
pub open spec fn resolution(c: ConfigSnapshot, j: int) -> Option<Seq<Seq<char>>> {
    if 0 <= j < c.resolved@.len() {
        match c.resolved@[j] {
            Some(p) => Some(string_views(p@)),
            None => None,
        }
    } else {
        None
    }
}

/// Records the declared paths of a config from the `j`-th on: those that
/// resolve below the repository root and outside generated directories.
pub open spec fn resolve_declared(
    c: ConfigSnapshot,
    root: Seq<Seq<char>>,
    n: int,
    j: int,
    auth: Seq<Seq<char>>,
    ns: Seq<Note>,
) -> (Seq<Seq<char>>, Seq<Note>)
    decreases n - j,
{
    if j < 0 || j >= n {
        (auth, ns)
    } else {
        match resolution(c, j) {
            Some(p) => if below(p, root) && !path_has_generated_component(p.skip(root.len() as int)) {
                let (a2, n2) = insert_authority(auth, ns, join(p.skip(root.len() as int)));
                resolve_declared(c, root, n, j + 1, a2, n2)
            } else {
                resolve_declared(c, root, n, j + 1, auth, ns)
            },
            None => resolve_declared(c, root, n, j + 1, auth, ns),
        }
    }
}

/// The authorities that one config adds.
pub open spec fn config_authorities(
    c: ConfigSnapshot,
    root: Option<Vec<String>>,
    auth: Seq<Seq<char>>,
    ns: Seq<Note>,
) -> (Seq<Seq<char>>, Seq<Note>) {
    if config_readable(c) && root is Some {
        resolve_declared(
            c,
            string_views(root->0@),
            declared_paths(c.text->0@).len() as int,
            0,
            auth,
            ns,
        )
    } else {
        (auth, ns)
    }
}

/// The authorities that configs `k..n` add.
pub open spec fn configs_scan(
    repo: AuthorityRepository,
    n: int,
    k: int,
    auth: Seq<Seq<char>>,
    ns: Seq<Note>,
) -> (Seq<Seq<char>>, Seq<Note>)
    decreases n - k,
{
    if k < 0 || k >= n {
        (auth, ns)
    } else {
        let (a2, n2) = config_authorities(repo.configs@[k], repo.canonical_root, auth, ns);
        configs_scan(repo, n, k + 1, a2, n2)
    }
}

/// The number of configs that the audit reads.
pub open spec fn configs_read(repo: AuthorityRepository) -> int {
    let c = config_count(repo.contract_walk@, repo.contract_walk@.len() as int);
    if c < repo.configs@.len() {
        c
    } else {
        repo.configs@.len() as int
    }
}

/// The authorities of the repository and the notes their discovery adds to
/// `ns`: authored sources found along the contracts walk, then those that
/// configs declare.
pub open spec fn discover_authorities(repo: AuthorityRepository, ns: Seq<Note>) -> (
    Seq<Seq<char>>,
    Seq<Note>,
) {
    if !repo.contracts_is_dir {
        (seq![], ns)
    } else {
        let (a, n) = discover_walk(repo.contract_walk@, 0, seq![], ns);
        configs_scan(repo, configs_read(repo), 0, a, n)
    }
}

// ---------------------------------------------------------------------------
// Automation sources
// ---------------------------------------------------------------------------

/// The automation directories, in the order they are scanned.
pub open spec fn scan_root(r: int) -> Seq<char> {
    if r == 0 {
        ".github/workflows"@
    } else if r == 1 {
        "scripts"@
    } else {
        "tools"@
    }
}

/// The name of the `r`-th automation directory, relative to the root.
pub fn scan_root_name(r: usize) -> (name: &'static str)
    requires
        r < 3,
    ensures
        name@ == scan_root(r as int),
{
    if r == 0 {
        ".github/workflows"
    } else if r == 1 {
        "scripts"
    } else {
        "tools"
    }
}

pub open spec fn is_source_step(s: WalkStep) -> bool {
    match s {
        WalkStep::Entry(e) => !e.is_symlink && e.is_file && is_source_file(entry_path(e)),
        WalkStep::Failed { .. } => false,
    }
}

/// Collecting source files along one automation walk, from step `i`.
pub open spec fn collect_walk(
    steps: Seq<WalkStep>,
    i: int,
    root: Seq<char>,
    files: Seq<Seq<Seq<char>>>,
    ns: Seq<Note>,
    overflow: bool,
) -> (Seq<Seq<Seq<char>>>, Seq<Note>, bool)
    decreases steps.len() - i,
{
    if i < 0 || i >= steps.len() {
        (files, ns, overflow)
    } else {
        match steps[i] {
            WalkStep::Failed { message, .. } => collect_walk(
                steps,
                i + 1,
                root,
                files,
                ns.push(scan_failed(message@, root)),
                overflow,
            ),
            WalkStep::Entry(e) => if !is_source_step(steps[i]) {
                collect_walk(steps, i + 1, root, files, ns, overflow)
            } else if files.len() >= MAX_FILES {
                if overflow {
                    collect_walk(steps, i + 1, root, files, ns, overflow)
                } else {
                    collect_walk(steps, i + 1, root, files, ns.push(file_limit(root)), true)
                }
            } else {
                collect_walk(steps, i + 1, root, files.push(entry_path(e)), ns, overflow)
            },
        }
    }
}

pub open spec fn walk_of(walks: Seq<Vec<WalkStep>>, r: int) -> Seq<WalkStep> {
    if 0 <= r < walks.len() {
        walks[r]@
    } else {
        seq![]
    }
}

/// Collecting source files along the automation walks, from walk `r`.
pub open spec fn collect_walks(
    walks: Seq<Vec<WalkStep>>,
    r: int,
    files: Seq<Seq<Seq<char>>>,
    ns: Seq<Note>,
    overflow: bool,
) -> (Seq<Seq<Seq<char>>>, Seq<Note>)
    decreases 3 - r,
{
    if r < 0 || r >= 3 {
        (files, ns)
    } else {
        let (f2, n2, o2) = collect_walk(walk_of(walks, r), 0, scan_root(r), files, ns, overflow);
        collect_walks(walks, r + 1, f2, n2, o2)
    }
}

/// The automation source files, in path order without duplicates, and the
/// notes their collection adds to `ns`.
pub open spec fn automation_sources(repo: AuthorityRepository, ns: Seq<Note>) -> (
    Seq<Seq<Seq<char>>>,
    Seq<Note>,
) {
    let (files, n2) = collect_walks(repo.scan_walks@, 0, seq![], ns, false);
    (sort_unique(files), n2)
}

// ---------------------------------------------------------------------------
// Auditing files
// ---------------------------------------------------------------------------

/// A line the audit skips: blank, or a `#` or `//` comment.
pub open spec fn is_skipped_line(t: Seq<char>) -> bool {
    t.len() == 0 || starts_with(t, "#"@) || starts_with(t, "//"@)
}

/// Checking lines `i..` of a file: each trimmed, non-comment line that
/// writes an authority is reported and counted.
pub open spec fn scan_lines(
    ls: Seq<Seq<char>>,
    i: int,
    target: Seq<char>,
    a: Seq<Seq<char>>,
    ns: Seq<Note>,
    count: nat,
) -> (Seq<Note>, nat)
    decreases ls.len() - i,
{
    if i < 0 || i >= ls.len() {
        (ns, count)
    } else {
        let t = trim(ls[i], Trim::Space);
        if !is_skipped_line(t) && line_writes_authority(t, a) {
            scan_lines(ls, i + 1, target, a, ns.push(direct_write(target, (i + 1) as nat)), count + 1)
        } else {
            scan_lines(ls, i + 1, target, a, ns, count)
        }
    }
}

/// Auditing one automation source.
pub open spec fn audit_source(src: SourceSnapshot, target: Seq<char>, a: Seq<Seq<char>>, ns: Seq<
    Note,
>) -> (Seq<Note>, nat) {
    match src.metadata {
        Err(m) => (ns.push(file_unreadable(m@, target)), 0),
        Ok(len) => if len > MAX_FILE_BYTES {
            (ns.push(file_too_large(target)), 0)
        } else {
            match src.text {
                Err(m) => (ns.push(file_not_utf8(m@, target)), 0),
                Ok(text) => scan_lines(lines(text@), 0, target, a, ns, 0),
            }
        },
    }
}

/// The first snapshot of the file at `p`, from the `i`-th on.
pub open spec fn find_source(sources: Seq<SourceSnapshot>, p: Seq<Seq<char>>, i: int) -> Option<int>
    decreases sources.len() - i,
{
    if i < 0 || i >= sources.len() {
        None
    } else if string_views(sources[i].path@) == p {
        Some(i)
    } else {
        find_source(sources, p, i + 1)
    }
}

/// `a + b`, or `u64::MAX` when that is larger.
pub open spec fn saturating_sum(a: nat, b: nat) -> nat {
    if a + b > u64::MAX {
        u64::MAX as nat
    } else {
        a + b
    }
}

/// Auditing files `j..`; a file with no snapshot is not audited. The count
/// of rejected lines saturates at `u64::MAX`.
pub open spec fn audit_files(
    files: Seq<Seq<Seq<char>>>,
    j: int,
    sources: Seq<SourceSnapshot>,
    a: Seq<Seq<char>>,
    ns: Seq<Note>,
    total: nat,
) -> (Seq<Note>, nat)
    decreases files.len() - j,
{
    if j < 0 || j >= files.len() {
        (ns, total)
    } else {
        match find_source(sources, files[j], 0) {
            Some(k) => {
                let (n2, c) = audit_source(sources[k], relative_display(files[j]), a, ns);
                audit_files(files, j + 1, sources, a, n2, saturating_sum(total, c))
            },
            None => audit_files(files, j + 1, sources, a, ns, total),
        }
    }
}

/// The outcome of the audit: the notes added to `ns`, and, when authorities
/// exist, the numbers of authorities, files and rejected lines.
pub open spec fn audit_outcome(repo: AuthorityRepository, ns: Seq<Note>) -> (
    Seq<Note>,
    Option<(nat, nat, nat)>,
) {
    let (a, n1) = discover_authorities(repo, ns);
    if a.len() == 0 {
        (n1, None)
    } else {
        let (files, n2) = automation_sources(repo, n1);
        let (n3, v) = audit_files(files, 0, repo.sources@, a, n2, 0);
        (n3, Some((a.len(), files.len(), v)))
    }
}

// ---------------------------------------------------------------------------
// Executable audit
// ---------------------------------------------------------------------------

fn message(prefix: &str, detail: &str) -> (r: String)
    ensures
        r@ == prefix@ + detail@,
{
    string_of(&concat(&chars_of(prefix), &chars_of(detail)))
}

fn has_code_exec(report: &CommandReport, code: &str) -> (r: bool)
    ensures
        r == has_code(notes(report.findings@), code@),
{
    let ghost ns = notes(report.findings@);
    let mut i: usize = 0;
    while i < report.findings.len()
        invariant
            i <= report.findings.len(),
            ns == notes(report.findings@),
            forall|k: int| 0 <= k < i ==> (#[trigger] ns[k]).code != code@,
        decreases report.findings.len() - i,
    {
        if equals_lit(&chars_of(report.findings[i].code.as_str()), code) {
            assert(ns[i as int].code == code@);
            return true;
        }
        i = i + 1;
    }
    false
}

/// Records `path` as an authority (see `insert_authority`).
fn insert_authority_exec(path: Vec<char>, auth: &mut Vec<Vec<char>>, report: &mut CommandReport)
    ensures
        (views(final(auth)@), notes(final(report).findings@)) == insert_authority(
            views(old(auth)@),
            notes(old(report).findings@),
            path@,
        ),
        final(report).command == old(report).command,
        final(report).metadata == old(report).metadata,
{
    if auth.len() >= MAX_AUTHORITIES {
        if !has_code_exec(report, "peer-authority-write-authority-limit") {
            report.push(
                Finding::error(
                    "peer-authority-write-authority-limit",
                    "more than 1024 authored contract sources were discovered",
                ).with_target("contracts"),
            );
        }
        return ;
    }
    let mut i: usize = 0;
    while i < auth.len()
        invariant
            i <= auth.len(),
            auth.len() < MAX_AUTHORITIES,
            *auth == *old(auth),
            *report == *old(report),
            forall|j: int| 0 <= j < i ==> views(auth@)[j] != path@,
        decreases auth.len() - i,
    {
        if same(&auth[i], &path) {
            assert(views(auth@)[i as int] == path@);
            return ;
        }
        i = i + 1;
    }
    let ghost before = views(auth@);
    auth.push(path);
    assert(views(auth@) =~= before.push(path@));
}

/// The path that a config member declares (as `json_member` read it): its
/// value, where it is a string.
pub open spec fn member_path(member: JsonMember) -> Option<Seq<char>> {
    match member {
        JsonMember::Text(v) => Some(v@),
        _ => None,
    }
}

/// The path that a config member declares (as `json_member` read it), where
/// it is a string.
pub fn declared_value(member: &JsonMember) -> (r: Option<Vec<char>>)
    ensures
        match r {
            Some(v) => member_path(*member) == Some(v@),
            None => member_path(*member) is None,
        },
{
    match member {
        JsonMember::Text(value) => Some(chars_of(value.as_str())),
        _ => None,
    }
}

fn declared_member(text: &str, key: &str, out: &mut Vec<Vec<char>>)
    ensures
        match json_root_members(text@) {
            Ok(Some(m)) => views(final(out)@) == views(old(out)@) + declared_field(m, key@),
            _ => views(final(out)@) == views(old(out)@),
        },
{
    let ghost before = views(out@);
    let member = json_member(text, key);
    match declared_value(&member) {
        Some(value) => {
            out.push(value);
            proof {
                let m = json_root_members(text@)->Ok_0->Some_0;
                assert(views(out@) =~= before.push(member_path(member)->0));
                assert(declared_field(m, key@) =~= seq![member_path(member)->0]);
            }
        },
        None => {
            proof {
                match json_root_members(text@) {
                    Ok(Some(m)) => {
                        assert(declared_field(m, key@) =~= Seq::<Seq<char>>::empty());
                        assert(views(out@) =~= before + declared_field(m, key@));
                    },
                    _ => {},
                }
            }
        },
    }
}

/// The authority paths that a config's text declares.
pub fn declared_paths_exec(text: &str) -> (r: Vec<Vec<char>>)
    ensures
        views(r@) == declared_paths(text@),
{
    let mut out: Vec<Vec<char>> = Vec::new();
    assert(views(out@) =~= Seq::<Seq<char>>::empty());
    declared_member(text, "typespec", &mut out);
    declared_member(text, "jsonSchema", &mut out);
    assert(views(out@) =~= declared_paths(text@));
    out
}

/// The authority paths that a config's text declares, as strings (what the
/// snapshot resolves, in order).
pub fn config_declared_paths(text: &str) -> (r: Vec<String>)
    ensures
        string_views(r@) == declared_paths(text@),
{
    let d = declared_paths_exec(text);
    let mut out: Vec<String> = Vec::new();
    let mut i: usize = 0;
    while i < d.len()
        invariant
            i <= d.len(),
            string_views(out@) == views(d@).take(i as int),
        decreases d.len() - i,
    {
        let ghost before = string_views(out@);
        let t = string_of(&d[i]);
        assert(t@ == views(d@)[i as int]);
        out.push(t);
        assert(string_views(out@) =~= before.push(t@));
        assert(views(d@).take(i + 1) =~= views(d@).take(i as int).push(t@));
        i = i + 1;
    }
    assert(views(d@).take(d.len() as int) =~= views(d@));
    out
}

fn below_exec(p: &Vec<Vec<char>>, root: &Vec<Vec<char>>) -> (r: bool)
    ensures
        r == below(views(p@), views(root@)),
{
    if root.len() > p.len() {
        return false;
    }
    let mut i: usize = 0;
    while i < root.len()
        invariant
            i <= root.len() <= p.len(),
            forall|j: int| 0 <= j < i ==> views(p@)[j] == views(root@)[j],
        decreases root.len() - i,
    {
        if !same(&p[i], &root[i]) {
            assert(views(p@).take(root.len() as int)[i as int] != views(root@)[i as int]);
            return false;
        }
        i = i + 1;
    }
    assert(views(p@).take(root.len() as int) =~= views(root@));
    true
}

fn skip_components(p: &Vec<Vec<char>>, n: usize) -> (r: Vec<Vec<char>>)
    requires
        n <= p.len(),
    ensures
        views(r@) == views(p@).skip(n as int),
{
    let mut out: Vec<Vec<char>> = Vec::new();
    let mut i = n;
    while i < p.len()
        invariant
            n <= i <= p.len(),
            views(out@) == views(p@).subrange(n as int, i as int),
        decreases p.len() - i,
    {
        let ghost before = views(out@);
        let c = concat(&Vec::new(), &p[i]);
        assert(c@ =~= p@[i as int]@);
        out.push(c);
        assert(views(out@) =~= before.push(p@[i as int]@));
        assert(views(p@).subrange(n as int, i + 1) =~= views(p@).subrange(n as int, i as int).push(
            p@[i as int]@,
        ));
        i = i + 1;
    }
    assert(views(p@).subrange(n as int, p.len() as int) =~= views(p@).skip(n as int));
    out
}

/// Adds the authorities that one config declares.
fn discover_config_authorities(
    config: &ConfigSnapshot,
    canonical_root: &Option<Vec<String>>,
    auth: &mut Vec<Vec<char>>,
    report: &mut CommandReport,
)
    ensures
        (views(final(auth)@), notes(final(report).findings@)) == config_authorities(
            *config,
            *canonical_root,
            views(old(auth)@),
            notes(old(report).findings@),
        ),
        final(report).command == old(report).command,
        final(report).metadata == old(report).metadata,
{
    let meta = match &config.metadata {
        Some(m) => m,
        None => return ,
    };
    if meta.len > MAX_FILE_BYTES || !meta.is_file {
        return ;
    }
    let text = match &config.text {
        Some(t) => t,
        None => return ,
    };
    let root = match canonical_root {
        Some(r) => components_of(r),
        None => return ,
    };
    let declared = declared_paths_exec(text.as_str());
    let n = declared.len();
    let ghost rv = views(root@);
    let ghost target = config_authorities(
        *config,
        *canonical_root,
        views(auth@),
        notes(report.findings@),
    );
    let mut j: usize = 0;
    while j < n
        invariant
            j <= n,
            n == declared_paths(config.text->0@).len(),
            rv == views(root@),
            rv == string_views(canonical_root->0@),
            config_readable(*config),
            target == resolve_declared(
                *config,
                rv,
                n as int,
                j as int,
                views(auth@),
                notes(report.findings@),
            ),
            report.command == old(report).command,
            report.metadata == old(report).metadata,
        decreases n - j,
    {
        if j < config.resolved.len() {
            match &config.resolved[j] {
                Some(canonical) => {
                    let p = components_of(canonical);
                    assert(resolution(*config, j as int) == Some(views(p@)));
                    if below_exec(&p, &root) {
                        let rel = skip_components(&p, root.len());
                        if !path_has_generated_component_exec(&rel) {
                            insert_authority_exec(normalize_path(&rel), auth, report);
                        }
                    }
                },
                None => {},
            }
        }
        j = j + 1;
    }
}

/// Discovers the authorities of the repository: authored TypeSpec and JSON
/// Schema sources along the contracts walk, then the paths that configs
/// declare.
pub fn discover_authority_paths(repo: &AuthorityRepository, report: &mut CommandReport) -> (r:
    Vec<Vec<char>>)
    ensures
        (views(r@), notes(final(report).findings@)) == discover_authorities(
            *repo,
            notes(old(report).findings@),
        ),
        final(report).command == old(report).command,
        final(report).metadata == old(report).metadata,
{
    let mut auth: Vec<Vec<char>> = Vec::new();
    assert(views(auth@) =~= Seq::<Seq<char>>::empty());
    if !repo.contracts_is_dir {
        return auth;
    }
    let ghost steps = repo.contract_walk@;
    let ghost walked = discover_walk(steps, 0, seq![], notes(report.findings@));
    let mut configs: usize = 0;
    let mut i: usize = 0;
    while i < repo.contract_walk.len()
        invariant
            i <= repo.contract_walk.len(),
            steps == repo.contract_walk@,
            walked == discover_walk(steps, i as int, views(auth@), notes(report.findings@)),
            configs == config_count(steps, i as int),
            configs <= i,
            report.command == old(report).command,
            report.metadata == old(report).metadata,
        decreases repo.contract_walk.len() - i,
    {
        match &repo.contract_walk[i] {
            WalkStep::Failed { message: m, .. } => {
                report.push(
                    Finding::warning(
                        "peer-authority-write-discovery-failed",
                        message("part of the contracts tree could not be inspected: ", m.as_str()).as_str(),
                    ).with_target("contracts"),
                );
            },
            WalkStep::Entry(e) => {
                if !e.is_symlink && e.is_file {
                    let p = components_of(&e.path);
                    if is_config_file_exec(&p) {
                        configs = configs + 1;
                    }
                    if is_authored_typespec_exec(&p) || is_authored_schema_exec(&p) {
                        insert_authority_exec(normalize_path(&p), &mut auth, report);
                    }
                }
            },
        }
        i = i + 1;
    }
    let n = if configs < repo.configs.len() {
        configs
    } else {
        repo.configs.len()
    };
    let mut k: usize = 0;
    while k < n
        invariant
            k <= n,
            n == configs_read(*repo),
            discover_authorities(*repo, notes(old(report).findings@)) == configs_scan(
                *repo,
                n as int,
                k as int,
                views(auth@),
                notes(report.findings@),
            ),
            report.command == old(report).command,
            report.metadata == old(report).metadata,
        decreases n - k,
    {
        discover_config_authorities(&repo.configs[k], &repo.canonical_root, &mut auth, report);
        k = k + 1;
    }
    auth
}

/// Collects one automation walk's source files.
fn collect_walk_exec(
    steps: &Vec<WalkStep>,
    root: &str,
    files: &mut Vec<Vec<Vec<char>>>,
    report: &mut CommandReport,
    overflow: &mut bool,
)
    ensures
        (path_views(final(files)@), notes(final(report).findings@), *final(overflow))
            == collect_walk(
            steps@,
            0,
            root@,
            path_views(old(files)@),
            notes(old(report).findings@),
            *old(overflow),
        ),
        final(report).command == old(report).command,
        final(report).metadata == old(report).metadata,
{
    let ghost goal = collect_walk(
        steps@,
        0,
        root@,
        path_views(files@),
        notes(report.findings@),
        *overflow,
    );
    let mut i: usize = 0;
    while i < steps.len()
        invariant
            i <= steps.len(),
            goal == collect_walk(
                steps@,
                i as int,
                root@,
                path_views(files@),
                notes(report.findings@),
                *overflow,
            ),
            report.command == old(report).command,
            report.metadata == old(report).metadata,
        decreases steps.len() - i,
    {
        match &steps[i] {
            WalkStep::Failed { message: m, .. } => {
                report.push(
                    Finding::error(
                        "peer-authority-write-scan-failed",
                        message("automation tree could not be inspected: ", m.as_str()).as_str(),
                    ).with_target(root),
                );
            },
            WalkStep::Entry(e) => {
                if !e.is_symlink && e.is_file {
                    let p = components_of(&e.path);
                    if is_source_file_exec(&p) {
                        if files.len() >= MAX_FILES {
                            if !*overflow {
                                report.push(
                                    Finding::error(
                                        "peer-authority-write-file-limit",
                                        "more than 1024 automation source files were discovered",
                                    ).with_target(root),
                                );
                                *overflow = true;
                            }
                        } else {
                            let ghost before = path_views(files@);
                            files.push(p);
                            assert(path_views(files@) =~= before.push(entry_path(*e)));
                        }
                    }
                }
            },
        }
        i = i + 1;
    }
}

/// The automation source files of the repository, in path order without
/// duplicates, reporting walk errors and the file limit.
pub fn automation_sources_exec(repo: &AuthorityRepository, report: &mut CommandReport) -> (r: Vec<
    Vec<Vec<char>>,
>)
    ensures
        (path_views(r@), notes(final(report).findings@)) == automation_sources(
            *repo,
            notes(old(report).findings@),
        ),
        final(report).command == old(report).command,
        final(report).metadata == old(report).metadata,
{
    let mut files: Vec<Vec<Vec<char>>> = Vec::new();
    let mut overflow = false;
    assert(path_views(files@) =~= Seq::<Seq<Seq<char>>>::empty());
    let ghost walks = repo.scan_walks@;
    let ghost goal = collect_walks(walks, 0, seq![], notes(report.findings@), false);
    let empty: Vec<WalkStep> = Vec::new();
    let mut r: usize = 0;
    while r < 3
        invariant
            r <= 3,
            walks == repo.scan_walks@,
            empty@.len() == 0,
            goal == collect_walks(walks, r as int, path_views(files@), notes(report.findings@), overflow),
            report.command == old(report).command,
            report.metadata == old(report).metadata,
        decreases 3 - r,
    {
        let root = scan_root_name(r);
        let steps = if r < repo.scan_walks.len() {
            &repo.scan_walks[r]
        } else {
            &empty
        };
        assert(steps@ =~= walk_of(walks, r as int));
        collect_walk_exec(steps, root, &mut files, report, &mut overflow);
        r = r + 1;
    }
    sort_unique_exec(&files)
}

fn find_source_exec(sources: &Vec<SourceSnapshot>, p: &Vec<Vec<char>>) -> (r: Option<usize>)
    ensures
        match r {
            Some(k) => find_source(sources@, views(p@), 0) == Some(k as int) && k < sources.len(),
            None => find_source(sources@, views(p@), 0) is None,
        },
{
    let mut i: usize = 0;
    while i < sources.len()
        invariant
            i <= sources.len(),
            find_source(sources@, views(p@), 0) == find_source(sources@, views(p@), i as int),
        decreases sources.len() - i,
    {
        if same_path(&components_of(&sources[i].path), p) {
            return Some(i);
        }
        i = i + 1;
    }
    None
}

/// Audits one automation source: reports an unreadable, oversized or
/// non-UTF-8 file, and every line that writes an authority. Returns the
/// number of rejected lines.
pub fn audit_file(
    src: &SourceSnapshot,
    target: &Vec<char>,
    authorities: &Vec<Vec<char>>,
    report: &mut CommandReport,
) -> (r: u64)
    ensures
        (notes(final(report).findings@), r as nat) == audit_source(
            *src,
            target@,
            views(authorities@),
            notes(old(report).findings@),
        ),
        final(report).command == old(report).command,
        final(report).metadata == old(report).metadata,
{
    let t = string_of(target);
    let len = match &src.metadata {
        Err(m) => {
            report.push(
                Finding::error(
                    "peer-authority-write-file-unreadable",
                    message("automation source metadata could not be read: ", m.as_str()).as_str(),
                ).with_target(t.as_str()),
            );
            return 0;
        },
        Ok(len) => *len,
    };
    if len > MAX_FILE_BYTES {
        report.push(
            Finding::error(
                "peer-authority-write-file-too-large",
                "automation source exceeds the 2 MiB authority-write audit bound",
            ).with_target(t.as_str()),
        );
        return 0;
    }
    let text = match &src.text {
        Err(m) => {
            report.push(
                Finding::error(
                    "peer-authority-write-file-not-utf8",
                    message("automation source could not be read as UTF-8: ", m.as_str()).as_str(),
                ).with_target(t.as_str()),
            );
            return 0;
        },
        Ok(text) => text,
    };
    let ls = lines_of(&chars_of(text.as_str()));
    let ghost lv = views(ls@);
    let ghost goal = scan_lines(lv, 0, target@, views(authorities@), notes(report.findings@), 0);
    let mut rejected: u64 = 0;
    let mut i: usize = 0;
    while i < ls.len()
        invariant
            i <= ls.len(),
            lv == views(ls@),
            rejected <= i,
            goal == scan_lines(
                lv,
                i as int,
                target@,
                views(authorities@),
                notes(report.findings@),
                rejected as nat,
            ),
            report.command == old(report).command,
            report.metadata == old(report).metadata,
        decreases ls.len() - i,
    {
        let trimmed = trim_chars(&ls[i], Trim::Space);
        assert(trimmed@ == trim(lv[i as int], Trim::Space));
        let skipped = trimmed.len() == 0 || starts_with_lit(&trimmed, "#") || starts_with_lit(
            &trimmed,
            "//",
        );
        if !skipped && line_writes_authority_chars(&trimmed, authorities) {
            rejected = rejected + 1;
            let mut at = concat(target, &chars_of(":"));
            at = concat(&at, &decimal_chars((i + 1) as u64));
            report.push(
                Finding::error(DIRECT_WRITE, DIRECT_WRITE_MESSAGE).with_target(
                    string_of(&at).as_str(),
                ),
            );
        }
        i = i + 1;
    }
    rejected
}

/// Audits files `files[j..]` in order.
fn audit_files_exec(
    files: &Vec<Vec<Vec<char>>>,
    sources: &Vec<SourceSnapshot>,
    authorities: &Vec<Vec<char>>,
    report: &mut CommandReport,
) -> (r: u64)
    ensures
        (notes(final(report).findings@), r as nat) == audit_files(
            path_views(files@),
            0,
            sources@,
            views(authorities@),
            notes(old(report).findings@),
            0,
        ),
        final(report).command == old(report).command,
        final(report).metadata == old(report).metadata,
{
    let ghost fv = path_views(files@);
    let ghost goal = audit_files(fv, 0, sources@, views(authorities@), notes(report.findings@), 0);
    let mut total: u64 = 0;
    let mut j: usize = 0;
    while j < files.len()
        invariant
            j <= files.len(),
            fv == path_views(files@),
            goal == audit_files(
                fv,
                j as int,
                sources@,
                views(authorities@),
                notes(report.findings@),
                total as nat,
            ),
            report.command == old(report).command,
            report.metadata == old(report).metadata,
        decreases files.len() - j,
    {
        assert(fv[j as int] == views(files@[j as int]@));
        match find_source_exec(sources, &files[j]) {
            Some(k) => {
                let target = relative_display_of(&files[j]);
                let c = audit_file(&sources[k], &target, authorities, report);
                total = total.saturating_add(c);
            },
            None => {},
        }
        j = j + 1;
    }
    total
}


/// The metadata that an audit leaves: unchanged when there are no
/// authorities, else with the three counts set.
pub open spec fn audit_metadata(
    before: Map<Seq<char>, u64>,
    counts: Option<(nat, nat, nat)>,
) -> Map<Seq<char>, u64> {
    match counts {
        None => before,
        Some((a, f, v)) => before.insert(AUTHORITY_COUNT@, a as u64).insert(
            FILE_COUNT@,
            f as u64,
        ).insert(VIOLATION_COUNT@, v as u64),
    }
}

/// Whether a file of `len` bytes is within the bound that the audit reads.
pub fn within_read_bound(len: u64) -> (r: bool)
    ensures
        r == (len <= MAX_FILE_BYTES),
{
    len <= MAX_FILE_BYTES
}

/// Rejects repository automation that writes directly to an independently
/// authored TypeSpec or JSON Schema source.
///
/// The authorities are the authored sources of the `contracts` tree and the
/// paths that `contracts.config.json` files declare. When there are none the
/// report only gains the discovery notes. Otherwise every line of the
/// automation sources under `.github/workflows`, `scripts` and `tools` that
/// writes an authority is reported, and the report records the numbers of
/// authorities, files and rejected lines.
pub fn augment_authority_write_protection_audit(
    repo: &AuthorityRepository,
    report: CommandReport,
) -> (r: CommandReport)
    ensures
        notes(r.findings@) == audit_outcome(*repo, notes(report.findings@)).0,
        r.meta() == audit_metadata(report.meta(), audit_outcome(*repo, notes(report.findings@)).1),
        r.command == report.command,
{
    let mut report = report;
    let authorities = discover_authority_paths(repo, &mut report);
    if authorities.len() == 0 {
        return report.finalize();
    }
    let files = automation_sources_exec(repo, &mut report);
    let rejected = audit_files_exec(&files, &repo.sources, &authorities, &mut report);
    report.insert_metadata(AUTHORITY_COUNT, authorities.len() as u64);
    report.insert_metadata(FILE_COUNT, files.len() as u64);
    report.insert_metadata(VIOLATION_COUNT, rejected);
    report.finalize()
}

} // verus!
