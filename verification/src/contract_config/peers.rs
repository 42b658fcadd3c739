//! The contract-config peer audit over a snapshot of the repository.
//!
//! A `contracts.config.json` declares a TypeSpec source (`typespec`) and a
//! JSON Schema source (`jsonSchema`) in separate places of its contract home.
//! This is repository-shape lint only: it never transpiles TypeSpec, compares
//! semantics, or writes either authority.
use vstd::prelude::*;

use crate::authority_write::sources::{extension, extension_of};
use crate::contract_config::model::{
    issues, lemma_issues_bound, notes, targeted, CommandReport, Finding, Note, Severity,
};
use crate::json::{json_member, json_root_members, JsonMember};
use crate::paths::{components_of, relative_display, relative_display_of};
use crate::snapshot::{FileMeta, TreeEntry, WalkStep};
use crate::text::{
    chars_of, concat, replace_char, replace_chars, slice_of, decimal, decimal_chars, equals_lit, lines, lines_of, starts_with,
    starts_with_chars, starts_with_lit, string_of, string_views, trim, trim_chars, trim_start,
    trim_start_chars, views, Trim,
};

verus! {

broadcast use vstd::string::group_string_axioms;

/// The most config files the audit reads.
pub const MAX_CONFIG_FILES: usize = 128;

/// The largest file, in bytes, that the audit reads.
pub const MAX_FILE_BYTES: u64 = 2 * 1024 * 1024;

/// The deepest level below `contracts` that the walk reaches.
pub const MAX_WALK_DEPTH: usize = 16;

/// The JSON Schema dialect that an authored schema must declare.
pub const JSON_SCHEMA_DRAFT: &'static str = "https://json-schema.org/draft/2020-12/schema";

/// The metadata key of the number of config files read.
pub const CANDIDATE_COUNT: &'static str = "contractConfigCandidateCount";

/// The metadata key of the number of configs with no issue.
pub const VALID_PAIR_COUNT: &'static str = "contractConfigValidPeerPairCount";

// ---------------------------------------------------------------------------
// The snapshot
// ---------------------------------------------------------------------------

/// What `symlink_metadata` of the `contracts` directory gave.
#[derive(Debug, Clone)]
pub enum RootProbe {
    /// There is no `contracts` entry.
    NotFound,
    /// The metadata could not be read; the error's message.
    Unreadable(String),
    /// The metadata.
    Found(FileMeta),
}

/// What the audit knows of one file it reads.
#[derive(Debug)]
pub struct FileProbe {
    /// Its `symlink_metadata`, or the error's message.
    pub metadata: Result<FileMeta, String>,
    /// Its text, or the message of the error reading it as UTF-8. Only
    /// consulted for a regular file within the size bound.
    pub text: Result<String, String>,
}

/// What the audit knows of one declared peer path.
#[derive(Debug)]
pub struct PeerSnapshot {
    /// `symlink_metadata` of the contract home joined with the first `k + 1`
    /// components of the declared path, for each `k` (see `declared_parts`).
    pub components: Vec<Result<FileMeta, String>>,
    /// The declared file itself, at the contract home joined with the
    /// declared path as written.
    pub file: FileProbe,
}

/// What the audit knows of one `contracts.config.json` and its peers.
#[derive(Debug)]
pub struct ConfigFiles {
    pub config: FileProbe,
    pub typespec: PeerSnapshot,
    pub schema: PeerSnapshot,
}

/// A snapshot of the repository, as the audit reads it.
#[derive(Debug)]
pub struct ConfigRepository {
    /// `symlink_metadata` of `contracts`.
    pub root: RootProbe,
    /// The walk of `contracts`, not descending where `should_descend` says no.
    pub walk: Vec<WalkStep>,
    /// For each config file of the walk that the audit reads, in walk order.
    pub configs: Vec<ConfigFiles>,
}

// ---------------------------------------------------------------------------
// Paths
// ---------------------------------------------------------------------------

/// Directory names whose contents are generated, evidence, dependencies,
/// build output or temporary files.
pub open spec fn is_generated_name(n: Seq<char>) -> bool {
    ||| n == ".typespec-json-schema-validator"@
    ||| n == "artifacts"@
    ||| n == "build"@
    ||| n == "dist"@
    ||| n == "evidence"@
    ||| n == "generated"@
    ||| n == "node_modules"@
    ||| n == "out"@
    ||| n == "target"@
    ||| n == "tmp"@
}

/// The walk descends into everything at depth 0, and below that into every
/// entry that is neither `.git` nor a generated directory name.
pub open spec fn should_descend(name: Seq<char>, depth: nat) -> bool {
    depth == 0 || (!is_generated_name(name) && name != ".git"@)
}

/// Splitting at `/` from position `i`.
pub open spec fn seg_scan(s: Seq<char>, i: int, done: Seq<Seq<char>>, cur: Seq<char>) -> Seq<
    Seq<char>,
>
    decreases s.len() - i,
{
    if i < 0 || i >= s.len() {
        done.push(cur)
    } else if s[i] == '/' {
        seg_scan(s, i + 1, done.push(cur), seq![])
    } else {
        seg_scan(s, i + 1, done, cur.push(s[i]))
    }
}

/// The `/`-separated segments of a path as written.
pub open spec fn segments(s: Seq<char>) -> Seq<Seq<char>> {
    seg_scan(s, 0, seq![], seq![])
}

/// The named components among segments: the non-empty ones other than `.`.
pub open spec fn named(segs: Seq<Seq<char>>) -> Seq<Seq<char>>
    decreases segs.len(),
{
    if segs.len() == 0 {
        seq![]
    } else if segs.last().len() > 0 && segs.last() != "."@ {
        named(segs.drop_last()).push(segs.last())
    } else {
        named(segs.drop_last())
    }
}

/// The components of a declared path (`Path::components`, all normal).
pub open spec fn declared_parts(value: Seq<char>) -> Seq<Seq<char>> {
    named(segments(value))
}

/// A declared path that is absolute, starts with `.`, or climbs with `..`:
/// one whose components are not all normal.
pub open spec fn path_unsafe(value: Seq<char>) -> bool {
    ||| (value.len() > 0 && value[0] == '/')
    ||| value == "."@
    ||| starts_with(value, "./"@)
    ||| segments(value).contains(".."@)
}

pub open spec fn any_generated(parts: Seq<Seq<char>>) -> bool {
    exists|k: int| 0 <= k < parts.len() && is_generated_name(#[trigger] parts[k])
}

/// The extension of the last component.
pub open spec fn final_extension(parts: Seq<Seq<char>>) -> Option<Seq<char>> {
    if parts.len() > 0 {
        extension(parts.last())
    } else {
        None
    }
}

// ---------------------------------------------------------------------------
// Notes the audit reports
// ---------------------------------------------------------------------------

pub open spec fn error_note(code: Seq<char>, message: Seq<char>, target: Seq<char>) -> Note {
    targeted(Severity::Error, code, message, target)
}

/// Reading a file: the notes it adds and, when it succeeds, the text.
pub open spec fn read_probe(p: FileProbe, authority: Seq<char>, target: Seq<char>, ns: Seq<Note>) -> (
    Seq<Note>,
    Option<Seq<char>>,
) {
    match p.metadata {
        Err(m) => (
            ns.push(
                error_note(
                    "contract-config-file-unreadable"@,
                    authority + " source metadata could not be read: "@ + m@,
                    target,
                ),
            ),
            None,
        ),
        Ok(meta) => if meta.is_symlink {
            (
                ns.push(
                    error_note(
                        "contract-config-file-symlink"@,
                        authority + " source must not be a symbolic link"@,
                        target,
                    ),
                ),
                None,
            )
        } else if !meta.is_file {
            (
                ns.push(
                    error_note(
                        "contract-config-file-not-regular"@,
                        authority + " source must be a regular file"@,
                        target,
                    ),
                ),
                None,
            )
        } else if meta.len > MAX_FILE_BYTES {
            (
                ns.push(
                    error_note(
                        "contract-config-file-too-large"@,
                        authority + " source exceeds the 2097152-byte audit bound"@,
                        target,
                    ),
                ),
                None,
            )
        } else {
            match p.text {
                Err(m) => (
                    ns.push(
                        error_note(
                            "contract-config-file-not-utf8"@,
                            authority + " source could not be read as UTF-8: "@ + m@,
                            target,
                        ),
                    ),
                    None,
                ),
                Ok(t) => (ns, Some(t@)),
            }
        },
    }
}

/// Some line of `ls`, without leading whitespace, starts with `marker`.
pub open spec fn has_marker(ls: Seq<Seq<char>>, marker: Seq<char>) -> bool {
    exists|i: int| 0 <= i < ls.len() && starts_with(trim_start(#[trigger] ls[i], Trim::Space), marker)
}

pub open spec fn marker_if(ls: Seq<Seq<char>>, marker: Seq<char>) -> Seq<Seq<char>> {
    if has_marker(ls, marker) {
        seq![marker]
    } else {
        seq![]
    }
}

/// The conflict markers that open some line of a text, in order.
pub open spec fn conflict_markers(text: Seq<char>) -> Seq<Seq<char>> {
    let ls = lines(text);
    marker_if(ls, "<<<<<<<"@) + marker_if(ls, "======="@) + marker_if(ls, ">>>>>>>"@)
}

/// Items joined with `, `.
pub open spec fn join_comma(s: Seq<Seq<char>>) -> Seq<char>
    decreases s.len(),
{
    if s.len() == 0 {
        seq![]
    } else if s.len() == 1 {
        s[0]
    } else {
        join_comma(s.drop_last()) + ", "@ + s.last()
    }
}

/// Reports the conflict markers of an authored source, if any.
pub open spec fn conflict_note(text: Seq<char>, code: Seq<char>, target: Seq<char>, ns: Seq<Note>) -> Seq<
    Note,
> {
    let ms = conflict_markers(text);
    if ms.len() == 0 {
        ns
    } else {
        ns.push(
            error_note(
                code,
                "authored authority contains unresolved conflict marker"@ + (if ms.len() == 1 {
                    ""@
                } else {
                    "s"@
                }) + ": "@ + join_comma(ms),
                target,
            ),
        )
    }
}

/// Checking a config member that names a peer path: it must be a non-empty
/// string. Gives the notes and, when valid, the path.
pub open spec fn peer_field(
    m: Map<Seq<char>, Option<Seq<char>>>,
    field: Seq<char>,
    target: Seq<char>,
    ns: Seq<Note>,
) -> (Seq<Note>, Option<Seq<char>>) {
    if !m.dom().contains(field) {
        (
            ns.push(
                error_note(
                    "contract-config-peer-field-missing"@,
                    "contracts.config.json must declare the "@ + field + " peer-authority path"@,
                    target,
                ),
            ),
            None,
        )
    } else {
        match m[field] {
            None => (
                ns.push(
                    error_note(
                        "contract-config-peer-field-shape"@,
                        "contracts.config.json field "@ + field + " must be a non-empty string"@,
                        target,
                    ),
                ),
                None,
            ),
            Some(v) => if trim(v, Trim::Space).len() == 0 {
                (
                    ns.push(
                        error_note(
                            "contract-config-peer-field-empty"@,
                            "contracts.config.json field "@ + field + " must not be empty"@,
                            target,
                        ),
                    ),
                    None,
                )
            } else {
                (ns, Some(v))
            },
        }
    }
}

/// A declared path as it reads once joined to its home and made relative
/// again (`Path::join`, then `strip_prefix`): without trailing `/` and `/.`
/// segments, its inner spelling kept.
pub open spec fn trim_path_end(v: Seq<char>) -> Seq<char>
    decreases v.len(),
{
    if v.len() > 0 && v.last() == '/' {
        trim_path_end(v.drop_last())
    } else if v.len() > 1 && v.last() == '.' && v[v.len() - 2] == '/' {
        trim_path_end(v.take(v.len() - 2))
    } else {
        v
    }
}

/// Where a finding about a declared peer path is reported: the contract
/// home joined with the path as it was declared.
pub open spec fn written_target(home: Seq<Seq<char>>, value: Seq<char>) -> Seq<char> {
    if home.len() == 0 {
        replace_char(trim_path_end(value), '\\', '/')
    } else {
        relative_display(home) + "/"@ + replace_char(trim_path_end(value), '\\', '/')
    }
}

/// The metadata of the `k`-th component of a peer path is missing from the
/// snapshot or could not be read: the message.
pub open spec fn probe_error(peer: PeerSnapshot, k: int) -> Option<Seq<char>> {
    if k < 0 || k >= peer.components@.len() {
        Some(seq![])
    } else {
        match peer.components@[k] {
            Err(m) => Some(m@),
            Ok(_) => None,
        }
    }
}

/// The `k`-th component of a peer path is a symbolic link.
pub open spec fn probe_symlink(peer: PeerSnapshot, k: int) -> bool {
    0 <= k < peer.components@.len() && match peer.components@[k] {
        Ok(meta) => meta.is_symlink,
        Err(_) => false,
    }
}

/// Inspecting the components of a peer path from the `k`-th on: none may be
/// unreadable or a symbolic link. Gives the notes and whether all passed.
pub open spec fn component_scan(
    parts: Seq<Seq<char>>,
    peer: PeerSnapshot,
    k: int,
    authority: Seq<char>,
    home: Seq<Seq<char>>,
    written: Seq<char>,
    ns: Seq<Note>,
) -> (Seq<Note>, bool)
    decreases parts.len() - k,
{
    if k < 0 || k >= parts.len() {
        (ns, true)
    } else {
        match probe_error(peer, k) {
            Some(m) => (
                ns.push(
                    error_note(
                        "contract-config-authority-unreadable"@,
                        authority + " authority path could not be inspected: "@ + m,
                        written,
                    ),
                ),
                false,
            ),
            None => if probe_symlink(peer, k) {
                (
                    ns.push(
                        error_note(
                            "contract-config-authority-symlink"@,
                            authority + " authority path must not traverse a symbolic link"@,
                            relative_display(home + parts.take(k + 1)),
                        ),
                    ),
                    false,
                )
            } else {
                component_scan(parts, peer, k + 1, authority, home, written, ns)
            },
        }
    }
}

/// Resolving a declared peer path inside its contract home. Gives the notes
/// and, when the path is safe, outside generated directories, and traverses
/// no link, its components.
pub open spec fn resolve_authority_path(
    value: Seq<char>,
    peer: PeerSnapshot,
    authority: Seq<char>,
    config_target: Seq<char>,
    home: Seq<Seq<char>>,
    ns: Seq<Note>,
) -> (Seq<Note>, Option<Seq<Seq<char>>>) {
    let parts = declared_parts(value);
    if path_unsafe(value) {
        (
            ns.push(
                error_note(
                    "contract-config-authority-path-unsafe"@,
                    authority
                        + " authority path must be a normalized repository-relative path inside its contract home"@,
                    config_target,
                ),
            ),
            None,
        )
    } else if any_generated(parts) {
        (
            ns.push(
                error_note(
                    "contract-config-generated-authority"@,
                    authority
                        + " authority must not live below a generated, evidence, dependency, build, output, target, or temporary directory"@,
                    written_target(home, value),
                ),
            ),
            None,
        )
    } else {
        let (n2, ok) = component_scan(parts, peer, 0, authority, home, written_target(home, value), ns);
        if ok {
            (n2, Some(parts))
        } else {
            (n2, None)
        }
    }
}

/// Checking the TypeSpec peer: readable, not blank, no conflict markers.
pub open spec fn audit_typespec(p: FileProbe, target: Seq<char>, ns: Seq<Note>) -> Seq<Note> {
    let (n1, text) = read_probe(p, "TypeSpec"@, target, ns);
    match text {
        None => n1,
        Some(t) => if trim(t, Trim::Space).len() == 0 {
            n1.push(
                error_note(
                    "contract-config-typespec-empty"@,
                    "config-declared TypeSpec authority must not be empty"@,
                    target,
                ),
            )
        } else {
            conflict_note(t, "contract-config-typespec-conflict-marker"@, target, n1)
        },
    }
}

/// Checking the JSON Schema peer: readable, no conflict markers, a JSON
/// object that declares the Draft 2020-12 dialect.
pub open spec fn audit_json_schema(p: FileProbe, target: Seq<char>, ns: Seq<Note>) -> Seq<Note> {
    let (n1, text) = read_probe(p, "JSON Schema"@, target, ns);
    match text {
        None => n1,
        Some(t) => {
            let n2 = conflict_note(t, "contract-config-json-schema-conflict-marker"@, target, n1);
            match json_root_members(t) {
                Err(e) => n2.push(
                    error_note(
                        "contract-config-json-schema-invalid"@,
                        "config-declared JSON Schema is not valid JSON: "@ + e,
                        target,
                    ),
                ),
                Ok(None) => n2.push(
                    error_note(
                        "contract-config-json-schema-root-shape"@,
                        "config-declared JSON Schema root must be an object"@,
                        target,
                    ),
                ),
                Ok(Some(m)) => if m.dom().contains("$schema"@) && m["$schema"@] == Some(
                    JSON_SCHEMA_DRAFT@,
                ) {
                    n2
                } else {
                    n2.push(
                        error_note(
                            "contract-config-json-schema-draft"@,
                            "config-declared JSON Schema must declare "@ + JSON_SCHEMA_DRAFT@,
                            target,
                        ),
                    )
                },
            }
        },
    }
}

/// Auditing one config file at `path` (relative to the repository root).
pub open spec fn audit_config(path: Seq<Seq<char>>, files: ConfigFiles, ns: Seq<Note>) -> Seq<Note> {
    let target = relative_display(path);
    let home = path.drop_last();
    let (n1, text) = read_probe(files.config, "contract config"@, target, ns);
    match text {
        None => n1,
        Some(t) => match json_root_members(t) {
            Err(e) => n1.push(
                error_note(
                    "contract-config-invalid-json"@,
                    "contracts.config.json is not valid JSON: "@ + e,
                    target,
                ),
            ),
            Ok(None) => n1.push(
                error_note(
                    "contract-config-root-shape"@,
                    "contracts.config.json root must be an object"@,
                    target,
                ),
            ),
            Ok(Some(m)) => {
                let (n2, ts) = peer_field(m, "typespec"@, target, n1);
                let (n3, sc) = peer_field(m, "jsonSchema"@, target, n2);
                if ts is None || sc is None {
                    n3
                } else {
                    let (n4, tp) = resolve_authority_path(
                        ts->0,
                        files.typespec,
                        "TypeSpec"@,
                        target,
                        home,
                        n3,
                    );
                    let (n5, sp) = resolve_authority_path(
                        sc->0,
                        files.schema,
                        "JSON Schema"@,
                        target,
                        home,
                        n4,
                    );
                    if tp is None || sp is None {
                        n5
                    } else if tp == sp {
                        n5.push(
                            error_note(
                                "contract-config-peer-path-alias"@,
                                "TypeSpec and JSON Schema must be distinct independently editable source files"@,
                                target,
                            ),
                        )
                    } else {
                        let t_target = written_target(home, ts->0);
                        let s_target = written_target(home, sc->0);
                        let n6 = if final_extension(tp->0) != Some("tsp"@) {
                            n5.push(
                                error_note(
                                    "contract-config-typespec-extension"@,
                                    "config-declared TypeSpec authority must be a .tsp source file"@,
                                    t_target,
                                ),
                            )
                        } else {
                            n5
                        };
                        let n7 = if final_extension(sp->0) != Some("json"@) {
                            n6.push(
                                error_note(
                                    "contract-config-json-schema-extension"@,
                                    "config-declared JSON Schema authority must be a .json source file"@,
                                    s_target,
                                ),
                            )
                        } else {
                            n6
                        };
                        let n8 = audit_typespec(files.typespec.file, t_target, n7);
                        audit_json_schema(files.schema.file, s_target, n8)
                    }
                }
            },
        },
    }
}

/// A walk entry named `contracts.config.json`.
pub open spec fn is_config_step(s: WalkStep) -> bool {
    match s {
        WalkStep::Entry(e) => string_views(e.path@).len() > 0 && string_views(e.path@).last()
            == "contracts.config.json"@,
        WalkStep::Failed { .. } => false,
    }
}

/// Where a walk error is reported.
pub open spec fn failure_target(path: Option<Vec<String>>) -> Seq<char> {
    match path {
        Some(p) => relative_display(string_views(p@)),
        None => "contracts"@,
    }
}

/// Collecting config files along the walk from step `i`: at most
/// `MAX_CONFIG_FILES`, reporting once when there are more, and warning of
/// each walk error.
pub open spec fn collect_configs(
    steps: Seq<WalkStep>,
    i: int,
    configs: Seq<Seq<Seq<char>>>,
    ns: Seq<Note>,
    overflow: bool,
) -> (Seq<Seq<Seq<char>>>, Seq<Note>)
    decreases steps.len() - i,
{
    if i < 0 || i >= steps.len() {
        (configs, ns)
    } else {
        match steps[i] {
            WalkStep::Failed { message, path } => collect_configs(
                steps,
                i + 1,
                configs,
                ns.push(
                    targeted(
                        Severity::Warning,
                        "contract-config-walk-failed"@,
                        "could not inspect part of the contracts tree: "@ + message@,
                        failure_target(path),
                    ),
                ),
                overflow,
            ),
            WalkStep::Entry(e) => if !is_config_step(steps[i]) {
                collect_configs(steps, i + 1, configs, ns, overflow)
            } else if configs.len() >= MAX_CONFIG_FILES {
                if overflow {
                    collect_configs(steps, i + 1, configs, ns, overflow)
                } else {
                    collect_configs(
                        steps,
                        i + 1,
                        configs,
                        ns.push(
                            error_note(
                                "contract-config-file-limit"@,
                                "more than 128 contracts.config.json files were discovered; split or narrow the contract tree"@,
                                "contracts"@,
                            ),
                        ),
                        true,
                    )
                }
            } else {
                collect_configs(steps, i + 1, configs.push(string_views(e.path@)), ns, overflow)
            },
        }
    }
}

/// Auditing configs `k..`, counting those that add no issue.
pub open spec fn audit_configs(
    paths: Seq<Seq<Seq<char>>>,
    files: Seq<ConfigFiles>,
    k: int,
    ns: Seq<Note>,
    valid: nat,
) -> (Seq<Note>, nat)
    decreases paths.len() - k,
{
    if k < 0 || k >= paths.len() || k >= files.len() {
        (ns, valid)
    } else {
        let n2 = audit_config(paths[k], files[k], ns);
        audit_configs(
            paths,
            files,
            k + 1,
            n2,
            if issues(n2) == issues(ns) {
                valid + 1
            } else {
                valid
            },
        )
    }
}

/// The closing note of an audit that found `valid` clean peer pairs.
pub open spec fn inspected_note(valid: nat) -> Note {
    targeted(
        Severity::Info,
        "contract-config-peer-authorities-inspected"@,
        "inspected "@ + decimal(valid) + " config-declared TypeSpec/JSON Schema peer-authority pair"@
            + (if valid == 1 {
            ""@
        } else {
            "s"@
        }) + "; semantic parity remains TJSV-owned"@,
        "contracts"@,
    )
}

/// The outcome of the audit: the notes added to `ns` and, when the contracts
/// directory was walked, the numbers of config files and of clean pairs.
pub open spec fn config_outcome(repo: ConfigRepository, ns: Seq<Note>) -> (Seq<Note>, Option<(nat, nat)>) {
    match repo.root {
        RootProbe::NotFound => (ns, None),
        RootProbe::Unreadable(m) => (
            ns.push(
                error_note(
                    "contract-config-root-unreadable"@,
                    "contracts root metadata could not be read: "@ + m@,
                    "contracts"@,
                ),
            ),
            None,
        ),
        RootProbe::Found(meta) => if meta.is_symlink || !meta.is_dir {
            (ns, None)
        } else {
            let (paths, n1) = collect_configs(repo.walk@, 0, seq![], ns, false);
            let (n2, valid) = audit_configs(paths, repo.configs@, 0, n1, 0);
            let n3 = if valid > 0 {
                n2.push(inspected_note(valid))
            } else {
                n2
            };
            (n3, Some((paths.len(), valid)))
        },
    }
}


// ---------------------------------------------------------------------------
// Executable audit
// ---------------------------------------------------------------------------

fn cat(a: &str, b: &str) -> (r: String)
    ensures
        r@ == a@ + b@,
{
    string_of(&concat(&chars_of(a), &chars_of(b)))
}

fn cat3(a: &str, b: &str, c: &str) -> (r: String)
    ensures
        r@ == a@ + b@ + c@,
{
    string_of(&concat(&concat(&chars_of(a), &chars_of(b)), &chars_of(c)))
}

/// Whether `n` is a generated directory name.
pub fn is_generated_name_exec(n: &Vec<char>) -> (r: bool)
    ensures
        r == is_generated_name(n@),
{
    equals_lit(n, ".typespec-json-schema-validator") || equals_lit(n, "artifacts") || equals_lit(
        n,
        "build",
    ) || equals_lit(n, "dist") || equals_lit(n, "evidence") || equals_lit(n, "generated")
        || equals_lit(n, "node_modules") || equals_lit(n, "out") || equals_lit(n, "target")
        || equals_lit(n, "tmp")
}

/// Whether the walk descends into an entry named `name` at `depth`.
pub fn should_descend_exec(name: &str, depth: usize) -> (r: bool)
    ensures
        r == should_descend(name@, depth as nat),
{
    if depth == 0 {
        return true;
    }
    let n = chars_of(name);
    !is_generated_name_exec(&n) && !equals_lit(&n, ".git")
}

fn segments_of(s: &Vec<char>) -> (r: Vec<Vec<char>>)
    ensures
        views(r@) == segments(s@),
{
    let mut done: Vec<Vec<char>> = Vec::new();
    let mut cur: Vec<char> = Vec::new();
    let mut i: usize = 0;
    assert(views(done@) =~= Seq::<Seq<char>>::empty());
    assert(cur@ =~= Seq::<char>::empty());
    while i < s.len()
        invariant
            i <= s.len(),
            segments(s@) == seg_scan(s@, i as int, views(done@), cur@),
        decreases s.len() - i,
    {
        if s[i] == '/' {
            let ghost before = views(done@);
            let ghost c = cur@;
            done.push(cur);
            assert(views(done@) =~= before.push(c));
            cur = Vec::new();
            assert(cur@ =~= Seq::<char>::empty());
        } else {
            cur.push(s[i]);
        }
        i = i + 1;
    }
    let ghost before = views(done@);
    let ghost c = cur@;
    done.push(cur);
    assert(views(done@) =~= before.push(c));
    done
}

fn named_of(segs: &Vec<Vec<char>>) -> (r: Vec<Vec<char>>)
    ensures
        views(r@) == named(views(segs@)),
{
    let ghost sv = views(segs@);
    let mut out: Vec<Vec<char>> = Vec::new();
    let mut i: usize = 0;
    assert(sv.take(0) =~= Seq::<Seq<char>>::empty());
    assert(views(out@) =~= Seq::<Seq<char>>::empty());
    while i < segs.len()
        invariant
            i <= segs.len(),
            sv == views(segs@),
            views(out@) == named(sv.take(i as int)),
        decreases segs.len() - i,
    {
        assert(sv.take(i + 1).drop_last() =~= sv.take(i as int));
        assert(sv.take(i + 1).last() == segs@[i as int]@);
        if segs[i].len() > 0 && !equals_lit(&segs[i], ".") {
            let ghost before = views(out@);
            let c = concat(&Vec::new(), &segs[i]);
            assert(c@ =~= segs@[i as int]@);
            out.push(c);
            assert(views(out@) =~= before.push(segs@[i as int]@));
        }
        i = i + 1;
    }
    assert(sv.take(segs.len() as int) =~= sv);
    out
}

fn path_unsafe_exec(value: &Vec<char>, segs: &Vec<Vec<char>>) -> (r: bool)
    requires
        views(segs@) == segments(value@),
    ensures
        r == path_unsafe(value@),
{
    if value.len() > 0 && value[0] == '/' {
        return true;
    }
    if equals_lit(value, ".") || starts_with_lit(value, "./") {
        return true;
    }
    let mut i: usize = 0;
    while i < segs.len()
        invariant
            i <= segs.len(),
            views(segs@) == segments(value@),
            forall|k: int| 0 <= k < i ==> views(segs@)[k] != ".."@,
        decreases segs.len() - i,
    {
        if equals_lit(&segs[i], "..") {
            assert(views(segs@)[i as int] == ".."@);
            return true;
        }
        i = i + 1;
    }
    false
}

fn any_generated_exec(parts: &Vec<Vec<char>>) -> (r: bool)
    ensures
        r == any_generated(views(parts@)),
{
    let mut i: usize = 0;
    while i < parts.len()
        invariant
            i <= parts.len(),
            forall|k: int| 0 <= k < i ==> !is_generated_name(#[trigger] views(parts@)[k]),
        decreases parts.len() - i,
    {
        if is_generated_name_exec(&parts[i]) {
            assert(is_generated_name(views(parts@)[i as int]));
            return true;
        }
        i = i + 1;
    }
    false
}

fn copy_chars(v: &Vec<char>) -> (r: Vec<char>)
    ensures
        r@ == v@,
{
    let r = concat(&Vec::new(), v);
    assert(r@ =~= v@);
    r
}

/// The path `a` followed by the components `b[..n]`.
fn extend_path(a: &Vec<Vec<char>>, b: &Vec<Vec<char>>, n: usize) -> (r: Vec<Vec<char>>)
    requires
        n <= b.len(),
    ensures
        views(r@) == views(a@) + views(b@).take(n as int),
{
    let mut out: Vec<Vec<char>> = Vec::new();
    let mut i: usize = 0;
    while i < a.len()
        invariant
            i <= a.len(),
            views(out@) == views(a@).take(i as int),
        decreases a.len() - i,
    {
        let ghost before = views(out@);
        out.push(copy_chars(&a[i]));
        assert(views(out@) =~= before.push(a@[i as int]@));
        assert(views(a@).take(i + 1) =~= views(a@).take(i as int).push(a@[i as int]@));
        i = i + 1;
    }
    assert(views(a@).take(a.len() as int) =~= views(a@));
    let mut j: usize = 0;
    while j < n
        invariant
            j <= n <= b.len(),
            views(out@) == views(a@) + views(b@).take(j as int),
        decreases n - j,
    {
        let ghost before = views(out@);
        out.push(copy_chars(&b[j]));
        assert(views(out@) =~= before.push(b@[j as int]@));
        assert(views(b@).take(j + 1) =~= views(b@).take(j as int).push(b@[j as int]@));
        assert(views(out@) =~= views(a@) + views(b@).take(j + 1));
        j = j + 1;
    }
    out
}

fn trim_path_end_exec(v: &Vec<char>) -> (r: Vec<char>)
    ensures
        r@ == trim_path_end(v@),
{
    let mut n: usize = v.len();
    assert(v@.take(n as int) =~= v@);
    while n > 0 && (v[n - 1] == '/' || (n > 1 && v[n - 1] == '.' && v[n - 2] == '/'))
        invariant
            n <= v.len(),
            trim_path_end(v@) == trim_path_end(v@.take(n as int)),
        decreases n,
    {
        if v[n - 1] == '/' {
            assert(v@.take(n as int).drop_last() =~= v@.take(n - 1));
            n = n - 1;
        } else {
            assert(v@.take(n as int).take(n - 2) =~= v@.take(n - 2));
            n = n - 2;
        }
    }
    slice_of(v, 0, n)
}

/// Where a finding about a declared peer path is reported (see
/// `written_target`).
pub fn written_target_exec(home: &Vec<Vec<char>>, value: &Vec<char>) -> (r: Vec<char>)
    ensures
        r@ == written_target(views(home@), value@),
{
    let tail = replace_chars(&trim_path_end_exec(value), '\\', '/');
    if home.len() == 0 {
        tail
    } else {
        concat(&concat(&relative_display_of(home), &chars_of("/")), &tail)
    }
}

/// The display of the path `home` followed by `parts[..n]`.
fn display_under(home: &Vec<Vec<char>>, parts: &Vec<Vec<char>>, n: usize) -> (r: String)
    requires
        n <= parts.len(),
    ensures
        r@ == relative_display(views(home@) + views(parts@).take(n as int)),
{
    string_of(&relative_display_of(&extend_path(home, parts, n)))
}

/// Reads a file that must be a regular file within the size bound, reporting
/// why it cannot be read.
pub fn read_regular_bounded_file(
    probe: &FileProbe,
    authority: &str,
    target: &Vec<char>,
    report: &mut CommandReport,
) -> (r: Option<Vec<char>>)
    ensures
        (notes(final(report).findings@), match r {
            Some(t) => Some(t@),
            None => None,
        }) == read_probe(*probe, authority@, target@, notes(old(report).findings@)),
        final(report).metadata == old(report).metadata,
{
    let t = string_of(target);
    let meta = match &probe.metadata {
        Err(m) => {
            report.push(
                Finding::error(
                    "contract-config-file-unreadable",
                    cat3(authority, " source metadata could not be read: ", m.as_str()).as_str(),
                ).with_target(t.as_str()),
            );
            return None;
        },
        Ok(meta) => meta,
    };
    if meta.is_symlink {
        report.push(
            Finding::error(
                "contract-config-file-symlink",
                cat(authority, " source must not be a symbolic link").as_str(),
            ).with_target(t.as_str()),
        );
        return None;
    }
    if !meta.is_file {
        report.push(
            Finding::error(
                "contract-config-file-not-regular",
                cat(authority, " source must be a regular file").as_str(),
            ).with_target(t.as_str()),
        );
        return None;
    }
    if meta.len > MAX_FILE_BYTES {
        report.push(
            Finding::error(
                "contract-config-file-too-large",
                cat(authority, " source exceeds the 2097152-byte audit bound").as_str(),
            ).with_target(t.as_str()),
        );
        return None;
    }
    match &probe.text {
        Err(m) => {
            report.push(
                Finding::error(
                    "contract-config-file-not-utf8",
                    cat3(authority, " source could not be read as UTF-8: ", m.as_str()).as_str(),
                ).with_target(t.as_str()),
            );
            None
        },
        Ok(text) => Some(chars_of(text.as_str())),
    }
}

fn has_marker_exec(ls: &Vec<Vec<char>>, marker: &str) -> (r: bool)
    ensures
        r == has_marker(views(ls@), marker@),
{
    let m = chars_of(marker);
    let mut i: usize = 0;
    while i < ls.len()
        invariant
            i <= ls.len(),
            m@ == marker@,
            forall|k: int|
                0 <= k < i ==> !starts_with(trim_start(#[trigger] views(ls@)[k], Trim::Space), marker@),
        decreases ls.len() - i,
    {
        if starts_with_chars(&trim_start_chars(&ls[i], Trim::Space), &m) {
            assert(starts_with(trim_start(views(ls@)[i as int], Trim::Space), marker@));
            return true;
        }
        i = i + 1;
    }
    false
}

fn join_comma_exec(s: &Vec<Vec<char>>) -> (r: Vec<char>)
    ensures
        r@ == join_comma(views(s@)),
{
    let ghost v = views(s@);
    let mut out: Vec<char> = Vec::new();
    let mut i: usize = 0;
    assert(v.take(0) =~= Seq::<Seq<char>>::empty());
    while i < s.len()
        invariant
            i <= s.len(),
            v == views(s@),
            out@ == join_comma(v.take(i as int)),
        decreases s.len() - i,
    {
        assert(v.take(i + 1).drop_last() =~= v.take(i as int));
        assert(v.take(i + 1).last() == s@[i as int]@);
        if i == 0 {
            out = copy_chars(&s[i]);
        } else {
            out = concat(&out, &chars_of(", "));
            out = concat(&out, &s[i]);
        }
        i = i + 1;
    }
    assert(v.take(s.len() as int) =~= v);
    out
}

/// Reports the unresolved conflict markers of an authored source.
pub fn audit_conflict_markers(
    text: &Vec<char>,
    code: &str,
    target: &Vec<char>,
    report: &mut CommandReport,
)
    ensures
        notes(final(report).findings@) == conflict_note(
            text@,
            code@,
            target@,
            notes(old(report).findings@),
        ),
        final(report).metadata == old(report).metadata,
{
    let ls = lines_of(text);
    let mut found: Vec<Vec<char>> = Vec::new();
    assert(views(found@) =~= Seq::<Seq<char>>::empty());
    if has_marker_exec(&ls, "<<<<<<<") {
        found.push(chars_of("<<<<<<<"));
    }
    let ghost one = views(found@);
    if has_marker_exec(&ls, "=======") {
        found.push(chars_of("======="));
    }
    let ghost two = views(found@);
    if has_marker_exec(&ls, ">>>>>>>") {
        found.push(chars_of(">>>>>>>"));
    }
    assert(views(found@) =~= conflict_markers(text@));
    if found.len() == 0 {
        return ;
    }
    let plural = if found.len() == 1 {
        ""
    } else {
        "s"
    };
    let mut m = concat(&chars_of("authored authority contains unresolved conflict marker"), &chars_of(plural));
    m = concat(&m, &chars_of(": "));
    m = concat(&m, &join_comma_exec(&found));
    report.push(Finding::error(code, string_of(&m).as_str()).with_target(string_of(target).as_str()));
}

/// Checking one member of a config's root object that names a peer path:
/// it must be present and a non-empty string. Gives the notes and, when
/// valid, the path.
pub open spec fn peer_member_check(member: JsonMember, field: Seq<char>, target: Seq<char>, ns: Seq<
    Note,
>) -> (Seq<Note>, Option<Seq<char>>) {
    match member {
        JsonMember::Missing => (
            ns.push(
                error_note(
                    "contract-config-peer-field-missing"@,
                    "contracts.config.json must declare the "@ + field + " peer-authority path"@,
                    target,
                ),
            ),
            None,
        ),
        JsonMember::NotText => (
            ns.push(
                error_note(
                    "contract-config-peer-field-shape"@,
                    "contracts.config.json field "@ + field + " must be a non-empty string"@,
                    target,
                ),
            ),
            None,
        ),
        JsonMember::Text(v) => if trim(v@, Trim::Space).len() == 0 {
            (
                ns.push(
                    error_note(
                        "contract-config-peer-field-empty"@,
                        "contracts.config.json field "@ + field + " must not be empty"@,
                        target,
                    ),
                ),
                None,
            )
        } else {
            (ns, Some(v@))
        },
        _ => (ns, None),
    }
}

/// Checks the member `field` of a config's root object (as `json_member`
/// read it) that names a peer path; gives the path when it is a non-empty
/// string, and reports a missing, non-string or blank member.
pub fn check_peer_member(
    member: JsonMember,
    field: &str,
    target: &Vec<char>,
    report: &mut CommandReport,
) -> (r: Option<Vec<char>>)
    ensures
        (notes(final(report).findings@), match r {
            Some(v) => Some(v@),
            None => None,
        }) == peer_member_check(member, field@, target@, notes(old(report).findings@)),
        final(report).metadata == old(report).metadata,
{
    let t = string_of(target);
    match member {
        JsonMember::Missing => {
            report.push(
                Finding::error(
                    "contract-config-peer-field-missing",
                    cat3(
                        "contracts.config.json must declare the ",
                        field,
                        " peer-authority path",
                    ).as_str(),
                ).with_target(t.as_str()),
            );
            None
        },
        JsonMember::NotText => {
            report.push(
                Finding::error(
                    "contract-config-peer-field-shape",
                    cat3("contracts.config.json field ", field, " must be a non-empty string").as_str(),
                ).with_target(t.as_str()),
            );
            None
        },
        JsonMember::Text(value) => {
            let v = chars_of(value.as_str());
            if trim_chars(&v, Trim::Space).len() == 0 {
                report.push(
                    Finding::error(
                        "contract-config-peer-field-empty",
                        cat3("contracts.config.json field ", field, " must not be empty").as_str(),
                    ).with_target(t.as_str()),
                );
                None
            } else {
                Some(v)
            }
        },
        _ => None,
    }
}

/// Checks a config member that names a peer path; gives the path when it is
/// a non-empty string.
pub fn config_string(text: &str, field: &str, target: &Vec<char>, report: &mut CommandReport) -> (r:
    Option<Vec<char>>)
    requires
        json_root_members(text@) matches Ok(Some(_)),
    ensures
        (notes(final(report).findings@), match r {
            Some(v) => Some(v@),
            None => None,
        }) == peer_field_of_text(text@, field@, target@, notes(old(report).findings@)),
        final(report).metadata == old(report).metadata,
{
    let member = json_member(text, field);
    proof {
        let m = json_root_members(text@)->Ok_0->Some_0;
        assert(peer_member_check(member, field@, target@, notes(report.findings@)) == peer_field(
            m,
            field@,
            target@,
            notes(report.findings@),
        ));
    }
    check_peer_member(member, field, target, report)
}

/// `config_string` over the text of a config whose root is an object.
pub open spec fn peer_field_of_text(text: Seq<char>, field: Seq<char>, target: Seq<char>, ns: Seq<
    Note,
>) -> (Seq<Note>, Option<Seq<char>>) {
    peer_field(json_root_members(text)->Ok_0->Some_0, field, target, ns)
}


/// Resolves a declared peer path inside its contract home (see
/// `resolve_authority_path`); gives its components when it passes.
pub fn resolve_authority_path_exec(
    value: &Vec<char>,
    peer: &PeerSnapshot,
    authority: &str,
    config_target: &Vec<char>,
    home: &Vec<Vec<char>>,
    report: &mut CommandReport,
) -> (r: Option<Vec<Vec<char>>>)
    ensures
        (notes(final(report).findings@), match r {
            Some(p) => Some(views(p@)),
            None => None,
        }) == resolve_authority_path(
            value@,
            *peer,
            authority@,
            config_target@,
            views(home@),
            notes(old(report).findings@),
        ),
        final(report).metadata == old(report).metadata,
{
    let segs = segments_of(value);
    let parts = named_of(&segs);
    if path_unsafe_exec(value, &segs) {
        report.push(
            Finding::error(
                "contract-config-authority-path-unsafe",
                cat(
                    authority,
                    " authority path must be a normalized repository-relative path inside its contract home",
                ).as_str(),
            ).with_target(string_of(config_target).as_str()),
        );
        return None;
    }
    if any_generated_exec(&parts) {
        assert(views(parts@).take(parts.len() as int) =~= views(parts@));
        report.push(
            Finding::error(
                "contract-config-generated-authority",
                cat(
                    authority,
                    " authority must not live below a generated, evidence, dependency, build, output, target, or temporary directory",
                ).as_str(),
            ).with_target(string_of(&written_target_exec(home, value)).as_str()),
        );
        return None;
    }
    let written = string_of(&written_target_exec(home, value));
    let ghost pv = views(parts@);
    let ghost goal = component_scan(pv, *peer, 0, authority@, views(home@), written@, notes(report.findings@));
    let mut k: usize = 0;
    while k < parts.len()
        invariant
            k <= parts.len(),
            pv == views(parts@),
            pv == declared_parts(value@),
            !path_unsafe(value@),
            !any_generated(pv),
            written@ == written_target(views(home@), value@),
            goal == component_scan(pv, *peer, 0, authority@, views(home@), written@, notes(old(report).findings@)),
            goal == component_scan(pv, *peer, k as int, authority@, views(home@), written@, notes(report.findings@)),
            report.metadata == old(report).metadata,
        decreases parts.len() - k,
    {
        let failed: Option<String> = if k < peer.components.len() {
            match &peer.components[k] {
                Err(m) => Some(m.clone()),
                Ok(_) => None,
            }
        } else {
            Some(String::new())
        };
        match failed {
            Some(m) => {
                assert(pv.take(parts.len() as int) =~= pv);
                report.push(
                    Finding::error(
                        "contract-config-authority-unreadable",
                        cat3(authority, " authority path could not be inspected: ", m.as_str()).as_str(),
                    ).with_target(written.as_str()),
                );
                return None;
            },
            None => {},
        }
        let is_link = match &peer.components[k] {
            Ok(meta) => meta.is_symlink,
            Err(_) => false,
        };
        if is_link {
            report.push(
                Finding::error(
                    "contract-config-authority-symlink",
                    cat(authority, " authority path must not traverse a symbolic link").as_str(),
                ).with_target(display_under(home, &parts, k + 1).as_str()),
            );
            return None;
        }
        k = k + 1;
    }
    Some(parts)
}

fn final_extension_is(parts: &Vec<Vec<char>>, ext: &str) -> (r: bool)
    ensures
        r == (final_extension(views(parts@)) == Some(ext@)),
{
    if parts.len() == 0 {
        return false;
    }
    assert(views(parts@).last() == parts@[parts.len() - 1]@);
    match extension_of(&parts[parts.len() - 1]) {
        Some(e) => equals_lit(&e, ext),
        None => false,
    }
}

/// Checks the TypeSpec peer: readable, not blank, no conflict markers.
pub fn audit_typespec_exec(probe: &FileProbe, target: &Vec<char>, report: &mut CommandReport)
    ensures
        notes(final(report).findings@) == audit_typespec(
            *probe,
            target@,
            notes(old(report).findings@),
        ),
        final(report).metadata == old(report).metadata,
{
    let text = match read_regular_bounded_file(probe, "TypeSpec", target, report) {
        Some(t) => t,
        None => return ,
    };
    if trim_chars(&text, Trim::Space).len() == 0 {
        report.push(
            Finding::error(
                "contract-config-typespec-empty",
                "config-declared TypeSpec authority must not be empty",
            ).with_target(string_of(target).as_str()),
        );
        return ;
    }
    audit_conflict_markers(&text, "contract-config-typespec-conflict-marker", target, report);
}

/// Checks the JSON Schema peer: readable, no conflict markers, a JSON object
/// that declares the Draft 2020-12 dialect.
pub fn audit_json_schema_exec(probe: &FileProbe, target: &Vec<char>, report: &mut CommandReport)
    ensures
        notes(final(report).findings@) == audit_json_schema(
            *probe,
            target@,
            notes(old(report).findings@),
        ),
        final(report).metadata == old(report).metadata,
{
    let text = match read_regular_bounded_file(probe, "JSON Schema", target, report) {
        Some(t) => t,
        None => return ,
    };
    audit_conflict_markers(&text, "contract-config-json-schema-conflict-marker", target, report);
    let doc = string_of(&text);
    let member = json_member(doc.as_str(), "$schema");
    check_schema_member(member, target, report);
}

/// Checking the `$schema` member of an authored JSON Schema (as `json_member`
/// read it): the text must be JSON, its root an object, and the member the
/// Draft 2020-12 dialect.
pub open spec fn schema_member_check(member: JsonMember, target: Seq<char>, ns: Seq<Note>) -> Seq<
    Note,
> {
    match member {
        JsonMember::Invalid(e) => ns.push(
            error_note(
                "contract-config-json-schema-invalid"@,
                "config-declared JSON Schema is not valid JSON: "@ + e@,
                target,
            ),
        ),
        JsonMember::NotObject => ns.push(
            error_note(
                "contract-config-json-schema-root-shape"@,
                "config-declared JSON Schema root must be an object"@,
                target,
            ),
        ),
        JsonMember::Text(v) => if v@ == JSON_SCHEMA_DRAFT@ {
            ns
        } else {
            ns.push(draft_note(target))
        },
        _ => ns.push(draft_note(target)),
    }
}

pub open spec fn draft_note(target: Seq<char>) -> Note {
    error_note(
        "contract-config-json-schema-draft"@,
        "config-declared JSON Schema must declare "@ + JSON_SCHEMA_DRAFT@,
        target,
    )
}

/// Reports an authored JSON Schema whose `$schema` member (as `json_member`
/// read it) shows that the text is not JSON, that its root is not an object,
/// or that it does not declare the Draft 2020-12 dialect.
pub fn check_schema_member(member: JsonMember, target: &Vec<char>, report: &mut CommandReport)
    ensures
        notes(final(report).findings@) == schema_member_check(
            member,
            target@,
            notes(old(report).findings@),
        ),
        final(report).metadata == old(report).metadata,
{
    let t = string_of(target);
    match member {
        JsonMember::Invalid(e) => {
            report.push(
                Finding::error(
                    "contract-config-json-schema-invalid",
                    cat("config-declared JSON Schema is not valid JSON: ", e.as_str()).as_str(),
                ).with_target(t.as_str()),
            );
        },
        JsonMember::NotObject => {
            report.push(
                Finding::error(
                    "contract-config-json-schema-root-shape",
                    "config-declared JSON Schema root must be an object",
                ).with_target(t.as_str()),
            );
        },
        JsonMember::Text(v) => {
            if !equals_lit(&chars_of(v.as_str()), JSON_SCHEMA_DRAFT) {
                report.push(
                    Finding::error(
                        "contract-config-json-schema-draft",
                        cat("config-declared JSON Schema must declare ", JSON_SCHEMA_DRAFT).as_str(),
                    ).with_target(t.as_str()),
                );
            }
        },
        _ => {
            report.push(
                Finding::error(
                    "contract-config-json-schema-draft",
                    cat("config-declared JSON Schema must declare ", JSON_SCHEMA_DRAFT).as_str(),
                ).with_target(t.as_str()),
            );
        },
    }
}

fn parent_of(p: &Vec<Vec<char>>) -> (r: Vec<Vec<char>>)
    requires
        p.len() > 0,
    ensures
        views(r@) == views(p@).drop_last(),
{
    let r = extend_path(&Vec::new(), p, p.len() - 1);
    assert(views(r@) =~= views(p@).drop_last());
    r
}

/// Checking that a config's text is JSON with an object root, from what
/// `json_member` read of one of its members. Gives the notes and whether
/// the config can be read further.
pub open spec fn config_root_check(member: JsonMember, target: Seq<char>, ns: Seq<Note>) -> (
    Seq<Note>,
    bool,
) {
    match member {
        JsonMember::Invalid(e) => (
            ns.push(
                error_note(
                    "contract-config-invalid-json"@,
                    "contracts.config.json is not valid JSON: "@ + e@,
                    target,
                ),
            ),
            false,
        ),
        JsonMember::NotObject => (
            ns.push(
                error_note(
                    "contract-config-root-shape"@,
                    "contracts.config.json root must be an object"@,
                    target,
                ),
            ),
            false,
        ),
        _ => (ns, true),
    }
}

/// Reports a config whose text is not JSON or whose root is not an object,
/// from what `json_member` read of one of its members; says whether the
/// config can be read further.
pub fn check_config_root(member: JsonMember, target: &Vec<char>, report: &mut CommandReport) -> (ok:
    bool)
    ensures
        (notes(final(report).findings@), ok) == config_root_check(
            member,
            target@,
            notes(old(report).findings@),
        ),
        final(report).metadata == old(report).metadata,
{
    let t = string_of(target);
    match member {
        JsonMember::Invalid(e) => {
            report.push(
                Finding::error(
                    "contract-config-invalid-json",
                    cat("contracts.config.json is not valid JSON: ", e.as_str()).as_str(),
                ).with_target(t.as_str()),
            );
            false
        },
        JsonMember::NotObject => {
            report.push(
                Finding::error(
                    "contract-config-root-shape",
                    "contracts.config.json root must be an object",
                ).with_target(t.as_str()),
            );
            false
        },
        _ => true,
    }
}

/// Audits one config file at `path`.
pub fn audit_config_exec(path: &Vec<Vec<char>>, files: &ConfigFiles, report: &mut CommandReport)
    requires
        path.len() > 0,
    ensures
        notes(final(report).findings@) == audit_config(
            views(path@),
            *files,
            notes(old(report).findings@),
        ),
        final(report).metadata == old(report).metadata,
{
    let target = relative_display_of(path);
    let home = parent_of(path);
    let text = match read_regular_bounded_file(&files.config, "contract config", &target, report) {
        Some(t) => string_of(&t),
        None => return ,
    };
    if !check_config_root(json_member(text.as_str(), "typespec"), &target, report) {
        return ;
    }
    let t = string_of(&target);
    let typespec = config_string(text.as_str(), "typespec", &target, report);
    let schema = config_string(text.as_str(), "jsonSchema", &target, report);
    let (typespec, schema) = match (typespec, schema) {
        (Some(a), Some(b)) => (a, b),
        _ => return ,
    };
    let typespec_path = resolve_authority_path_exec(
        &typespec,
        &files.typespec,
        "TypeSpec",
        &target,
        &home,
        report,
    );
    let schema_path = resolve_authority_path_exec(
        &schema,
        &files.schema,
        "JSON Schema",
        &target,
        &home,
        report,
    );
    let (typespec_path, schema_path) = match (typespec_path, schema_path) {
        (Some(a), Some(b)) => (a, b),
        _ => return ,
    };
    if crate::paths::same_path(&typespec_path, &schema_path) {
        report.push(
            Finding::error(
                "contract-config-peer-path-alias",
                "TypeSpec and JSON Schema must be distinct independently editable source files",
            ).with_target(t.as_str()),
        );
        return ;
    }
    assert(views(typespec_path@).take(typespec_path.len() as int) =~= views(typespec_path@));
    assert(views(schema_path@).take(schema_path.len() as int) =~= views(schema_path@));
    let t_target = written_target_exec(&home, &typespec);
    let s_target = written_target_exec(&home, &schema);
    if !final_extension_is(&typespec_path, "tsp") {
        report.push(
            Finding::error(
                "contract-config-typespec-extension",
                "config-declared TypeSpec authority must be a .tsp source file",
            ).with_target(string_of(&t_target).as_str()),
        );
    }
    if !final_extension_is(&schema_path, "json") {
        report.push(
            Finding::error(
                "contract-config-json-schema-extension",
                "config-declared JSON Schema authority must be a .json source file",
            ).with_target(string_of(&s_target).as_str()),
        );
    }
    audit_typespec_exec(&files.typespec.file, &t_target, report);
    audit_json_schema_exec(&files.schema.file, &s_target, report);
}


/// The metadata that an audit leaves: unchanged when the contracts
/// directory was not walked, else with the two counts set.
pub open spec fn config_metadata(before: Map<Seq<char>, u64>, counts: Option<(nat, nat)>) -> Map<
    Seq<char>,
    u64,
> {
    match counts {
        None => before,
        Some((c, v)) => before.insert(CANDIDATE_COUNT@, c as u64).insert(
            VALID_PAIR_COUNT@,
            v as u64,
        ),
    }
}

/// Whether a file of `len` bytes is within the bound that the audit reads.
pub fn within_read_bound(len: u64) -> (r: bool)
    ensures
        r == (len <= MAX_FILE_BYTES),
{
    len <= MAX_FILE_BYTES
}

/// Whether the audit inspects a declared peer path on disk: it is a safe
/// relative path outside generated directories (otherwise it is refused
/// before any probe, and a snapshot need not probe it).
pub fn peer_path_probed(value: &str) -> (r: bool)
    ensures
        r == (!path_unsafe(value@) && !any_generated(declared_parts(value@))),
{
    let v = chars_of(value);
    let segs = segments_of(&v);
    if path_unsafe_exec(&v, &segs) {
        return false;
    }
    !any_generated_exec(&named_of(&segs))
}

/// The declared path's components (what a snapshot probes, in order).
pub fn declared_components(value: &str) -> (r: Vec<String>)
    ensures
        string_views(r@) == declared_parts(value@),
{
    let parts = named_of(&segments_of(&chars_of(value)));
    let mut out: Vec<String> = Vec::new();
    let mut i: usize = 0;
    while i < parts.len()
        invariant
            i <= parts.len(),
            string_views(out@) == views(parts@).take(i as int),
        decreases parts.len() - i,
    {
        let ghost before = string_views(out@);
        let t = string_of(&parts[i]);
        out.push(t);
        assert(string_views(out@) =~= before.push(parts@[i as int]@));
        assert(views(parts@).take(i + 1) =~= views(parts@).take(i as int).push(parts@[i as int]@));
        i = i + 1;
    }
    assert(views(parts@).take(parts.len() as int) =~= views(parts@));
    out
}

/// The peer paths that a config's text declares, where they are non-empty
/// strings (what a snapshot resolves): `typespec`, then `jsonSchema`.
pub fn config_peer_values(text: &str) -> (r: (Option<String>, Option<String>))
    ensures
        match json_root_members(text@) {
            Ok(Some(m)) => {
                &&& r.0 matches Some(v) ==> peer_field(m, "typespec"@, seq![], seq![]).1 == Some(v@)
                &&& r.0 is None ==> peer_field(m, "typespec"@, seq![], seq![]).1 is None
                &&& r.1 matches Some(v) ==> peer_field(m, "jsonSchema"@, seq![], seq![]).1 == Some(v@)
                &&& r.1 is None ==> peer_field(m, "jsonSchema"@, seq![], seq![]).1 is None
            },
            _ => r.0 is None && r.1 is None,
        },
{
    (peer_value(text, "typespec"), peer_value(text, "jsonSchema"))
}

fn peer_value(text: &str, field: &str) -> (r: Option<String>)
    ensures
        match json_root_members(text@) {
            Ok(Some(m)) => match r {
                Some(v) => peer_field(m, field@, seq![], seq![]).1 == Some(v@),
                None => peer_field(m, field@, seq![], seq![]).1 is None,
            },
            _ => r is None,
        },
{
    match json_member(text, field) {
        JsonMember::Text(v) => {
            if trim_chars(&chars_of(v.as_str()), Trim::Space).len() == 0 {
                None
            } else {
                Some(v)
            }
        },
        _ => None,
    }
}

/// Inspects the `contracts.config.json` files of the repository: each must
/// declare a TypeSpec and a JSON Schema peer as distinct, safe, readable
/// sources inside its contract home. Reports each problem, records how many
/// configs were read and how many had no issue, and notes the clean pairs.
pub fn augment_contract_config_peer_audit(repo: &ConfigRepository, report: CommandReport) -> (r:
    CommandReport)
    ensures
        notes(r.findings@) == config_outcome(*repo, notes(report.findings@)).0,
        r.meta() == config_metadata(report.meta(), config_outcome(*repo, notes(report.findings@)).1),
{
    let mut report = report;
    match &repo.root {
        RootProbe::NotFound => {
            return report.finalize();
        },
        RootProbe::Unreadable(m) => {
            report.push(
                Finding::error(
                    "contract-config-root-unreadable",
                    cat("contracts root metadata could not be read: ", m.as_str()).as_str(),
                ).with_target("contracts"),
            );
            return report.finalize();
        },
        RootProbe::Found(meta) => {
            if meta.is_symlink || !meta.is_dir {
                return report.finalize();
            }
        },
    }
    // collect config files
    let ghost meta0 = report.meta();
    let ghost steps = repo.walk@;
    let ghost collected = collect_configs(steps, 0, seq![], notes(report.findings@), false);
    let mut configs: Vec<Vec<Vec<char>>> = Vec::new();
    let mut overflow = false;
    assert(crate::paths::path_views(configs@) =~= Seq::<Seq<Seq<char>>>::empty());
    let mut i: usize = 0;
    while i < repo.walk.len()
        invariant
            i <= repo.walk.len(),
            steps == repo.walk@,
            collected == collect_configs(
                steps,
                i as int,
                crate::paths::path_views(configs@),
                notes(report.findings@),
                overflow,
            ),
            forall|k: int| 0 <= k < configs.len() ==> (#[trigger] configs@[k]).len() > 0,
            configs.len() <= MAX_CONFIG_FILES,
            report.meta() == meta0,
        decreases repo.walk.len() - i,
    {
        match &repo.walk[i] {
            WalkStep::Failed { message: m, path } => {
                let target = match path {
                    Some(p) => string_of(&relative_display_of(&components_of(p))),
                    None => "contracts".to_owned(),
                };
                report.push(
                    Finding::warning(
                        "contract-config-walk-failed",
                        cat("could not inspect part of the contracts tree: ", m.as_str()).as_str(),
                    ).with_target(target.as_str()),
                );
            },
            WalkStep::Entry(e) => {
                let p = components_of(&e.path);
                let is_config = p.len() > 0 && equals_lit(&p[p.len() - 1], "contracts.config.json");
                assert(is_config == is_config_step(repo.walk@[i as int]));
                if is_config {
                    if configs.len() >= MAX_CONFIG_FILES {
                        if !overflow {
                            report.push(
                                Finding::error(
                                    "contract-config-file-limit",
                                    "more than 128 contracts.config.json files were discovered; split or narrow the contract tree",
                                ).with_target("contracts"),
                            );
                            overflow = true;
                        }
                    } else {
                        let ghost before = crate::paths::path_views(configs@);
                        configs.push(p);
                        assert(crate::paths::path_views(configs@) =~= before.push(
                            string_views(e.path@),
                        ));
                    }
                }
            },
        }
        i = i + 1;
    }
    let count = configs.len();
    report.insert_metadata(CANDIDATE_COUNT, count as u64);
    // audit each config
    let ghost paths = crate::paths::path_views(configs@);
    let ghost audited = audit_configs(paths, repo.configs@, 0, notes(report.findings@), 0);
    let mut valid: usize = 0;
    let mut k: usize = 0;
    while k < configs.len() && k < repo.configs.len()
        invariant
            k <= configs.len(),
            paths == crate::paths::path_views(configs@),
            forall|j: int| 0 <= j < configs.len() ==> (#[trigger] configs@[j]).len() > 0,
            valid <= k,
            audited == audit_configs(paths, repo.configs@, k as int, notes(report.findings@), valid as nat),
            report.meta() == meta0.insert(CANDIDATE_COUNT@, count as u64),
        decreases configs.len() - k,
    {
        let before = report.issue_count();
        assert(paths[k as int] == views(configs@[k as int]@));
        audit_config_exec(&configs[k], &repo.configs[k], &mut report);
        if report.issue_count() == before {
            valid = valid + 1;
        }
        k = k + 1;
    }
    report.insert_metadata(VALID_PAIR_COUNT, valid as u64);
    if valid > 0 {
        let plural = if valid == 1 {
            ""
        } else {
            "s"
        };
        let mut m = concat(&chars_of("inspected "), &decimal_chars(valid as u64));
        m = concat(&m, &chars_of(" config-declared TypeSpec/JSON Schema peer-authority pair"));
        m = concat(&m, &chars_of(plural));
        m = concat(&m, &chars_of("; semantic parity remains TJSV-owned"));
        report.push(
            Finding::info("contract-config-peer-authorities-inspected", string_of(&m).as_str())
                .with_target("contracts"),
        );
    }
    report.finalize()
}

} // verus!
