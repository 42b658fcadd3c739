//! Properties of the contract-config audit that hold of every input.
use vstd::prelude::*;

use crate::contract_config::model::{issues, Note, Severity};
use crate::contract_config::peers::{
    audit_config, audit_configs, audit_json_schema, audit_typespec, collect_configs,
    component_scan, config_outcome, declared_parts, error_note, final_extension, inspected_note,
    peer_field, probe_error, written_target, path_unsafe, any_generated, probe_symlink, read_probe, resolve_authority_path, ConfigFiles,
    ConfigRepository, PeerSnapshot, MAX_CONFIG_FILES,
};
use crate::json::json_root_members;
use crate::contract_config::peers::{conflict_note, is_config_step, FileProbe, RootProbe};
use crate::text::{is_ws, lead, lines, starts_with, string_views, trail, trim, trim_start, trims, Trim};
use crate::contract_config::peers::{
    conflict_markers, has_marker, marker_if, schema_member_check, MAX_FILE_BYTES,
};
use crate::json::JsonMember;
use crate::paths::relative_display;
use crate::snapshot::WalkStep;

verus! {

/// `r` starts with `ns`.
pub open spec fn extends(r: Seq<Note>, ns: Seq<Note>) -> bool {
    ns.len() <= r.len() && forall|i: int| 0 <= i < ns.len() ==> #[trigger] r[i] == ns[i]
}

proof fn lemma_extends_refl(ns: Seq<Note>)
    ensures
        extends(ns, ns),
{
}

proof fn lemma_extends_trans(a: Seq<Note>, b: Seq<Note>, c: Seq<Note>)
    requires
        extends(b, a),
        extends(c, b),
    ensures
        extends(c, a),
{
    assert forall|i: int| 0 <= i < a.len() implies #[trigger] c[i] == a[i] by {
        assert(c[i] == b[i]);
    }
}

proof fn lemma_component_scan_extends(
    parts: Seq<Seq<char>>,
    peer: PeerSnapshot,
    k: int,
    authority: Seq<char>,
    home: Seq<Seq<char>>,
    written: Seq<char>,
    ns: Seq<Note>,
)
    ensures
        extends(component_scan(parts, peer, k, authority, home, written, ns).0, ns),
    decreases parts.len() - k,
{
    if !(k < 0 || k >= parts.len()) {
        if probe_error(peer, k) is None && !probe_symlink(peer, k) {
            lemma_component_scan_extends(parts, peer, k + 1, authority, home, written, ns);
        }
    }
}

/// Auditing one config only adds findings after the earlier ones.
proof fn lemma_audit_config_extends(path: Seq<Seq<char>>, files: ConfigFiles, ns: Seq<Note>)
    ensures
        extends(audit_config(path, files, ns), ns),
{
    let target = relative_display(path);
    let home = path.drop_last();
    let (n1, text) = read_probe(files.config, "contract config"@, target, ns);
    assert(extends(n1, ns));
    if let Some(t) = text {
        if let Ok(Some(m)) = json_root_members(t) {
            let (n2, ts) = peer_field(m, "typespec"@, target, n1);
            let (n3, sc) = peer_field(m, "jsonSchema"@, target, n2);
            lemma_extends_trans(ns, n1, n2);
            lemma_extends_trans(ns, n2, n3);
            if ts is Some && sc is Some {
                let (n4, tp) = resolve_authority_path(ts->0, files.typespec, "TypeSpec"@, target, home, n3);
                lemma_component_scan_extends(declared_parts(ts->0), files.typespec, 0, "TypeSpec"@, home, written_target(home, ts->0), n3);
                let (n5, sp) = resolve_authority_path(sc->0, files.schema, "JSON Schema"@, target, home, n4);
                lemma_component_scan_extends(declared_parts(sc->0), files.schema, 0, "JSON Schema"@, home, written_target(home, sc->0), n4);
                lemma_extends_trans(ns, n3, n4);
                lemma_extends_trans(ns, n4, n5);
                if tp is Some && sp is Some && tp != sp {
                    let t_target = written_target(home, ts->0);
                    let s_target = written_target(home, sc->0);
                    let n6 = if final_extension(tp->0) != Some("tsp"@) {
                        n5.push(error_note("contract-config-typespec-extension"@, "config-declared TypeSpec authority must be a .tsp source file"@, t_target))
                    } else {
                        n5
                    };
                    let n7 = if final_extension(sp->0) != Some("json"@) {
                        n6.push(error_note("contract-config-json-schema-extension"@, "config-declared JSON Schema authority must be a .json source file"@, s_target))
                    } else {
                        n6
                    };
                    lemma_extends_trans(ns, n5, n6);
                    lemma_extends_trans(ns, n6, n7);
                    let n8 = audit_typespec(files.typespec.file, t_target, n7);
                    let (m7, _) = read_probe(files.typespec.file, "TypeSpec"@, t_target, n7);
                    lemma_extends_trans(ns, n7, m7);
                    lemma_extends_trans(ns, m7, n8);
                    let (m8, _) = read_probe(files.schema.file, "JSON Schema"@, s_target, n8);
                    lemma_extends_trans(ns, n8, m8);
                    lemma_extends_trans(ns, m8, audit_json_schema(files.schema.file, s_target, n8));
                }
            }
        }
    }
}

proof fn lemma_audit_configs_extends(
    paths: Seq<Seq<Seq<char>>>,
    files: Seq<ConfigFiles>,
    k: int,
    ns: Seq<Note>,
    valid: nat,
)
    ensures
        extends(audit_configs(paths, files, k, ns, valid).0, ns),
    decreases paths.len() - k,
{
    if !(k < 0 || k >= paths.len() || k >= files.len()) {
        let n2 = audit_config(paths[k], files[k], ns);
        lemma_audit_config_extends(paths[k], files[k], ns);
        let v2 = if issues(n2) == issues(ns) { valid + 1 } else { valid };
        lemma_audit_configs_extends(paths, files, k + 1, n2, v2);
        lemma_extends_trans(ns, n2, audit_configs(paths, files, k + 1, n2, v2).0);
    }
}

/// Adding a finding adds one issue exactly when it is a warning or an error.
pub proof fn lemma_issues_push(ns: Seq<Note>, x: Note)
    ensures
        issues(ns.push(x)) == issues(ns) + if x.severity is Info {
            0nat
        } else {
            1nat
        },
        extends(ns.push(x), ns),
{
    assert(ns.push(x).drop_last() =~= ns);
    assert(ns.push(x).take(ns.len() as int) =~= ns);
}

proof fn lemma_collect_configs(
    steps: Seq<WalkStep>,
    i: int,
    configs: Seq<Seq<Seq<char>>>,
    ns: Seq<Note>,
    overflow: bool,
)
    requires
        configs.len() <= MAX_CONFIG_FILES,
    ensures
        collect_configs(steps, i, configs, ns, overflow).0.len() <= MAX_CONFIG_FILES,
        extends(collect_configs(steps, i, configs, ns, overflow).1, ns),
    decreases steps.len() - i,
{
    if i < 0 || i >= steps.len() {
        lemma_extends_refl(ns);
    } else {
        let r = collect_configs(steps, i, configs, ns, overflow);
        match steps[i] {
            WalkStep::Failed { message, path } => {
                let x = crate::contract_config::model::targeted(
                    Severity::Warning,
                    "contract-config-walk-failed"@,
                    "could not inspect part of the contracts tree: "@ + message@,
                    crate::contract_config::peers::failure_target(path),
                );
                lemma_issues_push(ns, x);
                lemma_collect_configs(steps, i + 1, configs, ns.push(x), overflow);
                lemma_extends_trans(ns, ns.push(x), r.1);
            },
            WalkStep::Entry(e) => if !crate::contract_config::peers::is_config_step(steps[i]) {
                lemma_collect_configs(steps, i + 1, configs, ns, overflow);
            } else if configs.len() >= MAX_CONFIG_FILES {
                if overflow {
                    lemma_collect_configs(steps, i + 1, configs, ns, overflow);
                } else {
                    let x = crate::contract_config::peers::error_note(
                        "contract-config-file-limit"@,
                        "more than 128 contracts.config.json files were discovered; split or narrow the contract tree"@,
                        "contracts"@,
                    );
                    lemma_issues_push(ns, x);
                    lemma_collect_configs(steps, i + 1, configs, ns.push(x), true);
                    lemma_extends_trans(ns, ns.push(x), r.1);
                }
            } else {
                lemma_collect_configs(
                    steps,
                    i + 1,
                    configs.push(crate::text::string_views(e.path@)),
                    ns,
                    overflow,
                );
            },
        }
    }
}

proof fn lemma_audit_configs(
    paths: Seq<Seq<Seq<char>>>,
    files: Seq<ConfigFiles>,
    k: int,
    ns: Seq<Note>,
    valid: nat,
)
    requires
        0 <= k,
        valid <= k,
    ensures
        audit_configs(paths, files, k, ns, valid).1 <= if k <= paths.len() {
            paths.len() as nat
        } else {
            valid
        },
    decreases paths.len() - k,
{
    if !(k < 0 || k >= paths.len() || k >= files.len()) {
        let n2 = crate::contract_config::peers::audit_config(paths[k], files[k], ns);
        lemma_audit_configs(
            paths,
            files,
            k + 1,
            n2,
            if issues(n2) == issues(ns) {
                valid + 1
            } else {
                valid
            },
        );
    }
}

/// The audit keeps the report's earlier findings and only adds findings
/// after them. It reads at most `MAX_CONFIG_FILES` config files, and no more
/// configs are clean than were read. When some config is clean, a summary
/// that is not an issue closes the report. When the contracts tree is not
/// walked, the audit adds at most one finding.
pub proof fn lemma_config_counts(repo: ConfigRepository, ns: Seq<Note>)
    ensures
        extends(config_outcome(repo, ns).0, ns),
        config_outcome(repo, ns).1 matches Some((candidates, valid)) ==> {
            &&& valid <= candidates <= MAX_CONFIG_FILES
            &&& valid > 0 ==> config_outcome(repo, ns).0.last() == inspected_note(valid)
            &&& valid > 0 ==> issues(config_outcome(repo, ns).0) == issues(
                config_outcome(repo, ns).0.drop_last(),
            )
        },
        config_outcome(repo, ns).1 is None ==> config_outcome(repo, ns).0.len() <= ns.len() + 1,
{
    match repo.root {
        crate::contract_config::peers::RootProbe::Found(meta) => {
            if !(meta.is_symlink || !meta.is_dir) {
                let (paths, n1) = collect_configs(repo.walk@, 0, seq![], ns, false);
                lemma_collect_configs(repo.walk@, 0, seq![], ns, false);
                lemma_audit_configs(paths, repo.configs@, 0, n1, 0);
                lemma_audit_configs_extends(paths, repo.configs@, 0, n1, 0);
                let (n2, valid) = audit_configs(paths, repo.configs@, 0, n1, 0);
                lemma_extends_trans(ns, n1, n2);
                if valid > 0 {
                    lemma_issues_push(n2, inspected_note(valid));
                    assert(n2.push(inspected_note(valid)).drop_last() =~= n2);
                    lemma_extends_trans(ns, n2, n2.push(inspected_note(valid)));
                }
            }
        },
        _ => {},
    }
}

proof fn lemma_component_scan_outcome(
    parts: Seq<Seq<char>>,
    peer: PeerSnapshot,
    k: int,
    authority: Seq<char>,
    home: Seq<Seq<char>>,
    written: Seq<char>,
    ns: Seq<Note>,
)
    requires
        0 <= k,
    ensures
        ({
            let (n, ok) = component_scan(parts, peer, k, authority, home, written, ns);
            &&& ok ==> n == ns
            &&& ok ==> forall|j: int|
                k <= j < parts.len() ==> #[trigger] probe_error(peer, j) is None && !probe_symlink(
                    peer,
                    j,
                )
            &&& !ok ==> n.len() == ns.len() + 1 && n.drop_last() == ns && n.last().severity
                == Severity::Error
        }),
    decreases parts.len() - k,
{
    if k < parts.len() {
        if probe_error(peer, k) is None && !probe_symlink(peer, k) {
            lemma_component_scan_outcome(parts, peer, k + 1, authority, home, written, ns);
        } else {
            let n = component_scan(parts, peer, k, authority, home, written, ns).0;
            assert(n.drop_last() =~= ns);
        }
    }
}

/// Resolving a declared peer path either resolves it and adds no finding,
/// or adds exactly one error finding and resolves nothing. A resolved path
/// is the declared path's components: a safe relative path, outside
/// generated directories, whose every prefix could be inspected and is not
/// a symbolic link.
pub proof fn lemma_resolution_reports_or_resolves(
    value: Seq<char>,
    peer: PeerSnapshot,
    authority: Seq<char>,
    config_target: Seq<char>,
    home: Seq<Seq<char>>,
    ns: Seq<Note>,
)
    ensures
        ({
            let (n, r) = resolve_authority_path(value, peer, authority, config_target, home, ns);
            &&& r is Some <==> n == ns
            &&& r is None ==> n.len() == ns.len() + 1 && n.drop_last() == ns && n.last().severity
                == Severity::Error
            &&& r matches Some(p) ==> {
                &&& p == declared_parts(value)
                &&& !path_unsafe(value)
                &&& !any_generated(p)
                &&& forall|j: int|
                    0 <= j < p.len() ==> #[trigger] probe_error(peer, j) is None && !probe_symlink(
                        peer,
                        j,
                    )
            }
        }),
{
    let parts = declared_parts(value);
    let (n, r) = resolve_authority_path(value, peer, authority, config_target, home, ns);
    if path_unsafe(value) || any_generated(parts) {
        assert(n.drop_last() =~= ns);
    } else {
        lemma_component_scan_outcome(parts, peer, 0, authority, home, written_target(home, value), ns);
    }
    if r is None {
        assert(n.len() == ns.len() + 1);
        assert(n != ns);
    }
}

// ---------------------------------------------------------------------------
// What one config adds does not depend on the findings before it
// ---------------------------------------------------------------------------

proof fn lemma_issues_append(a: Seq<Note>, b: Seq<Note>)
    ensures
        issues(a + b) == issues(a) + issues(b),
    decreases b.len(),
{
    if b.len() == 0 {
        assert(a + b =~= a);
    } else {
        lemma_issues_append(a, b.drop_last());
        assert((a + b).drop_last() =~= a + b.drop_last());
    }
}

proof fn lemma_read_probe_append(p: FileProbe, authority: Seq<char>, target: Seq<char>, ns: Seq<Note>)
    ensures
        read_probe(p, authority, target, ns).0 == ns + read_probe(p, authority, target, seq![]).0,
        read_probe(p, authority, target, ns).1 == read_probe(p, authority, target, seq![]).1,
{
    assert(read_probe(p, authority, target, ns).0 =~= ns + read_probe(p, authority, target, seq![]).0);
}

proof fn lemma_conflict_note_append(text: Seq<char>, code: Seq<char>, target: Seq<char>, ns: Seq<Note>)
    ensures
        conflict_note(text, code, target, ns) == ns + conflict_note(text, code, target, seq![]),
{
    assert(conflict_note(text, code, target, ns) =~= ns + conflict_note(text, code, target, seq![]));
}

proof fn lemma_peer_field_append(
    m: Map<Seq<char>, Option<Seq<char>>>,
    field: Seq<char>,
    target: Seq<char>,
    ns: Seq<Note>,
)
    ensures
        peer_field(m, field, target, ns).0 == ns + peer_field(m, field, target, seq![]).0,
        peer_field(m, field, target, ns).1 == peer_field(m, field, target, seq![]).1,
{
    assert(peer_field(m, field, target, ns).0 =~= ns + peer_field(m, field, target, seq![]).0);
}

proof fn lemma_component_scan_append(
    parts: Seq<Seq<char>>,
    peer: PeerSnapshot,
    k: int,
    authority: Seq<char>,
    home: Seq<Seq<char>>,
    written: Seq<char>,
    ns: Seq<Note>,
)
    ensures
        component_scan(parts, peer, k, authority, home, written, ns).0 == ns + component_scan(
            parts,
            peer,
            k,
            authority,
            home,
            written,
            seq![],
        ).0,
        component_scan(parts, peer, k, authority, home, written, ns).1 == component_scan(
            parts,
            peer,
            k,
            authority,
            home,
            written,
            seq![],
        ).1,
    decreases parts.len() - k,
{
    if k < 0 || k >= parts.len() {
        assert(ns + Seq::<Note>::empty() =~= ns);
    } else if probe_error(peer, k) is None && !probe_symlink(peer, k) {
        lemma_component_scan_append(parts, peer, k + 1, authority, home, written, ns);
    } else {
        assert(component_scan(parts, peer, k, authority, home, written, ns).0 =~= ns
            + component_scan(parts, peer, k, authority, home, written, seq![]).0);
    }
}

proof fn lemma_resolve_append(
    value: Seq<char>,
    peer: PeerSnapshot,
    authority: Seq<char>,
    config_target: Seq<char>,
    home: Seq<Seq<char>>,
    ns: Seq<Note>,
)
    ensures
        resolve_authority_path(value, peer, authority, config_target, home, ns).0 == ns
            + resolve_authority_path(value, peer, authority, config_target, home, seq![]).0,
        resolve_authority_path(value, peer, authority, config_target, home, ns).1
            == resolve_authority_path(value, peer, authority, config_target, home, seq![]).1,
{
    lemma_component_scan_append(
        declared_parts(value),
        peer,
        0,
        authority,
        home,
        written_target(home, value),
        ns,
    );
    assert(resolve_authority_path(value, peer, authority, config_target, home, ns).0 =~= ns
        + resolve_authority_path(value, peer, authority, config_target, home, seq![]).0);
}

proof fn lemma_audit_typespec_append(p: FileProbe, target: Seq<char>, ns: Seq<Note>)
    ensures
        audit_typespec(p, target, ns) == ns + audit_typespec(p, target, seq![]),
{
    lemma_read_probe_append(p, "TypeSpec"@, target, ns);
    let (n1, text) = read_probe(p, "TypeSpec"@, target, ns);
    let (e1, _) = read_probe(p, "TypeSpec"@, target, seq![]);
    if let Some(t) = text {
        lemma_conflict_note_append(t, "contract-config-typespec-conflict-marker"@, target, n1);
        lemma_conflict_note_append(t, "contract-config-typespec-conflict-marker"@, target, e1);
    }
    assert(audit_typespec(p, target, ns) =~= ns + audit_typespec(p, target, seq![]));
}

proof fn lemma_audit_json_schema_append(p: FileProbe, target: Seq<char>, ns: Seq<Note>)
    ensures
        audit_json_schema(p, target, ns) == ns + audit_json_schema(p, target, seq![]),
{
    lemma_read_probe_append(p, "JSON Schema"@, target, ns);
    let (n1, text) = read_probe(p, "JSON Schema"@, target, ns);
    let (e1, _) = read_probe(p, "JSON Schema"@, target, seq![]);
    if let Some(t) = text {
        lemma_conflict_note_append(t, "contract-config-json-schema-conflict-marker"@, target, n1);
        lemma_conflict_note_append(t, "contract-config-json-schema-conflict-marker"@, target, e1);
    }
    assert(audit_json_schema(p, target, ns) =~= ns + audit_json_schema(p, target, seq![]));
}

proof fn lemma_push_append(ns: Seq<Note>, e: Seq<Note>, x: Note)
    ensures
        (ns + e).push(x) == ns + e.push(x),
{
    assert((ns + e).push(x) =~= ns + e.push(x));
}

proof fn lemma_append_assoc(ns: Seq<Note>, e: Seq<Note>, f: Seq<Note>)
    ensures
        (ns + e) + f == ns + (e + f),
{
    assert((ns + e) + f =~= ns + (e + f));
}

/// Auditing a config appends findings that do not depend on the findings
/// before it.
proof fn lemma_audit_config_append(path: Seq<Seq<char>>, files: ConfigFiles, ns: Seq<Note>)
    ensures
        audit_config(path, files, ns) == ns + audit_config(path, files, seq![]),
{
    let target = relative_display(path);
    let home = path.drop_last();
    let e: Seq<Note> = seq![];
    lemma_read_probe_append(files.config, "contract config"@, target, ns);
    let (n1, text) = read_probe(files.config, "contract config"@, target, ns);
    let (e1, _) = read_probe(files.config, "contract config"@, target, e);
    assert(n1 == ns + e1);
    match text {
        None => {},
        Some(t) => match json_root_members(t) {
            Err(m) => {
                lemma_push_append(ns, e1, error_note(
                    "contract-config-invalid-json"@,
                    "contracts.config.json is not valid JSON: "@ + m,
                    target,
                ));
            },
            Ok(None) => {
                lemma_push_append(ns, e1, error_note(
                    "contract-config-root-shape"@,
                    "contracts.config.json root must be an object"@,
                    target,
                ));
            },
            Ok(Some(m)) => {
                lemma_peer_field_append(m, "typespec"@, target, n1);
                lemma_peer_field_append(m, "typespec"@, target, e1);
                let (n2, ts) = peer_field(m, "typespec"@, target, n1);
                let (e2, _) = peer_field(m, "typespec"@, target, e1);
                let f2 = peer_field(m, "typespec"@, target, e).0;
                lemma_append_assoc(ns, e1, f2);
                assert(n2 == ns + e2);
                lemma_peer_field_append(m, "jsonSchema"@, target, n2);
                lemma_peer_field_append(m, "jsonSchema"@, target, e2);
                let (n3, sc) = peer_field(m, "jsonSchema"@, target, n2);
                let (e3, _) = peer_field(m, "jsonSchema"@, target, e2);
                let f3 = peer_field(m, "jsonSchema"@, target, e).0;
                lemma_append_assoc(ns, e2, f3);
                assert(n3 == ns + e3);
                if ts is Some && sc is Some {
                    lemma_resolve_append(ts->0, files.typespec, "TypeSpec"@, target, home, n3);
                    lemma_resolve_append(ts->0, files.typespec, "TypeSpec"@, target, home, e3);
                    let (n4, tp) = resolve_authority_path(ts->0, files.typespec, "TypeSpec"@, target, home, n3);
                    let (e4, _) = resolve_authority_path(ts->0, files.typespec, "TypeSpec"@, target, home, e3);
                    let f4 = resolve_authority_path(ts->0, files.typespec, "TypeSpec"@, target, home, e).0;
                    lemma_append_assoc(ns, e3, f4);
                    assert(n4 == ns + e4);
                    lemma_resolve_append(sc->0, files.schema, "JSON Schema"@, target, home, n4);
                    lemma_resolve_append(sc->0, files.schema, "JSON Schema"@, target, home, e4);
                    let (n5, sp) = resolve_authority_path(sc->0, files.schema, "JSON Schema"@, target, home, n4);
                    let (e5, _) = resolve_authority_path(sc->0, files.schema, "JSON Schema"@, target, home, e4);
                    let f5 = resolve_authority_path(sc->0, files.schema, "JSON Schema"@, target, home, e).0;
                    lemma_append_assoc(ns, e4, f5);
                    assert(n5 == ns + e5);
                    if tp is Some && sp is Some {
                        if tp == sp {
                            lemma_push_append(ns, e5, error_note(
                                "contract-config-peer-path-alias"@,
                                "TypeSpec and JSON Schema must be distinct independently editable source files"@,
                                target,
                            ));
                        } else {
                            let t_target = written_target(home, ts->0);
                            let s_target = written_target(home, sc->0);
                            let x6 = error_note("contract-config-typespec-extension"@, "config-declared TypeSpec authority must be a .tsp source file"@, t_target);
                            let x7 = error_note("contract-config-json-schema-extension"@, "config-declared JSON Schema authority must be a .json source file"@, s_target);
                            let bad6 = final_extension(tp->0) != Some("tsp"@);
                            let bad7 = final_extension(sp->0) != Some("json"@);
                            let n6 = if bad6 { n5.push(x6) } else { n5 };
                            let e6 = if bad6 { e5.push(x6) } else { e5 };
                            lemma_push_append(ns, e5, x6);
                            assert(n6 == ns + e6);
                            let n7 = if bad7 { n6.push(x7) } else { n6 };
                            let e7 = if bad7 { e6.push(x7) } else { e6 };
                            lemma_push_append(ns, e6, x7);
                            assert(n7 == ns + e7);
                            lemma_audit_typespec_append(files.typespec.file, t_target, n7);
                            lemma_audit_typespec_append(files.typespec.file, t_target, e7);
                            let n8 = audit_typespec(files.typespec.file, t_target, n7);
                            let e8 = audit_typespec(files.typespec.file, t_target, e7);
                            lemma_append_assoc(ns, e7, audit_typespec(files.typespec.file, t_target, e));
                            assert(n8 == ns + e8);
                            lemma_audit_json_schema_append(files.schema.file, s_target, n8);
                            lemma_audit_json_schema_append(files.schema.file, s_target, e8);
                            lemma_append_assoc(ns, e8, audit_json_schema(files.schema.file, s_target, e));
                        }
                    }
                }
            },
        },
    }
}

// ---------------------------------------------------------------------------
// Clean pairs
// ---------------------------------------------------------------------------

/// A config whose audit, taken alone, finds no warning or error.
pub open spec fn config_clean(path: Seq<Seq<char>>, files: ConfigFiles) -> bool {
    issues(audit_config(path, files, seq![])) == 0
}

/// The number of clean configs among `paths[k..]`, each with its files.
pub open spec fn clean_count(paths: Seq<Seq<Seq<char>>>, files: Seq<ConfigFiles>, k: int) -> nat
    decreases paths.len() - k,
{
    if k < 0 || k >= paths.len() || k >= files.len() {
        0
    } else {
        clean_count(paths, files, k + 1) + if config_clean(paths[k], files[k]) {
            1nat
        } else {
            0nat
        }
    }
}

/// The paths of the walk entries named `contracts.config.json`, from step
/// `i` on, in walk order.
pub open spec fn config_paths_from(steps: Seq<WalkStep>, i: int) -> Seq<Seq<Seq<char>>>
    decreases steps.len() - i,
{
    if i < 0 || i >= steps.len() {
        seq![]
    } else {
        match steps[i] {
            WalkStep::Entry(e) => if is_config_step(steps[i]) {
                seq![string_views(e.path@)] + config_paths_from(steps, i + 1)
            } else {
                config_paths_from(steps, i + 1)
            },
            WalkStep::Failed { .. } => config_paths_from(steps, i + 1),
        }
    }
}

/// The first `MAX_CONFIG_FILES` of `s`.
pub open spec fn first_configs(s: Seq<Seq<Seq<char>>>) -> Seq<Seq<Seq<char>>> {
    if s.len() <= MAX_CONFIG_FILES {
        s
    } else {
        s.take(MAX_CONFIG_FILES as int)
    }
}

proof fn lemma_collect_configs_exact(
    steps: Seq<WalkStep>,
    i: int,
    configs: Seq<Seq<Seq<char>>>,
    ns: Seq<Note>,
    overflow: bool,
)
    requires
        0 <= i,
        configs.len() <= MAX_CONFIG_FILES,
    ensures
        collect_configs(steps, i, configs, ns, overflow).0 == first_configs(
            configs + config_paths_from(steps, i),
        ),
    decreases steps.len() - i,
{
    if i >= steps.len() {
        assert(configs + config_paths_from(steps, i) =~= configs);
    } else {
        let rest = config_paths_from(steps, i + 1);
        match steps[i] {
            WalkStep::Failed { message, path } => {
                let x = crate::contract_config::model::targeted(
                    Severity::Warning,
                    "contract-config-walk-failed"@,
                    "could not inspect part of the contracts tree: "@ + message@,
                    crate::contract_config::peers::failure_target(path),
                );
                lemma_collect_configs_exact(steps, i + 1, configs, ns.push(x), overflow);
            },
            WalkStep::Entry(e) => if !is_config_step(steps[i]) {
                lemma_collect_configs_exact(steps, i + 1, configs, ns, overflow);
            } else {
                let p = string_views(e.path@);
                assert(config_paths_from(steps, i) == seq![p] + rest);
                if configs.len() >= MAX_CONFIG_FILES {
                    assert((configs + (seq![p] + rest)).take(MAX_CONFIG_FILES as int) =~= configs);
                    if rest.len() > 0 {
                        assert((configs + rest).take(MAX_CONFIG_FILES as int) =~= configs);
                    } else {
                        assert(configs + rest =~= configs);
                    }
                    let x = error_note(
                        "contract-config-file-limit"@,
                        "more than 128 contracts.config.json files were discovered; split or narrow the contract tree"@,
                        "contracts"@,
                    );
                    if overflow {
                        lemma_collect_configs_exact(steps, i + 1, configs, ns, overflow);
                    } else {
                        lemma_collect_configs_exact(steps, i + 1, configs, ns.push(x), true);
                    }
                } else {
                    assert(configs.push(p) + rest =~= configs + (seq![p] + rest));
                    lemma_collect_configs_exact(steps, i + 1, configs.push(p), ns, overflow);
                }
            },
        }
    }
}

proof fn lemma_audit_configs_count(
    paths: Seq<Seq<Seq<char>>>,
    files: Seq<ConfigFiles>,
    k: int,
    ns: Seq<Note>,
    valid: nat,
)
    requires
        0 <= k,
    ensures
        audit_configs(paths, files, k, ns, valid).1 == valid + clean_count(paths, files, k),
        clean_count(paths, files, k) <= if k <= paths.len() {
            paths.len() - k
        } else {
            0
        },
    decreases paths.len() - k,
{
    if !(k >= paths.len() || k >= files.len()) {
        let n2 = audit_config(paths[k], files[k], ns);
        lemma_audit_config_append(paths[k], files[k], ns);
        lemma_issues_append(ns, audit_config(paths[k], files[k], seq![]));
        let v2 = if issues(n2) == issues(ns) {
            valid + 1
        } else {
            valid
        };
        lemma_audit_configs_count(paths, files, k + 1, n2, v2);
    }
}

/// The summary of the contract-config audit. A missing `contracts` entry, or
/// one that is a symbolic link or not a directory, leaves the report as it
/// was; an unreadable one adds one error. Otherwise the candidates are the
/// first `MAX_CONFIG_FILES` entries named `contracts.config.json` in walk
/// order; the clean pairs are exactly the candidates whose audit adds no
/// warning or error, at most as many as the candidates; and the
/// informational summary is appended after the configs' findings exactly
/// when there is at least one clean pair.
pub proof fn lemma_clean_pairs(repo: ConfigRepository, ns: Seq<Note>)
    ensures
        ({
            let (n, counts) = config_outcome(repo, ns);
            match repo.root {
                RootProbe::NotFound => n == ns && counts is None,
                RootProbe::Unreadable(m) => counts is None && n == ns.push(
                    error_note(
                        "contract-config-root-unreadable"@,
                        "contracts root metadata could not be read: "@ + m@,
                        "contracts"@,
                    ),
                ),
                RootProbe::Found(meta) => if meta.is_symlink || !meta.is_dir {
                    n == ns && counts is None
                } else {
                    let paths = first_configs(config_paths_from(repo.walk@, 0));
                    let n1 = collect_configs(repo.walk@, 0, seq![], ns, false).1;
                    let audited = audit_configs(paths, repo.configs@, 0, n1, 0).0;
                    let v = clean_count(paths, repo.configs@, 0);
                    &&& counts == Some((paths.len(), v))
                    &&& v <= paths.len() <= MAX_CONFIG_FILES
                    &&& v > 0 ==> n == audited.push(inspected_note(v))
                    &&& v == 0 ==> n == audited
                },
            }
        }),
{
    match repo.root {
        RootProbe::Found(meta) => {
            if !(meta.is_symlink || !meta.is_dir) {
                lemma_collect_configs_exact(repo.walk@, 0, seq![], ns, false);
                assert(seq![] + config_paths_from(repo.walk@, 0) =~= config_paths_from(repo.walk@, 0));
                let paths = first_configs(config_paths_from(repo.walk@, 0));
                let n1 = collect_configs(repo.walk@, 0, seq![], ns, false).1;
                lemma_audit_configs_count(paths, repo.configs@, 0, n1, 0);
            }
        },
        _ => {},
    }
}

// ---------------------------------------------------------------------------
// What the checks of the authored peers report
// ---------------------------------------------------------------------------

/// The probe shows a regular file (not a link) within the read bound whose
/// text is `t`.
pub open spec fn readable_text(p: FileProbe, t: Seq<char>) -> bool {
    &&& p.metadata matches Ok(meta)
    &&& !meta.is_symlink
    &&& meta.is_file
    &&& meta.len <= MAX_FILE_BYTES
    &&& p.text matches Ok(x)
    &&& x@ == t
}

/// Some line of `t`, after its leading whitespace, starts with `m`.
pub open spec fn line_opens_with(t: Seq<char>, m: Seq<char>) -> bool {
    exists|i: int|
        0 <= i < lines(t).len() && starts_with(trim_start(#[trigger] lines(t)[i], Trim::Space), m)
}

proof fn lemma_lead_all(s: Seq<char>, k: Trim)
    ensures
        forall|j: int| 0 <= j < lead(s, k) ==> trims(k, #[trigger] s[j]),
        lead(s, k) <= s.len(),
    decreases s.len(),
{
    if s.len() > 0 && trims(k, s[0]) {
        lemma_lead_all(s.drop_first(), k);
        assert forall|j: int| 0 <= j < lead(s, k) implies trims(k, #[trigger] s[j]) by {
            if j > 0 {
                assert(s[j] == s.drop_first()[j - 1]);
            }
        }
    }
}

proof fn lemma_trail_stop(s: Seq<char>, k: Trim)
    ensures
        trail(s, k) <= s.len(),
        trail(s, k) < s.len() ==> !trims(k, s[s.len() - 1 - trail(s, k)]),
    decreases s.len(),
{
    if s.len() > 0 && trims(k, s.last()) {
        lemma_trail_stop(s.drop_last(), k);
    }
}

/// Text with a character that is not whitespace is not blank.
proof fn lemma_not_blank(t: Seq<char>, j: int)
    requires
        0 <= j < t.len(),
        !is_ws(t[j]),
    ensures
        trim(t, Trim::Space).len() > 0,
{
    lemma_lead_all(t, Trim::Space);
    lemma_lead_stop(t, Trim::Space);
    let u = trim_start(t, Trim::Space);
    if lead(t, Trim::Space) > j {
        assert(trims(Trim::Space, t[j]));
    }
    assert(u.len() > 0);
    assert(u[0] == t[lead(t, Trim::Space) as int]);
    lemma_trail_stop(u, Trim::Space);
    lemma_trail_all(u, Trim::Space);
    if trail(u, Trim::Space) == u.len() {
        assert(trims(Trim::Space, u[0]));
    }
}

proof fn lemma_trail_all(s: Seq<char>, k: Trim)
    ensures
        forall|j: int| s.len() - trail(s, k) <= j < s.len() ==> trims(k, #[trigger] s[j]),
    decreases s.len(),
{
    lemma_trail_stop(s, k);
    if s.len() > 0 && trims(k, s.last()) {
        lemma_trail_all(s.drop_last(), k);
        lemma_trail_stop(s.drop_last(), k);
        assert forall|j: int| s.len() - trail(s, k) <= j < s.len() implies trims(k, #[trigger] s[j]) by {
            if j < s.len() - 1 {
                assert(s[j] == s.drop_last()[j]);
            }
        }
    }
}

proof fn lemma_lead_stop(s: Seq<char>, k: Trim)
    ensures
        lead(s, k) < s.len() ==> !trims(k, s[lead(s, k) as int]),
    decreases s.len(),
{
    if s.len() > 0 && trims(k, s[0]) {
        lemma_lead_stop(s.drop_first(), k);
    }
}

/// A non-blank TypeSpec source with a line that opens with a conflict
/// marker (`<<<<<<<`, `=======` or `>>>>>>>`) gets exactly one error, with
/// the TypeSpec conflict-marker code, aimed at the source.
pub proof fn lemma_typespec_conflict_reported(
    p: FileProbe,
    t: Seq<char>,
    j: int,
    target: Seq<char>,
    ns: Seq<Note>,
)
    requires
        readable_text(p, t),
        0 <= j < t.len(),
        !is_ws(t[j]),
        line_opens_with(t, "<<<<<<<"@) || line_opens_with(t, "======="@) || line_opens_with(
            t,
            ">>>>>>>"@,
        ),
    ensures
        ({
            let r = audit_typespec(p, target, ns);
            &&& r.len() == ns.len() + 1
            &&& r.drop_last() == ns
            &&& r.last().code == "contract-config-typespec-conflict-marker"@
            &&& r.last().severity == Severity::Error
            &&& r.last().target == Some(target)
        }),
{
    lemma_not_blank(t, j);
    let r = audit_typespec(p, target, ns);
    assert(conflict_markers(t).len() > 0) by {
        let ls = lines(t);
        if line_opens_with(t, "<<<<<<<"@) {
            assert(has_marker(ls, "<<<<<<<"@));
            assert(marker_if(ls, "<<<<<<<"@).len() == 1);
        } else if line_opens_with(t, "======="@) {
            assert(has_marker(ls, "======="@));
            assert(marker_if(ls, "======="@).len() == 1);
        } else {
            assert(has_marker(ls, ">>>>>>>"@));
            assert(marker_if(ls, ">>>>>>>"@).len() == 1);
        }
    }
    assert(r.drop_last() =~= ns);
}

/// An authored JSON Schema that is readable, free of conflict markers and
/// a JSON object gets, after the earlier findings, exactly one error with
/// the dialect code when its `$schema` member is missing or not the Draft
/// 2020-12 URI, and nothing when it is.
pub proof fn lemma_schema_dialect_reported(
    p: FileProbe,
    t: Seq<char>,
    target: Seq<char>,
    ns: Seq<Note>,
)
    requires
        readable_text(p, t),
        !line_opens_with(t, "<<<<<<<"@),
        !line_opens_with(t, "======="@),
        !line_opens_with(t, ">>>>>>>"@),
        json_root_members(t) is Ok,
        json_root_members(t)->Ok_0 is Some,
    ensures
        ({
            let m = json_root_members(t)->Ok_0->Some_0;
            let declared = m.dom().contains("$schema"@) && m["$schema"@] == Some(
                "https://json-schema.org/draft/2020-12/schema"@,
            );
            let r = audit_json_schema(p, target, ns);
            &&& declared ==> r == ns
            &&& !declared ==> {
                &&& r.len() == ns.len() + 1
                &&& r.drop_last() == ns
                &&& r.last().code == "contract-config-json-schema-draft"@
                &&& r.last().severity == Severity::Error
                &&& r.last().message == "config-declared JSON Schema must declare "@
                    + "https://json-schema.org/draft/2020-12/schema"@
                &&& r.last().target == Some(target)
            }
        }),
{
    let ls = lines(t);
    assert(!has_marker(ls, "<<<<<<<"@));
    assert(!has_marker(ls, "======="@));
    assert(!has_marker(ls, ">>>>>>>"@));
    assert(conflict_markers(t) =~= Seq::<Seq<char>>::empty());
    let r = audit_json_schema(p, target, ns);
    if r.len() == ns.len() + 1 {
        assert(r.drop_last() =~= ns);
    }
}

/// Checking the `$schema` member: a missing or non-string member, or a
/// string other than the Draft 2020-12 URI, gets the dialect error; the
/// Draft 2020-12 URI gets nothing.
pub proof fn lemma_schema_member_dialect(member: JsonMember, target: Seq<char>, ns: Seq<Note>)
    ensures
        ({
            let r = schema_member_check(member, target, ns);
            &&& (member matches JsonMember::Text(v) && v@ == "https://json-schema.org/draft/2020-12/schema"@)
                ==> r == ns
            &&& (member is Missing || member is NotText || (member matches JsonMember::Text(v) && v@
                != "https://json-schema.org/draft/2020-12/schema"@)) ==> {
                &&& r.drop_last() == ns
                &&& r.len() == ns.len() + 1
                &&& r.last().code == "contract-config-json-schema-draft"@
                &&& r.last().severity == Severity::Error
            }
        }),
{
    let r = schema_member_check(member, target, ns);
    if r.len() == ns.len() + 1 {
        assert(r.drop_last() =~= ns);
    }
}

// ---------------------------------------------------------------------------
// What a clean config is
// ---------------------------------------------------------------------------

/// A declared peer path that passes: not blank, a safe relative path outside
/// generated directories, every prefix inspectable and not a link, with the
/// extension `ext`.
pub open spec fn peer_passes(value: Seq<char>, ext: Seq<char>, peer: PeerSnapshot) -> bool {
    &&& trim(value, Trim::Space).len() > 0
    &&& !path_unsafe(value)
    &&& !any_generated(declared_parts(value))
    &&& forall|j: int|
        0 <= j < declared_parts(value).len() ==> #[trigger] probe_error(peer, j) is None
            && !probe_symlink(peer, j)
    &&& final_extension(declared_parts(value)) == Some(ext)
}

/// A probed source that is readable and has no line opening with a
/// conflict marker.
pub open spec fn marker_free_source(p: FileProbe) -> bool {
    &&& p.text is Ok
    &&& readable_text(p, p.text->Ok_0@)
    &&& !line_opens_with(p.text->Ok_0@, "<<<<<<<"@)
    &&& !line_opens_with(p.text->Ok_0@, "======="@)
    &&& !line_opens_with(p.text->Ok_0@, ">>>>>>>"@)
}

proof fn lemma_push_issue(ns: Seq<Note>, x: Note)
    requires
        x.severity == Severity::Error,
    ensures
        issues(ns.push(x)) == issues(ns) + 1,
{
    lemma_issues_push(ns, x);
}

proof fn lemma_read_probe_issues(p: FileProbe, au: Seq<char>, t: Seq<char>, ns: Seq<Note>)
    ensures
        ({
            let (r, text) = read_probe(p, au, t, ns);
            &&& issues(r) >= issues(ns)
            &&& text is None ==> issues(r) > issues(ns)
            &&& text matches Some(x) ==> r == ns && p.text is Ok && x == p.text->Ok_0@
                && readable_text(p, x)
        }),
{
    let (r, text) = read_probe(p, au, t, ns);
    if text is None {
        lemma_push_issue(ns, r.last());
        assert(r == ns.push(r.last()));
    }
}

proof fn lemma_conflict_issues(text: Seq<char>, code: Seq<char>, t: Seq<char>, ns: Seq<Note>)
    ensures
        issues(conflict_note(text, code, t, ns)) >= issues(ns),
        issues(conflict_note(text, code, t, ns)) == issues(ns) ==> !line_opens_with(text, "<<<<<<<"@)
            && !line_opens_with(text, "======="@) && !line_opens_with(text, ">>>>>>>"@),
{
    let r = conflict_note(text, code, t, ns);
    let ls = lines(text);
    if conflict_markers(text).len() > 0 {
        lemma_push_issue(ns, r.last());
        assert(r == ns.push(r.last()));
    } else {
        if line_opens_with(text, "<<<<<<<"@) {
            assert(has_marker(ls, "<<<<<<<"@));
            assert(marker_if(ls, "<<<<<<<"@).len() == 1);
        }
        if line_opens_with(text, "======="@) {
            assert(has_marker(ls, "======="@));
            assert(marker_if(ls, "======="@).len() == 1);
        }
        if line_opens_with(text, ">>>>>>>"@) {
            assert(has_marker(ls, ">>>>>>>"@));
            assert(marker_if(ls, ">>>>>>>"@).len() == 1);
        }
    }
}

proof fn lemma_peer_field_issues(
    m: Map<Seq<char>, Option<Seq<char>>>,
    field: Seq<char>,
    t: Seq<char>,
    ns: Seq<Note>,
)
    ensures
        ({
            let (r, v) = peer_field(m, field, t, ns);
            &&& issues(r) >= issues(ns)
            &&& v is None ==> issues(r) > issues(ns)
            &&& v matches Some(x) ==> r == ns && m.dom().contains(field) && m[field] == Some(x)
                && trim(x, Trim::Space).len() > 0
        }),
{
    let (r, v) = peer_field(m, field, t, ns);
    if v is None {
        lemma_push_issue(ns, r.last());
        assert(r == ns.push(r.last()));
    }
}

proof fn lemma_typespec_issues(p: FileProbe, t: Seq<char>, ns: Seq<Note>)
    ensures
        issues(audit_typespec(p, t, ns)) >= issues(ns),
        issues(audit_typespec(p, t, ns)) == issues(ns) ==> marker_free_source(p) && trim(
            p.text->Ok_0@,
            Trim::Space,
        ).len() > 0,
{
    lemma_read_probe_issues(p, "TypeSpec"@, t, ns);
    let (n1, text) = read_probe(p, "TypeSpec"@, t, ns);
    if let Some(x) = text {
        if trim(x, Trim::Space).len() == 0 {
            let r = audit_typespec(p, t, ns);
            lemma_push_issue(n1, r.last());
            assert(r == n1.push(r.last()));
        } else {
            lemma_conflict_issues(x, "contract-config-typespec-conflict-marker"@, t, n1);
        }
    }
}

proof fn lemma_json_schema_issues(p: FileProbe, t: Seq<char>, ns: Seq<Note>)
    ensures
        issues(audit_json_schema(p, t, ns)) >= issues(ns),
        issues(audit_json_schema(p, t, ns)) == issues(ns) ==> {
            &&& marker_free_source(p)
            &&& json_root_members(p.text->Ok_0@) matches Ok(Some(sm))
            &&& sm.dom().contains("$schema"@)
            &&& sm["$schema"@] == Some("https://json-schema.org/draft/2020-12/schema"@)
        },
{
    lemma_read_probe_issues(p, "JSON Schema"@, t, ns);
    let (n1, text) = read_probe(p, "JSON Schema"@, t, ns);
    if let Some(x) = text {
        let n2 = conflict_note(x, "contract-config-json-schema-conflict-marker"@, t, n1);
        lemma_conflict_issues(x, "contract-config-json-schema-conflict-marker"@, t, n1);
        let r = audit_json_schema(p, t, ns);
        if r != n2 {
            lemma_push_issue(n2, r.last());
            assert(r == n2.push(r.last()));
        }
    }
}

proof fn lemma_resolve_issues(
    value: Seq<char>,
    peer: PeerSnapshot,
    authority: Seq<char>,
    ct: Seq<char>,
    home: Seq<Seq<char>>,
    ns: Seq<Note>,
)
    ensures
        ({
            let (r, p) = resolve_authority_path(value, peer, authority, ct, home, ns);
            &&& issues(r) >= issues(ns)
            &&& p is None ==> issues(r) > issues(ns)
            &&& p matches Some(q) ==> r == ns && q == declared_parts(value) && !path_unsafe(value)
                && !any_generated(q) && forall|j: int|
                0 <= j < q.len() ==> #[trigger] probe_error(peer, j) is None && !probe_symlink(
                    peer,
                    j,
                )
        }),
{
    lemma_resolution_reports_or_resolves(value, peer, authority, ct, home, ns);
    let (r, p) = resolve_authority_path(value, peer, authority, ct, home, ns);
    if p is None {
        lemma_push_issue(ns, r.last());
        assert(r == ns.push(r.last()));
    }
}

/// A config is clean only when all is well: the config is a readable
/// regular file holding a JSON object that declares `typespec` and
/// `jsonSchema` as non-blank strings; each is a safe relative path outside
/// generated directories whose every prefix could be inspected and is not a
/// link; the two are distinct, the first a `.tsp` and the second a `.json`
/// file; the TypeSpec source is readable, not blank and free of conflict
/// markers; and the JSON Schema source is readable, free of conflict
/// markers, and a JSON object declaring the Draft 2020-12 dialect.
pub proof fn lemma_clean_config(path: Seq<Seq<char>>, files: ConfigFiles, ns: Seq<Note>)
    requires
        issues(audit_config(path, files, ns)) == issues(ns),
    ensures
        files.config.text is Ok,
        readable_text(files.config, files.config.text->Ok_0@),
        json_root_members(files.config.text->Ok_0@) matches Ok(Some(m)) && {
            &&& m.dom().contains("typespec"@)
            &&& m.dom().contains("jsonSchema"@)
            &&& m["typespec"@] matches Some(ts) && m["jsonSchema"@] matches Some(sc) && {
                &&& peer_passes(ts, "tsp"@, files.typespec)
                &&& peer_passes(sc, "json"@, files.schema)
                &&& declared_parts(ts) != declared_parts(sc)
            }
        },
        marker_free_source(files.typespec.file),
        trim(files.typespec.file.text->Ok_0@, Trim::Space).len() > 0,
        marker_free_source(files.schema.file),
        json_root_members(files.schema.file.text->Ok_0@) matches Ok(Some(sm)) && sm.dom().contains(
            "$schema"@,
        ) && sm["$schema"@] == Some("https://json-schema.org/draft/2020-12/schema"@),
{
    let target = relative_display(path);
    let home = path.drop_last();
    let e: Seq<Note> = seq![];
    lemma_audit_config_append(path, files, ns);
    lemma_issues_append(ns, audit_config(path, files, e));
    let fin = audit_config(path, files, e);
    assert(issues(fin) == 0);
    assert(issues(e) == 0);
    lemma_read_probe_issues(files.config, "contract config"@, target, e);
    let (n1, text) = read_probe(files.config, "contract config"@, target, e);
    let x = text->0;
    match json_root_members(x) {
        Err(msg) => {
            lemma_push_issue(n1, fin.last());
            assert(fin == n1.push(fin.last()));
        },
        Ok(None) => {
            lemma_push_issue(n1, fin.last());
            assert(fin == n1.push(fin.last()));
        },
        Ok(Some(m)) => {
            lemma_peer_field_issues(m, "typespec"@, target, n1);
            let (n2, ts) = peer_field(m, "typespec"@, target, n1);
            lemma_peer_field_issues(m, "jsonSchema"@, target, n2);
            let (n3, sc) = peer_field(m, "jsonSchema"@, target, n2);
            let tsv = ts->0;
            let scv = sc->0;
            lemma_resolve_issues(tsv, files.typespec, "TypeSpec"@, target, home, n3);
            let (n4, tp) = resolve_authority_path(tsv, files.typespec, "TypeSpec"@, target, home, n3);
            lemma_resolve_issues(scv, files.schema, "JSON Schema"@, target, home, n4);
            let (n5, sp) = resolve_authority_path(scv, files.schema, "JSON Schema"@, target, home, n4);
            if tp == sp {
                lemma_push_issue(n5, fin.last());
                assert(fin == n5.push(fin.last()));
            }
            let t_target = written_target(home, tsv);
            let s_target = written_target(home, scv);
            let tq = tp->0;
            let sq = sp->0;
            let n6 = if final_extension(tq) != Some("tsp"@) {
                n5.push(error_note("contract-config-typespec-extension"@, "config-declared TypeSpec authority must be a .tsp source file"@, t_target))
            } else {
                n5
            };
            if final_extension(tq) != Some("tsp"@) {
                lemma_push_issue(n5, n6.last());
                assert(n6 == n5.push(n6.last()));
            }
            let n7 = if final_extension(sq) != Some("json"@) {
                n6.push(error_note("contract-config-json-schema-extension"@, "config-declared JSON Schema authority must be a .json source file"@, s_target))
            } else {
                n6
            };
            if final_extension(sq) != Some("json"@) {
                lemma_push_issue(n6, n7.last());
                assert(n7 == n6.push(n7.last()));
            }
            lemma_typespec_issues(files.typespec.file, t_target, n7);
            let n8 = audit_typespec(files.typespec.file, t_target, n7);
            lemma_json_schema_issues(files.schema.file, s_target, n8);
            assert(fin == audit_json_schema(files.schema.file, s_target, n8));
        },
    }
}

/// The contract-config walk descends into everything at its root, and below
/// it into exactly the entries that are neither `.git` nor a directory name
/// for generated, evidence, dependency, build, output or temporary files.
pub proof fn lemma_walk_prunes(name: Seq<char>, depth: nat)
    ensures
        crate::contract_config::peers::should_descend(name, 0),
        depth > 0 ==> (crate::contract_config::peers::should_descend(name, depth) <==> name
            != ".git"@ && name != ".typespec-json-schema-validator"@ && name != "artifacts"@ && name
            != "build"@ && name != "dist"@ && name != "evidence"@ && name != "generated"@ && name
            != "node_modules"@ && name != "out"@ && name != "target"@ && name != "tmp"@),
{
}

/// A declared peer path below a generated directory is refused: it never
/// passes.
pub proof fn lemma_generated_peer_refused(value: Seq<char>, ext: Seq<char>, peer: PeerSnapshot, k: int)
    requires
        0 <= k < declared_parts(value).len(),
        declared_parts(value)[k] == "generated"@ || declared_parts(value)[k] == "tmp"@
            || declared_parts(value)[k] == "build"@ || declared_parts(value)[k] == "out"@
            || declared_parts(value)[k] == "target"@ || declared_parts(value)[k] == "dist"@
            || declared_parts(value)[k] == "evidence"@ || declared_parts(value)[k] == "artifacts"@
            || declared_parts(value)[k] == "node_modules"@ || declared_parts(value)[k]
            == ".typespec-json-schema-validator"@,
    ensures
        !peer_passes(value, ext, peer),
{
    assert(crate::contract_config::peers::is_generated_name(declared_parts(value)[k]));
}

// ---------------------------------------------------------------------------
// Walk errors and the config limit
// ---------------------------------------------------------------------------

/// The number of notes with code `code`.
pub open spec fn code_count(ns: Seq<Note>, code: Seq<char>) -> nat
    decreases ns.len(),
{
    if ns.len() == 0 {
        0
    } else {
        code_count(ns.drop_last(), code) + if ns.last().code == code {
            1nat
        } else {
            0nat
        }
    }
}

/// The number of walk errors among steps `i..`.
pub open spec fn walk_errors(steps: Seq<WalkStep>, i: int) -> nat
    decreases steps.len() - i,
{
    if i < 0 || i >= steps.len() {
        0
    } else {
        walk_errors(steps, i + 1) + if steps[i] is Failed {
            1nat
        } else {
            0nat
        }
    }
}

proof fn lemma_code_push(ns: Seq<Note>, x: Note, code: Seq<char>)
    ensures
        code_count(ns.push(x), code) == code_count(ns, code) + if x.code == code {
            1nat
        } else {
            0nat
        },
{
    assert(ns.push(x).drop_last() =~= ns);
}

proof fn lemma_collect_codes(
    steps: Seq<WalkStep>,
    i: int,
    configs: Seq<Seq<Seq<char>>>,
    ns: Seq<Note>,
    overflow: bool,
)
    requires
        0 <= i,
        configs.len() <= MAX_CONFIG_FILES,
    ensures
        ({
            let n = collect_configs(steps, i, configs, ns, overflow).1;
            let more = configs.len() + config_paths_from(steps, i).len() > MAX_CONFIG_FILES;
            &&& code_count(n, "contract-config-walk-failed"@) == code_count(
                ns,
                "contract-config-walk-failed"@,
            ) + walk_errors(steps, i)
            &&& code_count(n, "contract-config-file-limit"@) == code_count(
                ns,
                "contract-config-file-limit"@,
            ) + if !overflow && more {
                1nat
            } else {
                0nat
            }
        }),
    decreases steps.len() - i,
{
    reveal_strlit("contract-config-walk-failed");
    reveal_strlit("contract-config-file-limit");
    let wf = "contract-config-walk-failed"@;
    let fl = "contract-config-file-limit"@;
    assert(wf[16] != fl[16]);
    if i < steps.len() {
        let rest = config_paths_from(steps, i + 1);
        match steps[i] {
            WalkStep::Failed { message, path } => {
                let x = crate::contract_config::model::targeted(
                    Severity::Warning,
                    wf,
                    "could not inspect part of the contracts tree: "@ + message@,
                    crate::contract_config::peers::failure_target(path),
                );
                lemma_code_push(ns, x, wf);
                lemma_code_push(ns, x, fl);
                lemma_collect_codes(steps, i + 1, configs, ns.push(x), overflow);
            },
            WalkStep::Entry(e) => if !is_config_step(steps[i]) {
                lemma_collect_codes(steps, i + 1, configs, ns, overflow);
            } else {
                let p = string_views(e.path@);
                assert(config_paths_from(steps, i) == seq![p] + rest);
                if configs.len() >= MAX_CONFIG_FILES {
                    let x = error_note(
                        fl,
                        "more than 128 contracts.config.json files were discovered; split or narrow the contract tree"@,
                        "contracts"@,
                    );
                    if overflow {
                        lemma_collect_codes(steps, i + 1, configs, ns, overflow);
                    } else {
                        lemma_code_push(ns, x, wf);
                        lemma_code_push(ns, x, fl);
                        lemma_collect_codes(steps, i + 1, configs, ns.push(x), true);
                    }
                } else {
                    lemma_collect_codes(steps, i + 1, configs.push(p), ns, overflow);
                }
            },
        }
    }
}

/// Collecting the config files warns once for each walk error, and reports
/// the config limit exactly once when the walk reaches more than
/// `MAX_CONFIG_FILES` config files, and never otherwise.
pub proof fn lemma_walk_warnings_and_limit(steps: Seq<WalkStep>, ns: Seq<Note>)
    ensures
        ({
            let n = collect_configs(steps, 0, seq![], ns, false).1;
            &&& code_count(n, "contract-config-walk-failed"@) == code_count(
                ns,
                "contract-config-walk-failed"@,
            ) + walk_errors(steps, 0)
            &&& code_count(n, "contract-config-file-limit"@) == code_count(
                ns,
                "contract-config-file-limit"@,
            ) + if config_paths_from(steps, 0).len() > MAX_CONFIG_FILES {
                1nat
            } else {
                0nat
            }
        }),
{
    lemma_collect_codes(steps, 0, seq![], ns, false);
}

} // verus!
