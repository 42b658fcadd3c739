use std::collections::BTreeMap;

use ores_cli::contract_config::model::{CommandReport, Finding, Severity};
use ores_cli::contract_config::peers::{
    augment_contract_config_peer_audit, check_config_root, check_peer_member, check_schema_member,
    peer_path_probed,
    config_peer_values, declared_components,
    should_descend_exec, within_read_bound, ConfigFiles, ConfigRepository, FileProbe, PeerSnapshot,
    RootProbe,
};
use ores_cli::json::JsonMember;
use ores_cli::snapshot::{FileMeta, TreeEntry, WalkStep};

/// An in-memory repository: files and symbolic links by repository-relative
/// path.
#[derive(Default)]
struct Tree {
    files: BTreeMap<String, String>,
    links: BTreeMap<String, String>,
}

fn parts(path: &str) -> Vec<String> {
    path.split('/').filter(|p| !p.is_empty()).map(str::to_string).collect()
}

impl Tree {
    fn write(&mut self, path: &str, content: &str) {
        self.files.insert(path.to_string(), content.to_string());
    }

    fn remove_dir(&mut self, path: &str) {
        let prefix = format!("{path}/");
        self.files.retain(|k, _| !k.starts_with(&prefix));
    }

    fn symlink(&mut self, path: &str, target: &str) {
        self.links.insert(path.to_string(), target.to_string());
    }

    fn is_dir(&self, path: &str) -> bool {
        let prefix = format!("{path}/");
        self.files.keys().any(|k| k.starts_with(&prefix))
    }

    fn meta(&self, path: &str) -> Result<FileMeta, String> {
        if self.links.contains_key(path) {
            return Ok(FileMeta { len: 0, is_file: false, is_dir: false, is_symlink: true });
        }
        if let Some(content) = self.files.get(path) {
            return Ok(FileMeta {
                len: content.len() as u64,
                is_file: true,
                is_dir: false,
                is_symlink: false,
            });
        }
        if self.is_dir(path) {
            return Ok(FileMeta { len: 0, is_file: false, is_dir: true, is_symlink: false });
        }
        Err("No such file or directory (os error 2)".to_string())
    }

    fn probe(&self, path: &str) -> FileProbe {
        let metadata = self.meta(path);
        let text = match &metadata {
            Ok(m) if m.is_file && !m.is_symlink && within_read_bound(m.len) => {
                Ok(self.files[path].clone())
            }
            _ => Err(String::new()),
        };
        FileProbe { metadata, text }
    }

    fn children(&self, path: &str) -> Vec<String> {
        let prefix = format!("{path}/");
        let mut names: Vec<String> = self
            .files
            .keys()
            .chain(self.links.keys())
            .filter_map(|k| k.strip_prefix(&prefix))
            .map(|rest| rest.split('/').next().unwrap().to_string())
            .collect();
        names.sort();
        names.dedup();
        names
    }

    fn walk(&self, path: &str, depth: usize, out: &mut Vec<WalkStep>) {
        let name = path.rsplit('/').next().unwrap();
        if !should_descend_exec(name, depth) {
            return;
        }
        let meta = self.meta(path).expect("walked entry");
        out.push(WalkStep::Entry(TreeEntry {
            path: parts(path),
            is_file: meta.is_file,
            is_dir: meta.is_dir,
            is_symlink: meta.is_symlink,
        }));
        if meta.is_dir {
            for child in self.children(path) {
                self.walk(&format!("{path}/{child}"), depth + 1, out);
            }
        }
    }

    fn peer(&self, home: &str, value: Option<String>) -> PeerSnapshot {
        match value {
            None => PeerSnapshot {
                components: Vec::new(),
                file: FileProbe { metadata: Err(String::new()), text: Err(String::new()) },
            },
            Some(value) => {
                let mut cursor = home.to_string();
                let mut components = Vec::new();
                for component in declared_components(&value) {
                    cursor = format!("{cursor}/{component}");
                    components.push(self.meta(&cursor));
                }
                PeerSnapshot { components, file: self.probe(&cursor) }
            }
        }
    }

    fn snapshot(&self) -> ConfigRepository {
        let root = match self.meta("contracts") {
            Ok(meta) => RootProbe::Found(meta),
            Err(_) => RootProbe::NotFound,
        };
        let mut walk = Vec::new();
        if self.is_dir("contracts") {
            self.walk("contracts", 0, &mut walk);
        }
        let mut configs = Vec::new();
        for step in &walk {
            if let WalkStep::Entry(entry) = step {
                if entry.path.last().map(String::as_str) == Some("contracts.config.json") {
                    let path = entry.path.join("/");
                    let home = entry.path[..entry.path.len() - 1].join("/");
                    let config = self.probe(&path);
                    let (typespec, schema) = match &config.text {
                        Ok(text) => config_peer_values(text),
                        Err(_) => (None, None),
                    };
                    configs.push(ConfigFiles {
                        config,
                        typespec: self.peer(&home, typespec),
                        schema: self.peer(&home, schema),
                    });
                }
            }
        }
        ConfigRepository { root, walk, configs }
    }
}

fn audit(setup: impl FnOnce(&mut Tree)) -> CommandReport {
    let mut tree = Tree::default();
    setup(&mut tree);
    augment_contract_config_peer_audit(&tree.snapshot(), CommandReport::new("audit repo"))
}

fn write_hhm_layout(root: &mut Tree) {
    root.write(
        "contracts/platform/typespec/main.tsp",
        "namespace Hhaus.Platform.V1;\nmodel Reservation { id: string; }\n",
    );
    root.write(
        "contracts/platform/json-schema/contract.schema.json",
        r#"{"$schema":"https://json-schema.org/draft/2020-12/schema","$id":"https://example.test/platform.schema.json","$defs":{"Reservation":{"type":"object","properties":{"id":{"type":"string"}},"required":["id"],"additionalProperties":false}}}"#,
    );
    root.write(
        "contracts/platform/contracts.config.json",
        r#"{"typespec":"typespec/main.tsp","jsonSchema":"json-schema/contract.schema.json","out":"../../generated/platform","target":"../../target/platform"}"#,
    );
}

fn has(report: &CommandReport, code: &str) -> bool {
    report.findings.iter().any(|finding| finding.code == code)
}

fn accepts_layout() {
    let report = audit(write_hhm_layout);
    assert_eq!(report.issue_count(), 0, "{:#?}", report.findings);
    assert_eq!(report.metadata_value("contractConfigValidPeerPairCount"), Some(1));
    assert!(has(&report, "contract-config-peer-authorities-inspected"));
}

fn missing_peer() {
    let report = audit(|root| {
        write_hhm_layout(root);
        root.write("contracts/platform/contracts.config.json", r#"{"typespec":"typespec/main.tsp"}"#);
    });
    assert!(has(&report, "contract-config-peer-field-missing"));
}

fn generated_source() {
    let report = audit(|root| {
        write_hhm_layout(root);
        root.write(
            "contracts/platform/generated/authored.schema.json",
            r#"{"$schema":"https://json-schema.org/draft/2020-12/schema"}"#,
        );
        root.write(
            "contracts/platform/contracts.config.json",
            r#"{"typespec":"typespec/main.tsp","jsonSchema":"generated/authored.schema.json"}"#,
        );
    });
    assert!(has(&report, "contract-config-generated-authority"));
}

fn alias_and_traversal() {
    let alias = audit(|root| {
        write_hhm_layout(root);
        root.write(
            "contracts/platform/contracts.config.json",
            r#"{"typespec":"typespec/main.tsp","jsonSchema":"typespec/main.tsp"}"#,
        );
    });
    assert!(has(&alias, "contract-config-peer-path-alias"));

    let traversal = audit(|root| {
        write_hhm_layout(root);
        root.write(
            "contracts/platform/contracts.config.json",
            r#"{"typespec":"../elsewhere/main.tsp","jsonSchema":"json-schema/contract.schema.json"}"#,
        );
    });
    assert!(has(&traversal, "contract-config-authority-path-unsafe"));
}

fn non_draft() {
    let report = audit(|root| {
        write_hhm_layout(root);
        root.write(
            "contracts/platform/json-schema/contract.schema.json",
            r#"{"$schema":"http://json-schema.org/draft-07/schema#"}"#,
        );
    });
    assert!(has(&report, "contract-config-json-schema-draft"));
}

fn symlinked_component() {
    let report = audit(|root| {
        write_hhm_layout(root);
        root.remove_dir("contracts/platform/typespec");
        root.write("real-typespec/main.tsp", "model Packet {}\n");
        root.symlink("contracts/platform/typespec", "real-typespec");
    });
    assert!(has(&report, "contract-config-authority-symlink"));
}

#[test]
fn contract_config_peers_accepts_hhm_split_peer_authority_layout() {
    accepts_layout();
}

#[test]
fn contract_config_peers_rejects_missing_independent_peer() {
    missing_peer();
}

#[test]
fn contract_config_peers_rejects_generated_source_masquerading_as_authority() {
    generated_source();
}

#[test]
fn contract_config_peers_rejects_path_alias_and_parent_traversal() {
    alias_and_traversal();
}

#[test]
fn contract_config_peers_rejects_non_draft_2020_12_schema() {
    non_draft();
}

#[test]
fn contract_config_peers_rejects_symlinked_authority_component() {
    symlinked_component();
}

#[test]
fn contract_config_peers_part3_accepts_hhm_split_peer_authority_layout() {
    accepts_layout();
}

#[test]
fn contract_config_peers_part3_rejects_missing_independent_peer() {
    missing_peer();
}

#[test]
fn contract_config_peers_part3_rejects_generated_source_masquerading_as_authority() {
    generated_source();
}

#[test]
fn contract_config_peers_part3_rejects_path_alias_and_parent_traversal() {
    alias_and_traversal();
}

#[test]
fn contract_config_peers_part3_rejects_non_draft_2020_12_schema() {
    non_draft();
}

#[test]
fn contract_config_peers_part3_rejects_symlinked_authority_component() {
    symlinked_component();
}

// Further cases.

#[test]
fn missing_contracts_directory_leaves_the_report_unchanged() {
    let report = audit(|root| root.write("README.md", "hello\n"));
    assert!(report.findings.is_empty());
    assert_eq!(report.metadata_value("contractConfigCandidateCount"), None);
}

#[test]
fn unreadable_contracts_root_is_reported() {
    let repo = ConfigRepository {
        root: RootProbe::Unreadable("permission denied".to_string()),
        walk: Vec::new(),
        configs: Vec::new(),
    };
    let report = augment_contract_config_peer_audit(&repo, CommandReport::new("audit repo"));
    assert_eq!(report.findings.len(), 1);
    assert_eq!(report.findings[0].code, "contract-config-root-unreadable");
    assert_eq!(
        report.findings[0].message,
        "contracts root metadata could not be read: permission denied"
    );
}

#[test]
fn summary_counts_clean_pairs() {
    let report = audit(|root| {
        write_hhm_layout(root);
        root.write("contracts/other/a.tsp", "model A {}\n");
        root.write(
            "contracts/other/b.json",
            r#"{"$schema":"https://json-schema.org/draft/2020-12/schema"}"#,
        );
        root.write(
            "contracts/other/contracts.config.json",
            r#"{"typespec":"a.tsp","jsonSchema":"b.json"}"#,
        );
    });
    assert_eq!(report.issue_count(), 0, "{:#?}", report.findings);
    assert_eq!(report.metadata_value("contractConfigCandidateCount"), Some(2));
    assert_eq!(report.metadata_value("contractConfigValidPeerPairCount"), Some(2));
    let last = report.findings.last().expect("summary");
    assert_eq!(last.severity, Severity::Info);
    assert_eq!(
        last.message,
        "inspected 2 config-declared TypeSpec/JSON Schema peer-authority pairs; semantic parity remains TJSV-owned"
    );
}

#[test]
fn invalid_config_json_and_shapes_are_reported() {
    let invalid = audit(|root| {
        write_hhm_layout(root);
        root.write("contracts/platform/contracts.config.json", "{not json");
    });
    assert!(has(&invalid, "contract-config-invalid-json"));
    assert_eq!(invalid.metadata_value("contractConfigValidPeerPairCount"), Some(0));

    let shape = audit(|root| {
        write_hhm_layout(root);
        root.write("contracts/platform/contracts.config.json", "[1, 2]");
    });
    assert!(has(&shape, "contract-config-root-shape"));

    let fields = audit(|root| {
        write_hhm_layout(root);
        root.write(
            "contracts/platform/contracts.config.json",
            r#"{"typespec": 3, "jsonSchema": "  "}"#,
        );
    });
    assert!(has(&fields, "contract-config-peer-field-shape"));
    assert!(has(&fields, "contract-config-peer-field-empty"));
}

#[test]
fn wrong_extensions_blank_typespec_and_conflict_markers_are_reported() {
    let report = audit(|root| {
        root.write("contracts/p/a.txt", "   \n");
        root.write(
            "contracts/p/b.yaml",
            "<<<<<<< ours\n{}\n=======\n{}\n>>>>>>> theirs\n",
        );
        root.write(
            "contracts/p/contracts.config.json",
            r#"{"typespec":"a.txt","jsonSchema":"b.yaml"}"#,
        );
    });
    assert!(has(&report, "contract-config-typespec-extension"));
    assert!(has(&report, "contract-config-json-schema-extension"));
    assert!(has(&report, "contract-config-typespec-empty"));
    let marker = report
        .findings
        .iter()
        .find(|f| f.code == "contract-config-json-schema-conflict-marker")
        .expect("conflict markers");
    assert_eq!(
        marker.message,
        "authored authority contains unresolved conflict markers: <<<<<<<, =======, >>>>>>>"
    );
    assert_eq!(marker.target.as_deref(), Some("contracts/p/b.yaml"));
    assert!(has(&report, "contract-config-json-schema-invalid"));
}

#[test]
fn missing_peer_file_is_reported_as_unreadable() {
    let report = audit(|root| {
        write_hhm_layout(root);
        root.write(
            "contracts/platform/contracts.config.json",
            r#"{"typespec":"typespec/missing.tsp","jsonSchema":"json-schema/contract.schema.json"}"#,
        );
    });
    let finding = report
        .findings
        .iter()
        .find(|f| f.code == "contract-config-authority-unreadable")
        .expect("unreadable authority");
    assert_eq!(
        finding.target.as_deref(),
        Some("contracts/platform/typespec/missing.tsp")
    );
}

#[test]
fn findings_and_severities() {
    let info = Finding::info("i", "m");
    assert!(!info.severity.is_issue());
    assert!(Finding::warning("w", "m").severity.is_issue());
    let error = Finding::error("e", "m").with_target("t");
    assert_eq!(error.severity, Severity::Error);
    assert_eq!(error.target.as_deref(), Some("t"));
    let mut report = CommandReport::new("audit repo");
    report.push(info);
    report.push(error);
    assert_eq!(report.issue_count(), 1);
    report.insert_metadata("k", 7);
    assert_eq!(report.metadata_value("k"), Some(7));
}

#[test]
fn generated_directories_are_not_walked() {
    let report = audit(|root| {
        write_hhm_layout(root);
        root.write("contracts/build/contracts.config.json", "{}");
    });
    assert_eq!(report.metadata_value("contractConfigCandidateCount"), Some(1));
    assert_eq!(report.issue_count(), 0, "{:#?}", report.findings);
}

#[test]
fn peer_members_must_be_non_empty_strings() {
    let target: Vec<char> = "contracts/a/contracts.config.json".chars().collect();
    let mut report = CommandReport::new("audit repo");
    let value = check_peer_member(JsonMember::Text("src/a.tsp".to_string()), "typespec", &target, &mut report);
    assert_eq!(value, Some("src/a.tsp".chars().collect::<Vec<char>>()));
    assert!(report.findings.is_empty());

    assert_eq!(check_peer_member(JsonMember::Missing, "typespec", &target, &mut report), None);
    assert_eq!(check_peer_member(JsonMember::NotText, "jsonSchema", &target, &mut report), None);
    assert_eq!(
        check_peer_member(JsonMember::Text(" \t".to_string()), "jsonSchema", &target, &mut report),
        None
    );
    let codes: Vec<&str> = report.findings.iter().map(|f| f.code.as_str()).collect();
    assert_eq!(
        codes,
        [
            "contract-config-peer-field-missing",
            "contract-config-peer-field-shape",
            "contract-config-peer-field-empty"
        ]
    );
    assert_eq!(
        report.findings[0].message,
        "contracts.config.json must declare the typespec peer-authority path"
    );
    assert_eq!(
        report.findings[1].message,
        "contracts.config.json field jsonSchema must be a non-empty string"
    );
    assert_eq!(
        report.findings[0].target.as_deref(),
        Some("contracts/a/contracts.config.json")
    );
}

#[test]
fn schema_member_must_declare_draft_2020_12() {
    let target: Vec<char> = "contracts/a/schema.json".chars().collect();
    let mut report = CommandReport::new("audit repo");
    check_schema_member(
        JsonMember::Text("https://json-schema.org/draft/2020-12/schema".to_string()),
        &target,
        &mut report,
    );
    assert!(report.findings.is_empty());
    check_schema_member(
        JsonMember::Text("https://json-schema.org/draft-07/schema".to_string()),
        &target,
        &mut report,
    );
    check_schema_member(JsonMember::Missing, &target, &mut report);
    check_schema_member(JsonMember::NotObject, &target, &mut report);
    check_schema_member(JsonMember::Invalid("EOF".to_string()), &target, &mut report);
    let codes: Vec<&str> = report.findings.iter().map(|f| f.code.as_str()).collect();
    assert_eq!(
        codes,
        [
            "contract-config-json-schema-draft",
            "contract-config-json-schema-draft",
            "contract-config-json-schema-root-shape",
            "contract-config-json-schema-invalid"
        ]
    );
    assert_eq!(
        report.findings[0].message,
        "config-declared JSON Schema must declare https://json-schema.org/draft/2020-12/schema"
    );
    assert_eq!(
        report.findings[3].message,
        "config-declared JSON Schema is not valid JSON: EOF"
    );
}

#[test]
fn config_root_must_be_a_json_object() {
    let target: Vec<char> = "contracts/a/contracts.config.json".chars().collect();
    let mut report = CommandReport::new("audit repo");
    assert!(check_config_root(JsonMember::Missing, &target, &mut report));
    assert!(check_config_root(JsonMember::Text("x".to_string()), &target, &mut report));
    assert!(report.findings.is_empty());
    assert!(!check_config_root(JsonMember::NotObject, &target, &mut report));
    assert!(!check_config_root(JsonMember::Invalid("bad".to_string()), &target, &mut report));
    let codes: Vec<&str> = report.findings.iter().map(|f| f.code.as_str()).collect();
    assert_eq!(codes, ["contract-config-root-shape", "contract-config-invalid-json"]);
    assert_eq!(
        report.findings[1].message,
        "contracts.config.json is not valid JSON: bad"
    );
}

#[test]
fn config_peer_values_read_the_declared_strings() {
    assert_eq!(
        config_peer_values(r#"{"jsonSchema":" ","typespec":"typespec/main.tsp"}"#),
        (Some("typespec/main.tsp".to_string()), None)
    );
    assert_eq!(config_peer_values(r#"{"typespec":7}"#), (None, None));
    assert_eq!(config_peer_values("[1, 2]"), (None, None));
    assert_eq!(config_peer_values("not json"), (None, None));
}

#[test]
fn findings_on_declared_paths_keep_their_spelling() {
    let report = audit(|root| {
        write_hhm_layout(root);
        root.write(
            "contracts/platform/contracts.config.json",
            r#"{"typespec":"typespec//missing.tsp","jsonSchema":"generated/./authored.schema.json"}"#,
        );
    });
    let unreadable = report
        .findings
        .iter()
        .find(|f| f.code == "contract-config-authority-unreadable")
        .expect("unreadable authority");
    assert_eq!(
        unreadable.target.as_deref(),
        Some("contracts/platform/typespec//missing.tsp")
    );
    let generated = report
        .findings
        .iter()
        .find(|f| f.code == "contract-config-generated-authority")
        .expect("generated authority");
    assert_eq!(
        generated.target.as_deref(),
        Some("contracts/platform/generated/./authored.schema.json")
    );
}

#[test]
fn extension_findings_keep_the_declared_spelling() {
    let report = audit(|root| {
        write_hhm_layout(root);
        root.write("contracts/platform/typespec/main.ts", "model A {}\n");
        root.write(
            "contracts/platform/contracts.config.json",
            r#"{"typespec":"typespec/./main.ts","jsonSchema":"json-schema//contract.schema.json"}"#,
        );
    });
    let finding = report
        .findings
        .iter()
        .find(|f| f.code == "contract-config-typespec-extension")
        .expect("extension finding");
    assert_eq!(finding.target.as_deref(), Some("contracts/platform/typespec/./main.ts"));
    assert_eq!(report.issue_count(), 1, "{:#?}", report.findings);
}

#[test]
fn only_safe_declared_paths_are_probed() {
    assert!(peer_path_probed("typespec/main.tsp"));
    assert!(peer_path_probed("typespec//./main.tsp"));
    assert!(!peer_path_probed("../outside/main.tsp"));
    assert!(!peer_path_probed("/etc/main.tsp"));
    assert!(!peer_path_probed("./main.tsp"));
    assert!(!peer_path_probed("generated/main.tsp"));
}
