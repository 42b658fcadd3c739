use std::collections::BTreeMap;

use ores_cli::authority_write::audit::{
    audit_file, augment_authority_write_protection_audit, config_declared_paths, declared_value, AuthorityRepository,
    ConfigSnapshot, SourceSnapshot,
};
use ores_cli::authority_write::model::{CommandReport, Finding};
use ores_cli::authority_write::sources::should_descend_exec;
use ores_cli::json::JsonMember;
use ores_cli::shell::{clean_token_chars, line_writes_authority_chars};
use ores_cli::snapshot::{FileMeta, TreeEntry, WalkStep};

/// An in-memory repository: files by repository-relative path.
struct Tree {
    files: BTreeMap<String, String>,
}

const ROOT: [&str; 2] = ["srv", "repository"];

impl Tree {
    fn new(files: &[(&str, &str)]) -> Tree {
        Tree {
            files: files
                .iter()
                .map(|(p, c)| (p.to_string(), c.to_string()))
                .collect(),
        }
    }

    fn is_dir(&self, path: &str) -> bool {
        let prefix = format!("{path}/");
        self.files.keys().any(|k| k.starts_with(&prefix))
    }

    fn children(&self, path: &str) -> Vec<String> {
        let prefix = format!("{path}/");
        let mut names: Vec<String> = self
            .files
            .keys()
            .filter_map(|k| k.strip_prefix(&prefix))
            .map(|rest| rest.split('/').next().unwrap().to_string())
            .collect();
        names.sort();
        names.dedup();
        names
    }

    /// The walk of `path`, sorted by file name, pruned by `should_descend`.
    fn walk(&self, path: &str, out: &mut Vec<WalkStep>) {
        let name = path.rsplit('/').next().unwrap();
        let is_dir = self.is_dir(path);
        if !should_descend_exec(name, is_dir) {
            return;
        }
        out.push(WalkStep::Entry(TreeEntry {
            path: path.split('/').map(str::to_string).collect(),
            is_file: !is_dir,
            is_dir,
            is_symlink: false,
        }));
        if is_dir {
            for child in self.children(path) {
                self.walk(&format!("{path}/{child}"), out);
            }
        }
    }

    fn canonical(&self, path: &str) -> Option<Vec<String>> {
        let mut parts: Vec<String> = Vec::new();
        for part in path.split('/') {
            match part {
                "" | "." => {}
                ".." => {
                    parts.pop()?;
                }
                other => parts.push(other.to_string()),
            }
        }
        let joined = parts.join("/");
        if !self.files.contains_key(&joined) && !self.is_dir(&joined) {
            return None;
        }
        Some(ROOT.iter().map(|s| s.to_string()).chain(parts).collect())
    }

    fn snapshot(&self) -> AuthorityRepository {
        let contracts_is_dir = self.is_dir("contracts");
        let mut contract_walk = Vec::new();
        if contracts_is_dir {
            self.walk("contracts", &mut contract_walk);
        }
        let mut configs = Vec::new();
        for step in &contract_walk {
            if let WalkStep::Entry(entry) = step {
                if entry.is_file && entry.path.last().unwrap() == "contracts.config.json" {
                    let path = entry.path.join("/");
                    let text = self.files[&path].clone();
                    let home = entry.path[..entry.path.len() - 1].join("/");
                    let resolved = config_declared_paths(&text)
                        .iter()
                        .map(|value| self.canonical(&format!("{home}/{value}")))
                        .collect();
                    configs.push(ConfigSnapshot {
                        metadata: Some(FileMeta {
                            len: text.len() as u64,
                            is_file: true,
                            is_dir: false,
                            is_symlink: false,
                        }),
                        text: Some(text),
                        resolved,
                    });
                }
            }
        }
        let mut scan_walks = Vec::new();
        let mut sources = Vec::new();
        for root in [".github/workflows", "scripts", "tools"] {
            let mut walk = Vec::new();
            if self.is_dir(root) {
                self.walk(root, &mut walk);
            }
            for step in &walk {
                if let WalkStep::Entry(entry) = step {
                    if entry.is_file {
                        let text = self.files[&entry.path.join("/")].clone();
                        sources.push(SourceSnapshot {
                            path: entry.path.clone(),
                            metadata: Ok(text.len() as u64),
                            text: Ok(text),
                        });
                    }
                }
            }
            scan_walks.push(walk);
        }
        AuthorityRepository {
            contracts_is_dir,
            contract_walk,
            configs,
            canonical_root: Some(ROOT.iter().map(|s| s.to_string()).collect()),
            scan_walks,
            sources,
        }
    }
}

fn pair() -> [(&'static str, &'static str); 2] {
    [
        ("contracts/account/main.tsp", "model Account {}\n"),
        (
            "contracts/account/authored.schema.json",
            r#"{"$schema":"https://json-schema.org/draft/2020-12/schema","type":"object"}"#,
        ),
    ]
}

fn audit(authorities: &[(&str, &str)], path: &str, content: &str) -> CommandReport {
    let mut files: Vec<(&str, &str)> = authorities.to_vec();
    files.push((path, content));
    let repo = Tree::new(&files).snapshot();
    augment_authority_write_protection_audit(&repo, CommandReport::new("audit repo"))
}

fn rejected(report: &CommandReport) -> bool {
    report
        .findings
        .iter()
        .any(|finding| finding.code == "peer-authority-direct-write")
}

#[test]
fn rejects_shell_overwrite_of_authored_json_schema() {
    let report = audit(
        &pair(),
        "scripts/generate.sh",
        "cp generated/schema.json contracts/account/authored.schema.json\n",
    );
    assert!(rejected(&report));
}

#[test]
fn rejects_shell_overwrite_of_authored_typespec() {
    let report = audit(
        &pair(),
        ".github/workflows/ci.yml",
        "run: cat generated.tsp > contracts/account/main.tsp\n",
    );
    assert!(rejected(&report));
}

#[test]
fn rejects_programmatic_write_to_authored_peer() {
    for source in [
        "fs.writeFileSync('contracts/account/authored.schema.json', body);\n",
        "std::fs::write(\"contracts/account/main.tsp\", body)?;\n",
        "Path('contracts/account/main.tsp').write_text(body)\n",
    ] {
        let report = audit(&pair(), "tools/generate.py", source);
        assert!(rejected(&report));
    }
}

#[test]
fn allows_tjsv_reads_and_generated_json_output() {
    let report = audit(
        &pair(),
        ".github/workflows/contracts.yml",
        "run: tjsv check --typespec=contracts/account/main.tsp --schema=contracts/account/authored.schema.json --output-dir=.typespec-json-schema-validator/account/generated\n",
    );
    assert_eq!(report.issue_count(), 0, "{:#?}", report.findings);
}

#[test]
fn output_flag_is_rejected_only_when_its_value_is_an_authority() {
    let allowed = audit(
        &pair(),
        "scripts/check-peers.sh",
        "tool --input contracts/account/main.tsp --output generated/result.json\n",
    );
    assert_eq!(allowed.issue_count(), 0, "{:#?}", allowed.findings);

    let rejected_report = audit(
        &pair(),
        "scripts/generate.sh",
        "tool --input generated/schema.json --output=contracts/account/authored.schema.json\n",
    );
    assert!(rejected(&rejected_report));
}

#[test]
fn redirect_is_rejected_only_when_its_target_is_an_authority() {
    let allowed = audit(
        &pair(),
        "scripts/check-peers.sh",
        "cat contracts/account/main.tsp > evidence/main.sha-source\n",
    );
    assert_eq!(allowed.issue_count(), 0, "{:#?}", allowed.findings);

    let rejected_report = audit(
        &pair(),
        "scripts/generate.sh",
        "cat generated.tsp > contracts/account/main.tsp\n",
    );
    assert!(rejected(&rejected_report));
}

#[test]
fn allows_hash_and_compare_of_both_authored_peers() {
    let report = audit(
        &pair(),
        "scripts/check-peers.sh",
        "sha256sum contracts/account/main.tsp contracts/account/authored.schema.json\ncmp contracts/account/authored.schema.json evidence/authored.before.json\n",
    );
    assert_eq!(report.issue_count(), 0, "{:#?}", report.findings);
}

#[test]
fn allows_copying_authored_peers_into_named_negative_control_fixtures() {
    let report = audit(
        &pair(),
        ".github/workflows/ci.yml",
        "cp contracts/account/main.tsp \"$RUNNER_TEMP/account-typespec-drift.tsp\"\ncp contracts/account/authored.schema.json \"$RUNNER_TEMP/account-schema-drift.json\"\n",
    );
    assert_eq!(report.issue_count(), 0, "{:#?}", report.findings);
}

#[test]
fn still_rejects_directory_transfers_that_can_replace_canonical_peers() {
    for line in [
        "cp -f \"$RUNNER_TEMP/drift.tsp\" contracts/account/main.tsp",
        "install -m 0644 generated/schema.json contracts/account/authored.schema.json",
        "mv contracts/account/authored.schema.json \"$RUNNER_TEMP/moved.json\"",
        "cp generated/main.tsp contracts/account/",
        "cp generated/main.tsp \"$RUNNER_TEMP\"",
        "cp -t contracts/account generated/main.tsp",
        "cp generated/main.tsp generated/authored.schema.json contracts/account",
    ] {
        let report = audit(&pair(), "scripts/generate.sh", &format!("{line}\n"));
        assert!(
            rejected(&report),
            "expected rejection for {line}: {:#?}",
            report.findings
        );
    }
}

#[test]
fn protects_flat_split_authority_names() {
    let authorities = [
        ("contracts/typespec/package.tsp", "model Package {}\n"),
        (
            "contracts/json-schema/package.schema.json",
            r#"{"$schema":"https://json-schema.org/draft/2020-12/schema","type":"object"}"#,
        ),
    ];
    for line in [
        "cp /tmp/package.tsp contracts/typespec/package.tsp",
        "tool --output contracts/json-schema/package.schema.json",
    ] {
        let report = audit(&authorities, "scripts/generate.sh", &format!("{line}\n"));
        assert!(rejected(&report), "{line}: {:#?}", report.findings);
    }
}

#[test]
fn config_declared_custom_json_schema_is_protected() {
    let authorities = [
        (
            "contracts/account/contracts.config.json",
            r#"{"typespec":"src/account.tsp","jsonSchema":"schema/account.json"}"#,
        ),
        ("contracts/account/src/account.tsp", "model Account {}\n"),
        (
            "contracts/account/schema/account.json",
            r#"{"$schema":"https://json-schema.org/draft/2020-12/schema","type":"object"}"#,
        ),
    ];
    let report = audit(
        &authorities,
        "tools/write.mjs",
        "writeFileSync('contracts/account/schema/account.json', body);\n",
    );
    assert!(rejected(&report));
}

#[test]
fn generated_schema_b_is_not_an_authored_write_target() {
    let mut authorities = pair().to_vec();
    authorities.push((
        "contracts/account/generated/typespec.generated.schema.json",
        r#"{"$schema":"https://json-schema.org/draft/2020-12/schema"}"#,
    ));
    let report = audit(
        &authorities,
        "scripts/generate.sh",
        "cp /tmp/schema.json contracts/account/generated/typespec.generated.schema.json\n",
    );
    assert_eq!(report.issue_count(), 0, "{:#?}", report.findings);
}

#[test]
fn ignores_commented_write_examples() {
    let report = audit(
        &pair(),
        "scripts/check-peers.sh",
        "# cp generated/schema.json contracts/account/authored.schema.json\n// fs.writeFileSync('contracts/account/main.tsp', body);\n",
    );
    assert_eq!(report.issue_count(), 0, "{:#?}", report.findings);
}

// The repository-level scenarios.

fn run(files: &[(&str, &str)]) -> CommandReport {
    augment_authority_write_protection_audit(
        &Tree::new(files).snapshot(),
        CommandReport::new("audit repo"),
    )
}

#[test]
fn flat_peer_directory_transfer_is_rejected() {
    let report = run(&[
        ("contracts/typespec/package.tsp", "model Package { name: string; }\n"),
        (
            "contracts/json-schema/package.schema.json",
            r#"{"$schema":"https://json-schema.org/draft/2020-12/schema","type":"object"}"#,
        ),
        ("scripts/generate.sh", "cp /tmp/package.tsp contracts/typespec/\n"),
    ]);
    assert!(
        rejected(&report),
        "flat TypeSpec authority was not protected: {:#?}",
        report.findings
    );
}

#[test]
fn config_declared_custom_schema_write_is_rejected() {
    let report = run(&[
        (
            "contracts/iam/contracts.config.json",
            r#"{"typespec":"source/iam.tsp","jsonSchema":"schema/account.json"}"#,
        ),
        ("contracts/iam/source/iam.tsp", "model IamPolicy { enabled: boolean; }\n"),
        (
            "contracts/iam/schema/account.json",
            r#"{"$schema":"https://json-schema.org/draft/2020-12/schema","type":"object"}"#,
        ),
        (
            "tools/rewrite.mjs",
            "writeFileSync('contracts/iam/schema/account.json', body);\n",
        ),
    ]);
    assert!(
        rejected(&report),
        "config-declared custom JSON Schema authority was not protected: {:#?}",
        report.findings
    );
}

#[test]
fn peer_reads_with_unrelated_output_are_not_writes() {
    let report = run(&[
        ("contracts/iam/main.tsp", "model IamPolicy { enabled: boolean; }\n"),
        (
            "contracts/iam/authored.schema.json",
            r#"{"$schema":"https://json-schema.org/draft/2020-12/schema","type":"object"}"#,
        ),
        (
            ".github/workflows/contracts.yml",
            "run: tjsv check --typespec=contracts/iam/main.tsp --schema=contracts/iam/authored.schema.json --output=.typespec-json-schema-validator/iam/report.json\n",
        ),
    ]);
    assert_eq!(report.issue_count(), 0, "{:#?}", report.findings);
    assert_eq!(
        report.metadata_value("peerAuthorityWriteProtectionAuthorityCount"),
        Some(2)
    );
}

// Further cases.

#[test]
fn direct_write_is_reported_at_file_and_line() {
    let report = audit(
        &pair(),
        "scripts/generate.sh",
        "echo start\n\ncp generated/schema.json contracts/account/authored.schema.json\n",
    );
    let finding: &Finding = report
        .findings
        .iter()
        .find(|finding| finding.code == "peer-authority-direct-write")
        .expect("direct write");
    assert_eq!(finding.target.as_deref(), Some("scripts/generate.sh:3"));
    assert_eq!(
        report.metadata_value("peerAuthorityWriteProtectionViolationCount"),
        Some(1)
    );
    assert_eq!(
        report.metadata_value("peerAuthorityWriteProtectionFileCount"),
        Some(1)
    );
}

#[test]
fn violation_count_equals_direct_write_findings() {
    let report = audit(
        &pair(),
        "scripts/generate.sh",
        "cp a.json contracts/account/authored.schema.json\ncat x > ./contracts/account/main.tsp\r\ntool -o $GITHUB_WORKSPACE/contracts/account/main.tsp\n",
    );
    let writes = report
        .findings
        .iter()
        .filter(|finding| finding.code == "peer-authority-direct-write")
        .count() as u64;
    assert_eq!(writes, 3);
    assert_eq!(
        report.metadata_value("peerAuthorityWriteProtectionViolationCount"),
        Some(writes)
    );
}

#[test]
fn no_authorities_means_no_scan_and_no_metadata() {
    let report = run(&[("scripts/generate.sh", "cp a contracts/x/main.tsp\n")]);
    assert!(report.findings.is_empty());
    assert_eq!(
        report.metadata_value("peerAuthorityWriteProtectionAuthorityCount"),
        None
    );
}

#[test]
fn files_under_generated_directories_are_not_scanned() {
    let report = audit(
        &pair(),
        "scripts/vendor/generate.sh",
        "cp generated/schema.json contracts/account/authored.schema.json\n",
    );
    assert_eq!(report.issue_count(), 0, "{:#?}", report.findings);
    assert_eq!(
        report.metadata_value("peerAuthorityWriteProtectionFileCount"),
        Some(0)
    );
}

#[test]
fn unreadable_oversized_and_non_utf8_sources_are_reported() {
    let mut repo = Tree::new(&pair()).snapshot();
    let mk = |name: &str, metadata: Result<u64, String>, text: Result<String, String>| {
        SourceSnapshot {
            path: vec!["scripts".to_string(), name.to_string()],
            metadata,
            text,
        }
    };
    let entry = |name: &str| {
        WalkStep::Entry(TreeEntry {
            path: vec!["scripts".to_string(), name.to_string()],
            is_file: true,
            is_dir: false,
            is_symlink: false,
        })
    };
    repo.scan_walks[1] = vec![entry("a.sh"), entry("b.sh"), entry("c.sh")];
    repo.sources = vec![
        mk("a.sh", Err("denied".to_string()), Err(String::new())),
        mk("b.sh", Ok(3 * 1024 * 1024), Err(String::new())),
        mk("c.sh", Ok(4), Err("invalid utf-8".to_string())),
    ];
    let report = augment_authority_write_protection_audit(&repo, CommandReport::new("audit repo"));
    let codes: Vec<&str> = report.findings.iter().map(|f| f.code.as_str()).collect();
    assert_eq!(
        codes,
        vec![
            "peer-authority-write-file-unreadable",
            "peer-authority-write-file-too-large",
            "peer-authority-write-file-not-utf8",
        ]
    );
    assert_eq!(
        report.findings[0].message,
        "automation source metadata could not be read: denied"
    );
    assert_eq!(report.findings[1].target.as_deref(), Some("scripts/b.sh"));
}

#[test]
fn walk_errors_are_reported() {
    let mut repo = Tree::new(&pair()).snapshot();
    repo.contract_walk.push(WalkStep::Failed {
        message: "permission denied".to_string(),
        path: None,
    });
    repo.scan_walks[2].push(WalkStep::Failed {
        message: "loop".to_string(),
        path: None,
    });
    let report = augment_authority_write_protection_audit(&repo, CommandReport::new("audit repo"));
    assert_eq!(report.findings.len(), 2);
    assert_eq!(report.findings[0].code, "peer-authority-write-discovery-failed");
    assert_eq!(report.findings[0].target.as_deref(), Some("contracts"));
    assert_eq!(
        report.findings[0].message,
        "part of the contracts tree could not be inspected: permission denied"
    );
    assert_eq!(report.findings[1].code, "peer-authority-write-scan-failed");
    assert_eq!(report.findings[1].target.as_deref(), Some("tools"));
}

#[test]
fn earlier_findings_are_kept() {
    let mut files = pair().to_vec();
    files.push(("scripts/a.sh", "cp x contracts/account/main.tsp\n"));
    let mut report = CommandReport::new("audit repo");
    report.push(Finding::error("earlier", "kept"));
    let report = augment_authority_write_protection_audit(&Tree::new(&files).snapshot(), report);
    assert_eq!(report.findings[0].code, "earlier");
    assert_eq!(report.findings.len(), 2);
    assert_eq!(report.command, "audit repo");
}

#[test]
fn report_metadata_reads_back_what_was_written() {
    let mut report = CommandReport::new("audit repo");
    report.insert_metadata("a", 1);
    report.insert_metadata("b", 2);
    report.insert_metadata("a", 3);
    assert_eq!(report.metadata_value("a"), Some(3));
    assert_eq!(report.metadata_value("b"), Some(2));
    assert_eq!(report.metadata_value("c"), None);
    assert_eq!(report.issue_count(), 0);
    let finding = Finding::warning("w", "message").with_target("t");
    assert_eq!(finding.target.as_deref(), Some("t"));
    report.push(finding);
    assert_eq!(report.issue_count(), 1);
}

#[test]
fn configs_declare_string_paths_in_field_order() {
    assert_eq!(
        config_declared_paths(r#"{"jsonSchema":"schema/a.json","typespec":"src/a.tsp","out":"x"}"#),
        vec!["src/a.tsp".to_string(), "schema/a.json".to_string()]
    );
    assert_eq!(config_declared_paths(r#"{"typespec":["a"],"jsonSchema":"b.json"}"#), vec!["b.json".to_string()]);
    assert!(config_declared_paths("{").is_empty());
    assert_eq!(declared_value(&JsonMember::Text("a.tsp".to_string())), Some(vec!['a', '.', 't', 's', 'p']));
    assert_eq!(declared_value(&JsonMember::NotText), None);
    assert_eq!(declared_value(&JsonMember::Missing), None);
}

fn chars(s: &str) -> Vec<char> {
    s.chars().collect()
}

#[test]
fn every_command_of_a_chained_line_is_checked() {
    let authorities = vec![
        chars("contracts/account/main.tsp"),
        chars("contracts/account/authored.schema.json"),
    ];
    let line = chars("cp a.txt b.txt && cp generated/main.tsp contracts/account/main.tsp");
    assert!(line_writes_authority_chars(&line, &authorities));
    assert!(line_writes_authority_chars(
        &chars("echo ok; mv contracts/account/authored.schema.json /tmp/x.json"),
        &authorities
    ));
    assert!(line_writes_authority_chars(
        &chars("cp a.txt b.txt | install -m 0644 x.tsp contracts/account/main.tsp"),
        &authorities
    ));
    assert!(!line_writes_authority_chars(
        &chars("cp a.txt b.txt && echo contracts/account/main.tsp"),
        &authorities
    ));
    let report = audit(
        &pair(),
        "scripts/generate.sh",
        "cp a.txt b.txt && cp generated/main.tsp contracts/account/main.tsp\n",
    );
    assert!(rejected(&report));
}

#[test]
fn cleaned_tokens_stay_clean() {
    assert_eq!(clean_token_chars(&chars("(x),")), chars("x"));
    assert_eq!(clean_token_chars(&clean_token_chars(&chars("\"'a;b'\";"))), clean_token_chars(&chars("\"'a;b'\";")));
    assert_eq!(clean_token_chars(&chars("'a;b'")), chars("a;b"));
    assert_eq!(clean_token_chars(&chars("(),;")), chars(""));
}

#[test]
fn one_finding_per_rejected_line_in_order() {
    let authorities = vec![chars("contracts/account/main.tsp")];
    let source = SourceSnapshot {
        path: vec!["scripts".to_string(), "gen.sh".to_string()],
        metadata: Ok(10),
        text: Ok("cp x contracts/account/main.tsp\n# cp x contracts/account/main.tsp\necho fine\n  cat y > contracts/account/main.tsp\n".to_string()),
    };
    let mut report = CommandReport::new("audit repo");
    report.push(Finding::error("earlier", "kept"));
    let count = audit_file(&source, &chars("scripts/gen.sh"), &authorities, &mut report);
    assert_eq!(count, 2);
    let targets: Vec<Option<&str>> = report.findings.iter().map(|f| f.target.as_deref()).collect();
    assert_eq!(targets, [None, Some("scripts/gen.sh:1"), Some("scripts/gen.sh:4")]);
    assert_eq!(report.findings[0].code, "earlier");
}
