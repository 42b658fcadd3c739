//! Findings, severities and the report of the contract-config audit.
use vstd::prelude::*;

use crate::metadata::{insert_entry, lookup_entry, map_get, metadata_map, MetadataEntry};

verus! {

/// How serious a finding is.
#[derive(Clone, Copy, PartialEq, Eq, Structural, Debug)]
pub enum Severity {
    Info,
    Warning,
    Error,
}

impl Severity {
    /// Warnings and errors are issues; information is not.
    pub fn is_issue(self) -> (r: bool)
        ensures
            r == !(self is Info),
    {
        !matches!(self, Severity::Info)
    }
}

/// What a finding says.
pub struct Note {
    pub code: Seq<char>,
    pub severity: Severity,
    pub message: Seq<char>,
    pub target: Option<Seq<char>>,
}

/// One audit finding.
#[derive(Debug, Clone)]
pub struct Finding {
    pub code: String,
    pub severity: Severity,
    pub message: String,
    pub target: Option<String>,
}

impl View for Finding {
    type V = Note;

    open spec fn view(&self) -> Note {
        Note {
            code: self.code@,
            severity: self.severity,
            message: self.message@,
            target: match self.target {
                Some(t) => Some(t@),
                None => None,
            },
        }
    }
}

/// The notes of a sequence of findings.
pub open spec fn notes(s: Seq<Finding>) -> Seq<Note> {
    s.map_values(|f: Finding| f@)
}

/// A note with a target.
pub open spec fn targeted(
    severity: Severity,
    code: Seq<char>,
    message: Seq<char>,
    target: Seq<char>,
) -> Note {
    Note { code, severity, message, target: Some(target) }
}

/// The number of issues (warnings and errors) among notes.
pub open spec fn issues(ns: Seq<Note>) -> nat
    decreases ns.len(),
{
    if ns.len() == 0 {
        0
    } else {
        issues(ns.drop_last()) + if ns.last().severity is Info {
            0nat
        } else {
            1nat
        }
    }
}

pub proof fn lemma_issues_bound(ns: Seq<Note>)
    ensures
        issues(ns) <= ns.len(),
    decreases ns.len(),
{
    if ns.len() > 0 {
        lemma_issues_bound(ns.drop_last());
    }
}

impl Finding {
    /// A finding that is not an issue.
    pub fn info(code: &str, message: &str) -> (f: Finding)
        ensures
            f@ == (Note { code: code@, severity: Severity::Info, message: message@, target: None }),
    {
        Self::new(Severity::Info, code, message)
    }

    /// A warning.
    pub fn warning(code: &str, message: &str) -> (f: Finding)
        ensures
            f@ == (Note {
                code: code@,
                severity: Severity::Warning,
                message: message@,
                target: None,
            }),
    {
        Self::new(Severity::Warning, code, message)
    }

    /// An error.
    pub fn error(code: &str, message: &str) -> (f: Finding)
        ensures
            f@ == (Note { code: code@, severity: Severity::Error, message: message@, target: None }),
    {
        Self::new(Severity::Error, code, message)
    }

    fn new(severity: Severity, code: &str, message: &str) -> (f: Finding)
        ensures
            f@ == (Note { code: code@, severity, message: message@, target: None }),
    {
        Finding { code: code.to_owned(), severity, message: message.to_owned(), target: None }
    }

    /// The same finding, aimed at `target`.
    pub fn with_target(self, target: &str) -> (f: Finding)
        ensures
            f@ == (Note { target: Some(target@), ..self@ }),
    {
        Finding {
            code: self.code,
            severity: self.severity,
            message: self.message,
            target: Some(target.to_owned()),
        }
    }
}

/// The report of one audit command: its findings and count metadata.
#[derive(Debug, Clone)]
pub struct CommandReport {
    pub findings: Vec<Finding>,
    pub metadata: Vec<MetadataEntry>,
}

impl CommandReport {
    /// The metadata of the report, as a map.
    pub open spec fn meta(&self) -> Map<Seq<char>, u64> {
        metadata_map(self.metadata@)
    }

    /// An empty report; the command's name is not kept.
    pub fn new(_command: &str) -> (r: CommandReport)
        ensures
            r.findings@.len() == 0,
            r.meta() == Map::<Seq<char>, u64>::empty(),
    {
        CommandReport { findings: Vec::new(), metadata: Vec::new() }
    }

    /// Appends a finding.
    pub fn push(&mut self, finding: Finding)
        ensures
            final(self).findings@ == old(self).findings@.push(finding),
            notes(final(self).findings@) == notes(old(self).findings@).push(finding@),
            final(self).metadata == old(self).metadata,
    {
        let ghost f = finding@;
        self.findings.push(finding);
        assert(notes(self.findings@) =~= notes(old(self).findings@).push(f));
    }

    /// Sets the metadata value of `key`.
    pub fn insert_metadata(&mut self, key: &str, value: u64)
        ensures
            final(self).meta() == old(self).meta().insert(key@, value),
            final(self).findings == old(self).findings,
    {
        insert_entry(&mut self.metadata, key, value);
    }

    /// The metadata value of `key`, if set.
    pub fn metadata_value(&self, key: &str) -> (r: Option<u64>)
        ensures
            r == map_get(self.meta(), key@),
    {
        lookup_entry(&self.metadata, key)
    }

    /// The number of findings that are issues (warnings and errors).
    pub fn issue_count(&self) -> (n: usize)
        ensures
            n == issues(notes(self.findings@)),
    {
        let ghost ns = notes(self.findings@);
        let mut n: usize = 0;
        let mut i: usize = 0;
        assert(ns.take(0) =~= Seq::<Note>::empty());
        while i < self.findings.len()
            invariant
                i <= self.findings.len(),
                ns == notes(self.findings@),
                n == issues(ns.take(i as int)),
                n <= i,
            decreases self.findings.len() - i,
        {
            assert(ns.take(i + 1).drop_last() =~= ns.take(i as int));
            assert(ns.take(i + 1).last() == self.findings@[i as int]@);
            if self.findings[i].severity.is_issue() {
                n = n + 1;
            }
            i = i + 1;
        }
        assert(ns.take(self.findings.len() as int) =~= ns);
        n
    }

    /// The finished report.
    pub fn finalize(self) -> (r: CommandReport)
        ensures
            r == self,
    {
        self
    }
}

} // verus!
