//! Findings and the report of the authority-write audit.
use vstd::prelude::*;

use crate::metadata::{insert_entry, lookup_entry, map_get, metadata_map, MetadataEntry};

verus! {

/// What a finding says: its code, message and optional target.
pub struct Note {
    pub code: Seq<char>,
    pub message: Seq<char>,
    pub target: Option<Seq<char>>,
}

/// One audit finding. Every finding of this audit is an issue.
#[derive(Debug, Clone)]
pub struct Finding {
    pub code: String,
    pub message: String,
    pub target: Option<String>,
}

impl View for Finding {
    type V = Note;

    open spec fn view(&self) -> Note {
        Note {
            code: self.code@,
            message: self.message@,
            target: match self.target {
                Some(t) => Some(t@),
                None => None,
            },
        }
    }
}

/// The notes of a sequence of findings.
pub open spec fn notes(s: Seq<Finding>) -> Seq<Note> {
    s.map_values(|f: Finding| f@)
}

/// A note with no target.
pub open spec fn note(code: Seq<char>, message: Seq<char>) -> Note {
    Note { code, message, target: None }
}

/// A note with a target.
pub open spec fn targeted(code: Seq<char>, message: Seq<char>, target: Seq<char>) -> Note {
    Note { code, message, target: Some(target) }
}

impl Finding {
    /// An error finding with the given code and message.
    pub fn error(code: &str, message: &str) -> (f: Finding)
        ensures
            f@ == note(code@, message@),
    {
        Finding { code: code.to_owned(), message: message.to_owned(), target: None }
    }

    /// A warning finding; this audit reports warnings as errors.
    pub fn warning(code: &str, message: &str) -> (f: Finding)
        ensures
            f@ == note(code@, message@),
    {
        Self::error(code, message)
    }

    /// The same finding, aimed at `target`.
    pub fn with_target(self, target: &str) -> (f: Finding)
        ensures
            f@ == targeted(self@.code, self@.message, target@),
    {
        Finding { code: self.code, message: self.message, target: Some(target.to_owned()) }
    }
}

/// The report of one audit command: its findings and count metadata.
#[derive(Debug, Clone)]
pub struct CommandReport {
    pub command: String,
    pub findings: Vec<Finding>,
    pub metadata: Vec<MetadataEntry>,
}

impl CommandReport {
    /// The metadata of the report, as a map.
    pub open spec fn meta(&self) -> Map<Seq<char>, u64> {
        metadata_map(self.metadata@)
    }

    /// An empty report for `command`.
    pub fn new(command: &str) -> (r: CommandReport)
        ensures
            r.command@ == command@,
            r.findings@.len() == 0,
            r.meta() == Map::<Seq<char>, u64>::empty(),
    {
        CommandReport { command: command.to_owned(), findings: Vec::new(), metadata: Vec::new() }
    }

    /// Appends a finding.
    pub fn push(&mut self, finding: Finding)
        ensures
            final(self).findings@ == old(self).findings@.push(finding),
            notes(final(self).findings@) == notes(old(self).findings@).push(finding@),
            final(self).command == old(self).command,
            final(self).metadata == old(self).metadata,
    {
        let ghost f = finding@;
        self.findings.push(finding);
        assert(notes(self.findings@) =~= notes(old(self).findings@).push(f));
    }

    /// The number of issues: every finding of this audit is one.
    pub fn issue_count(&self) -> (n: usize)
        ensures
            n == self.findings@.len(),
    {
        self.findings.len()
    }

    /// Sets the metadata value of `key`.
    pub fn insert_metadata(&mut self, key: &str, value: u64)
        ensures
            final(self).meta() == old(self).meta().insert(key@, value),
            final(self).command == old(self).command,
            final(self).findings == old(self).findings,
    {
        insert_entry(&mut self.metadata, key, value);
    }

    /// The metadata value of `key`, if set.
    pub fn metadata_value(&self, key: &str) -> (r: Option<u64>)
        ensures
            r == map_get(self.meta(), key@),
    {
        lookup_entry(&self.metadata, key)
    }

    /// The finished report.
    pub fn finalize(self) -> (r: CommandReport)
        ensures
            r == self,
    {
        self
    }
}

} // verus!
