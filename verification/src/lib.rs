//! Translation keys, dictionaries and the places in source code that use them.
use vstd::prelude::*;

pub mod analysis;
pub mod arguments;
pub mod chars;
pub mod commands;
pub mod completion;
pub mod config;
pub mod diagnostics;
pub mod dictionary;
pub mod edit;
pub mod index;
pub mod issue;
pub mod json;
pub mod key;
pub mod laws;
pub mod line_index;
pub mod lookup;
pub mod names;
pub mod navigation;
pub mod path;
pub mod pattern;
pub mod position;
pub mod protocol;
pub mod search;
pub mod server;
pub mod sort;
pub mod source;
pub mod status;
pub mod syntax;
pub mod text;
pub mod urls;
pub mod workspace;

pub use analysis::{analyze_source, analyze_source_with_namespace};
pub use completion::{CompletionCandidate, CompletionContext};
pub use config::{Config, ConfigError, FullKeyFunctionConfig, ScopedFunctionConfig};
pub use dictionary::{
    parse_dictionary, parse_dictionary_ignoring, DictionaryEntry, DictionaryError, EntryKind,
};
pub use index::{FileContribution, IndexSnapshot};
pub use key::{CanonicalKey, QualifiedKey};
pub use line_index::LineIndex;
pub use pattern::{DictionaryIdentity, DictionaryPattern};
pub use source::{OccurrenceKind, ScopeBinding, SourceOccurrence};
pub use workspace::{DictionaryIssue, WorkspaceIndex, WorkspacePreferences};

verus! {

/// A range of bytes in a text.
#[derive(Debug, PartialEq, Eq)]
pub struct ByteRange(pub std::ops::Range<usize>);

impl DeepView for ByteRange {
    type V = (usize, usize);

    open spec fn deep_view(&self) -> (usize, usize) {
        (self.0.start, self.0.end)
    }
}

impl Clone for ByteRange {
    fn clone(&self) -> (copy: Self)
        ensures
            copy == *self,
    {
        ByteRange::new(self.0.start, self.0.end)
    }
}

impl ByteRange {
    pub fn new(start: usize, end: usize) -> (range: Self)
        ensures
            range.0.start == start,
            range.0.end == end,
    {
        ByteRange(start..end)
    }

    /// Whether a cursor at `offset` touches the range: at its end, too.
    pub fn contains(&self, offset: usize) -> (found: bool)
        ensures
            found == (self.0.start <= offset <= self.0.end),
    {
        self.0.start <= offset && offset <= self.0.end
    }
}

} // verus!
