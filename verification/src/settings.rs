//! What a caller can configure.

use vstd::prelude::*;

verus! {

/// The depth to which elements may nest unless the caller says otherwise.
pub const DEFAULT_MAX_NESTING_DEPTH: usize = 256;

/// The options of a parse.
#[derive(Debug, Clone, Copy, PartialEq, Eq, Structural)]
pub struct ParserSettings {
    /// The number of chunks decoded at the same time; 1 decodes in line.
    pub thread_count: usize,
    /// Whether a checksum that does not match is an error.
    pub validate_checksums: bool,
    /// A hint to output collaborators: attributes go beside their element.
    pub separate_attributes_in_output: bool,
    /// The greatest depth to which elements may nest.
    pub max_nesting_depth: usize,
}

impl ParserSettings {
    /// The defaults: one thread, checksums not validated, attributes kept
    /// with their element, and the default depth limit.
    pub fn new() -> (r: Self)
        ensures
            r == (ParserSettings {
                thread_count: 1,
                validate_checksums: false,
                separate_attributes_in_output: false,
                max_nesting_depth: DEFAULT_MAX_NESTING_DEPTH,
            }),
    {
        ParserSettings {
            thread_count: 1,
            validate_checksums: false,
            separate_attributes_in_output: false,
            max_nesting_depth: DEFAULT_MAX_NESTING_DEPTH,
        }
    }

    /// These settings with the given degree of parallelism. Zero is taken as
    /// one.
    pub fn num_threads(self, n: usize) -> (r: Self)
        ensures
            r == (ParserSettings {
                thread_count: if n == 0 {
                    1
                } else {
                    n
                },
                ..self
            }),
    {
        ParserSettings {
            thread_count: if n == 0 {
                1
            } else {
                n
            },
            ..self
        }
    }

    /// These settings with checksum validation switched on or off.
    pub fn validate_checksums(self, validate: bool) -> (r: Self)
        ensures
            r == (ParserSettings { validate_checksums: validate, ..self }),
    {
        ParserSettings { validate_checksums: validate, ..self }
    }

    /// These settings with the hint for output collaborators set.
    pub fn separate_json_attributes(self, separate: bool) -> (r: Self)
        ensures
            r == (ParserSettings { separate_attributes_in_output: separate, ..self }),
    {
        ParserSettings { separate_attributes_in_output: separate, ..self }
    }

    /// These settings with the given depth limit.
    pub fn max_nesting_depth(self, depth: usize) -> (r: Self)
        ensures
            r == (ParserSettings { max_nesting_depth: depth, ..self }),
    {
        ParserSettings { max_nesting_depth: depth, ..self }
    }

    /// The degree of parallelism.
    pub fn get_num_threads(&self) -> (n: usize)
        ensures
            n == self.thread_count,
    {
        self.thread_count
    }

    /// Whether a checksum that does not match is an error.
    pub fn should_validate_checksums(&self) -> (b: bool)
        ensures
            b == self.validate_checksums,
    {
        self.validate_checksums
    }

    /// The hint for output collaborators.
    pub fn should_separate_json_attributes(&self) -> (b: bool)
        ensures
            b == self.separate_attributes_in_output,
    {
        self.separate_attributes_in_output
    }

    /// The depth limit.
    pub fn get_max_nesting_depth(&self) -> (d: usize)
        ensures
            d == self.max_nesting_depth,
    {
        self.max_nesting_depth
    }
}

} // verus!
