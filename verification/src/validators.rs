//! Decision logic of the input validators. The file-system and database
//! probes themselves are I/O and live with the caller; each validator
//! here takes the probe results as plain facts and decides exactly
//! which verdict the original prompts showed for them.

use vstd::prelude::*;

use crate::paths::spec_normalize_path;
use crate::paths::normalize_path_str;

verus! {

/// What a validator answers: the input is accepted, or refused with a
/// message.
pub enum Verdict {
    Valid,
    Invalid(String),
}

impl Verdict {
    /// Whether the input was accepted.
    pub fn is_valid(&self) -> (r: bool)
        ensures
            r == (self is Valid),
    {
        match self {
            Verdict::Valid => true,
            Verdict::Invalid(_) => false,
        }
    }
}

/// Validates a database path answer: optionally empty, else it must
/// name an existing file that opens as a database.
pub enum Database {
    Required,
    Optional,
}

impl Database {
    /// Whether an empty answer is accepted.
    pub fn is_optional(&self) -> (r: bool)
        ensures
            r == (self is Optional),
    {
        matches!(*self, Self::Optional)
    }

    /// The verdict on one answer, given the probe results for its
    /// normalized form: whether a file exists there, and whether it
    /// opens as a healthy database.
    pub fn decide(&self, path: &String, path_exists: bool, database_opens: bool) -> (r: Verdict)
        ensures
            ({
                let normalized = spec_normalize_path(path@);
                if self is Optional && path@.len() == 0 {
                    r is Valid
                } else if normalized.len() == 0 {
                    r matches Verdict::Invalid(m) && m@ == "Path is required!"@
                } else if !path_exists {
                    r matches Verdict::Invalid(m) && m@ == "Could not find database at path!"@
                } else if !database_opens {
                    r matches Verdict::Invalid(m) && m@ == "File is not a valid database!"@
                } else {
                    r is Valid
                }
            }),
    {
        if self.is_optional() && path.as_str().unicode_len() == 0 {
            return Verdict::Valid;
        }
        let normalized = normalize_path_str(path.as_str());
        if normalized.as_str().unicode_len() == 0 {
            return Verdict::Invalid(String::from_str("Path is required!"));
        }
        if !path_exists {
            return Verdict::Invalid(String::from_str("Could not find database at path!"));
        }
        if !database_opens {
            return Verdict::Invalid(String::from_str("File is not a valid database!"));
        }
        Verdict::Valid
    }
}

/// Validates a directory path answer: optionally empty, else it must
/// name an existing directory.
pub enum Directory {
    Required,
    Optional,
}

impl Directory {
    /// Whether an empty answer is accepted.
    pub fn is_optional(&self) -> (r: bool)
        ensures
            r == (self is Optional),
    {
        matches!(*self, Self::Optional)
    }

    /// The verdict on one answer, given whether its normalized form
    /// names an existing directory.
    pub fn decide(&self, path: &String, is_dir: bool) -> (r: Verdict)
        ensures
            if self is Optional && path@.len() == 0 {
                r is Valid
            } else if is_dir {
                r is Valid
            } else {
                r matches Verdict::Invalid(m) && m@ == "Directory does not exist!"@
            },
    {
        if self.is_optional() && path.as_str().unicode_len() == 0 {
            return Verdict::Valid;
        }
        if is_dir {
            Verdict::Valid
        } else {
            Verdict::Invalid(String::from_str("Directory does not exist!"))
        }
    }
}

/// Validates an output path answer: optionally empty, else its parent
/// directory must exist and nothing may sit at the path yet.
pub enum Target {
    OptionalDirExists,
}

impl Target {
    /// The verdict on one answer, given whether the parent directory of
    /// its normalized form is a directory and whether something already
    /// exists at the path.
    pub fn decide(&self, path: &String, parent_is_dir: bool, path_exists: bool) -> (r: Verdict)
        ensures
            if path@.len() == 0 {
                r is Valid
            } else if !parent_is_dir {
                r matches Verdict::Invalid(m) && m@ == "Parent directory does not exist!"@
            } else if path_exists {
                r matches Verdict::Invalid(m) && m@ == "File already exists at path!"@
            } else {
                r is Valid
            },
    {
        if path.as_str().unicode_len() == 0 {
            return Verdict::Valid;
        }
        match (parent_is_dir, path_exists) {
            (true, false) => Verdict::Valid,
            (true, true) => Verdict::Invalid(String::from_str("File already exists at path!")),
            (false, _) => Verdict::Invalid(String::from_str("Parent directory does not exist!")),
        }
    }
}

} // verus!
