//! Structured errors: table validation conflicts and command-line option
//! mistakes, each naming the offending identifiers.

use vstd::prelude::*;

verus! {

/// Mathematical view of an error.
pub ghost enum ErrV {
    /// Two rules claim the same `prefix`; both rule names are reported.
    PrefixConflict { prefix: Seq<char>, name: Seq<char>, other: Seq<char> },
    /// A mapping key of rule `name` collides with a match-key already owned
    /// by rule `other`.
    MappingKeyConflict { key: Seq<char>, name: Seq<char>, other: Seq<char> },
    /// The name of a mapping-less rule collides with a match-key already
    /// owned by rule `other`.
    NameConflict { name: Seq<char>, other: Seq<char> },
    /// Two command records share a name.
    CommandDuplicate { name: Seq<char> },
    /// A command name collides with a match-key owned by rule `other`.
    CommandConflict { name: Seq<char>, other: Seq<char> },
    /// A file option was given without a following path argument.
    MissingFileArg { opt: Seq<char> },
    /// The delimiter option was given without a following delimiter.
    MissingDelimArg,
    /// A command generator was registered twice under one name.
    DupCommand { name: Seq<char> },
    /// A requested command has no registered generator.
    CommandNotRegistered { name: Seq<char> },
    /// A command's required keyword was not collected.
    RequirementMissing { name: Seq<char> },
}

/// A structured validation or option error.
#[derive(Debug, Clone, PartialEq, Eq)]
pub enum ZmError {
    PrefixConflict { prefix: String, name: String, other: String },
    MappingKeyConflict { key: String, name: String, other: String },
    NameConflict { name: String, other: String },
    CommandDuplicate { name: String },
    CommandConflict { name: String, other: String },
    MissingFileArg { opt: String },
    MissingDelimArg,
    DupCommand { name: String },
    CommandNotRegistered { name: String },
    RequirementMissing { name: String },
}

impl View for ZmError {
    type V = ErrV;

    open spec fn view(&self) -> ErrV {
        match self {
            ZmError::PrefixConflict { prefix, name, other } => ErrV::PrefixConflict {
                prefix: prefix@,
                name: name@,
                other: other@,
            },
            ZmError::MappingKeyConflict { key, name, other } => ErrV::MappingKeyConflict {
                key: key@,
                name: name@,
                other: other@,
            },
            ZmError::NameConflict { name, other } => ErrV::NameConflict {
                name: name@,
                other: other@,
            },
            ZmError::CommandDuplicate { name } => ErrV::CommandDuplicate { name: name@ },
            ZmError::CommandConflict { name, other } => ErrV::CommandConflict {
                name: name@,
                other: other@,
            },
            ZmError::MissingFileArg { opt } => ErrV::MissingFileArg { opt: opt@ },
            ZmError::MissingDelimArg => ErrV::MissingDelimArg,
            ZmError::DupCommand { name } => ErrV::DupCommand { name: name@ },
            ZmError::CommandNotRegistered { name } => ErrV::CommandNotRegistered { name: name@ },
            ZmError::RequirementMissing { name } => ErrV::RequirementMissing { name: name@ },
        }
    }
}

/// The human-readable text of an error, naming the offending identifiers.
pub open spec fn spec_message(e: ErrV) -> Seq<char> {
    match e {
        ErrV::PrefixConflict { prefix, name, other } => ("Prefix Error: prefix `")@ + prefix + (
        "` of \"")@ + name + ("\" conflicts with one of \"")@ + other + ("\"")@,
        ErrV::MappingKeyConflict { key, name, other } => ("Keyword Error: keyword `")@ + key + (
        "` in mapping of \"")@ + name + ("\" conflicts with keyword \"")@ + other + ("\"")@,
        ErrV::NameConflict { name, other } => ("Keyword Error: keyword `")@ + name + (
        "` conflict with \"")@ + other + ("\"")@,
        ErrV::CommandDuplicate { name } => ("Command Error: command name `")@ + name + (
        "` already exists")@,
        ErrV::CommandConflict { name, other } => ("Command Error: command name `")@ + name + (
        "` conflicts with \"")@ + other + ("\"")@,
        ErrV::MissingFileArg { opt } => ("Option Error: option `")@ + opt + (
        "` requires a path to configuration file but not given.")@,
        ErrV::MissingDelimArg => (
        "Option Error: option `--show_keyword_with` requires the delimitor excluding \"--\" but not given."
        )@,
        ErrV::DupCommand { name } => ("dup command: ")@ + name,
        ErrV::CommandNotRegistered { name } => ("not registerred: ")@ + name,
        ErrV::RequirementMissing { name } => ("not req: ")@ + name,
    }
}

impl ZmError {
    /// The error as one structured, human-readable line.
    pub fn message(&self) -> (r: String)
        ensures
            r@ == spec_message(self@),
    {
        let mut s = String::new();
        match self {
            ZmError::PrefixConflict { prefix, name, other } => {
                s.append("Prefix Error: prefix `");
                s.append(prefix.as_str());
                s.append("` of \"");
                s.append(name.as_str());
                s.append("\" conflicts with one of \"");
                s.append(other.as_str());
                s.append("\"");
            },
            ZmError::MappingKeyConflict { key, name, other } => {
                s.append("Keyword Error: keyword `");
                s.append(key.as_str());
                s.append("` in mapping of \"");
                s.append(name.as_str());
                s.append("\" conflicts with keyword \"");
                s.append(other.as_str());
                s.append("\"");
            },
            ZmError::NameConflict { name, other } => {
                s.append("Keyword Error: keyword `");
                s.append(name.as_str());
                s.append("` conflict with \"");
                s.append(other.as_str());
                s.append("\"");
            },
            ZmError::CommandDuplicate { name } => {
                s.append("Command Error: command name `");
                s.append(name.as_str());
                s.append("` already exists");
            },
            ZmError::CommandConflict { name, other } => {
                s.append("Command Error: command name `");
                s.append(name.as_str());
                s.append("` conflicts with \"");
                s.append(other.as_str());
                s.append("\"");
            },
            ZmError::MissingFileArg { opt } => {
                s.append("Option Error: option `");
                s.append(opt.as_str());
                s.append("` requires a path to configuration file but not given.");
            },
            ZmError::MissingDelimArg => {
                s.append(
                    "Option Error: option `--show_keyword_with` requires the delimitor excluding \"--\" but not given.",
                );
            },
            ZmError::DupCommand { name } => {
                s.append("dup command: ");
                s.append(name.as_str());
            },
            ZmError::CommandNotRegistered { name } => {
                s.append("not registerred: ");
                s.append(name.as_str());
            },
            ZmError::RequirementMissing { name } => {
                s.append("not req: ");
                s.append(name.as_str());
            },
        }
        proof {
            assert(s@ =~= spec_message(self@));
        }
        s
    }
}

} // verus!
