//! The crate-wide error type.
use vstd::prelude::*;
use crate::text::{decimal, push_decimal, push_str};

verus! {

/// A schema-validation finding.
#[derive(Clone, Debug, PartialEq, Eq)]
pub struct ValidationError {
    /// What is wrong, in words.
    pub message: String,
}

/// A schema-validation error together with its input-state index.
#[derive(Clone, Debug, PartialEq, Eq)]
pub struct IndexedValidationError {
    /// The index of the invalid state in the apply input.
    pub state_index: usize,
    /// The validation error found for that state.
    pub error: ValidationError,
}

/// Errors from parsing, serializing, and apply-path preparation.
#[derive(Clone, Debug, PartialEq, Eq)]
pub enum Error {
    /// A YAML error from the parser or renderer; the message keeps the
    /// library's line/column context.
    Yaml(String),
    /// The input started a second YAML document with a `---` separator.
    MultiDocument,
    /// The input was empty or whitespace-only.
    EmptyInput,
    /// The top level of the document, or an element of its top-level list,
    /// was not a device mapping. Carries a description of the shape found.
    InvalidTopLevel(String),
    /// A `kind:` key whose value is neither `state` nor `policy`.
    UnknownKind(String),
    /// `kind: policy`: policy wrappers are parsed elsewhere.
    PolicyWrapperNotSupported,
    /// A `match:` section carried a key other than `name`, `type`, `driver`,
    /// `pci_path`, or `mac`.
    UnknownMatchKey(String),
    /// The `match:` section was not a mapping.
    MatchNotMapping,
    /// A mapping key had no string form (null, sequence, mapping or tagged).
    InvalidFieldKey(String),
    /// A `match:` field's value was not a string scalar.
    MatchValueNotString {
        /// The offending match field name.
        key: String,
    },
    /// Query-mode YAML must not carry an explicit non-empty `match:` section.
    UnexpectedMatch {
        /// The index of the offending state in the input list.
        state_index: usize,
    },
    /// Policy-mode YAML requires a non-empty selector.
    MissingMatch {
        /// The index of the offending state in the input list.
        state_index: usize,
    },
    /// A YAML scalar with no value variant (a float or null).
    UnsupportedScalar {
        /// A short description of the value's kind.
        kind: String,
    },
    /// Apply path: a state with an empty match lacks the field the match strategy needs.
    NoMatchField {
        /// The field the strategy looks for.
        field: String,
        /// The index of the offending state in the input list.
        state_index: usize,
    },
    /// A public state field conflicts with a YAML format key.
    ReservedFieldKey {
        /// The field name that collides with a reserved YAML key.
        key: String,
        /// The index of the offending state in the input list.
        state_index: usize,
    },
    /// Apply input or its prepared result failed schema validation.
    Validation(Vec<IndexedValidationError>),
}

/// The content of an [`Error`], texts as character sequences.
pub enum ErrorModel {
    Yaml(Seq<char>),
    MultiDocument,
    EmptyInput,
    InvalidTopLevel(Seq<char>),
    UnknownKind(Seq<char>),
    PolicyWrapperNotSupported,
    UnknownMatchKey(Seq<char>),
    MatchNotMapping,
    InvalidFieldKey(Seq<char>),
    MatchValueNotString(Seq<char>),
    UnexpectedMatch(usize),
    MissingMatch(usize),
    UnsupportedScalar(Seq<char>),
    NoMatchField(Seq<char>, usize),
    ReservedFieldKey(Seq<char>, usize),
    Validation(Seq<(usize, Seq<char>)>),
}

/// The content of a list of indexed validation errors.
pub open spec fn validation_models(v: Seq<IndexedValidationError>) -> Seq<(usize, Seq<char>)> {
    v.map_values(|e: IndexedValidationError| (e.state_index, e.error.message@))
}

impl View for Error {
    type V = ErrorModel;

    open spec fn view(&self) -> ErrorModel {
        match self {
            Error::Yaml(m) => ErrorModel::Yaml(m@),
            Error::MultiDocument => ErrorModel::MultiDocument,
            Error::EmptyInput => ErrorModel::EmptyInput,
            Error::InvalidTopLevel(s) => ErrorModel::InvalidTopLevel(s@),
            Error::UnknownKind(s) => ErrorModel::UnknownKind(s@),
            Error::PolicyWrapperNotSupported => ErrorModel::PolicyWrapperNotSupported,
            Error::UnknownMatchKey(s) => ErrorModel::UnknownMatchKey(s@),
            Error::MatchNotMapping => ErrorModel::MatchNotMapping,
            Error::InvalidFieldKey(s) => ErrorModel::InvalidFieldKey(s@),
            Error::MatchValueNotString { key } => ErrorModel::MatchValueNotString(key@),
            Error::UnexpectedMatch { state_index } => ErrorModel::UnexpectedMatch(*state_index),
            Error::MissingMatch { state_index } => ErrorModel::MissingMatch(*state_index),
            Error::UnsupportedScalar { kind } => ErrorModel::UnsupportedScalar(kind@),
            Error::NoMatchField { field, state_index } => ErrorModel::NoMatchField(field@, *state_index),
            Error::ReservedFieldKey { key, state_index } => ErrorModel::ReservedFieldKey(key@, *state_index),
            Error::Validation(v) => ErrorModel::Validation(validation_models(v@)),
        }
    }
}

/// The `; state <i>: <message>` parts of a validation failure, in order.
pub open spec fn validation_text(v: Seq<(usize, Seq<char>)>) -> Seq<char>
    decreases v.len(),
{
    if v.len() == 0 {
        Seq::empty()
    } else {
        validation_text(v.drop_last()) + "; state "@ + decimal(v.last().0 as nat) + ": "@ + v.last().1
    }
}

/// The human-readable message of an error.
pub open spec fn error_text(e: ErrorModel) -> Seq<char> {
    match e {
        ErrorModel::Yaml(m) => "YAML error: "@ + m,
        ErrorModel::MultiDocument => "input contains more than one YAML document ('---' separator); netfyr's format expresses multiple devices as a top-level list"@,
        ErrorModel::EmptyInput => "input is empty"@,
        ErrorModel::InvalidTopLevel(shape) => "invalid top level: expected a device mapping or a list of device mappings, found "@ + shape,
        ErrorModel::UnknownKind(kind) => "unknown kind '"@ + kind + "'; expected 'state' (or omit the key)"@,
        ErrorModel::PolicyWrapperNotSupported => "kind 'policy' documents are not parsed here; policy wrappers are handled by the policy parser"@,
        ErrorModel::UnknownMatchKey(key) => "unknown match field '"@ + key + "'; valid fields are: name, type, driver, pci_path, mac"@,
        ErrorModel::MatchNotMapping => "the 'match' section must be a mapping of field names to string values"@,
        ErrorModel::MatchValueNotString(key) => "match field '"@ + key + "' must be a string"@,
        ErrorModel::UnexpectedMatch(i) => "state at index "@ + decimal(i as nat) + " has a match section, which is not allowed in query YAML"@,
        ErrorModel::MissingMatch(i) => "state at index "@ + decimal(i as nat) + " has no match section, which is required in policy YAML"@,
        ErrorModel::InvalidFieldKey(shape) => "invalid field key (found "@ + shape + "); keys must be strings or numbers"@,
        ErrorModel::UnsupportedScalar(kind) => "unsupported YAML value of type "@ + kind + "; quote the value to store it as a string"@,
        ErrorModel::NoMatchField(field, i) => "state at index "@ + decimal(i as nat) + " has no '"@ + field + "' field, which is needed to generate its match"@,
        ErrorModel::ReservedFieldKey(key, i) => "state at index "@ + decimal(i as nat) + " has field '"@ + key + "', but 'match', 'type', and 'kind' are reserved top-level YAML keys"@,
        ErrorModel::Validation(v) => "schema validation failed"@ + validation_text(v),
    }
}

impl Error {
    /// The human-readable message of the error (what it displays as).
    pub fn to_text(&self) -> (r: String)
        ensures
            r@ == error_text(self@),
    {
        let mut s = String::new();
        match self {
            Error::Yaml(m) => {
                push_str(&mut s, "YAML error: ");
                push_str(&mut s, m.as_str());
            },
            Error::MultiDocument => push_str(&mut s, "input contains more than one YAML document ('---' separator); netfyr's format expresses multiple devices as a top-level list"),
            Error::EmptyInput => push_str(&mut s, "input is empty"),
            Error::InvalidTopLevel(shape) => {
                push_str(&mut s, "invalid top level: expected a device mapping or a list of device mappings, found ");
                push_str(&mut s, shape.as_str());
            },
            Error::UnknownKind(kind) => {
                push_str(&mut s, "unknown kind '");
                push_str(&mut s, kind.as_str());
                push_str(&mut s, "'; expected 'state' (or omit the key)");
            },
            Error::PolicyWrapperNotSupported => push_str(&mut s, "kind 'policy' documents are not parsed here; policy wrappers are handled by the policy parser"),
            Error::UnknownMatchKey(key) => {
                push_str(&mut s, "unknown match field '");
                push_str(&mut s, key.as_str());
                push_str(&mut s, "'; valid fields are: name, type, driver, pci_path, mac");
            },
            Error::MatchNotMapping => push_str(&mut s, "the 'match' section must be a mapping of field names to string values"),
            Error::MatchValueNotString { key } => {
                push_str(&mut s, "match field '");
                push_str(&mut s, key.as_str());
                push_str(&mut s, "' must be a string");
            },
            Error::UnexpectedMatch { state_index } => {
                push_str(&mut s, "state at index ");
                push_decimal(&mut s, *state_index as u64);
                push_str(&mut s, " has a match section, which is not allowed in query YAML");
            },
            Error::MissingMatch { state_index } => {
                push_str(&mut s, "state at index ");
                push_decimal(&mut s, *state_index as u64);
                push_str(&mut s, " has no match section, which is required in policy YAML");
            },
            Error::InvalidFieldKey(shape) => {
                push_str(&mut s, "invalid field key (found ");
                push_str(&mut s, shape.as_str());
                push_str(&mut s, "); keys must be strings or numbers");
            },
            Error::UnsupportedScalar { kind } => {
                push_str(&mut s, "unsupported YAML value of type ");
                push_str(&mut s, kind.as_str());
                push_str(&mut s, "; quote the value to store it as a string");
            },
            Error::NoMatchField { field, state_index } => {
                push_str(&mut s, "state at index ");
                push_decimal(&mut s, *state_index as u64);
                push_str(&mut s, " has no '");
                push_str(&mut s, field.as_str());
                push_str(&mut s, "' field, which is needed to generate its match");
            },
            Error::ReservedFieldKey { key, state_index } => {
                push_str(&mut s, "state at index ");
                push_decimal(&mut s, *state_index as u64);
                push_str(&mut s, " has field '");
                push_str(&mut s, key.as_str());
                push_str(&mut s, "', but 'match', 'type', and 'kind' are reserved top-level YAML keys");
            },
            Error::Validation(errors) => {
                push_str(&mut s, "schema validation failed");
                let ghost start = s@;
                let mut i: usize = 0;
                while i < errors.len()
                    invariant
                        i <= errors.len(),
                        s@ == start + validation_text(validation_models(errors@).take(i as int)),
                    decreases errors.len() - i,
                {
                    let e = &errors[i];
                    push_str(&mut s, "; state ");
                    push_decimal(&mut s, e.state_index as u64);
                    push_str(&mut s, ": ");
                    push_str(&mut s, e.error.message.as_str());
                    proof {
                        let t = validation_models(errors@).take(i + 1);
                        assert(t.drop_last() =~= validation_models(errors@).take(i as int));
                    }
                    i = i + 1;
                }
                assert(validation_models(errors@).take(errors.len() as int) =~= validation_models(errors@));
            },
        }
        assert(s@ =~= error_text(self@));
        s
    }
}

} // verus!
