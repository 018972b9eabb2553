//! The ways a run can fail.

use crate::table::Text;
use vstd::prelude::*;
use vstd::string::StringExecFns;

verus! {

/// Why a run was given up.
#[derive(Debug, PartialEq, Eq)]
pub enum RunError {
    /// The mapping source is not a sequence of flat string mappings.
    MappingSource { message: String },
    /// The document text is not a document.
    Document { message: String },
    /// The document cannot be written out as text.
    Render { message: String },
    /// An element of the list `field` has the name `name`, which the table lacks.
    MissingTranslation { field: String, name: String },
    /// An element of the list `field` has a name that is not a string.
    NameNotString { field: String },
}

/// The model of a [`RunError`].
pub enum RunErrorView {
    MappingSource { message: Text },
    Document { message: Text },
    Render { message: Text },
    MissingTranslation { field: Text, name: Text },
    NameNotString { field: Text },
}

impl View for RunError {
    type V = RunErrorView;

    open spec fn view(&self) -> RunErrorView {
        match self {
            RunError::MappingSource { message } => RunErrorView::MappingSource {
                message: message@,
            },
            RunError::Document { message } => RunErrorView::Document { message: message@ },
            RunError::Render { message } => RunErrorView::Render { message: message@ },
            RunError::MissingTranslation { field, name } => RunErrorView::MissingTranslation {
                field: field@,
                name: name@,
            },
            RunError::NameNotString { field } => RunErrorView::NameNotString { field: field@ },
        }
    }
}

impl Clone for RunError {
    /// A copy with the same texts.
    fn clone(&self) -> (copy: Self)
        ensures
            copy@ == self@,
    {
        match self {
            RunError::MappingSource { message } => RunError::MappingSource {
                message: message.clone(),
            },
            RunError::Document { message } => RunError::Document { message: message.clone() },
            RunError::Render { message } => RunError::Render { message: message.clone() },
            RunError::MissingTranslation { field, name } => RunError::MissingTranslation {
                field: field.clone(),
                name: name.clone(),
            },
            RunError::NameNotString { field } => RunError::NameNotString { field: field.clone() },
        }
    }
}

/// The words for an error.
pub open spec fn message_of(error: RunErrorView) -> Text {
    match error {
        RunErrorView::MappingSource { message } => {
            "the translations are not a list of string mappings: "@ + message
        },
        RunErrorView::Document { message } => "the input is not a document: "@ + message,
        RunErrorView::Render { message } => "the document cannot be written as text: "@ + message,
        RunErrorView::MissingTranslation { field, name } => "no translation for the name '"@ + name
            + "' in the list "@ + field,
        RunErrorView::NameNotString { field } => "a name in the list "@ + field
            + " is not a string"@,
    }
}

impl RunError {
    /// What went wrong, in words: the step that failed, and the name where a
    /// name is at fault.
    pub fn message(&self) -> (text: String)
        ensures
            text@ == message_of(self@),
    {
        match self {
            RunError::MappingSource { message } => {
                "the translations are not a list of string mappings: ".to_owned().concat(
                    message.as_str(),
                )
            },
            RunError::Document { message } => {
                "the input is not a document: ".to_owned().concat(message.as_str())
            },
            RunError::Render { message } => {
                "the document cannot be written as text: ".to_owned().concat(message.as_str())
            },
            RunError::MissingTranslation { field, name } => {
                "no translation for the name '".to_owned().concat(name.as_str()).concat(
                    "' in the list ",
                ).concat(field.as_str())
            },
            RunError::NameNotString { field } => {
                "a name in the list ".to_owned().concat(field.as_str()).concat(" is not a string")
            },
        }
    }
}

} // verus!
