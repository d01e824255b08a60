//! Descriptions of Discord modals as plain values: the form that a button
//! opens, with its text fields.

use vstd::prelude::*;
use crate::text::owned;

verus! {

/// One text field of a modal.
#[derive(Debug, Clone, PartialEq, Eq)]
pub struct ModalField {
    pub custom_id: String,
    pub label: String,
    pub placeholder: String,
    /// Prefilled content.
    pub value: Option<String>,
    pub required: bool,
    pub min_length: u16,
    pub max_length: u16,
    /// Multi-line input.
    pub paragraph: bool,
}

/// A modal: its id, title and fields in order.
#[derive(Debug, Clone, PartialEq, Eq)]
pub struct ModalSpec {
    pub custom_id: String,
    pub title: String,
    pub fields: Vec<ModalField>,
}

/// The field has exactly these settings and no prefilled value.
pub open spec fn plain_field(
    f: ModalField,
    custom_id: Seq<char>,
    label: Seq<char>,
    placeholder: Seq<char>,
    required: bool,
    min_length: u16,
    max_length: u16,
    paragraph: bool,
) -> bool {
    &&& f.custom_id@ == custom_id
    &&& f.label@ == label
    &&& f.placeholder@ == placeholder
    &&& f.value is None
    &&& f.required == required
    &&& f.min_length == min_length
    &&& f.max_length == max_length
    &&& f.paragraph == paragraph
}

/// A field without prefilled value.
pub fn plain_modal_field(
    custom_id: &str,
    label: &str,
    placeholder: &str,
    required: bool,
    min_length: u16,
    max_length: u16,
    paragraph: bool,
) -> (f: ModalField)
    ensures
        plain_field(
            f,
            custom_id@,
            label@,
            placeholder@,
            required,
            min_length,
            max_length,
            paragraph,
        ),
{
    ModalField {
        custom_id: owned(custom_id),
        label: owned(label),
        placeholder: owned(placeholder),
        value: None,
        required,
        min_length,
        max_length,
        paragraph,
    }
}

} // verus!
