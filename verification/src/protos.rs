//! Data model of a vector tile and its encoding.

use vstd::prelude::*;

pub mod vector_tile;
pub mod wire;

verus! {

/// Value of a property of a feature: a string or a 64-bit signed integer.
#[derive(Debug)]
pub enum PropertyValue {
    /// String value.
    String(String),
    /// Integer value.
    I64(i64),
}

/// What a [`PropertyValue`] holds, as a mathematical value.
pub enum PropertyValueView {
    String(Seq<char>),
    I64(i64),
}

impl View for PropertyValue {
    type V = PropertyValueView;

    open spec fn view(&self) -> PropertyValueView {
        match self {
            PropertyValue::String(s) => PropertyValueView::String(s@),
            PropertyValue::I64(n) => PropertyValueView::I64(*n),
        }
    }
}

impl PropertyValue {
    /// Returns the string if the value is one.
    pub fn get_string(&self) -> (string: Option<&String>)
        ensures
            match string {
                Some(s) => self@ == PropertyValueView::String(s@),
                None => self@ is I64,
            },
    {
        match self {
            PropertyValue::String(s) => Some(s),
            PropertyValue::I64(_) => None,
        }
    }

    /// Returns the integer if the value is one.
    pub fn get_i64(&self) -> (integer: Option<i64>)
        ensures
            match integer {
                Some(n) => self@ == PropertyValueView::I64(n),
                None => self@ is String,
            },
    {
        match self {
            PropertyValue::String(_) => None,
            PropertyValue::I64(n) => Some(*n),
        }
    }
}

} // verus!
