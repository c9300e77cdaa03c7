//! The metadata the template and theme catalogs list, and their ordering.
//! The catalogs themselves are opaque JSON documents read and written
//! outside the crate; only their listed projections and order live here.

use vstd::prelude::*;
use crate::chartext::fold_chars;
use crate::tree::{lex_le, lex_le_names_pub};

verus! {

/// What the template catalog lists for one document template.
pub struct TemplateMetadata {
    pub id: String,
    pub name: String,
    pub description: String,
    pub category: String,
    pub icon: String,
    pub is_builtin: bool,
    pub is_custom: bool,
    pub updated_at: String,
}

/// The content metadata carried inside a template document.
pub struct TemplateContentMetadata {
    pub default_styles: Vec<String>,
    pub suggested_length: Option<String>,
    pub tags: Vec<String>,
}

/// What the theme catalog lists for one theme.
pub struct ThemeMetadata {
    pub id: String,
    pub name: String,
    pub description: String,
    pub is_builtin: bool,
    pub base: String,
}

/// Catalog order: case-insensitive name order.
pub fn template_le(a: &TemplateMetadata, b: &TemplateMetadata) -> (r: bool)
    ensures
        r == lex_le(fold_chars(a.name@), fold_chars(b.name@)),
{
    lex_le_names_pub(a.name.as_str(), b.name.as_str())
}

/// Catalog order: case-insensitive name order.
pub fn theme_le(a: &ThemeMetadata, b: &ThemeMetadata) -> (r: bool)
    ensures
        r == lex_le(fold_chars(a.name@), fold_chars(b.name@)),
{
    lex_le_names_pub(a.name.as_str(), b.name.as_str())
}

} // verus!
