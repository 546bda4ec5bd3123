//! Theme catalogue entries.
use vstd::prelude::*;
use std::collections::HashMap;

verus! {

/// Colours shown in a theme's preview swatch.
pub struct PreviewColors {
    pub background: String,
    pub text: String,
    pub accent: String,
    pub border: String,
}

/// A built-in theme: its names, author, CSS variables and preview colours.
pub struct ThemeDefinition {
    pub name: String,
    pub display_name: String,
    pub description: String,
    pub author: String,
    pub variables: HashMap<String, String>,
    pub preview_colors: PreviewColors,
}

} // verus!
