//! Inline-marker rewriting for AI Pocket Reference book chapters.
//!
//! The library scans a chapter body for two kinds of inline markers and
//! rewrites each recognized occurrence in place:
//!
//! - directive markers of the form `{{ #aipr_header key=value,... }}`, which
//!   expand to a chapter header block (edit link, optional Colab badge,
//!   optional reading time), and
//! - Markdown links `[text](url)`, which expand to an HTML anchor when the
//!   URL uses an `http://` or `https://` scheme.
//!
//! Escaped markers (`\{{#...}}`, and links preceded by `\` or `!`), unknown
//! directive names, and links with other URL schemes are copied through
//! verbatim.  Template rendering is delegated to the handlebars engine; a
//! rendering failure aborts the whole rewrite and is reported to the caller.

pub mod chars;
pub mod digits;
pub mod render;
pub mod replace;
pub mod scan_aipr;
pub mod scan_md;
pub mod settings;

pub use render::{ColabNB, ReadingTime, RenderFailure, AIPR_HEADER_TEMPLATE, MDLINK_TEMPLATE};
pub use replace::{replace_all, replace_all_aipr_links, replace_all_md_links};
pub use scan_aipr::{find_aipr_links, AIPRLink, AIPRLinkType};
pub use scan_md::{find_md_links, MDLink};
pub use settings::{AIPRHeaderSettings, _parse_param_str};

use vstd::prelude::*;

verus! {

/// Rewrites AI Pocket Reference markers in book chapters.
///
/// The supported directive is `{{#aipr_header <param-str>}}`, which adds the
/// chapter header block (the parameter string is optional).
pub struct AIPRPreprocessor;

impl AIPRPreprocessor {
    /// Create a new `AIPRPreprocessor`.
    pub fn new() -> Self {
        AIPRPreprocessor
    }

    /// The name under which the preprocessor is registered.
    pub fn name(&self) -> (r: &'static str)
        ensures
            r@ == "ai-pocket-reference"@,
    {
        "ai-pocket-reference"
    }
}

impl Default for AIPRPreprocessor {
    fn default() -> Self {
        AIPRPreprocessor
    }
}

} // verus!
