//! Conversion core for turning a parsed office-document tree into
//! Markdown/HTML-hybrid text: style resolution, list numbering, table grid
//! reconstruction, reference registration, and paragraph assembly.

pub mod ast;
pub mod context;
pub mod convert;
pub mod escape;
pub mod extractor;
pub mod error;
pub mod hyperlink;
pub mod image;
pub mod localization;
pub mod model;
pub mod numbering;
pub mod paragraph;
pub mod renderer;
pub mod run;
pub mod segment;
pub mod styles;
pub mod table;
pub mod text;

pub use ast::BlockNode;
pub use ast::DocumentAst;
pub use ast::ReferenceDefinitions;
pub use convert::DocxToMarkdown;
pub use error::Error;
pub use localization::DefaultLocalization;
pub use localization::KoreanLocalization;
pub use localization::LocalizationStrategy;

use vstd::prelude::*;

verus! {

/// Options for a conversion.
#[derive(Clone, Debug)]
pub struct ConvertOptions {
    /// How images in the document are handled.
    pub image_handling: ImageHandling,
    /// Whether exact whitespace is preserved.
    pub preserve_whitespace: bool,
    /// Whether underlined text uses an HTML tag.
    pub html_underline: bool,
    /// Whether struck text uses an HTML tag.
    pub html_strikethrough: bool,
    /// Whether a reference without a definition fails the whole conversion.
    pub strict_reference_validation: bool,
}

impl Default for ConvertOptions {
    fn default() -> (r: ConvertOptions)
        ensures
            r.image_handling is Inline,
            !r.preserve_whitespace,
            r.html_underline,
            !r.html_strikethrough,
            !r.strict_reference_validation,
    {
        ConvertOptions {
            image_handling: ImageHandling::Inline,
            preserve_whitespace: false,
            html_underline: true,
            html_strikethrough: false,
            strict_reference_validation: false,
        }
    }
}

/// How images are handled during conversion.
#[derive(Clone, Debug)]
pub enum ImageHandling {
    /// Write images into a directory and reference them by path.
    SaveToDir(String),
    /// Embed images as base64 data URIs.
    Inline,
    /// Skip images entirely.
    Skip,
}

} // verus!
