//! Terminal scratchpad core: a verified Markdown/code rendering pipeline.
//!
//! The library turns one text block (Markdown with embedded code fences or
//! bare JSON) into a sequence of styled, width-padded display lines, and
//! memoizes the result per block title. Syntax highlighting is delegated to
//! the `syntect` grammar engine behind a small trusted boundary; everything
//! around it — line classification, fence handling, JSON close synthesis,
//! line numbering, padding, caching — is verified against a spec-level
//! model of the rendered text.

pub mod cache;
pub mod classify;
pub mod cli;
pub mod highlight;
pub mod laws;
pub mod popups;
pub mod renderer;
pub mod resolver;
pub mod storage;
pub mod style;
pub mod textutil;

pub use cli::Cli;
pub use cli::Commands;
pub use highlight::HighlightError;
pub use popups::EditCommandsPopup;
pub use popups::TitlePopup;
pub use popups::TitleSelectPopup;
pub use renderer::MarkdownRenderer;
pub use style::ColorKind;
pub use style::DisplayLine;
pub use style::RenderedBlock;
pub use style::StyleAttributes;
pub use style::StyledRun;
