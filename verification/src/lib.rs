//! The editor's built-in plugins: their state machines, parsers and rules.

pub mod annotation;
pub mod builtins;
pub mod bytes;
pub mod clipboard;
pub mod code_action;
pub mod code_lens;
pub mod completion;
pub mod contribution;
pub mod diagnostics;
pub mod doc;
pub mod document_highlight;
pub mod effect;
pub mod explorer;
pub mod find;
pub mod folding;
pub mod format;
pub mod git_nav;
pub mod hexview;
pub mod hover;
pub mod inlay_hints;
pub mod key;
pub mod lsp;
pub mod lsp_nav;
pub mod multicursor;
pub mod number;
pub mod order;
pub mod palette;
pub mod path;
pub mod pattern;
pub mod pdf;
pub mod place;
pub mod project_search;
pub mod protocol;
pub mod rename;
pub mod scm;
pub mod semantic_tokens;
pub mod signature_help;
pub mod snippet;
pub mod terminal;
pub mod text;
pub mod theme;
pub mod ui;
pub mod vim;
