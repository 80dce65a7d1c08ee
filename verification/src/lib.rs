//! A verified HTML document model: an arena-indexed node tree filled through
//! a tree-construction contract, queried with compiled CSS selectors, and
//! rendered back to HTML text.
//!
//! The tree lives in [`tree`]: one growable arena whose slots point at each
//! other with plain indices, and the construction operations an external
//! HTML5 tokenizer drives (create, append, insert-before, doctype,
//! diagnostics, quirks mode).  Construction never fails hard: malformed
//! markup only adds diagnostics.  [`selector`] compiles a CSS selector
//! subset against an exact grammar; [`matcher`] evaluates a compiled
//! selector on a node; [`query`] walks the arena in document order, forward
//! and in exact reverse; [`serializer`] renders a (sub)tree as HTML text;
//! [`extract`], [`answers`] and [`zhuanlans`] turn parsed pages into
//! Markdown.

pub mod answers;
pub mod errors;
pub mod extract;
pub mod matcher;
pub mod node;
pub mod query;
pub mod selector;
pub mod serializer;
pub mod text;
pub mod tree;
pub mod utils;
pub mod zhuanlans;

pub use answers::ZhihuAnswer;
pub use errors::ZhihuError;
pub use errors::ZhihuResult;
pub use node::Attribute;
pub use node::DoctypeData;
pub use node::ElementData;
pub use node::NodeKind;
pub use query::HtmlSelect;
pub use selector::Selector;
pub use selector::SelectorSyntaxError;
pub use serializer::TraversalScope;
pub use tree::Html;
pub use tree::QuirksMode;
pub use zhuanlans::ZhihuArticle;
