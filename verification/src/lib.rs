//! Conversion of an already-parsed HTML node tree into Markdown text.
//!
//! The crate models the document as a tree of typed nodes, selects a
//! replacement rule for each element from an ordered rule table, and renders
//! the tree bottom-up, joining fragments with blank-line aware separators.

pub mod commonmark_rules;
pub mod laws;
pub mod node;
pub mod rules;
pub mod text;
pub mod turndown;
pub mod utilities;

pub use commonmark_rules::get_rules;
pub use rules::FilterPredicate;
pub use rules::Replacement;
pub use rules::Rule;
pub use rules::RuleFilter;
pub use rules::Rules;
pub use turndown::CodeBlockStyle;
pub use turndown::HeadingStyle;
pub use turndown::LinkReferenceStyle;
pub use turndown::LinkStyle;
pub use turndown::ListContext;
pub use turndown::ListKind;
pub use turndown::Turndown;
pub use turndown::TurndownOptions;
pub use node::Node;
pub use node::NodeType;
pub use utilities::clean_attribute;
pub use utilities::collapse_whitespace;
pub use utilities::is_block;
pub use utilities::is_meaningful_when_blank;
pub use utilities::is_tracking_image;
pub use utilities::is_void;
pub use utilities::FlankingWhitespace;
pub use utilities::repeat;
pub use utilities::trim_leading_newlines;
pub use utilities::trim_newlines;
pub use utilities::trim_trailing_newlines;
