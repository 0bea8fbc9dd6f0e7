//! Expressive, composable assertions: a value is put through matchers, and a
//! matcher that fails explains why in styled output.
//!
//! What each matcher decides, what it hands on to the next one and what its
//! formatter writes are specified and verified; see `matcher::eval` for the
//! meaning of a matcher and `laws` for what holds of them together.

pub mod assertion;
pub mod foreign;
pub mod format;
pub mod formatter;
pub mod indent;
pub mod laws;
pub mod leaf_laws;
pub mod lists;
pub mod matcher;
pub mod matchers;
pub mod result;
pub mod run;
pub mod strings;
pub mod style;
pub mod text;
pub mod text_laws;
pub mod dedent_laws;
pub mod value;

pub use assertion::{expect, Assertion, AssertionContext, DefaultAssertionFormat, FileLocation};
pub use formatter::{FormattedOutput, Formatter, OutputStream};
pub use matcher::{CombinatorMode, FieldSpec, Inequality, MatchKind, Matcher, SortKey, SortOrder};
pub use matchers::{
    all, any, approx_eq_time, be_default, be_empty, be_err, be_false, be_ge, be_gt, be_in, be_le,
    be_lt, be_none, be_ok, be_some, be_sorted_asc, be_directory, be_existing_file, be_regular_file,
    be_symlink, path_state, be_sorted_by, be_sorted_desc, be_true, consist_of,
    contain_element, contain_elements, contain_substr, each, eq_casefold, eq_diff, equal, every,
    have_len, match_any_fields, match_elements, match_fields, match_json, match_regex, not, why,
    why_lazy, FieldsSpec,
};
pub use result::{AssertionFailure, FormattedFailure, MatchError, MatchFailure, MatchOutcome};
pub use value::{Field, Value};
