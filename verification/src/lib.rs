//! Reference-aware file moves for Markdown workspaces: parsing, resolution,
//! rewrite planning and the small text utilities around them.

pub mod text;
pub mod fence_state;
pub mod model;
pub mod parser;
pub mod resolver;
pub mod rewriter;
pub mod fmt;
pub mod suggest;
pub mod diff;
pub mod paths;
pub mod transaction;
pub mod validator;
pub mod infra;
pub mod diagnostics;
pub mod context_scope;
pub mod acked;
pub mod order;
pub mod post_apply_scan;
pub mod frontmatter;
pub mod commands;
pub mod plan_list;
pub mod report;
pub mod toml_refs;
pub mod yaml_refs;
pub mod workspace_validate;
pub mod find;
pub mod plan;
pub mod text_rename;
pub mod plan_validate;
pub mod plan_wizard;
pub mod text_verify;
pub mod doc_values;
pub mod fm_schema;
pub mod fm_audit;
pub mod fm_check;
pub mod fm_normalize;
pub mod fm_fill;
pub mod fm_add;
pub mod apply_checks;
pub mod selection;
pub mod tenancy;
pub mod apply_run;
pub mod plan_dialogue;
pub mod init_steps;
pub mod init_run;
pub mod mv_run;
pub mod recovery;
