//! A verified library for the Baldur's Gate 3 reference databases: it decides
//! how game files become tables and rows, how those tables are queried and
//! edited, and how entries are written back as LSX.

pub mod text;
pub mod order;
pub mod textmap;
pub mod models;
pub mod lsx_writer;
pub mod lsx_reader;
pub mod fk_patterns;
pub mod schema;
pub mod types;
pub mod files;
pub mod memory;
pub mod stats_text;
pub mod discovery;
pub mod fixed_tables;
pub mod stats_discovery;
pub mod seen_laws;
pub mod reals;
pub mod references;
pub mod schema_build;
pub mod schema_laws;
pub mod reference_laws;
pub mod discovery_laws;
pub mod stats_parse;
pub mod stats_laws;
pub mod loca;
pub mod stats_lists;
pub mod list_laws;
pub mod text_laws;
pub mod other_laws;
pub mod parsed;
pub mod parsed_laws;
pub mod sql;
pub mod rows;
pub mod row_fill;
pub mod tree_insert;
pub mod tree_laws;
pub mod allspark;
pub mod effects;
pub mod effect_laws;
pub mod entities;
pub mod insert;
pub mod row_laws;
pub mod batches;
pub mod ddl;
pub mod partition;
pub mod cross_db;
pub mod backfill;
pub mod infer;
pub mod infer_laws;
pub mod collect;
pub mod file_laws;
pub mod pipeline;
pub mod build_laws;
pub mod select;
pub mod queries;
pub mod lookups;
pub mod query_laws;
pub mod schema_query;
pub mod kind_laws;
pub mod scan;
pub mod scan_laws;
pub mod staging_ddl;
pub mod staging_laws;
pub mod staging;
pub mod edit_laws;
pub mod undo;
pub mod journal_laws;
pub mod content_laws;
