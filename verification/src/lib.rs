//! Verified core of the Pensieve analytics products.

pub mod activity;
pub mod activity_build;
pub mod activity_counts;
pub mod activity_laws;
pub mod activity_run;
pub mod activity_tables;
pub mod advance;
pub mod artifact;
pub mod batches;
pub mod benchmark_laws;
pub mod benchmark_run;
pub mod build_runs;
pub mod bytes;
pub mod calendar;
pub mod calendar_laws;
pub mod check_laws;
pub mod day_laws;
pub mod digest;
pub mod disk;
pub mod edge_laws;
pub mod error;
pub mod first_seen_build;
pub mod first_seen_laws;
pub mod first_seen_run;
pub mod fixed_activity;
pub mod flexible_build;
pub mod flexible_distinct;
pub mod flexible_laws;
pub mod flexible_publish;
pub mod flexible_run;
pub mod flexible_samples;
pub mod flexible_validation;
pub mod flexible_windows;
pub mod hour_identities;
pub mod incremental;
pub mod incremental_run;
pub mod input;
pub mod input_index;
pub mod invoice_laws;
pub mod kind_publishers;
pub mod leaf_stream;
pub mod ledger;
pub mod line_laws;
pub mod merge;
pub mod ordered;
pub mod period_counter;
pub mod plan;
pub mod plan_laws;
pub mod plan_run;
pub mod product_laws;
pub mod products;
pub mod pubkey_first_seen;
pub mod publication;
pub mod publish;
pub mod publish_flexible;
pub mod publish_laws;
pub mod publish_ranking;
pub mod publish_relay;
pub mod publish_products;
pub mod publish_run;
pub mod publish_semantic;
pub mod publish_serving;
pub mod publish_side;
pub mod publish_tables;
pub mod publish_zap;
pub mod published_queries;
pub mod publisher_artifact;
pub mod publisher_benchmark;
pub mod publisher_days;
pub mod publisher_flags;
pub mod publisher_ledger;
pub mod publisher_product;
pub mod publisher_publish;
pub mod publisher_rank;
pub mod publisher_resume;
pub mod publisher_scan;
pub mod publisher_state;
pub mod publisher_tally;
pub mod publisher_top;
pub mod publishers;
pub mod query_laws;
pub mod ranking_laws;
pub mod ranking_run;
pub mod reconcile;
pub mod records;
pub mod reconcile_laws;
pub mod relay_build;
pub mod relay_distribution;
pub mod relay_laws;
pub mod relay_publish;
pub mod relay_rows;
pub mod relay_run;
pub mod relay_scan;
pub mod rollup_laws;
pub mod rollups;
pub mod run_laws;
pub mod run_writer;
pub mod runs;
pub mod sample_laws;
pub mod scan_laws;
pub mod semantic_build;
pub mod semantic_facts;
pub mod semantic_laws;
pub mod semantic_publish;
pub mod semantic_run;
pub mod semantic_totals;
pub mod serving_compact;
pub mod serving_facts;
pub mod serving_laws;
pub mod serving_publish;
pub mod serving_records;
pub mod serving_run;
pub mod serving_tables;
pub mod sorting;
pub mod steps;
pub mod store_laws;
pub mod table_laws;
pub mod text;
pub mod text_map;
pub mod unique_sort;
pub mod validation_laws;
pub mod visits;
pub mod words;
pub mod zap_chunks;
pub mod zap_distinct;
pub mod zap_evidence;
pub mod zap_laws;
pub mod zap_publish;
pub mod zap_run;
