//! The suites: what each of them plans, expects and concludes.
pub mod causal_order;
pub mod clone_lru_churn;
pub mod cold_hydration_tail;
pub mod commit_throughput_ceiling;
pub mod commit_width_envelope;
pub mod committees;
pub mod common;
pub mod conflict_ordering;
pub mod ensure_gate_stall;
pub mod ephemeral_accounts;
pub mod executor_saturation;
pub mod fee_payer_rules;
pub mod high_cu;
pub mod hot_account_cliff;
pub mod illegal_writable;
pub mod mixed_sustained_load;
pub mod protocol_boundary_selftest;
pub mod restart_under_load;
pub mod rpc_capacity_blast;
pub mod simple_load;
pub mod storage_prodsize_sustain;
pub mod superblock_boundary_latency;
pub mod ws_conn_capacity;
pub mod ws_fanout_threshold;
