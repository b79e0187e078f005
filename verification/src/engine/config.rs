//! Engine selection and reporting: which engine variant to run, with which
//! capacity limits, and what an engine says about itself.

use vstd::prelude::*;
use crate::wire::matches_keyword;
use crate::wire::eq_ignore_case;

verus! {

broadcast use vstd::string::group_string_axioms;

/// The capacity limits of a memory-bounded engine.
#[derive(Clone, Copy, Debug, PartialEq, Eq, Structural)]
pub struct MemoryLimits {
    /// Most accounts resident at once.
    pub max_accounts: usize,
    /// Most disputable transactions resident at once.
    pub max_disputable_transactions: usize,
    /// Most processed transaction ids resident at once.
    pub max_processed_tx_ids: usize,
}

/// Configuration for creating a payment engine.
#[derive(Clone, Copy, Debug, PartialEq, Eq, Structural)]
pub enum EngineConfig {
    /// The sequential engine with unbounded tables.
    Standard,
    /// The memory-bounded engine with least-recently-used eviction.
    Bounded {
        /// Most accounts resident at once.
        max_accounts: usize,
        /// Most disputable transactions resident at once.
        max_disputable_transactions: usize,
        /// Most processed transaction ids resident at once.
        max_processed_tx_ids: usize,
    },
    /// The engine meant to be shared by several concurrent input streams.
    Concurrent,
    /// The sharded engine: one worker engine per shard of the client space.
    ConcurrentMultiEngine {
        /// How many worker engines to run.
        num_workers: usize,
    },
}

impl EngineConfig {
    /// The standard configuration, for small to medium datasets.
    pub fn standard() -> (r: EngineConfig)
        ensures
            r == EngineConfig::Standard,
    {
        EngineConfig::Standard
    }

    /// A bounded configuration, for datasets larger than memory.
    pub fn bounded(
        max_accounts: usize,
        max_disputable_transactions: usize,
        max_processed_tx_ids: usize,
    ) -> (r: EngineConfig)
        ensures
            r == (EngineConfig::Bounded {
                max_accounts,
                max_disputable_transactions,
                max_processed_tx_ids,
            }),
    {
        EngineConfig::Bounded { max_accounts, max_disputable_transactions, max_processed_tx_ids }
    }

    /// A concurrent configuration, for several input streams.
    pub fn concurrent() -> (r: EngineConfig)
        ensures
            r == EngineConfig::Concurrent,
    {
        EngineConfig::Concurrent
    }

    /// A sharded configuration with the given number of worker engines.
    pub fn concurrent_multi_engine(num_workers: usize) -> (r: EngineConfig)
        ensures
            r == (EngineConfig::ConcurrentMultiEngine { num_workers }),
    {
        EngineConfig::ConcurrentMultiEngine { num_workers }
    }

    /// A bounded configuration sized for the given amount of memory, split
    /// a quarter for accounts at roughly 200 bytes each, half for
    /// transactions at roughly 100 bytes each, and a quarter for
    /// transaction ids at 4 bytes each.
    pub fn for_memory_mb(available_memory_mb: usize) -> (r: EngineConfig)
        requires
            available_memory_mb * 1024 * 1024 <= usize::MAX,
        ensures
            r == (EngineConfig::Bounded {
                max_accounts: ((available_memory_mb / 4) * 1024 * 1024 / 200) as usize,
                max_disputable_transactions: ((available_memory_mb / 2) * 1024 * 1024 / 100) as usize,
                max_processed_tx_ids: ((available_memory_mb / 4) * 1024 * 1024 / 4) as usize,
            }),
    {
        let account_memory_mb: usize = available_memory_mb / 4;
        let transaction_memory_mb: usize = available_memory_mb / 2;
        let tx_id_memory_mb: usize = available_memory_mb / 4;

        let max_accounts: usize = (account_memory_mb * 1024 * 1024) / 200;
        let max_transactions: usize = (transaction_memory_mb * 1024 * 1024) / 100;
        let max_tx_ids: usize = (tx_id_memory_mb * 1024 * 1024) / 4;

        EngineConfig::bounded(max_accounts, max_transactions, max_tx_ids)
    }
}

/// The configuration the optional command-line parameters select: a memory
/// limit wins and sizes a bounded engine; otherwise the engine-type keyword
/// decides, case-insensitively, with unknown keywords falling back to the
/// standard engine; absent limits take their defaults.
pub open spec fn spec_from_cli_params(
    engine_type: Option<Seq<char>>,
    max_accounts: Option<usize>,
    max_transactions: Option<usize>,
    max_tx_ids: Option<usize>,
    memory_limit_mb: Option<usize>,
) -> EngineConfig {
    match memory_limit_mb {
        Some(mb) => EngineConfig::Bounded {
            max_accounts: (((mb / 4) * 1024 * 1024) / 200) as usize,
            max_disputable_transactions: (((mb / 2) * 1024 * 1024) / 100) as usize,
            max_processed_tx_ids: (((mb / 4) * 1024 * 1024) / 4) as usize,
        },
        None => {
            let et = match engine_type {
                Some(s) => s,
                None => "standard"@,
            };
            let ma = match max_accounts {
                Some(v) => v,
                None => 10_000usize,
            };
            let mt = match max_transactions {
                Some(v) => v,
                None => 50_000usize,
            };
            let mi = match max_tx_ids {
                Some(v) => v,
                None => 1_000_000usize,
            };
            if matches_keyword(et, "bounded"@) {
                EngineConfig::Bounded {
                    max_accounts: ma,
                    max_disputable_transactions: mt,
                    max_processed_tx_ids: mi,
                }
            } else if matches_keyword(et, "concurrent"@) {
                EngineConfig::Concurrent
            } else if matches_keyword(et, "concurrentmultiengine"@) || matches_keyword(
                et,
                "concurrent_multi_engine"@,
            ) {
                EngineConfig::ConcurrentMultiEngine { num_workers: 4 }
            } else {
                EngineConfig::Standard
            }
        },
    }
}

impl EngineConfig {
    /// Builds a configuration from optional command-line parameters: a
    /// memory limit auto-sizes a bounded engine; otherwise the engine-type
    /// keyword picks the variant, with the standard engine as the default
    /// and the fallback for unknown keywords.
    pub fn from_cli_params(
        engine_type: Option<&str>,
        max_accounts: Option<usize>,
        max_transactions: Option<usize>,
        max_tx_ids: Option<usize>,
        memory_limit_mb: Option<usize>,
    ) -> (r: EngineConfig)
        requires
            (memory_limit_mb matches Some(mb) ==> mb * 1024 * 1024 <= usize::MAX),
        ensures
            r == spec_from_cli_params(
                match engine_type {
                    Some(s) => Some(s@),
                    None => None,
                },
                max_accounts,
                max_transactions,
                max_tx_ids,
                memory_limit_mb,
            ),
    {
        if let Some(memory_mb) = memory_limit_mb {
            return EngineConfig::for_memory_mb(memory_mb);
        }
        let et: &str = match engine_type {
            Some(s) => s,
            None => "standard",
        };
        let ma: usize = match max_accounts {
            Some(v) => v,
            None => 10_000,
        };
        let mt: usize = match max_transactions {
            Some(v) => v,
            None => 50_000,
        };
        let mi: usize = match max_tx_ids {
            Some(v) => v,
            None => 1_000_000,
        };
        if eq_ignore_case(et, "bounded") {
            EngineConfig::bounded(ma, mt, mi)
        } else if eq_ignore_case(et, "concurrent") {
            EngineConfig::concurrent()
        } else if eq_ignore_case(et, "concurrentmultiengine") || eq_ignore_case(
            et,
            "concurrent_multi_engine",
        ) {
            EngineConfig::concurrent_multi_engine(4)
        } else {
            EngineConfig::standard()
        }
    }
}

/// What an engine reports about itself.
#[derive(Clone, Debug)]
pub struct EngineInfo {
    /// The variant's name.
    pub engine_type: String,
    /// Whether the engine bounds its resident memory.
    pub memory_bounded: bool,
    /// Whether the engine is meant for concurrent use.
    pub concurrent: bool,
    /// How many accounts the engine currently holds.
    pub account_count: usize,
    /// How many disputable transactions are resident, where tracked.
    pub transaction_count: Option<usize>,
    /// The capacity limits, for bounded engines.
    pub memory_limits: Option<MemoryLimits>,
}

} // verus!
