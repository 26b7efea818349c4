//! A verified core of an append-only token ledger: fixed-point token
//! amounts, hash-chained blocks with a canonical byte encoding, balance
//! accounting with supply conservation, duplicate-transaction rejection,
//! and polynomial arithmetic over a prime scalar field for secret sharing.

mod balances;
mod codec;
mod hashing;
mod ic_block;
mod ic_token;
mod icusdt;
mod ledger;
mod notified;
mod poly;
mod scalar;
mod types;

pub use crate::balances::{
    bal, is_trim_selection, lemma_balance_conservation, pair_le, selected, set_bal,
    spec_apply_operation, spec_apply_pool, spec_remove_selected, spec_selected_sum, sum_of,
    AccountStore, Balances, BalancesStore, LedgerBalances,
};
pub use crate::codec::{
    lemma_encode_decode_roundtrip, spec_decode_block, spec_encode_block, spec_encode_operation,
    spec_encode_transaction,
};
pub use crate::hashing::{hex_of, sha256_of, HashOf, HASH_LENGTH};
pub use crate::ic_block::{
    get_blocks, iter_blocks, lemma_chain_integrity, lemma_height_accounting, seq_views,
    spec_block_hash, tip_of_chain, Block, BlockArg, BlockHeight, BlockRes, BlockV, Blockchain,
    ChainError, EncodedBlock, GetBlocksArgs, GetBlocksRes, IterBlocksArgs, IterBlocksRes,
    RangeError, TipOfChainRes,
};
pub use crate::ic_token::{
    AmountError, TOKENs, DECIMAL_PLACES, MIN_BURN_AMOUNT_E8S, TOKEN_SUBDIVIDABLE_BY,
    TRANSACTION_FEE_E8S,
};
pub use crate::icusdt::{USDTs, USDT_SUBDIVIDABLE_BY};
pub use crate::ledger::{
    archive_index_wf, dedup_lockstep, find_block_in_archive, spec_mint_digest,
    spec_mint_transaction,
    lemma_duplicate_rejected_within_window, lemma_window_elapsed_forgets, make_send_operation,
    purge_count, purged_heights, spec_find_hash, spec_mint_maps, Ledger, NotifyError,
    PaymentError, SendError, TransactionInfo, ACCOUNTS_OVERFLOW_TRIM_QUANTITY,
    DEFAULT_TRANSACTION_WINDOW_NANOS, MAXIMUM_NUMBER_OF_ACCOUNTS, PERMITTED_DRIFT_NANOS,
};
pub use crate::notified::notified_set;
pub use crate::poly::{
    lemma_newton_honors_accepted_sample, lemma_newton_honors_first_sample,
    lemma_newton_preserves_point, spec_add_coeffs, spec_coeff, spec_conv, spec_mul_coeffs,
    spec_newton, spec_poly_eval, spec_scale_coeffs, spec_trimmed_len, Polynomial,
};
pub use crate::scalar::{
    spec_invert, spec_modulus, spec_pow_acc, EccCurveType, EccScalar, ThresholdEcdsaError,
    ThresholdEcdsaResult, MODULUS_K256, MODULUS_P256,
};
pub use crate::types::{
    AccountIdentifier, CanisterId, CodecError, Memo, Operation, TimeStamp, Transaction,
};
