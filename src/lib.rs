//! Registrar of immutable token metadata records: instruction decoding,
//! account validation, record address derivation and the versioned record
//! encoding, with a transactional model of one creation.

mod address;
mod laws;
mod model;
mod process;
mod wire;

pub use address::{base58_of, find_info_account, program_address_of, same_key, INFO_SEED};
pub use laws::{
    lemma_derivation_deterministic, lemma_failed_creation_rolls_back, lemma_insufficient_funds,
    lemma_record_header, lemma_second_creation_fails, lemma_timestamps_equal,
    lemma_wrong_authority_or_receiver,
};
pub use model::{
    accounts_view, error_code, links_view, AccountState, AccountView, Config, CreateInfoView,
    Images, Instruction, Link, ProcessError, TokenInfo, TokenInfoError, TokenInfoV1, AUTHORITY,
    DATA_VERSION, FEE_AMOUNT, FEE_RECEIVER, MAGIC_BYTE,
};
pub use process::{
    build_token_info, check_record_account, committed, create_info_outcome, decodable, decoded, process_instruction,
    derived_view, record_account_result, record_data, record_fits, token_info_from_text, validate_accounts, validation_result, ACCOUNT_COUNT,
};
pub use wire::{
    decode_instruction, encode_record, i64_le, instruction_bytes, instruction_fits, link_bytes,
    link_fits, links_body, links_bytes, links_fit, persisted_bytes, string_bytes, string_fits,
    token_info_bytes, token_info_fits, token_info_v1_bytes, u32_le, u64_le,
    lemma_instruction_bytes_injective,
};
