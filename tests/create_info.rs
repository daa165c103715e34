use solana_program::pubkey::Pubkey;
use token_info::{
    find_info_account, process_instruction, validate_accounts, AccountState, Config,
    ProcessError, TokenInfoError, AUTHORITY, DATA_VERSION, FEE_AMOUNT, FEE_RECEIVER, MAGIC_BYTE,
};

const PROGRAM_ID: [u8; 32] = [7; 32];
const SYSTEM_ID: [u8; 32] = [0; 32];
const MINT: [u8; 32] = [0; 32];
const PAYER: [u8; 32] = [9; 32];
const RENT: u64 = 2_000_000;
const TS: i64 = 1_700_000_000;

fn put_str(out: &mut Vec<u8>, s: &str) {
    out.extend_from_slice(&(s.len() as u32).to_le_bytes());
    out.extend_from_slice(s.as_bytes());
}

fn request(description: &str, links: &[(&str, &str)], icon: &str, header: &str) -> Vec<u8> {
    let mut out = vec![0u8];
    put_str(&mut out, description);
    out.extend_from_slice(&(links.len() as u32).to_le_bytes());
    for (label, url) in links {
        put_str(&mut out, label);
        put_str(&mut out, url);
    }
    put_str(&mut out, icon);
    put_str(&mut out, header);
    out
}

fn account(key: [u8; 32], owner: [u8; 32], is_signer: bool, lamports: u64) -> AccountState {
    AccountState { key, owner, is_signer, lamports, data: Vec::new() }
}

fn record_address() -> [u8; 32] {
    find_info_account(&MINT, &PROGRAM_ID).unwrap().0
}

fn accounts(payer_lamports: u64) -> Vec<AccountState> {
    vec![
        account(PAYER, SYSTEM_ID, true, payer_lamports),
        account(AUTHORITY, SYSTEM_ID, true, 0),
        account(MINT, [3; 32], false, 1),
        account(record_address(), SYSTEM_ID, false, 0),
        account(SYSTEM_ID, [5; 32], false, 1),
        account(FEE_RECEIVER, SYSTEM_ID, false, 50),
    ]
}

fn scenario_one() -> Vec<u8> {
    request("Foo", &[], "ipfs://a", "ipfs://b")
}

#[test]
fn derived_address_matches_the_ledger_rule() {
    let (expected, bump) = Pubkey::find_program_address(
        &[b"token_info", &MINT],
        &Pubkey::new_from_array(PROGRAM_ID),
    );
    assert_eq!(find_info_account(&MINT, &PROGRAM_ID), Some((expected.to_bytes(), bump)));
}

#[test]
fn derivation_is_deterministic() {
    let first = find_info_account(&[42; 32], &PROGRAM_ID);
    let second = find_info_account(&[42; 32], &PROGRAM_ID);
    assert!(first.is_some());
    assert_eq!(first, second);
    assert_ne!(first, find_info_account(&[43; 32], &PROGRAM_ID));
}

#[test]
fn valid_request_creates_the_record() {
    let before = accounts(5 * FEE_AMOUNT);
    let after =
        process_instruction(&Config::standard(), &PROGRAM_ID, &before, &scenario_one(), TS, RENT)
            .unwrap();
    assert_eq!(after[0].lamports, 5 * FEE_AMOUNT - FEE_AMOUNT - RENT);
    assert_eq!(after[5].lamports, 50 + FEE_AMOUNT);
    assert_eq!(after[3].lamports, RENT);
    assert_eq!(after[3].owner, PROGRAM_ID);
    assert_eq!(after[3].key, record_address());
    let mut expected = vec![MAGIC_BYTE, DATA_VERSION, 0];
    put_str(&mut expected, "11111111111111111111111111111111");
    put_str(&mut expected, "Foo");
    expected.extend_from_slice(&0u32.to_le_bytes());
    put_str(&mut expected, "ipfs://a");
    put_str(&mut expected, "ipfs://b");
    expected.extend_from_slice(&TS.to_le_bytes());
    expected.extend_from_slice(&TS.to_le_bytes());
    assert_eq!(after[3].data, expected);
    assert_eq!(after[1], before[1]);
    assert_eq!(after[2], before[2]);
    assert_eq!(after[4], before[4]);
}

#[test]
fn record_starts_with_magic_and_version() {
    let after = process_instruction(
        &Config::standard(),
        &PROGRAM_ID,
        &accounts(5 * FEE_AMOUNT),
        &request("d", &[("site", "https://x")], "i", "h"),
        -5,
        RENT,
    )
    .unwrap();
    let data = &after[3].data;
    assert_eq!(data[0], 0xAB);
    assert_eq!(data[1], 1);
    let n = data.len();
    assert_eq!(&data[n - 16..n - 8], &data[n - 8..]);
    assert_eq!(&data[n - 8..], &(-5i64).to_le_bytes());
}

#[test]
fn second_creation_fails_and_moves_nothing() {
    let config = Config::standard();
    let first =
        process_instruction(&config, &PROGRAM_ID, &accounts(5 * FEE_AMOUNT), &scenario_one(), TS, RENT)
            .unwrap();
    let second = process_instruction(&config, &PROGRAM_ID, &first, &scenario_one(), TS + 1, RENT);
    assert_eq!(second, Err(ProcessError::Custom(TokenInfoError::AccountAlreadyExists)));
}

#[test]
fn payer_one_unit_short_fails() {
    let r = process_instruction(
        &Config::standard(),
        &PROGRAM_ID,
        &accounts(FEE_AMOUNT - 1),
        &scenario_one(),
        TS,
        RENT,
    );
    assert_eq!(r, Err(ProcessError::Custom(TokenInfoError::InsufficientFunds)));
}

#[test]
fn wrong_authority_fails() {
    let mut a = accounts(5 * FEE_AMOUNT);
    a[1].key = [1; 32];
    let r = process_instruction(&Config::standard(), &PROGRAM_ID, &a, &scenario_one(), TS, RENT);
    assert_eq!(r, Err(ProcessError::InvalidArgument));
}

#[test]
fn wrong_fee_receiver_fails() {
    let mut a = accounts(5 * FEE_AMOUNT);
    a[5].key = [2; 32];
    let r = process_instruction(&Config::standard(), &PROGRAM_ID, &a, &scenario_one(), TS, RENT);
    assert_eq!(r, Err(ProcessError::InvalidArgument));
}

#[test]
fn truncated_request_fails() {
    let data = vec![0u8, 3, 0];
    let r = process_instruction(&Config::standard(), &PROGRAM_ID, &accounts(5 * FEE_AMOUNT), &data, TS, RENT);
    assert_eq!(r, Err(ProcessError::Custom(TokenInfoError::InvalidInstruction)));
}

#[test]
fn missing_signatures_fail() {
    let mut a = accounts(5 * FEE_AMOUNT);
    a[0].is_signer = false;
    assert_eq!(
        validate_accounts(&Config::standard(), &PROGRAM_ID, &a),
        Err(ProcessError::MissingRequiredSignature)
    );
    let mut b = accounts(5 * FEE_AMOUNT);
    b[1].is_signer = false;
    assert_eq!(
        validate_accounts(&Config::standard(), &PROGRAM_ID, &b),
        Err(ProcessError::MissingRequiredSignature)
    );
}

#[test]
fn too_few_accounts_fail() {
    let mut a = accounts(5 * FEE_AMOUNT);
    a.truncate(5);
    assert_eq!(
        validate_accounts(&Config::standard(), &PROGRAM_ID, &a),
        Err(ProcessError::NotEnoughAccountKeys)
    );
}

#[test]
fn wrong_record_address_fails() {
    let mut a = accounts(5 * FEE_AMOUNT);
    a[3].key = [8; 32];
    assert_eq!(
        validate_accounts(&Config::standard(), &PROGRAM_ID, &a),
        Err(ProcessError::InvalidArgument)
    );
}

#[test]
fn record_owned_elsewhere_fails() {
    let mut a = accounts(5 * FEE_AMOUNT);
    a[3].owner = [4; 32];
    assert_eq!(
        validate_accounts(&Config::standard(), &PROGRAM_ID, &a),
        Err(ProcessError::InvalidAccountData)
    );
}

#[test]
fn valid_accounts_give_the_bump() {
    let bump = find_info_account(&MINT, &PROGRAM_ID).unwrap().1;
    assert_eq!(validate_accounts(&Config::standard(), &PROGRAM_ID, &accounts(FEE_AMOUNT)), Ok(bump));
}

#[test]
fn refused_creation_keeps_no_fee() {
    let mut a = accounts(5 * FEE_AMOUNT);
    a[3].lamports = 1;
    let r = process_instruction(&Config::standard(), &PROGRAM_ID, &a, &scenario_one(), TS, RENT);
    assert_eq!(r, Err(ProcessError::CreateAccountFailed));
    assert_eq!(a[0].lamports, 5 * FEE_AMOUNT);
    assert_eq!(a[5].lamports, 50);
}

#[test]
fn payer_short_of_rent_fails_creation() {
    let r = process_instruction(
        &Config::standard(),
        &PROGRAM_ID,
        &accounts(FEE_AMOUNT + RENT - 1),
        &scenario_one(),
        TS,
        RENT,
    );
    assert_eq!(r, Err(ProcessError::CreateAccountFailed));
}

#[test]
fn receiver_overflow_fails_transfer() {
    let mut a = accounts(5 * FEE_AMOUNT);
    a[5].lamports = u64::MAX;
    let r = process_instruction(&Config::standard(), &PROGRAM_ID, &a, &scenario_one(), TS, RENT);
    assert_eq!(r, Err(ProcessError::TransferFailed));
}

#[test]
fn custom_config_is_honoured() {
    let config = Config { authority: [1; 32], fee_receiver: [2; 32], fee_amount: 10, magic: 0x11, version: 2 };
    let mut a = accounts(100);
    a[1].key = [1; 32];
    a[5].key = [2; 32];
    let after = process_instruction(&config, &PROGRAM_ID, &a, &scenario_one(), TS, 5).unwrap();
    assert_eq!(after[0].lamports, 85);
    assert_eq!(after[5].lamports, 60);
    assert_eq!(&after[3].data[..2], &[0x11, 2]);
}

#[test]
fn error_codes_follow_variant_order() {
    assert_eq!(TokenInfoError::InvalidInstruction.code(), 0);
    assert_eq!(TokenInfoError::AccountAlreadyExists.code(), 1);
    assert_eq!(TokenInfoError::InsufficientFunds.code(), 2);
    assert_eq!(TokenInfoError::InvalidLinkData.code(), 3);
}

#[test]
fn record_account_checks_against_the_derived_address() {
    let info = account([6; 32], SYSTEM_ID, false, 0);
    let system = account(SYSTEM_ID, [5; 32], false, 1);
    assert_eq!(token_info::check_record_account(None, &info, &system), Err(ProcessError::InvalidSeeds));
    assert_eq!(
        token_info::check_record_account(Some(([1; 32], 250)), &info, &system),
        Err(ProcessError::InvalidArgument)
    );
    assert_eq!(token_info::check_record_account(Some(([6; 32], 250)), &info, &system), Ok(250));
    let mut full = info.clone();
    full.data = vec![1];
    assert_eq!(
        token_info::check_record_account(Some(([6; 32], 250)), &full, &system),
        Err(ProcessError::Custom(TokenInfoError::AccountAlreadyExists))
    );
    let mut foreign = info.clone();
    foreign.owner = [9; 32];
    assert_eq!(
        token_info::check_record_account(Some(([6; 32], 250)), &foreign, &system),
        Err(ProcessError::InvalidAccountData)
    );
}
