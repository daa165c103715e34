use crate::address::{base58_of, find_info_account, key_text, program_address_of, same_key, INFO_SEED};
use crate::model::{
    accounts_view, links_view, AccountState, AccountView, Config, CreateInfoView, Images,
    Instruction, ProcessError, TokenInfo, TokenInfoError, TokenInfoV1,
};
use crate::wire::{
    decode_instruction, encode_record, instruction_bytes, instruction_fits,
    lemma_instruction_bytes_injective, string_fits, token_info_v1_bytes,
};
use vstd::prelude::*;

verus! {

/// Number of accounts a creation takes: payer, authority, token, record, system
/// component, fee receiver.
pub const ACCOUNT_COUNT: usize = 6;

/// The account checks in their order, and the bump of the record address when all
/// of them pass.
pub open spec fn validation_result(c: Config, program_id: Seq<u8>, a: Seq<AccountView>) -> Result<
    u8,
    ProcessError,
> {
    if a.len() < 6 {
        Err(ProcessError::NotEnoughAccountKeys)
    } else if !a[0].is_signer || !a[1].is_signer {
        Err(ProcessError::MissingRequiredSignature)
    } else if a[1].key != c.authority@ || a[5].key != c.fee_receiver@ {
        Err(ProcessError::InvalidArgument)
    } else if a[0].lamports < c.fee_amount {
        Err(ProcessError::Custom(TokenInfoError::InsufficientFunds))
    } else {
        record_account_result(program_address_of(INFO_SEED@, a[2].key, program_id), a[3], a[4])
    }
}

/// The checks on the record account, given the derived address and bump: it must be
/// at that address, hold no data and be owned by the system component.
pub open spec fn record_account_result(
    derived: Option<(Seq<u8>, u8)>,
    info: AccountView,
    system: AccountView,
) -> Result<u8, ProcessError> {
    match derived {
        None => Err(ProcessError::InvalidSeeds),
        Some((address, bump)) => if address != info.key {
            Err(ProcessError::InvalidArgument)
        } else if info.data.len() != 0 {
            Err(ProcessError::Custom(TokenInfoError::AccountAlreadyExists))
        } else if info.owner != system.key {
            Err(ProcessError::InvalidAccountData)
        } else {
            Ok(bump)
        },
    }
}

pub open spec fn derived_view(derived: Option<([u8; 32], u8)>) -> Option<(Seq<u8>, u8)> {
    match derived {
        Some((a, b)) => Some((a@, b)),
        None => None,
    }
}

/// Checks the record account against the derived address and bump.
pub fn check_record_account(
    derived: Option<([u8; 32], u8)>,
    info: &AccountState,
    system: &AccountState,
) -> (r: Result<u8, ProcessError>)
    ensures
        r == record_account_result(derived_view(derived), info@, system@),
{
    match derived {
        None => Err(ProcessError::InvalidSeeds),
        Some((address, bump)) => {
            if !same_key(&address, &info.key) {
                Err(ProcessError::InvalidArgument)
            } else if info.data.len() != 0 {
                Err(ProcessError::Custom(TokenInfoError::AccountAlreadyExists))
            } else if !same_key(&info.owner, &system.key) {
                Err(ProcessError::InvalidAccountData)
            } else {
                Ok(bump)
            }
        },
    }
}

/// Runs the account checks, all before any change is made.
pub fn validate_accounts(config: &Config, program_id: &[u8; 32], accounts: &Vec<AccountState>) -> (r:
    Result<u8, ProcessError>)
    ensures
        r == validation_result(*config, program_id@, accounts_view(accounts@)),
{
    if accounts.len() < ACCOUNT_COUNT {
        return Err(ProcessError::NotEnoughAccountKeys);
    }
    let payer = &accounts[0];
    let authority = &accounts[1];
    let mint = &accounts[2];
    let info = &accounts[3];
    let system = &accounts[4];
    let fee_receiver = &accounts[5];
    if !payer.is_signer || !authority.is_signer {
        return Err(ProcessError::MissingRequiredSignature);
    }
    if !same_key(&authority.key, &config.authority) || !same_key(
        &fee_receiver.key,
        &config.fee_receiver,
    ) {
        return Err(ProcessError::InvalidArgument);
    }
    if payer.lamports < config.fee_amount {
        return Err(ProcessError::Custom(TokenInfoError::InsufficientFunds));
    }
    check_record_account(find_info_account(&mint.key, program_id), info, system)
}

/// Builds the version-1 record of a request for the token whose text is `mint_text`,
/// stamped with one time for both its creation and its update.
pub fn token_info_from_text(mint_text: String, instruction: Instruction, timestamp: i64) -> (r:
    TokenInfo)
    ensures
        match r {
            TokenInfo::V1(v) => {
                &&& v.mint@ == mint_text@
                &&& v.description@ == instruction@.description
                &&& links_view(v.links@) == instruction@.links
                &&& v.images.icon@ == instruction@.icon_uri
                &&& v.images.header@ == instruction@.header_uri
                &&& v.creation_timestamp == timestamp
                &&& v.update_timestamp == timestamp
            },
        },
{
    let Instruction::CreateInfo { description, links, icon_uri, header_uri } = instruction;
    let images = Images { icon: icon_uri, header: header_uri };
    TokenInfo::V1(
        TokenInfoV1 {
            mint: mint_text,
            description,
            links,
            images,
            creation_timestamp: timestamp,
            update_timestamp: timestamp,
        },
    )
}

/// Builds the version-1 record of a request for the token at `mint`, whose text is
/// the address in base58, stamped with one time for both its creation and its
/// update.
pub fn build_token_info(mint: &[u8; 32], instruction: Instruction, timestamp: i64) -> (r:
    TokenInfo)
    ensures
        match r {
            TokenInfo::V1(v) => {
                &&& v.mint@ == base58_of(mint@)
                &&& v.description@ == instruction@.description
                &&& links_view(v.links@) == instruction@.links
                &&& v.images.icon@ == instruction@.icon_uri
                &&& v.images.header@ == instruction@.header_uri
                &&& v.creation_timestamp == timestamp
                &&& v.update_timestamp == timestamp
            },
        },
{
    token_info_from_text(key_text(mint), instruction, timestamp)
}

/// Some request has these bytes as its wire form.
pub open spec fn decodable(data: Seq<u8>) -> bool {
    exists|v: CreateInfoView| instruction_fits(v) && instruction_bytes(v) == data
}

/// The request whose wire form these bytes are.
pub open spec fn decoded(data: Seq<u8>) -> CreateInfoView {
    choose|v: CreateInfoView| instruction_fits(v) && instruction_bytes(v) == data
}

/// The bytes stored for a request made at time `ts` about the token `mint`.
pub open spec fn record_data(c: Config, mint: Seq<u8>, v: CreateInfoView, ts: i64) -> Seq<u8> {
    seq![c.magic, c.version] + token_info_v1_bytes(
        base58_of(mint),
        v.description,
        v.links,
        v.icon_uri,
        v.header_uri,
        ts,
        ts,
    )
}

pub open spec fn record_fits(mint: Seq<u8>, v: CreateInfoView) -> bool {
    &&& string_fits(base58_of(mint))
    &&& instruction_fits(v)
}

/// What one creation transaction leaves: the accounts after it, or the error that
/// aborted it, in which case nothing of it is kept. `ts` is the ledger clock and
/// `rent` the rent-exempt balance for the record's size.
pub open spec fn create_info_outcome(
    c: Config,
    program_id: Seq<u8>,
    a: Seq<AccountView>,
    data: Seq<u8>,
    ts: i64,
    rent: u64,
) -> Result<Seq<AccountView>, ProcessError> {
    if !decodable(data) {
        Err(ProcessError::Custom(TokenInfoError::InvalidInstruction))
    } else {
        match validation_result(c, program_id, a) {
            Err(e) => Err(e),
            Ok(_) => {
                let v = decoded(data);
                if a[5].lamports + c.fee_amount > u64::MAX {
                    Err(ProcessError::TransferFailed)
                } else if !record_fits(a[2].key, v) {
                    Err(ProcessError::BorshIoError)
                } else if a[3].lamports != 0 || a[0].lamports - c.fee_amount < rent {
                    Err(ProcessError::CreateAccountFailed)
                } else {
                    Ok(
                        a.update(
                            0,
                            AccountView {
                                lamports: (a[0].lamports - c.fee_amount - rent) as u64,
                                ..a[0]
                            },
                        ).update(
                            5,
                            AccountView { lamports: (a[5].lamports + c.fee_amount) as u64, ..a[5] },
                        ).update(
                            3,
                            AccountView {
                                lamports: rent,
                                owner: program_id,
                                data: record_data(c, a[2].key, v, ts),
                                ..a[3]
                            },
                        ),
                    )
                }
            },
        }
    }
}

/// The accounts as the transaction leaves them: changed on success, untouched on
/// any error.
pub open spec fn committed(a: Seq<AccountView>, outcome: Result<Seq<AccountView>, ProcessError>) -> Seq<
    AccountView,
> {
    match outcome {
        Ok(after) => after,
        Err(_) => a,
    }
}

fn copy_account(a: &AccountState) -> (r: AccountState)
    ensures
        r@ == a@,
{
    let data = a.data.clone();
    assert(data@ =~= a.data@);
    AccountState { key: a.key, owner: a.owner, is_signer: a.is_signer, lamports: a.lamports, data }
}

/// One creation transaction over the accounts, with the ledger clock `timestamp` and
/// the rent-exempt balance `rent_lamports` for the record's size. It decodes the
/// request, checks the accounts, moves the fee from the payer to the fee receiver,
/// then funds the record account, gives it to the program and stores the record in
/// it. Either every step succeeds and the new accounts are returned, or the first
/// failure is returned and no change is kept.
pub fn process_instruction(
    config: &Config,
    program_id: &[u8; 32],
    accounts: &Vec<AccountState>,
    instruction_data: &[u8],
    timestamp: i64,
    rent_lamports: u64,
) -> (r: Result<Vec<AccountState>, ProcessError>)
    ensures
        match r {
            Ok(after) => create_info_outcome(
                *config,
                program_id@,
                accounts_view(accounts@),
                instruction_data@,
                timestamp,
                rent_lamports,
            ) == Ok::<Seq<AccountView>, ProcessError>(accounts_view(after@)),
            Err(e) => create_info_outcome(
                *config,
                program_id@,
                accounts_view(accounts@),
                instruction_data@,
                timestamp,
                rent_lamports,
            ) == Err::<Seq<AccountView>, ProcessError>(e),
        },
{
    let ghost a = accounts_view(accounts@);
    let instruction = match decode_instruction(instruction_data) {
        Ok(i) => i,
        Err(e) => {
            return Err(ProcessError::Custom(e));
        },
    };
    proof {
        assert(decodable(instruction_data@));
        let v = decoded(instruction_data@);
        lemma_instruction_bytes_injective(v, instruction@);
    }
    let ghost v = instruction@;
    match validate_accounts(config, program_id, accounts) {
        Ok(_) => {},
        Err(e) => {
            return Err(e);
        },
    }
    let payer_lamports = accounts[0].lamports - config.fee_amount;
    if accounts[5].lamports > u64::MAX - config.fee_amount {
        return Err(ProcessError::TransferFailed);
    }
    let receiver_lamports = accounts[5].lamports + config.fee_amount;
    let mint = accounts[2].key;
    let info = build_token_info(&mint, instruction, timestamp);
    let record = match encode_record(config, &info) {
        Some(d) => d,
        None => {
            return Err(ProcessError::BorshIoError);
        },
    };
    if accounts[3].lamports != 0 || payer_lamports < rent_lamports {
        return Err(ProcessError::CreateAccountFailed);
    }
    let mut after: Vec<AccountState> = Vec::new();
    let mut i: usize = 0;
    while i < accounts.len()
        invariant
            i <= accounts@.len(),
            after@.len() == i,
            forall|j: int| 0 <= j < i ==> #[trigger] after@[j]@ == accounts@[j]@,
        decreases accounts@.len() - i,
    {
        after.push(copy_account(&accounts[i]));
        i = i + 1;
    }
    let mut payer = copy_account(&accounts[0]);
    payer.lamports = payer_lamports - rent_lamports;
    after.set(0, payer);
    let mut receiver = copy_account(&accounts[5]);
    receiver.lamports = receiver_lamports;
    after.set(5, receiver);
    let target = AccountState {
        key: accounts[3].key,
        owner: *program_id,
        is_signer: accounts[3].is_signer,
        lamports: rent_lamports,
        data: record,
    };
    after.set(3, target);
    proof {
        let expected = create_info_outcome(
            *config,
            program_id@,
            a,
            instruction_data@,
            timestamp,
            rent_lamports,
        )->Ok_0;
        assert(accounts_view(after@) =~= expected);
    }
    Ok(after)
}

} // verus!
