use crate::address::{program_address_of, INFO_SEED};
use crate::model::{AccountView, Config, ProcessError, TokenInfoError};
use crate::process::{committed, create_info_outcome, decodable, decoded, record_fits, validation_result};
use crate::wire::i64_le;
use vstd::prelude::*;

verus! {

/// Deriving a record address is deterministic: the same token and program give the
/// same address and bump.
pub proof fn lemma_derivation_deterministic(
    mint1: Seq<u8>,
    program1: Seq<u8>,
    mint2: Seq<u8>,
    program2: Seq<u8>,
)
    requires
        mint1 == mint2,
        program1 == program2,
    ensures
        program_address_of(INFO_SEED@, mint1, program1) == program_address_of(
            INFO_SEED@,
            mint2,
            program2,
        ),
{
}

/// After a successful creation, a second request for the same token, over the
/// accounts that the first left and with a payer that can still pay the fee, fails
/// with `AccountAlreadyExists` and changes nothing.
pub proof fn lemma_second_creation_fails(
    c: Config,
    program_id: Seq<u8>,
    a: Seq<AccountView>,
    data: Seq<u8>,
    ts: i64,
    rent: u64,
    data2: Seq<u8>,
    ts2: i64,
    rent2: u64,
)
    requires
        create_info_outcome(c, program_id, a, data, ts, rent) is Ok,
        decodable(data2),
        create_info_outcome(c, program_id, a, data, ts, rent)->Ok_0[0].lamports >= c.fee_amount,
    ensures
        ({
            let after = create_info_outcome(c, program_id, a, data, ts, rent)->Ok_0;
            let second = create_info_outcome(c, program_id, after, data2, ts2, rent2);
            &&& second == Err::<Seq<AccountView>, ProcessError>(
                ProcessError::Custom(TokenInfoError::AccountAlreadyExists),
            )
            &&& committed(after, second) == after
        }),
{
    let after = create_info_outcome(c, program_id, a, data, ts, rent)->Ok_0;
    assert(validation_result(c, program_id, a) is Ok);
    assert(after[3].data.len() >= 2);
}

/// Every stored record starts with the magic byte, then the version byte.
pub proof fn lemma_record_header(
    c: Config,
    program_id: Seq<u8>,
    a: Seq<AccountView>,
    data: Seq<u8>,
    ts: i64,
    rent: u64,
)
    requires
        create_info_outcome(c, program_id, a, data, ts, rent) is Ok,
    ensures
        ({
            let stored = create_info_outcome(c, program_id, a, data, ts, rent)->Ok_0[3].data;
            &&& stored.len() >= 2
            &&& stored[0] == c.magic
            &&& stored[1] == c.version
        }),
{
}

/// A stored record ends with its creation time then its update time, and both are
/// the clock time of the transaction that created it.
pub proof fn lemma_timestamps_equal(
    c: Config,
    program_id: Seq<u8>,
    a: Seq<AccountView>,
    data: Seq<u8>,
    ts: i64,
    rent: u64,
)
    requires
        create_info_outcome(c, program_id, a, data, ts, rent) is Ok,
    ensures
        ({
            let stored = create_info_outcome(c, program_id, a, data, ts, rent)->Ok_0[3].data;
            let n = stored.len() as int;
            &&& n >= 16
            &&& stored.subrange(n - 16, n - 8) == i64_le(ts)
            &&& stored.subrange(n - 8, n) == i64_le(ts)
        }),
{
    let stored = create_info_outcome(c, program_id, a, data, ts, rent)->Ok_0[3].data;
    let n = stored.len() as int;
    assert(stored.subrange(n - 16, n - 8) =~= i64_le(ts));
    assert(stored.subrange(n - 8, n) =~= i64_le(ts));
}

/// A payer short of the fee makes a well-formed, properly signed request fail with
/// `InsufficientFunds`, and nothing changes.
pub proof fn lemma_insufficient_funds(
    c: Config,
    program_id: Seq<u8>,
    a: Seq<AccountView>,
    data: Seq<u8>,
    ts: i64,
    rent: u64,
)
    requires
        decodable(data),
        a.len() >= 6,
        a[0].is_signer,
        a[1].is_signer,
        a[1].key == c.authority@,
        a[5].key == c.fee_receiver@,
        a[0].lamports < c.fee_amount,
    ensures
        create_info_outcome(c, program_id, a, data, ts, rent) == Err::<Seq<AccountView>, ProcessError>(
            ProcessError::Custom(TokenInfoError::InsufficientFunds),
        ),
        committed(a, create_info_outcome(c, program_id, a, data, ts, rent)) == a,
{
}

/// A signed, well-formed request whose authority or fee receiver is not the fixed one
/// fails with `InvalidArgument`, whatever the other accounts hold.
pub proof fn lemma_wrong_authority_or_receiver(
    c: Config,
    program_id: Seq<u8>,
    a: Seq<AccountView>,
    data: Seq<u8>,
    ts: i64,
    rent: u64,
)
    requires
        decodable(data),
        a.len() >= 6,
        a[0].is_signer,
        a[1].is_signer,
        a[1].key != c.authority@ || a[5].key != c.fee_receiver@,
    ensures
        create_info_outcome(c, program_id, a, data, ts, rent) == Err::<Seq<AccountView>, ProcessError>(
            ProcessError::InvalidArgument,
        ),
        committed(a, create_info_outcome(c, program_id, a, data, ts, rent)) == a,
{
}

/// When every check passes and the fee transfer would succeed, but the account
/// creation is refused, the transaction fails and the fee transfer is not kept:
/// every balance is as before.
pub proof fn lemma_failed_creation_rolls_back(
    c: Config,
    program_id: Seq<u8>,
    a: Seq<AccountView>,
    data: Seq<u8>,
    ts: i64,
    rent: u64,
)
    requires
        decodable(data),
        validation_result(c, program_id, a) is Ok,
        a[5].lamports + c.fee_amount <= u64::MAX,
        record_fits(a[2].key, decoded(data)),
        a[3].lamports != 0 || a[0].lamports - c.fee_amount < rent,
    ensures
        create_info_outcome(c, program_id, a, data, ts, rent) == Err::<Seq<AccountView>, ProcessError>(
            ProcessError::CreateAccountFailed,
        ),
        committed(a, create_info_outcome(c, program_id, a, data, ts, rent)) == a,
        forall|i: int|
            0 <= i < a.len() ==> #[trigger] committed(
                a,
                create_info_outcome(c, program_id, a, data, ts, rent),
            )[i].lamports == a[i].lamports,
{
}

} // verus!
