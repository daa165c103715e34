use vstd::prelude::*;

verus! {

/// Address allowed to authorize the creation of a record.
pub const AUTHORITY: [u8; 32] = [
    115, 70, 176, 17, 40, 35, 186, 108, 103, 93, 119, 77, 253, 9, 55, 46, 172, 41, 201, 158, 104,
    244, 46, 182, 56, 25, 197, 36, 89, 84, 13, 104,
];

/// Address that receives the creation fee.
pub const FEE_RECEIVER: [u8; 32] = [
    183, 231, 26, 4, 170, 254, 122, 189, 151, 227, 199, 150, 219, 140, 137, 241, 208, 247, 231,
    185, 96, 41, 98, 183, 121, 165, 132, 99, 187, 65, 128, 48,
];

/// First byte of every persisted record.
pub const MAGIC_BYTE: u8 = 0xAB;

/// Second byte of every persisted record: the layout version.
pub const DATA_VERSION: u8 = 1;

/// Creation fee, in the ledger's smallest unit.
pub const FEE_AMOUNT: u64 = 100_000_000;

/// Errors of this program's own.
#[derive(Clone, Copy, Debug, PartialEq, Eq, Structural)]
pub enum TokenInfoError {
    InvalidInstruction,
    AccountAlreadyExists,
    InsufficientFunds,
    InvalidLinkData,
}

/// Position of each variant, the code under which the host reports it.
pub open spec fn error_code(e: TokenInfoError) -> u32 {
    match e {
        TokenInfoError::InvalidInstruction => 0,
        TokenInfoError::AccountAlreadyExists => 1,
        TokenInfoError::InsufficientFunds => 2,
        TokenInfoError::InvalidLinkData => 3,
    }
}

impl TokenInfoError {
    /// The custom error code that the host reports for this error.
    pub fn code(&self) -> (r: u32)
        ensures
            r == error_code(*self),
    {
        match self {
            TokenInfoError::InvalidInstruction => 0,
            TokenInfoError::AccountAlreadyExists => 1,
            TokenInfoError::InsufficientFunds => 2,
            TokenInfoError::InvalidLinkData => 3,
        }
    }
}

/// Every way in which a creation can fail.
#[derive(Clone, Copy, Debug, PartialEq, Eq, Structural)]
pub enum ProcessError {
    /// Fewer than the six required accounts.
    NotEnoughAccountKeys,
    /// The payer or the authority did not sign.
    MissingRequiredSignature,
    /// Authority, fee receiver or record address is not the expected one.
    InvalidArgument,
    /// The record account is not owned by the system component.
    InvalidAccountData,
    /// No bump value yields a valid derived address.
    InvalidSeeds,
    /// A field of the record is too long for its length prefix.
    BorshIoError,
    /// The fee transfer was refused by the system component.
    TransferFailed,
    /// The account creation was refused by the system component.
    CreateAccountFailed,
    Custom(TokenInfoError),
}

/// Resource references of a token's pictures; not checked for reachability.
#[derive(Clone, Debug, PartialEq, Eq)]
pub struct Images {
    pub icon: String,
    pub header: String,
}

/// A labelled hyperlink; links keep the order in which they were given.
#[derive(Clone, Debug, PartialEq, Eq)]
pub struct Link {
    pub label: String,
    pub url: String,
}

impl View for Link {
    type V = (Seq<char>, Seq<char>);

    open spec fn view(&self) -> (Seq<char>, Seq<char>) {
        (self.label@, self.url@)
    }
}

/// The abstract value of a sequence of links.
pub open spec fn links_view(ls: Seq<Link>) -> Seq<(Seq<char>, Seq<char>)> {
    ls.map_values(|l: Link| l@)
}

/// Version 1 of a token's record. At creation both timestamps are the same.
#[derive(Clone, Debug, PartialEq, Eq)]
pub struct TokenInfoV1 {
    pub mint: String,
    pub description: String,
    pub links: Vec<Link>,
    pub images: Images,
    pub creation_timestamp: i64,
    pub update_timestamp: i64,
}

/// A record, tagged with its version so that readers can branch on it.
#[derive(Clone, Debug, PartialEq, Eq)]
pub enum TokenInfo {
    V1(TokenInfoV1),
}

/// The requests that the program accepts.
#[derive(Clone, Debug, PartialEq, Eq)]
pub enum Instruction {
    CreateInfo { description: String, links: Vec<Link>, icon_uri: String, header_uri: String },
}

/// The abstract value of the creation request.
pub struct CreateInfoView {
    pub description: Seq<char>,
    pub links: Seq<(Seq<char>, Seq<char>)>,
    pub icon_uri: Seq<char>,
    pub header_uri: Seq<char>,
}

impl View for Instruction {
    type V = CreateInfoView;

    open spec fn view(&self) -> CreateInfoView {
        match self {
            Instruction::CreateInfo { description, links, icon_uri, header_uri } => CreateInfoView {
                description: description@,
                links: links_view(links@),
                icon_uri: icon_uri@,
                header_uri: header_uri@,
            },
        }
    }
}

/// What the handler reads of one account, and what a creation changes.
#[derive(Clone, Debug, PartialEq, Eq)]
pub struct AccountState {
    pub key: [u8; 32],
    pub owner: [u8; 32],
    pub is_signer: bool,
    pub lamports: u64,
    pub data: Vec<u8>,
}

/// The abstract value of an account.
pub struct AccountView {
    pub key: Seq<u8>,
    pub owner: Seq<u8>,
    pub is_signer: bool,
    pub lamports: u64,
    pub data: Seq<u8>,
}

impl View for AccountState {
    type V = AccountView;

    open spec fn view(&self) -> AccountView {
        AccountView {
            key: self.key@,
            owner: self.owner@,
            is_signer: self.is_signer,
            lamports: self.lamports,
            data: self.data@,
        }
    }
}

/// The abstract value of a list of accounts.
pub open spec fn accounts_view(a: Seq<AccountState>) -> Seq<AccountView> {
    a.map_values(|s: AccountState| s@)
}

/// The fixed parameters of the program.
#[derive(Clone, Copy, Debug, PartialEq, Eq)]
pub struct Config {
    pub authority: [u8; 32],
    pub fee_receiver: [u8; 32],
    pub fee_amount: u64,
    pub magic: u8,
    pub version: u8,
}

impl Config {
    /// The parameters that the deployed program is built with.
    pub fn standard() -> (r: Config)
        ensures
            r.authority@ == AUTHORITY@,
            r.fee_receiver@ == FEE_RECEIVER@,
            r.fee_amount == FEE_AMOUNT,
            r.magic == MAGIC_BYTE,
            r.version == DATA_VERSION,
    {
        Config {
            authority: AUTHORITY,
            fee_receiver: FEE_RECEIVER,
            fee_amount: FEE_AMOUNT,
            magic: MAGIC_BYTE,
            version: DATA_VERSION,
        }
    }
}

} // verus!
