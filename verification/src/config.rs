//! Session configuration: the validated, plain-value form of what the
//! process boundary hands in.
//!
//! The boundary parses its configuration object and passes the fields
//! here; this module validates the chain selector, derives the paths the
//! storage collaborator uses, and fixes small policy constants, so that
//! every later step works on checked values.

use vstd::prelude::*;
use vstd::string::StringExecFns;
use crate::WalletError;

verus! {

/// The chain a session talks to.
#[derive(Clone, Copy, Debug, PartialEq, Eq, Structural)]
pub enum ChainKind {
    /// The production network.
    Mainnet,
    /// The test network.
    Floonet,
}

/// Reads a chain selector: `"mainnet"` or `"floonet"`; any other name is
/// an unsupported chain type and a configuration error.
pub fn parse_chain_type(s: &str) -> (r: Result<ChainKind, WalletError>)
    ensures
        r == Ok::<ChainKind, WalletError>(ChainKind::Mainnet) <==> s@ == "mainnet"@,
        r == Ok::<ChainKind, WalletError>(ChainKind::Floonet) <==> s@ == "floonet"@,
        r is Err <==> (s@ != "mainnet"@ && s@ != "floonet"@),
        r matches Err(e) ==> e == WalletError::ConfigError,
{
    proof {
        reveal_strlit("mainnet");
        reveal_strlit("floonet");
        assert("mainnet"@[0] == 'm');
        assert("floonet"@[0] == 'f');
    }
    let owned = s.to_owned();
    if owned == String::from_str("mainnet") {
        Ok(ChainKind::Mainnet)
    } else if owned == String::from_str("floonet") {
        Ok(ChainKind::Floonet)
    } else {
        Err(WalletError::ConfigError)
    }
}

/// A validated session configuration.
#[derive(Debug)]
pub struct SessionConfig {
    /// The account whose keys sign contributions.
    pub account: String,
    /// The chain the session talks to.
    pub chain: ChainKind,
    /// Root data directory.
    pub data_dir: String,
    /// Address of the chain-node API.
    pub node_api_addr: String,
    /// Minimum confirmations required on spendable outputs.
    pub minimum_confirmations: u64,
}

/// Validates raw configuration fields into a session configuration.
/// Fails with `ConfigError` exactly when the chain selector is not a
/// supported chain name.
pub fn session_config_from(
    account: String,
    chain_type: &str,
    data_dir: String,
    node_api_addr: String,
    minimum_confirmations: u64,
) -> (r: Result<SessionConfig, WalletError>)
    ensures
        (r is Ok) <==> (chain_type@ == "mainnet"@ || chain_type@ == "floonet"@),
        r matches Err(e) ==> e == WalletError::ConfigError,
        match r {
            Ok(c) => {
                &&& c.account == account
                &&& (c.chain is Mainnet <==> chain_type@ == "mainnet"@)
                &&& (c.chain is Floonet <==> chain_type@ == "floonet"@)
                &&& c.data_dir == data_dir
                &&& c.node_api_addr == node_api_addr
                &&& c.minimum_confirmations == minimum_confirmations
            },
            Err(_) => true,
        },
{
    let chain = match parse_chain_type(chain_type) {
        Ok(ck) => ck,
        Err(e) => {
            return Err(e);
        },
    };
    Ok(SessionConfig { account, chain, data_dir, node_api_addr, minimum_confirmations })
}

/// The directory the storage collaborator keeps wallet data under: the
/// session's data directory extended by the fixed wallet-data component.
pub fn wallet_data_dir(c: &SessionConfig) -> (r: String)
    ensures
        r@ == c.data_dir@ + "/wallet_data"@,
{
    let mut d = c.data_dir.clone();
    d.append("/wallet_data");
    d
}

/// The seed length in bytes for a new wallet: 16 for a 12-word mnemonic,
/// 32 for a 24-word one.
pub fn seed_length_for(is_12_phrases: bool) -> (n: usize)
    ensures
        n == (if is_12_phrases { 16int } else { 32int }),
{
    if is_12_phrases { 16 } else { 32 }
}

} // verus!
