use slatewallet::WalletError;
use slatewallet::config::{
    ChainKind, parse_chain_type, seed_length_for, session_config_from, wallet_data_dir,
};
use slatewallet::transport::{TransportKind, classify_destination};

#[test]
fn chain_selectors_parse_exactly() {
    assert_eq!(parse_chain_type("mainnet").unwrap(), ChainKind::Mainnet);
    assert_eq!(parse_chain_type("floonet").unwrap(), ChainKind::Floonet);
    assert_eq!(parse_chain_type("testnet").unwrap_err(), WalletError::ConfigError);
    assert_eq!(parse_chain_type("").unwrap_err(), WalletError::ConfigError);
}

#[test]
fn session_config_carries_validated_fields() {
    let c = session_config_from(
        String::from("default"),
        "floonet",
        String::from("/tmp/wallet"),
        String::from("http://127.0.0.1:13413"),
        10,
    )
    .unwrap();
    assert_eq!(c.chain, ChainKind::Floonet);
    assert_eq!(c.account, "default");
    assert_eq!(c.minimum_confirmations, 10);
    assert_eq!(wallet_data_dir(&c), "/tmp/wallet/wallet_data");
    assert_eq!(
        session_config_from(String::new(), "nonet", String::new(), String::new(), 0)
            .unwrap_err(),
        WalletError::ConfigError
    );
}

#[test]
fn seed_length_matches_mnemonic_size() {
    assert_eq!(seed_length_for(true), 16);
    assert_eq!(seed_length_for(false), 32);
}

#[test]
fn network_addresses_pick_the_synchronous_transport() {
    assert_eq!(classify_destination("http://wallet.example:3415"), TransportKind::Http);
    assert_eq!(classify_destination("https://wallet.example"), TransportKind::Http);
    assert_eq!(classify_destination("gn1qxyzrelayaddress"), TransportKind::Relay);
    assert_eq!(classify_destination("httpx://nope"), TransportKind::Relay);
    assert_eq!(classify_destination(""), TransportKind::Relay);
    assert_eq!(classify_destination("http:/"), TransportKind::Relay);
}
