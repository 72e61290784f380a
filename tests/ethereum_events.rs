use ethereum_events::address::{DbKeySeg, EthAddress, KeySegError};
use ethereum_events::events::{
    Address, Amount, EthereumEvent, KeccakHash, TokenWhitelist, TransferToEthereum,
    TransferToNamada,
};
use ethereum_events::uint::Uint;
use sha2::Digest;

const DAI_ERC20_ETH_ADDRESS_CHECKSUMMED: &str = "0x6B175474E89094C44Da98b954EedeAC495271d0F";
const DAI_ERC20_ETH_ADDRESS: EthAddress = EthAddress([
    107, 23, 84, 116, 232, 144, 148, 196, 77, 169, 139, 149, 78, 237, 234, 196, 149, 39, 29, 15,
]);
const USDC_ERC20_ETH_ADDRESS_CHECKSUMMED: &str = "0xA0b86991c6218b36c1d19D4a2e9Eb0cE3606eB48";
const USDC_ERC20_ETH_ADDRESS: EthAddress = EthAddress([
    160, 184, 105, 145, 198, 33, 139, 54, 193, 209, 157, 74, 46, 158, 176, 206, 54, 6, 235, 72,
]);

fn receiver() -> Address {
    Address("atest1v4ehgw36xue5xvf5xvuyzvpjx5un2v3k8qeyvd3cxdqns32p89rrxd6xx9zngvpegccnzs699rdnnt".to_string())
}

fn single_transfer(nonce: Uint, receiver: Address) -> EthereumEvent {
    EthereumEvent::TransfersToNamada {
        nonce,
        transfers: vec![TransferToNamada {
            amount: Amount::from(1_000),
            asset: DAI_ERC20_ETH_ADDRESS,
            receiver,
        }],
    }
}

#[test]
fn test_eth_address_to_canonical() {
    let canonical = DAI_ERC20_ETH_ADDRESS.to_canonical();

    assert_eq!(DAI_ERC20_ETH_ADDRESS_CHECKSUMMED.to_ascii_lowercase(), canonical);
}

#[test]
fn test_eth_address_from_str() {
    let addr = EthAddress::from_str(DAI_ERC20_ETH_ADDRESS_CHECKSUMMED).unwrap();

    assert_eq!(DAI_ERC20_ETH_ADDRESS, addr);
}

#[test]
fn test_eth_address_from_str_error() {
    let result = EthAddress::from_str("arbitrary string which isn't an Ethereum address");

    assert!(result.is_err());
}

#[test]
fn test_eth_address_serde_roundtrip() {
    let addr = EthAddress::from_str(DAI_ERC20_ETH_ADDRESS_CHECKSUMMED).unwrap();
    let serialized = serde_json::to_string(&addr.to_string()).expect("Test failed");
    assert_eq!(
        serialized,
        format!(r#""{}""#, DAI_ERC20_ETH_ADDRESS_CHECKSUMMED.to_lowercase())
    );
    let text: String = serde_json::from_str(&serialized).expect("Test failed");
    let deserialized = EthAddress::try_from(text).expect("Test failed");
    assert_eq!(addr, deserialized);
}

#[test]
fn canonical_round_trip_of_several_addresses() {
    for bytes in [[0u8; 20], [255u8; 20], DAI_ERC20_ETH_ADDRESS.0, USDC_ERC20_ETH_ADDRESS.0] {
        let addr = EthAddress(bytes);
        let text = addr.to_canonical();
        assert_eq!(text.len(), 42);
        assert_eq!(EthAddress::from_str(&text).unwrap(), addr);
    }
    assert_eq!(EthAddress([0u8; 20]).to_canonical(), format!("0x{}", "0".repeat(40)));
    assert_eq!(EthAddress([255u8; 20]).to_canonical(), format!("0x{}", "f".repeat(40)));
}

#[test]
fn checksummed_lower_and_upper_forms_read_alike() {
    let lower = EthAddress::from_str(&USDC_ERC20_ETH_ADDRESS_CHECKSUMMED.to_lowercase()).unwrap();
    let mixed = EthAddress::from_str(USDC_ERC20_ETH_ADDRESS_CHECKSUMMED).unwrap();
    let upper_digits = format!("0x{}", USDC_ERC20_ETH_ADDRESS_CHECKSUMMED[2..].to_uppercase());
    let upper = EthAddress::from_str(&upper_digits).unwrap();
    assert_eq!(lower, USDC_ERC20_ETH_ADDRESS);
    assert_eq!(mixed, USDC_ERC20_ETH_ADDRESS);
    assert_eq!(upper, USDC_ERC20_ETH_ADDRESS);
}

#[test]
fn malformed_address_texts_are_rejected() {
    let too_long = format!("{}0", DAI_ERC20_ETH_ADDRESS_CHECKSUMMED);
    let no_prefix = &DAI_ERC20_ETH_ADDRESS_CHECKSUMMED[2..];
    let upper_prefix = format!("0X{}", &DAI_ERC20_ETH_ADDRESS_CHECKSUMMED[2..]);
    let spaced = format!("0x {}", &DAI_ERC20_ETH_ADDRESS_CHECKSUMMED[3..]);
    let bad_digit = format!("0xg{}", &DAI_ERC20_ETH_ADDRESS_CHECKSUMMED[3..]);
    for text in [
        "not an address",
        "0x123",
        "",
        "0x",
        too_long.as_str(),
        no_prefix,
        upper_prefix.as_str(),
        spaced.as_str(),
        bad_digit.as_str(),
    ] {
        let err = EthAddress::from_str(text).unwrap_err();
        assert_eq!(err.input, text);
    }
}

#[test]
fn key_segment_round_trip_and_error() {
    let raw = DAI_ERC20_ETH_ADDRESS.raw();
    assert_eq!(raw, "0x6b175474e89094c44da98b954eedeac495271d0f");
    assert_eq!(DAI_ERC20_ETH_ADDRESS.to_db_key(), DbKeySeg::StringSeg(raw.clone()));
    assert_eq!(EthAddress::parse(raw).unwrap(), DAI_ERC20_ETH_ADDRESS);
    let bad = "not an address".to_string();
    assert_eq!(EthAddress::parse(bad.clone()), Err(KeySegError::ParseKeySeg(bad)));
}

#[test]
fn serialized_text_fixture() {
    let addr = EthAddress::from_str(DAI_ERC20_ETH_ADDRESS_CHECKSUMMED).unwrap();
    assert_eq!(addr.to_string(), "0x6b175474e89094c44da98b954eedeac495271d0f");
    let back = EthAddress::try_from(addr.to_string()).unwrap();
    assert_eq!(back.0, DAI_ERC20_ETH_ADDRESS.0);
}

#[test]
fn uint_from_u64_to_bytes() {
    let bytes = Uint::from(123u64).to_bytes();
    let mut expected = [0u8; 32];
    expected[0] = 123;
    assert_eq!(bytes, expected);
    assert_eq!(Uint::from(123u64), Uint([123, 0, 0, 0]));
}

#[test]
fn uint_to_bytes_word_order() {
    let u = Uint([0x0807060504030201, 0, 0, 0x2000000000000000]);
    let bytes = u.to_bytes();
    assert_eq!(&bytes[0..8], &[1, 2, 3, 4, 5, 6, 7, 8]);
    assert_eq!(&bytes[8..31], &[0u8; 23]);
    assert_eq!(bytes[31], 0x20);
}

#[test]
fn hash_is_deterministic_and_nonce_sensitive() {
    let a = single_transfer(Uint::from(123), receiver());
    let b = single_transfer(Uint::from(123), receiver());
    assert_eq!(a.try_to_vec().unwrap(), b.try_to_vec().unwrap());
    assert_eq!(a.hash().unwrap(), b.hash().unwrap());
    let c = single_transfer(Uint::from(124), receiver());
    assert_ne!(a.hash().unwrap(), c.hash().unwrap());
}

#[test]
fn hash_changes_with_any_field() {
    let base = single_transfer(Uint::from(123), receiver());
    let h = base.hash().unwrap();
    let other_amount = EthereumEvent::TransfersToNamada {
        nonce: Uint::from(123),
        transfers: vec![TransferToNamada {
            amount: Amount::from(1_001),
            asset: DAI_ERC20_ETH_ADDRESS,
            receiver: receiver(),
        }],
    };
    let other_asset = EthereumEvent::TransfersToNamada {
        nonce: Uint::from(123),
        transfers: vec![TransferToNamada {
            amount: Amount::from(1_000),
            asset: USDC_ERC20_ETH_ADDRESS,
            receiver: receiver(),
        }],
    };
    let other_receiver = single_transfer(Uint::from(123), Address("atest1other".to_string()));
    let t1 = TransferToNamada { amount: Amount::from(1), asset: DAI_ERC20_ETH_ADDRESS, receiver: receiver() };
    let t2 = TransferToNamada { amount: Amount::from(2), asset: DAI_ERC20_ETH_ADDRESS, receiver: receiver() };
    let in_order = EthereumEvent::TransfersToNamada { nonce: Uint::from(1), transfers: vec![t1.clone(), t2.clone()] };
    let swapped = EthereumEvent::TransfersToNamada { nonce: Uint::from(1), transfers: vec![t2, t1] };
    assert_ne!(h, other_amount.hash().unwrap());
    assert_ne!(h, other_asset.hash().unwrap());
    assert_ne!(h, other_receiver.hash().unwrap());
    assert_ne!(in_order.hash().unwrap(), swapped.hash().unwrap());
}

#[test]
fn hash_is_sha256_of_encoding() {
    let event = single_transfer(Uint::from(123), receiver());
    let bytes = event.try_to_vec().unwrap();
    let expected: [u8; 32] = sha2::Sha256::digest(&bytes).into();
    assert_eq!(event.hash().unwrap().0, expected);
    assert_ne!(&expected[..], &bytes[..32]);
}

#[test]
fn encoding_matches_borsh_layout() {
    let event = single_transfer(Uint::from(123), receiver());
    let expected = borsh::to_vec(&(
        0u8,
        [123u64, 0, 0, 0],
        vec![(1_000u64, DAI_ERC20_ETH_ADDRESS.0, receiver().0)],
    ))
    .unwrap();
    assert_eq!(event.try_to_vec().unwrap(), expected);

    let to_eth = EthereumEvent::TransfersToEthereum {
        nonce: Uint::from(7),
        transfers: vec![TransferToEthereum {
            amount: Amount::from(5),
            asset: USDC_ERC20_ETH_ADDRESS,
            receiver: DAI_ERC20_ETH_ADDRESS,
            gas_amount: Amount::from(9),
            gas_payer: receiver(),
        }],
    };
    let expected = borsh::to_vec(&(
        1u8,
        [7u64, 0, 0, 0],
        vec![(5u64, USDC_ERC20_ETH_ADDRESS.0, DAI_ERC20_ETH_ADDRESS.0, 9u64, receiver().0)],
    ))
    .unwrap();
    assert_eq!(to_eth.try_to_vec().unwrap(), expected);

    let valset = EthereumEvent::ValidatorSetUpdate {
        nonce: Uint([1, 2, 3, 4]),
        bridge_validator_hash: KeccakHash([0; 32]),
        governance_validator_hash: KeccakHash([1; 32]),
    };
    let expected = borsh::to_vec(&(2u8, [1u64, 2, 3, 4], [0u8; 32], [1u8; 32])).unwrap();
    assert_eq!(valset.try_to_vec().unwrap(), expected);

    let new_contract = EthereumEvent::NewContract { name: "bridge".to_string(), address: DAI_ERC20_ETH_ADDRESS };
    let expected = borsh::to_vec(&(3u8, "bridge".to_string(), DAI_ERC20_ETH_ADDRESS.0)).unwrap();
    assert_eq!(new_contract.try_to_vec().unwrap(), expected);

    let upgraded = EthereumEvent::UpgradedContract { name: "gouvernance ü".to_string(), address: USDC_ERC20_ETH_ADDRESS };
    let expected = borsh::to_vec(&(4u8, "gouvernance ü".to_string(), USDC_ERC20_ETH_ADDRESS.0)).unwrap();
    assert_eq!(upgraded.try_to_vec().unwrap(), expected);

    let whitelist = EthereumEvent::UpdateBridgeWhitelist {
        nonce: Uint::from(3),
        whitelist: vec![
            TokenWhitelist { token: DAI_ERC20_ETH_ADDRESS, cap: Amount::from(100) },
            TokenWhitelist { token: USDC_ERC20_ETH_ADDRESS, cap: Amount::from(200) },
        ],
    };
    let expected = borsh::to_vec(&(
        5u8,
        [3u64, 0, 0, 0],
        vec![(DAI_ERC20_ETH_ADDRESS.0, 100u64), (USDC_ERC20_ETH_ADDRESS.0, 200u64)],
    ))
    .unwrap();
    assert_eq!(whitelist.try_to_vec().unwrap(), expected);
}

#[test]
fn empty_batch_encoding() {
    let event = EthereumEvent::TransfersToNamada { nonce: Uint::from(0), transfers: vec![] };
    let mut expected = vec![0u8];
    expected.extend_from_slice(&[0u8; 32]);
    expected.extend_from_slice(&[0u8; 4]);
    assert_eq!(event.try_to_vec().unwrap(), expected);
    assert!(event.hash().is_ok());
}

#[test]
fn variants_with_alike_fields_differ_and_order_by_kind() {
    let inbound = EthereumEvent::TransfersToNamada { nonce: Uint::from(123), transfers: vec![] };
    let outbound = EthereumEvent::TransfersToEthereum { nonce: Uint::from(123), transfers: vec![] };
    assert_ne!(inbound, outbound);
    assert!(inbound < outbound);
    assert_ne!(inbound.hash().unwrap(), outbound.hash().unwrap());
    let new_contract = EthereumEvent::NewContract { name: "c".to_string(), address: DAI_ERC20_ETH_ADDRESS };
    let upgraded = EthereumEvent::UpgradedContract { name: "c".to_string(), address: DAI_ERC20_ETH_ADDRESS };
    assert_ne!(new_contract, upgraded);
    assert!(new_contract < upgraded);
    assert_ne!(new_contract.hash().unwrap(), upgraded.hash().unwrap());
}

#[test]
fn uint_orders_by_value() {
    let small = Uint([u64::MAX, 0, 0, 0]);
    let big = Uint([0, 1, 0, 0]);
    let top = Uint([0, 0, 0, 1]);
    assert!(small < big);
    assert!(big < top);
    assert!(Uint::from(5) < Uint::from(6));
    assert_eq!(big.partial_cmp(&Uint([0, 1, 0, 0])), Some(std::cmp::Ordering::Equal));
    let low_nonce = EthereumEvent::TransfersToNamada { nonce: small, transfers: vec![] };
    let high_nonce = EthereumEvent::TransfersToNamada { nonce: big, transfers: vec![] };
    assert!(low_nonce < high_nonce);
}
