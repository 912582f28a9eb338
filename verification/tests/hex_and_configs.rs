//! Hex key parsing, the protocol command table, layer-shape builders, and
//! error descriptions.

use enclave_model::enclave::EnclaveState;
use enclave_model::errors::TeeError;
use enclave_model::hex_key::parse_hex_key_32;
use enclave_model::nn_config::{Conv2dNormActivationConfig, InvertedResidualConfig};
use enclave_model::proto::Command;

#[test]
fn parse_hex_key_decodes_pairs_big_endian() {
    let key = parse_hex_key_32(
        "00112233445566778899aabbccddeeff00112233445566778899aabbccddeeff",
    )
    .unwrap();
    assert_eq!(key.len(), 32);
    assert_eq!(&key[0..8], &[0x00, 0x11, 0x22, 0x33, 0x44, 0x55, 0x66, 0x77]);
    assert_eq!(key[15], 0xff);
    assert_eq!(key[16], 0x00);
}

#[test]
fn parse_hex_key_accepts_upper_case_and_whitespace() {
    let key = parse_hex_key_32(
        "  \tA1B2C3D4E5F60718293A4B5C6D7E8F90A1B2C3D4E5F60718293A4B5C6D7E8F90\n",
    )
    .unwrap();
    assert_eq!(key[0], 0xa1);
    assert_eq!(key[31], 0x90);
}

#[test]
fn parse_hex_key_rejects_wrong_lengths() {
    assert_eq!(parse_hex_key_32("").unwrap_err(), TeeError::BadParameters);
    assert_eq!(parse_hex_key_32("abcd").unwrap_err(), TeeError::BadParameters);
    let sixty_three = "0".repeat(63);
    assert_eq!(parse_hex_key_32(&sixty_three).unwrap_err(), TeeError::BadParameters);
    let sixty_five = "0".repeat(65);
    assert_eq!(parse_hex_key_32(&sixty_five).unwrap_err(), TeeError::BadParameters);
}

#[test]
fn parse_hex_key_rejects_non_hex_characters() {
    let mut s = "0".repeat(64);
    s.replace_range(10..11, "g");
    assert_eq!(parse_hex_key_32(&s).unwrap_err(), TeeError::BadParameters);
    let spaced = format!("{} {}", "0".repeat(31), "0".repeat(32));
    assert_eq!(parse_hex_key_32(&spaced).unwrap_err(), TeeError::BadParameters);
}

#[test]
fn parsed_key_provisions_the_enclave() {
    let key = parse_hex_key_32(&"ab".repeat(32)).unwrap();
    let mut st = EnclaveState::new();
    st.invoke_store_key(&key).unwrap();
    assert_eq!(st.invoke_export_aes_key().unwrap(), vec![0xab; 32]);
}

#[test]
fn command_codes_round_trip() {
    let commands = [
        Command::GenerateAesKey,
        Command::ImportAesKey,
        Command::ExportAesKey,
        Command::EncryptAesChunk,
        Command::DecryptAesChunk,
        Command::GenerateRandom,
        Command::HasAesKey,
        Command::GenerateRsaKey,
        Command::ImportRsaKey,
        Command::ExportRsaPublic,
    ];
    for (i, cmd) in commands.iter().enumerate() {
        assert_eq!(cmd.code(), i as u32);
        assert_eq!(Command::from(i as u32), *cmd);
    }
}

#[test]
fn out_of_range_command_falls_back() {
    assert_eq!(Command::from(10), Command::GenerateAesKey);
    assert_eq!(Command::from(u32::MAX), Command::GenerateAesKey);
}

#[test]
fn conv_config_defaults() {
    let c = Conv2dNormActivationConfig::new(3, 16);
    assert_eq!(c.in_channels, 3);
    assert_eq!(c.out_channels, 16);
    assert_eq!(c.kernel_size, 3);
    assert_eq!(c.stride, 1);
    assert_eq!(c.padding, 1);
    assert_eq!(c.dilation, 1);
    assert_eq!(c.groups, 1);
}

#[test]
fn unit_kernel_drops_padding() {
    let c = Conv2dNormActivationConfig::new(8, 8).with_kernel_size(1);
    assert_eq!(c.kernel_size, 1);
    assert_eq!(c.padding, 0);
    let c = Conv2dNormActivationConfig::new(8, 8).with_kernel_size(5);
    assert_eq!(c.kernel_size, 5);
    assert_eq!(c.padding, 1);
}

#[test]
fn builder_setters_touch_one_field() {
    let c = Conv2dNormActivationConfig::new(4, 4).with_stride(2).with_groups(4);
    assert_eq!(c.stride, 2);
    assert_eq!(c.groups, 4);
    assert_eq!(c.kernel_size, 3);
    assert_eq!(c.padding, 1);
}

#[test]
fn inverted_residual_derived_quantities() {
    let c = InvertedResidualConfig::new(16, 16, 1, 6);
    assert!(c.use_res_connect());
    assert_eq!(c.hidden_dim(), 96);
    let c = InvertedResidualConfig::new(16, 24, 2, 6);
    assert!(!c.use_res_connect());
}

#[test]
fn errors_describe_themselves() {
    assert_eq!(TeeError::BadParameters.describe(), "bad parameters");
    assert_eq!(TeeError::ItemNotFound.describe(), "item not found");
    assert_eq!(TeeError::ShortBuffer.describe(), "short buffer");
    assert_eq!(TeeError::CorruptObject.describe(), "corrupt object");
    assert_eq!(TeeError::BadState.describe(), "bad state");
}
