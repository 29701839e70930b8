use arctica::devices::shard_list_text;
use arctica::keys::keypair_from_seed;
use arctica::psbt::{output_address, psbt_summary, recipient_report, transaction_hex, PsbtError};
use base64::Engine;
use bitcoin::psbt::PartiallySignedTransaction;
use bitcoin::{absolute, ScriptBuf, Transaction, TxOut};

fn p2wpkh(fill: u8) -> Vec<u8> {
    let mut script = vec![0x00, 0x14];
    script.extend(std::iter::repeat(fill).take(20));
    script
}

fn psbt_text(outputs: &[(Vec<u8>, u64)]) -> String {
    let tx = Transaction {
        version: 2,
        lock_time: absolute::LockTime::ZERO,
        input: vec![],
        output: outputs
            .iter()
            .map(|(s, v)| TxOut { value: *v, script_pubkey: ScriptBuf::from_bytes(s.clone()) })
            .collect(),
    };
    let psbt = PartiallySignedTransaction::from_unsigned_tx(tx).unwrap();
    base64::engine::general_purpose::STANDARD.encode(psbt.serialize())
}

#[test]
fn psbt_outputs_are_read_in_order() {
    let text = psbt_text(&[(p2wpkh(1), 1000), (p2wpkh(2), 25000)]);
    let summary = psbt_summary(&text).ok().expect("a PSBT");
    assert_eq!(summary.outputs.len(), 2);
    assert_eq!(summary.outputs[0].script_pubkey, p2wpkh(1));
    assert_eq!(summary.outputs[0].value_sat, 1000);
    assert_eq!(summary.outputs[1].script_pubkey, p2wpkh(2));
    assert_eq!(summary.outputs[1].value_sat, 25000);
    assert_eq!(summary.fee_sat, None);
}

#[test]
fn text_that_is_not_a_psbt_is_refused() {
    assert!(matches!(psbt_summary("not base64!"), Err(PsbtError::InvalidBase64)));
    assert!(matches!(psbt_summary("cHNidA=="), Err(PsbtError::InvalidPsbt)));
}

#[test]
fn output_addresses_are_mainnet() {
    let text = psbt_text(&[(p2wpkh(0), 1000), (vec![0x6a, 0x01, 0x00], 0)]);
    let summary = psbt_summary(&text).ok().expect("a PSBT");
    let address = output_address(&summary, 0).expect("a segwit address");
    assert!(address.starts_with("bc1q"));
    assert_eq!(address.len(), 42);
    assert!(output_address(&summary, 1).is_err());
}

#[test]
fn recipient_line() {
    assert_eq!(recipient_report("bc1qxyz", 25000), "address=bc1qxyz, amount=25000, fee=");
}

#[test]
fn raw_transaction_in_lowercase_hex() {
    assert_eq!(transaction_hex(&vec![0x00, 0xab, 0x1f, 0xff, 0x90]), "00ab1fff90");
    assert_eq!(transaction_hex(&vec![]), "");
}

#[test]
fn shard_list_takes_five_trimmed_lines() {
    let lines: Vec<String> = (1..=6).map(|i| format!("shard{} \n", i)).collect();
    assert_eq!(shard_list_text(&lines), "shard1\nshard2\nshard3\nshard4\nshard5\n");
    assert_eq!(shard_list_text(&vec!["only\r\n".to_string()]), "only\n");
}

#[test]
fn key_pair_of_the_first_bip32_test_seed() {
    let seed: Vec<u8> = (0u8..16).collect();
    let (xprv, xpub) = keypair_from_seed(&seed).expect("a master key");
    assert_eq!(
        xprv,
        "xprv9s21ZrQH143K3QTDL4LXw2F7HEK3wJUD2nW2nRk4stbPy6cq3jPPqjiChkVvvNKmPGJxWUtg6LnF5kejMRNNU3TGtRBeJgk33yuGBxrMPHi"
    );
    assert_eq!(
        xpub,
        "xpub661MyMwAqRbcFtXgS5sYJABqqG9YLmC4Q1Rdap9gSE8NqtwybGhePY2gZ29ESFjqJoCu1Rupje8YtGqsefD265TMg7usUDFdp6W1EGMcet8"
    );
}
