use arctica::devices::{device_summary, masterkey_from_output, shard_files};
use arctica::keys::generate_keypair;
use arctica::node::{bitcoind_args, core_binary};
use arctica::wallet::{
    balance_amount, psbt_options, qr_payload, recipient_scan_next, recipient_scan_start,
    retry_psbt_options, RecipientScan, Replaceable, TxCategory,
};

const FDISK: &str = "Disk /dev/sda: 238.47 GiB, 256060514304 bytes, 500118192 sectors\n\
Disk model: Samsung SSD 860\n\
Units: sectors of 1 * 512 = 512 bytes\n\
Disk /dev/loop0: 4 KiB, 4096 bytes, 8 sectors\n\
Disk /dev/sdb: 1.82 TiB, 2000398934016 bytes, 3907029168 sectors\n\
Disk model: WDC WD20EZRZ\n\
Disk /dev/sdc: 14.32 GiB, 15376318464 bytes, 30031872 sectors\n\
Disk model: DataTraveler, 3.0\n";

#[test]
fn device_summary_lists_disks_with_models() {
    assert_eq!(
        device_summary(FDISK, true),
        "Mount: /dev/sda - Model: Samsung SSD 860 - Size: 238.47 GiB,\nMount: /dev/sdb - Model: WDC WD20EZRZ - Size: 1.82 TiB,\nMount: /dev/sdc - Model: DataTraveler, 3.0 - Size: 14.32 GiB"
    );
}

#[test]
fn device_summary_leaves_out_large_disks_without_password() {
    assert_eq!(
        device_summary(FDISK, false),
        "Mount: /dev/sda - Model: Samsung SSD 860 - Size: 238.47 GiB,\nMount: /dev/sdc - Model: DataTraveler, 3.0 - Size: 14.32 GiB"
    );
}

#[test]
fn password_changes_nothing_without_large_disks() {
    let out = "Disk /dev/sda: 238.47 GiB, 256060514304 bytes\nDisk model: Samsung\nDisk /dev/sdc: 14.32 GiB, 1 bytes\nDisk model: Stick\n";
    assert_eq!(device_summary(out, true), device_summary(out, false));
    assert_eq!(device_summary(out, false), "Mount: /dev/sda - Model: Samsung - Size: 238.47 GiB,\nMount: /dev/sdc - Model: Stick - Size: 14.32 GiB");
}

#[test]
fn device_summary_drops_short_pieces() {
    let out = "Disk /dev/sdz: 1 GiB, 1 bytes\nDisk model: a,b,,cd\n";
    assert_eq!(device_summary(out, true), "Mount: /dev/sdz - Model: a,cd - Size: 1 GiB");
    assert_eq!(device_summary("", true), "");
}

#[test]
fn shard_list_is_complete_at_five() {
    assert!(!arctica::devices::shard_list_complete(4));
    assert!(arctica::devices::shard_list_complete(5));
}

#[test]
fn shards_are_the_non_empty_lines() {
    assert_eq!(shard_files("shard1.txt\nshard11.txt\n\n"), vec!["shard1.txt", "shard11.txt"]);
    assert!(shard_files("").is_empty());
}

#[test]
fn masterkey_follows_the_report() {
    assert_eq!(masterkey_from_output("Resulting secret: 5f3a9c\n"), "5f3a9c");
    assert_eq!(masterkey_from_output("Resulting secret:Resulting secret: k "), "k");
    assert_eq!(masterkey_from_output("WARNING: x\n"), "WARNING: x");
}

#[test]
fn balance_drops_the_unit() {
    assert_eq!(balance_amount("0.00100000 BTC"), "0.00100000");
    assert_eq!(balance_amount("12"), "12");
}

#[test]
fn qr_payloads() {
    assert_eq!(qr_payload("QR-Code:bitcoin:bc1qxyz\n"), Ok("bc1qxyz".to_string()));
    assert_eq!(qr_payload("bc1qxyz"), Ok("bc1qxyz".to_string()));
    assert_eq!(qr_payload("bitcoin:bc1qxyz"), Ok("bc1qxyz".to_string()));
    assert_eq!(qr_payload("bitcoin:"), Ok("".to_string()));
    assert_eq!(qr_payload("QR-Code:bitcoin"), Err("ERROR, no data after 'bitcoin:' in payload".to_string()));
    assert_eq!(qr_payload("QR-Code:hello"), Err("ERROR reading QR code".to_string()));
}

#[test]
fn psbt_fee_options() {
    let first = psbt_options(0);
    assert_eq!(first.fee_rate, None);
    assert!(first.subtract_fee_from_outputs.is_empty());
    let first = psbt_options(12);
    assert_eq!(first.fee_rate, Some(12));
    let second = retry_psbt_options(&first, "error code: -4\nerror message:\nInsufficient funds");
    assert_eq!(second.fee_rate, Some(12));
    assert_eq!(second.subtract_fee_from_outputs, vec![0u32]);
    assert_eq!(retry_psbt_options(&second, "").subtract_fee_from_outputs, vec![0u32]);
    assert!(retry_psbt_options(&first, "").subtract_fee_from_outputs.is_empty());
}

#[test]
fn recipient_is_the_first_foreign_output() {
    assert!(matches!(recipient_scan_start(2), RecipientScan::Inspect(0)));
    assert!(matches!(recipient_scan_start(0), RecipientScan::Report(0)));
    assert!(matches!(recipient_scan_next(0, 2, Some(true)), RecipientScan::Inspect(1)));
    assert!(matches!(recipient_scan_next(1, 2, Some(false)), RecipientScan::Report(1)));
    assert!(matches!(recipient_scan_next(1, 2, None), RecipientScan::Report(0)));
}

#[test]
fn transaction_labels() {
    assert_eq!(TxCategory::Send.label(), "Send");
    assert_eq!(TxCategory::Orphan.label(), "Orphan");
    assert_eq!(Replaceable::Unknown.label(), "Unknown");
}

#[test]
fn generated_keys_are_extended_keys() {
    let (xprv, xpub) = generate_keypair().expect("key generation");
    assert!(xprv.starts_with("xprv"));
    assert!(xpub.starts_with("xpub"));
    assert_eq!(xprv.len(), 111);
    assert_eq!(xpub.len(), 111);
    let (other, _) = generate_keypair().expect("key generation");
    assert_ne!(other, xprv);
}

#[test]
fn bitcoind_arguments() {
    assert_eq!(
        bitcoind_args("/home/u", "ubuntu", "U", "host\n", false, true, true),
        vec![
            "-debuglogfile=/mnt/ramdisk/debug.log",
            "-conf=/home/u/.bitcoin/bitcoin.conf",
            "-walletdir=/mnt/ramdisk/sensitive/wallets",
            "-networkactive=0"
        ]
    );
    assert_eq!(
        bitcoind_args("/home/u", "ubuntu", "U", "host\n", true, false, true),
        vec!["-debuglogfile=/mnt/ramdisk/debug.log", "-datadir=/home/u/.bitcoin"]
    );
    assert_eq!(
        bitcoind_args("/home/u", "ubuntu", "U", " host\n", true, true, true),
        vec![
            "-reindex",
            "-debuglogfile=/mnt/ramdisk/debug.log",
            "-conf=/home/u/.bitcoin/bitcoin.conf",
            "-datadir=/media/ubuntu/U/home/host/.bitcoin",
            "-walletdir=/mnt/ramdisk/sensitive/wallets"
        ]
    );
    assert_eq!(bitcoind_args("/h", "u", "U", "x", true, true, false).len(), 4);
    assert_eq!(core_binary("/home/u", "bitcoin-cli"), "/home/u/bitcoin-25.0/bin/bitcoin-cli");
}
