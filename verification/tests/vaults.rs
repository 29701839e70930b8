use arctica::chain_time::{calculate_decay_time, countdown, median_locktime, unix_to_block_height};

use arctica::descriptor::{
    build_high_descriptor, build_low_descriptor, build_med_descriptor, descriptor_path, hw_slot,
    private_key_path, time_machine_key_path, wallet_name, wallet_url, DelayedDecay, HwSlot,
};
use arctica::setup::{
    decay_schedule, decay_file_text, derived_key_text, descriptor_failed, parse_start_time,
    public_key_files,
};

fn keys() -> Vec<String> {
    (0..11).map(|i| format!("K{}", i)).collect()
}

fn decay() -> DelayedDecay {
    DelayedDecay { decay1: 100, decay2: 200, decay3: 300, decay4: 400, decay5: 500 }
}

#[test]
fn block_height_counts_ten_minute_blocks_since_genesis() {
    assert_eq!(unix_to_block_height(1231006505), 0);
    assert_eq!(unix_to_block_height(1231006505 + 6000), 10);
    assert_eq!(unix_to_block_height(1231006505 + 6599), 10);
    assert_eq!(unix_to_block_height(1231006505 - 601), -1);
    assert_eq!(unix_to_block_height(1231006505 - 599), 0);
}

#[test]
fn decay_report_lists_every_unit() {
    let t = 31536000 + 2 * 2592000 + 604800 + 3 * 86400 + 4 * 3600 + 5 * 60 + 6;
    assert_eq!(
        calculate_decay_time(1000 + t, 1000),
        "years=1, months=2, weeks=1, days=3, hours=4, minutes=5, seconds=6"
    );
}

#[test]
fn decay_complete_once_the_decay_time_is_reached() {
    assert_eq!(calculate_decay_time(1000, 1000), "decay complete");
    assert_eq!(calculate_decay_time(0, 5000000), "decay complete");
    assert_eq!(calculate_decay_time(1030, 1000), "years=0, months=0, weeks=0, days=0, hours=0, minutes=0, seconds=30");
    assert_eq!(calculate_decay_time(1001, 1000), "years=0, months=0, weeks=0, days=0, hours=0, minutes=0, seconds=1");
    assert_eq!(calculate_decay_time(1060, 1000), "years=0, months=0, weeks=0, days=0, hours=0, minutes=1, seconds=0");
}

#[test]
fn countdown_rounds_toward_zero() {
    let c = countdown(-90061);
    assert_eq!((c.years, c.months, c.weeks, c.days, c.hours, c.minutes, c.seconds), (0, 0, 0, -1, -1, -1, -1));
}

#[test]
fn countdown_adds_up_to_the_time_left() {
    for time in [0i64, 59, 60, 86399, 31535999, 31536000, 150000007, -150000007] {
        let c = countdown(time);
        let total = c.years * 31536000 + c.months * 2592000 + c.weeks * 604800 + c.days * 86400
            + c.hours * 3600 + c.minutes * 60 + c.seconds;
        assert_eq!(total, time);
        assert!(c.months.abs() <= 12 && c.weeks.abs() <= 4 && c.days.abs() <= 6);
        assert!(c.hours.abs() <= 23 && c.minutes.abs() <= 59 && c.seconds.abs() <= 59);
    }
    let c = countdown(31535999);
    assert_eq!((c.years, c.months, c.weeks, c.days, c.hours, c.minutes, c.seconds), (0, 12, 0, 4, 23, 59, 59));
}

#[test]
fn locktime_is_a_thousand_seconds_before_the_median() {
    assert_eq!(median_locktime(1700000000), "1699999000");
    assert_eq!(median_locktime(1000), "0");
}

#[test]
fn hardware_numbers() {
    assert!(matches!(hw_slot("1"), HwSlot::Wallet(1)));
    assert!(matches!(hw_slot("7"), HwSlot::Wallet(7)));
    assert!(matches!(hw_slot("timemachine4"), HwSlot::TimeMachine(4)));
    assert!(matches!(hw_slot("8"), HwSlot::ReadOnly));
    assert!(matches!(hw_slot(""), HwSlot::ReadOnly));
    assert!(matches!(hw_slot("timemachine5"), HwSlot::ReadOnly));
}

#[test]
fn high_descriptor_for_wallet_one() {
    let d = build_high_descriptor(&keys(), "1", "XPRV", "TM", &decay());
    assert_eq!(
        d,
        "wsh(and_v(v:thresh(5,pk(XPRV),s:pk(K1),s:pk(K2),s:pk(K3),s:pk(K4),s:pk(K5),s:pk(K6),snu:after(200),snu:after(300),snu:after(400),snu:after(500)),thresh(2,pk(K7),s:pk(K8),s:pk(K9),s:pk(K10),snu:after(100),snu:after(100))))"
    );
}

#[test]
fn high_descriptor_for_a_time_machine() {
    let d = build_high_descriptor(&keys(), "timemachine2", "XPRV", "TM", &decay());
    assert_eq!(
        d,
        "wsh(and_v(v:thresh(5,pk(K0),s:pk(K1),s:pk(K2),s:pk(K3),s:pk(K4),s:pk(K5),s:pk(K6),snu:after(200),snu:after(300),snu:after(400),snu:after(500)),thresh(2,pk(K7),s:pk(TM),s:pk(K9),s:pk(K10),snu:after(100),snu:after(100))))"
    );
}

#[test]
fn high_descriptor_read_only() {
    let d = build_high_descriptor(&keys(), "none", "XPRV", "TM", &decay());
    assert!(!d.contains("XPRV") && !d.contains("TM"));
    assert!(d.starts_with("wsh(and_v(v:thresh(5,pk(K0),"));
}

#[test]
fn signer_with_its_own_public_key_builds_the_watch_only_descriptor() {
    let k = keys();
    let watch = build_high_descriptor(&k, "x", "XPRV", "TM", &decay());
    for n in 1..=7usize {
        let own = build_high_descriptor(&k, &n.to_string(), &k[n - 1], "TM", &decay());
        assert_eq!(own, watch);
        let med_own = build_med_descriptor(&k, &n.to_string(), &k[n - 1], 9);
        assert_eq!(med_own, build_med_descriptor(&k, "x", "XPRV", 9));
        let low_own = build_low_descriptor(&k, &n.to_string(), &k[n - 1]);
        assert_eq!(low_own, build_low_descriptor(&k, "x", "XPRV"));
    }
    for n in 1..=4usize {
        let own = build_high_descriptor(&k, &format!("timemachine{}", n), "XPRV", &k[n + 6], &decay());
        assert_eq!(own, watch);
    }
}

#[test]
fn both_vaults_decay_together() {
    let d = decay_schedule(1676511266);
    let delayed = DelayedDecay {
        decay1: d.delayed_decay1 as i64,
        decay2: d.delayed_decay2 as i64,
        decay3: d.delayed_decay3 as i64,
        decay4: d.delayed_decay4 as i64,
        decay5: d.delayed_decay5 as i64,
    };
    let high = build_high_descriptor(&keys(), "1", "XPRV", "TM", &delayed);
    let med = build_med_descriptor(&keys(), "1", "XPRV", d.immediate_decay as i64);
    let last = format!("snu:after({})", 1676511266 + 126144000 + 4 * 5184000);
    assert!(high.contains(&format!("{}),thresh(2", last)));
    assert!(med.ends_with(&format!("{}))", last)));
}

#[test]
fn med_descriptor_for_wallet_three() {
    let d = build_med_descriptor(&keys(), "3", "XPRV", 1828655266);
    assert_eq!(
        d,
        "wsh(thresh(2,pk(K0),s:pk(K1),s:pk(XPRV),s:pk(K3),s:pk(K4),s:pk(K5),s:pk(K6),snu:after(1828655266)))"
    );
}

#[test]
fn med_descriptor_for_wallet_six_fills_slot_five() {
    let d = build_med_descriptor(&keys(), "6", "XPRV", 9);
    assert_eq!(
        d,
        "wsh(thresh(2,pk(K0),s:pk(K1),s:pk(K2),s:pk(K3),s:pk(K4),s:pk(XPRV),s:pk(K6),snu:after(9)))"
    );
}

#[test]
fn med_descriptor_ignores_time_machines() {
    let d = build_med_descriptor(&keys(), "timemachine1", "XPRV", -3);
    assert_eq!(
        d,
        "wsh(thresh(2,pk(K0),s:pk(K1),s:pk(K2),s:pk(K3),s:pk(K4),s:pk(K5),s:pk(K6),snu:after(-3)))"
    );
}

#[test]
fn low_descriptor_for_wallet_seven() {
    let d = build_low_descriptor(&keys(), "7", "XPRV");
    assert_eq!(
        d,
        "wsh(c:or_i(pk_k(K0),or_i(pk_h(K1),or_i(pk_h(K2),or_i(pk_h(K3),or_i(pk_h(K4),or_i(pk_h(K5),pk_h(XPRV))))))))"
    );
}

#[test]
fn key_and_descriptor_files() {
    assert_eq!(private_key_path("3", false), "/mnt/ramdisk/sensitive/private_key3");
    assert_eq!(private_key_path("3", true), "/mnt/ramdisk/sensitive/private_change_key3");
    assert_eq!(
        time_machine_key_path("timemachine1", true),
        "/mnt/ramdisk/CDROM/timemachinekeys/time_machine_private_keytimemachine1"
    );
    assert_eq!(
        time_machine_key_path("timemachine2", true),
        "/mnt/ramdisk/CDROM/timemachinekeys/time_machine_private_change_keytimemachine2"
    );
    assert_eq!(
        descriptor_path("delayed", "2", true),
        "/mnt/ramdisk/sensitive/descriptors/delayed_change_descriptor2"
    );
    assert_eq!(
        descriptor_path("immediate", "5", false),
        "/mnt/ramdisk/sensitive/descriptors/immediate_descriptor5"
    );
    assert_eq!(wallet_name("delayed", "1"), "delayed_wallet1");
    assert_eq!(wallet_url("immediate", "4"), "127.0.0.1:8332/wallet/immediate_wallet4");
}

#[test]
fn config_update_replaces_an_entry() {
    assert_eq!(arctica::config::write("type=test\nhwNumber=1\n", "hwNumber", "2"), "type=test\nhwNumber=2\n");
}

#[test]
fn config_update_appends_a_new_entry() {
    assert_eq!(arctica::config::write("type=test\n", "awake", "true"), "type=test\nawake=true");
    assert_eq!(arctica::config::write("", "type", "setupcd"), "type=setupcd");
}

#[test]
fn config_update_drops_lines_that_are_not_entries() {
    assert_eq!(arctica::config::write("junk\na=b=c\nx=1", "x", "2"), "x=2\n");
}

#[test]
fn config_write_twice_changes_nothing_more() {
    let once = arctica::config::write("type=test\nhwNumber=1\n", "hwNumber", "2");
    assert_eq!(arctica::config::write(&once, "hwNumber", "2"), once);
    let once = arctica::config::write("type=test\n", "awake", "true");
    assert_eq!(once, "type=test\nawake=true");
    assert_eq!(arctica::config::write(&once, "awake", "true"), "type=test\nawake=true\n");
}

#[test]
fn config_read_after_write() {
    let updated = arctica::config::write("a=1\nb=2\nc=3", "b", "9");
    let entries: Vec<(String, String)> = updated
        .split('\n')
        .filter_map(|l| {
            let p: Vec<&str> = l.split('=').collect();
            if p.len() == 2 { Some((p[0].to_string(), p[1].to_string())) } else { None }
        })
        .collect();
    assert_eq!(
        entries,
        vec![
            ("a".to_string(), "1".to_string()),
            ("b".to_string(), "9".to_string()),
            ("c".to_string(), "3".to_string())
        ]
    );
}

#[test]
fn decay_schedule_steps_two_months_after_four_years() {
    let d = decay_schedule(1700000000);
    assert_eq!(d.delayed_decay1, 1826144000);
    assert_eq!(d.delayed_decay2, 1831328000);
    assert_eq!(d.delayed_decay3, 1836512000);
    assert_eq!(d.delayed_decay4, 1841696000);
    assert_eq!(d.delayed_decay5, 1846880000);
    assert_eq!(d.immediate_decay, d.delayed_decay5);
    assert_eq!(decay_file_text(d.delayed_decay1), "1826144000");
}

#[test]
fn start_time_parses_date_output() {
    assert_eq!(parse_start_time("1700000000\n"), Some(1700000000));
    assert_eq!(parse_start_time("3000000000\n"), None);
    assert_eq!(parse_start_time(""), None);
}

#[test]
fn missing_key_file_is_noticed() {
    assert!(descriptor_failed("cat: /mnt/x: No such file or directory"));
    assert!(!descriptor_failed("wsh(pk(x))#abc"));
}

#[test]
fn derived_keys_and_key_files() {
    assert_eq!(derived_key_text("xpub1", false), "xpub1/0/*");
    assert_eq!(derived_key_text("xprv1", true), "xprv1/1/*");
    let files = public_key_files(false);
    assert_eq!(files.len(), 11);
    assert_eq!(files[0], "/mnt/ramdisk/CDROM/pubkeys/public_key1");
    assert_eq!(files[6], "/mnt/ramdisk/CDROM/pubkeys/public_key7");
    assert_eq!(files[7], "/mnt/ramdisk/CDROM/pubkeys/time_machine_public_key1");
    assert_eq!(public_key_files(true)[10], "/mnt/ramdisk/CDROM/pubkeys/time_machine_public_change_key4");
}
