use arctica::error::Error;
use arctica::helper::{
    decay_file_path, find_new_device, get_baseline, get_cd_path, get_descriptor_checksum,
    get_home, get_user, get_uuid, parse_fdisk_result, retrieve_decay_time,
    retrieve_decay_time_integer, user_of_home, DEFAULT_DECAY_TIMESTAMP,
};

const FDISK: &str = "Disk /dev/sda: 238.47 GiB, 256060514304 bytes, 500118192 sectors\n\
Disk model: Samsung SSD 860\n\
Units: sectors of 1 * 512 = 512 bytes\n\
\n\
Device     Start       End   Sectors   Size Type\n\
/dev/sda1   2048   1050623   1048576   512M EFI System\n\
\n\
Disk /dev/loop0: 4 KiB, 4096 bytes, 8 sectors\n\
\n\
Disk /dev/sdb: 14.32 GiB, 15376318464 bytes, 30031872 sectors\n\
Disk model: DataTraveler 3.0\n";

const FDISK_MORE: &str = "Disk /dev/sda: 238.47 GiB, 256060514304 bytes, 500118192 sectors\n\
Disk model: Samsung SSD 860\n\
Disk /dev/loop0: 4 KiB, 4096 bytes, 8 sectors\n\
Disk /dev/sdb: 14.32 GiB, 15376318464 bytes, 30031872 sectors\n\
Disk model: DataTraveler 3.0\n\
Disk /dev/sdc: 28.9 GiB, 31004295168 bytes, 60555264 sectors\n\
Disk model: Ultra\n";

#[test]
fn fdisk_listing_names_each_disk_in_order() {
    assert_eq!(parse_fdisk_result(FDISK), "/dev/sda, /dev/loop0, /dev/sdb");
}

#[test]
fn fdisk_listing_skips_names_the_pattern_does_not_take() {
    let out = "Disk /dev/sda: 10 GiB, 10737418240 bytes\nDisk model: X\nDisk /dev/nvme0n1: 1 TiB, 1099511627776 bytes\nDisk /dev/mapper/vg-root: 5 GiB\n";
    assert_eq!(parse_fdisk_result(out), "/dev/sda, /dev/nvme0n1");
    let now = "Disk /dev/sda: 10 GiB, 10737418240 bytes\nDisk /dev/nvme0n1: 1 TiB, 1099511627776 bytes\nDisk /dev/sdb: 8 GiB, 8589934592 bytes\n";
    assert_eq!(find_new_device(now, "\"/dev/sda, /dev/nvme0n1\""), Ok("/dev/sdb".to_string()));
}

#[test]
fn fdisk_listing_without_disks_is_empty() {
    assert_eq!(parse_fdisk_result("Units: sectors\n/dev/sda1 2048\n"), "");
    assert_eq!(parse_fdisk_result(""), "");
}

#[test]
fn fdisk_pattern_needs_a_colon_after_the_name() {
    assert_eq!(parse_fdisk_result("Disk /dev/sda 12 GiB\n"), "");
    assert_eq!(parse_fdisk_result("Disk /dev/: 12 GiB\n"), "");
    assert_eq!(parse_fdisk_result("xx Disk /dev/nvme0n1: 1 TiB\r\n"), "/dev/nvme0n1");
}

#[test]
fn fdisk_pattern_takes_unicode_word_characters() {
    assert_eq!(parse_fdisk_result("Disk /dev/sdé: 1 GiB\n"), "/dev/sdé");
    assert_eq!(parse_fdisk_result("Disk /dev/sd-a: 1 GiB\n"), "");
}

#[test]
fn new_device_is_found_against_a_baseline() {
    let baseline = get_baseline(FDISK);
    assert_eq!(baseline, "\"/dev/sda, /dev/loop0, /dev/sdb\"");
    assert_eq!(find_new_device(FDISK_MORE, &baseline), Ok("/dev/sdc".to_string()));
}

#[test]
fn same_listing_as_baseline_finds_no_device() {
    let baseline = get_baseline(FDISK);
    assert_eq!(find_new_device(FDISK, &baseline), Err("ERROR No device found".to_string()));
    let empty = get_baseline("");
    assert_eq!(empty, "\"\"");
    assert_eq!(find_new_device("", &empty), Err("ERROR No device found".to_string()));
}

#[test]
fn devices_removed_since_the_baseline_are_not_reported() {
    let baseline = get_baseline("Disk /dev/sda: 1 GiB\nDisk /dev/sdb: 2 GiB\n");
    let now = "Disk /dev/sda: 1 GiB\nDisk /dev/sdc: 2 GiB\n";
    assert_eq!(find_new_device(now, &baseline), Ok("/dev/sdc".to_string()));
}

#[test]
fn empty_listing_finds_no_device() {
    let baseline = get_baseline(FDISK);
    assert_eq!(find_new_device("", &baseline), Err("ERROR No device found".to_string()));
    assert_eq!(find_new_device("", "\"/dev/sda\""), Err("ERROR No device found".to_string()));
}

#[test]
fn two_new_devices_are_refused() {
    assert_eq!(
        find_new_device(FDISK_MORE, "/dev/sda"),
        Err("ERROR More than one device found".to_string())
    );
}

#[test]
fn baseline_escapes_quotes() {
    assert_eq!(get_baseline("Disk /dev/a: x\n"), "\"/dev/a\"");
}

#[test]
fn uuid_is_the_first_line_of_36_characters() {
    let listing = "CDROM\n 123e4567-e89b-12d3-a456-42661417400\nabcdefgh-e89b-12d3-a456-426614174000\n";
    match get_uuid(listing) {
        Ok(u) => assert_eq!(u, "123e4567-e89b-12d3-a456-42661417400"),
        Err(_) => panic!("expected a uuid"),
    }
}

#[test]
fn uuid_missing_is_reported() {
    match get_uuid("CDROM\nwritable\n") {
        Err(Error::UUIDNotFound()) => {}
        _ => panic!("expected UUIDNotFound"),
    }
}

#[test]
fn cd_path_needs_exactly_one_drive() {
    assert_eq!(get_cd_path("/dev/sr0\n"), Ok("/dev/sr0".to_string()));
    assert_eq!(get_cd_path("  \n"), Err("Error No valid path found".to_string()));
    assert_eq!(get_cd_path("/dev/sr0 /dev/sr1\n"), Err("Error multiple paths found".to_string()));
}

#[test]
fn user_is_the_third_component_of_home() {
    assert_eq!(user_of_home("/home/ubuntu"), Some("ubuntu".to_string()));
    assert_eq!(user_of_home("/home/ubuntu/x"), Some("ubuntu".to_string()));
    assert_eq!(user_of_home("/root"), None);
}

#[test]
fn user_agrees_with_home() {
    match get_home() {
        Ok(home) => match get_user() {
            Ok(user) => assert_eq!(Some(user), user_of_home(&home)),
            Err(Error::HomeNotFound()) => assert_eq!(user_of_home(&home), None),
            Err(_) => panic!("unexpected error"),
        },
        Err(Error::HomeNotFound()) => assert!(matches!(get_user(), Err(Error::HomeNotFound()))),
        Err(_) => panic!("unexpected error"),
    }
}

#[test]
fn decay_integer_reads_trimmed_text() {
    assert_eq!(retrieve_decay_time_integer(Some(" 1828655266\n".to_string())), 1828655266);
    assert_eq!(retrieve_decay_time_integer(Some("-5".to_string())), -5);
    assert_eq!(retrieve_decay_time_integer(Some("12a".to_string())), 0);
    assert_eq!(retrieve_decay_time_integer(Some("99999999999999999999".to_string())), 0);
    assert_eq!(retrieve_decay_time_integer(None), 0);
}

#[test]
fn decay_timestamp_defaults() {
    assert_eq!(retrieve_decay_time(Some("1700000000\n".to_string())), 1700000000);
    assert_eq!(retrieve_decay_time(Some("-1".to_string())), DEFAULT_DECAY_TIMESTAMP);
    assert_eq!(retrieve_decay_time(Some("+7".to_string())), 7);
    assert_eq!(retrieve_decay_time(None), 1676511266);
}

#[test]
fn decay_file_is_under_the_decay_dir() {
    assert_eq!(decay_file_path("delayed_decay1"), "/mnt/ramdisk/sensitive/decay/delayed_decay1");
}

#[test]
fn checksum_is_appended_after_a_hash() {
    assert_eq!(get_descriptor_checksum("wsh(x)", Ok("abcd1234".to_string())), "wsh(x)#abcd1234");
    assert_eq!(get_descriptor_checksum("wsh(x)", Err("no node".to_string())), "no node");
}

#[test]
fn error_messages() {
    assert_eq!(
        Error::CommandFailed("\"ls\"".to_string(), "boom".to_string()).message(),
        "Command: \"ls\"; Failed with Error: boom;"
    );
    assert_eq!(Error::UUIDNotFound().message(), "UUID Not Found");
    assert_eq!(Error::HomeNotFound().message(), "Home Directory Not Found");
    assert_eq!(Error::NetworkNotActive().message(), "Network Is Not Active/Connected");
    assert_eq!(Error::NetworkActive().message(), "Network Is Active/Connected");
    let io = std::io::Error::new(std::io::ErrorKind::Other, "disk gone");
    assert_eq!(Error::IoError(io).message(), "disk gone");
    let bad = vec![0xffu8];
    let utf8 = std::str::from_utf8(&bad).unwrap_err();
    assert_eq!(Error::StrUtf8Error(utf8).message(), utf8.to_string());
    let owned = String::from_utf8(bad.clone()).unwrap_err();
    let text = owned.to_string();
    assert_eq!(Error::StringUtf8Error(owned).message(), text);
}
