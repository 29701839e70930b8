//! Starting the Bitcoin Core daemon: the arguments for each way the node
//! runs (offline for signing, online without wallets, or online with the
//! wallets and the block data on the internal drive).
use vstd::prelude::*;
use crate::text::{chars_of, string_of, trim, trim_chars, views};

verus! {

/// The arguments that start `bitcoind`, given the home directory `home`,
/// the user `user`, the internal drive's `uuid` and the user of the internal
/// drive's home `host_user`: offline with the wallets on the ramdisk when the
/// network is off; online with the default data directory when the wallets
/// are not wanted; otherwise online with the block data on the internal
/// drive, reindexing first when asked.
pub open spec fn spec_bitcoind_args(
    home: Seq<char>,
    user: Seq<char>,
    uuid: Seq<char>,
    host_user: Seq<char>,
    network_active: bool,
    wallets: bool,
    reindex: bool,
) -> Seq<Seq<char>> {
    let log = "-debuglogfile=/mnt/ramdisk/debug.log"@;
    let conf = "-conf="@ + home + "/.bitcoin/bitcoin.conf"@;
    let walletdir = "-walletdir=/mnt/ramdisk/sensitive/wallets"@;
    let internal = "-datadir=/media/"@ + user + "/"@ + uuid + "/home/"@ + host_user + "/.bitcoin"@;
    if !network_active {
        seq![log, conf, walletdir, "-networkactive=0"@]
    } else if !wallets {
        seq![log, "-datadir="@ + home + "/.bitcoin"@]
    } else if reindex {
        seq!["-reindex"@, log, conf, internal, walletdir]
    } else {
        seq![log, conf, internal, walletdir]
    }
}

/// The arguments that start `bitcoind`; `host_listing` is the output of
/// `ls` on the internal drive's `home`, whose trimmed text names its user.
pub fn bitcoind_args(
    home: &str,
    user: &str,
    uuid: &str,
    host_listing: &str,
    network_active: bool,
    wallets: bool,
    reindex: bool,
) -> (r: Vec<String>)
    ensures
        views(r@) == spec_bitcoind_args(
            home@,
            user@,
            uuid@,
            trim(host_listing@),
            network_active,
            wallets,
            reindex,
        ),
{
    let host_chars = trim_chars(&chars_of(host_listing));
    let host_user = string_of(host_chars.as_slice());
    let log = String::from_str("-debuglogfile=/mnt/ramdisk/debug.log");
    let mut conf = String::from_str("-conf=");
    conf.append(home);
    conf.append("/.bitcoin/bitcoin.conf");
    let walletdir = String::from_str("-walletdir=/mnt/ramdisk/sensitive/wallets");
    let mut internal = String::from_str("-datadir=/media/");
    internal.append(user);
    internal.append("/");
    internal.append(uuid);
    internal.append("/home/");
    internal.append(host_user.as_str());
    internal.append("/.bitcoin");
    let mut r: Vec<String> = Vec::new();
    if !network_active {
        r.push(log);
        r.push(conf);
        r.push(walletdir);
        r.push(String::from_str("-networkactive=0"));
    } else if !wallets {
        let mut datadir = String::from_str("-datadir=");
        datadir.append(home);
        datadir.append("/.bitcoin");
        r.push(log);
        r.push(datadir);
    } else {
        if reindex {
            r.push(String::from_str("-reindex"));
        }
        r.push(log);
        r.push(conf);
        r.push(internal);
        r.push(walletdir);
    }
    assert(views(r@) =~= spec_bitcoind_args(
        home@,
        user@,
        uuid@,
        trim(host_listing@),
        network_active,
        wallets,
        reindex,
    ));
    r
}

/// The path of a Bitcoin Core program (`bitcoind`, `bitcoin-cli`) under the
/// home directory.
pub fn core_binary(home: &str, program: &str) -> (p: String)
    ensures
        p@ == home@ + "/bitcoin-25.0/bin/"@ + program@,
{
    let mut p = String::from_str(home);
    p.append("/bitcoin-25.0/bin/");
    p.append(program);
    p
}

/// How the arguments that start `bitcoind` relate across its modes:
/// reindexing only puts `-reindex` in front of the ordinary start; the
/// ordinary start with the wallets reads the block data on the internal
/// drive, `/media/<user>/<uuid>/home/<host user>/.bitcoin`, and the wallets
/// from the ramdisk; without the wallets the node reads the home
/// directory's `.bitcoin`; offline, the network is switched off and the
/// wallets are read from the ramdisk. The log always goes to the ramdisk.
pub proof fn lemma_bitcoind_modes(
    home: Seq<char>,
    user: Seq<char>,
    uuid: Seq<char>,
    host_user: Seq<char>,
    reindex: bool,
)
    ensures
        spec_bitcoind_args(home, user, uuid, host_user, true, true, true) == seq!["-reindex"@]
            + spec_bitcoind_args(home, user, uuid, host_user, true, true, false),
        spec_bitcoind_args(home, user, uuid, host_user, true, true, false).contains(
            "-datadir=/media/"@ + user + "/"@ + uuid + "/home/"@ + host_user + "/.bitcoin"@,
        ),
        spec_bitcoind_args(home, user, uuid, host_user, true, true, false).contains(
            "-walletdir=/mnt/ramdisk/sensitive/wallets"@,
        ),
        spec_bitcoind_args(home, user, uuid, host_user, true, true, false).contains(
            "-conf="@ + home + "/.bitcoin/bitcoin.conf"@,
        ),
        !spec_bitcoind_args(home, user, uuid, host_user, true, true, false).contains(
            "-networkactive=0"@,
        ),
        spec_bitcoind_args(home, user, uuid, host_user, true, false, reindex).contains(
            "-datadir="@ + home + "/.bitcoin"@,
        ),
        spec_bitcoind_args(home, user, uuid, host_user, false, true, reindex).contains(
            "-networkactive=0"@,
        ),
        spec_bitcoind_args(home, user, uuid, host_user, false, true, reindex).contains(
            "-walletdir=/mnt/ramdisk/sensitive/wallets"@,
        ),
        forall|net: bool, wallets: bool, re: bool|
            #[trigger] spec_bitcoind_args(home, user, uuid, host_user, net, wallets, re).contains(
                "-debuglogfile=/mnt/ramdisk/debug.log"@,
            ),
{
    reveal_strlit("-reindex");
    reveal_strlit("-networkactive=0");
    reveal_strlit("-debuglogfile=/mnt/ramdisk/debug.log");
    reveal_strlit("-walletdir=/mnt/ramdisk/sensitive/wallets");
    reveal_strlit("-conf=");
    reveal_strlit("-datadir=/media/");
    let plain = spec_bitcoind_args(home, user, uuid, host_user, true, true, false);
    let log = "-debuglogfile=/mnt/ramdisk/debug.log"@;
    let conf = "-conf="@ + home + "/.bitcoin/bitcoin.conf"@;
    let walletdir = "-walletdir=/mnt/ramdisk/sensitive/wallets"@;
    let internal = "-datadir=/media/"@ + user + "/"@ + uuid + "/home/"@ + host_user + "/.bitcoin"@;
    assert(seq!["-reindex"@] + plain =~= spec_bitcoind_args(home, user, uuid, host_user, true, true, true));
    assert(plain[0] == log && plain[1] == conf && plain[2] == internal && plain[3] == walletdir);
    assert forall|i: int| 0 <= i < plain.len() implies plain[i] != "-networkactive=0"@ by {
        if i == 0 {
            assert(log[1] != "-networkactive=0"@[1]);
        } else if i == 1 {
            assert(conf[1] != "-networkactive=0"@[1]);
        } else if i == 2 {
            assert(internal[1] != "-networkactive=0"@[1]);
        } else {
            assert(walletdir[1] != "-networkactive=0"@[1]);
        }
    }
    let nowallet = spec_bitcoind_args(home, user, uuid, host_user, true, false, reindex);
    assert(nowallet[1] == "-datadir="@ + home + "/.bitcoin"@);
    let offline = spec_bitcoind_args(home, user, uuid, host_user, false, true, reindex);
    assert(offline[3] == "-networkactive=0"@);
    assert(offline[2] == walletdir);
    assert forall|net: bool, wallets: bool, re: bool|
        #[trigger] spec_bitcoind_args(home, user, uuid, host_user, net, wallets, re).contains(log) by {
        let a = spec_bitcoind_args(home, user, uuid, host_user, net, wallets, re);
        if net && wallets && re {
            assert(a[1] == log);
        } else {
            assert(a[0] == log);
        }
    }
}

} // verus!
