//! The wallet descriptors of the Arctica vaults: which key slot the booted
//! hardware wallet fills with its private key, and the miniscript templates
//! of the delayed (high security), immediate (medium security) and low
//! security wallets.
use vstd::prelude::*;
use crate::text::{chars_eq, chars_of, decimal, fill, fill_template, int_to_string, str_views, views};

verus! {

broadcast use vstd::seq::group_seq_axioms;

/// The device that builds a descriptor, as its hardware-wallet number names it.
pub enum HwSlot {
    /// Hardware wallet `1..=7`, holding the private key of key slot `n - 1`.
    Wallet(u8),
    /// Time machine key `1..=4`, holding the private key of key slot `n + 6`
    /// of the delayed wallet.
    TimeMachine(u8),
    /// Any other number: a watch-only descriptor of public keys alone.
    ReadOnly,
}

/// The device that the hardware-wallet number `hw` names.
pub open spec fn spec_hw_slot(hw: Seq<char>) -> HwSlot {
    if hw == "1"@ {
        HwSlot::Wallet(1)
    } else if hw == "2"@ {
        HwSlot::Wallet(2)
    } else if hw == "3"@ {
        HwSlot::Wallet(3)
    } else if hw == "4"@ {
        HwSlot::Wallet(4)
    } else if hw == "5"@ {
        HwSlot::Wallet(5)
    } else if hw == "6"@ {
        HwSlot::Wallet(6)
    } else if hw == "7"@ {
        HwSlot::Wallet(7)
    } else if hw == "timemachine1"@ {
        HwSlot::TimeMachine(1)
    } else if hw == "timemachine2"@ {
        HwSlot::TimeMachine(2)
    } else if hw == "timemachine3"@ {
        HwSlot::TimeMachine(3)
    } else if hw == "timemachine4"@ {
        HwSlot::TimeMachine(4)
    } else {
        HwSlot::ReadOnly
    }
}

/// Whether `v` holds the characters of `lit`.
fn is_text(v: &Vec<char>, lit: &str) -> (b: bool)
    ensures
        b == (v@ == lit@),
{
    let w = chars_of(lit);
    chars_eq(v, &w)
}

/// The device that the hardware-wallet number `hwnumber` names.
pub fn hw_slot(hwnumber: &str) -> (s: HwSlot)
    ensures
        s == spec_hw_slot(hwnumber@),
{
    let v = chars_of(hwnumber);
    if is_text(&v, "1") {
        HwSlot::Wallet(1)
    } else if is_text(&v, "2") {
        HwSlot::Wallet(2)
    } else if is_text(&v, "3") {
        HwSlot::Wallet(3)
    } else if is_text(&v, "4") {
        HwSlot::Wallet(4)
    } else if is_text(&v, "5") {
        HwSlot::Wallet(5)
    } else if is_text(&v, "6") {
        HwSlot::Wallet(6)
    } else if is_text(&v, "7") {
        HwSlot::Wallet(7)
    } else if is_text(&v, "timemachine1") {
        HwSlot::TimeMachine(1)
    } else if is_text(&v, "timemachine2") {
        HwSlot::TimeMachine(2)
    } else if is_text(&v, "timemachine3") {
        HwSlot::TimeMachine(3)
    } else if is_text(&v, "timemachine4") {
        HwSlot::TimeMachine(4)
    } else {
        HwSlot::ReadOnly
    }
}

// ---------------------------------------------------------------------------
// Templates
// ---------------------------------------------------------------------------

/// The literal fragments of the delayed wallet's descriptor: a 5-of-11
/// threshold of the seven wallet keys and four decay time locks, and a 2-of-6
/// threshold of the four time machine keys and the time lock.
pub open spec fn high_template() -> Seq<Seq<char>> {
    seq![
        "wsh(and_v(v:thresh(5,pk("@,
        "),s:pk("@,
        "),s:pk("@,
        "),s:pk("@,
        "),s:pk("@,
        "),s:pk("@,
        "),s:pk("@,
        "),snu:after("@,
        "),snu:after("@,
        "),snu:after("@,
        "),snu:after("@,
        ")),thresh(2,pk("@,
        "),s:pk("@,
        "),s:pk("@,
        "),s:pk("@,
        "),snu:after("@,
        "),snu:after("@,
        "))))"@,
    ]
}

/// The literal fragments of the immediate wallet's descriptor: a 2-of-8
/// threshold of the seven wallet keys and one decay time lock.
pub open spec fn med_template() -> Seq<Seq<char>> {
    seq![
        "wsh(thresh(2,pk("@,
        "),s:pk("@,
        "),s:pk("@,
        "),s:pk("@,
        "),s:pk("@,
        "),s:pk("@,
        "),s:pk("@,
        "),snu:after("@,
        ")))"@,
    ]
}

/// The literal fragments of the low security descriptor: any one of the seven
/// wallet keys.
pub open spec fn low_template() -> Seq<Seq<char>> {
    seq![
        "wsh(c:or_i(pk_k("@,
        "),or_i(pk_h("@,
        "),or_i(pk_h("@,
        "),or_i(pk_h("@,
        "),or_i(pk_h("@,
        "),or_i(pk_h("@,
        "),pk_h("@,
        "))))))))"@,
    ]
}

/// The decay times of the delayed wallet, as unix timestamps.
pub struct DelayedDecay {
    /// The time lock of the time machine keys.
    pub decay1: i64,
    /// The first threshold decay.
    pub decay2: i64,
    /// The second threshold decay.
    pub decay3: i64,
    /// The third threshold decay.
    pub decay4: i64,
    /// The fourth threshold decay.
    pub decay5: i64,
}

// ---------------------------------------------------------------------------
// Key slots
// ---------------------------------------------------------------------------

/// The eleven keys of the delayed wallet as `slot` fills them: the booted
/// wallet's private key `xpriv` in its own slot, a time machine's private key
/// `time_machine_xpriv` in its slot, public keys everywhere else.
pub open spec fn high_keys(
    keys: Seq<String>,
    slot: HwSlot,
    xpriv: Seq<char>,
    time_machine_xpriv: Seq<char>,
) -> Seq<Seq<char>> {
    let k = views(keys).take(11);
    match slot {
        HwSlot::Wallet(n) => k.update(n - 1, xpriv),
        HwSlot::TimeMachine(n) => k.update(n + 6, time_machine_xpriv),
        HwSlot::ReadOnly => k,
    }
}

/// The seven keys of the immediate wallet as `slot` fills them: the booted
/// wallet's private key `xpriv` in its own slot, public keys everywhere else.
/// Time machine keys take no part in the immediate wallet.
pub open spec fn med_keys(keys: Seq<String>, slot: HwSlot, xpriv: Seq<char>) -> Seq<Seq<char>> {
    let k = views(keys).take(7);
    match slot {
        HwSlot::Wallet(n) => k.update(n - 1, xpriv),
        _ => k,
    }
}

/// The seven keys of the low security wallet as `slot` fills them.
pub open spec fn low_keys(keys: Seq<String>, slot: HwSlot, xpriv: Seq<char>) -> Seq<Seq<char>> {
    let k = views(keys).take(7);
    match slot {
        HwSlot::Wallet(n) => k.update(n - 1, xpriv),
        _ => k,
    }
}

/// What fills the gaps of the delayed wallet's template: the seven wallet
/// keys, the four decay times of the 5-of-7 threshold (the last of them,
/// at position 10, is the decay to one key), the four time machine keys and
/// twice the time machine keys' time lock.
pub open spec fn high_args(k: Seq<Seq<char>>, decay: DelayedDecay) -> Seq<Seq<char>> {
    k.take(7) + seq![
        decimal(decay.decay2 as int),
        decimal(decay.decay3 as int),
        decimal(decay.decay4 as int),
        decimal(decay.decay5 as int),
    ] + k.subrange(7, 11) + seq![decimal(decay.decay1 as int), decimal(decay.decay1 as int)]
}

/// The delayed wallet's descriptor for the keys `k` and the decay times.
pub open spec fn high_descriptor(k: Seq<Seq<char>>, decay: DelayedDecay) -> Seq<char> {
    fill(high_template(), high_args(k, decay))
}

/// What fills the gaps of the immediate wallet's template: the seven wallet
/// keys and, at position 7, the decay time of the 2-of-7 threshold.
pub open spec fn med_args(k: Seq<Seq<char>>, decay: i64) -> Seq<Seq<char>> {
    k.take(7) + seq![decimal(decay as int)]
}

/// The immediate wallet's descriptor for the keys `k` and its decay time.
pub open spec fn med_descriptor(k: Seq<Seq<char>>, decay: i64) -> Seq<char> {
    fill(med_template(), med_args(k, decay))
}

/// The low security wallet's descriptor for the keys `k`.
pub open spec fn low_descriptor(k: Seq<Seq<char>>) -> Seq<char> {
    fill(low_template(), k.take(7))
}

/// The first `n` keys, each as it is or, at position `at`, replaced by
/// `secret`.
fn place_keys(keys: &Vec<String>, n: usize, at: Option<usize>, secret: &str) -> (r: Vec<String>)
    requires
        n <= keys@.len(),
    ensures
        views(r@) == {
            let k = views(keys@).take(n as int);
            match at {
                Some(a) => if a < n { k.update(a as int, secret@) } else { k },
                None => k,
            }
        },
{
    let ghost k = views(keys@).take(n as int);
    let ghost target = match at {
        Some(a) => if a < n { k.update(a as int, secret@) } else { k },
        None => k,
    };
    let mut r: Vec<String> = Vec::new();
    let mut i: usize = 0;
    while i < n
        invariant
            n <= keys@.len(),
            i <= n,
            target.len() == n,
            forall|j: int|
                0 <= j < n ==> #[trigger] target[j] == if at == Some(j as usize) {
                    secret@
                } else {
                    keys@[j]@
                },
            r@.len() == i,
            forall|j: int| 0 <= j < i ==> #[trigger] r@[j]@ == target[j],
        decreases n - i,
    {
        if at == Some(i) {
            r.push(String::from_str(secret));
        } else {
            r.push(keys[i].clone());
        }
        i = i + 1;
    }
    assert(views(r@) =~= target);
    r
}

/// Appends the decimal text of `t` to `args`.
fn push_time(args: &mut Vec<String>, t: i64)
    ensures
        views(final(args)@) == views(old(args)@).push(decimal(t as int)),
{
    let s = int_to_string(t);
    args.push(s);
    assert(views(args@) =~= views(old(args)@).push(decimal(t as int)));
}

/// Appends `more` to `args`.
fn push_all(args: &mut Vec<String>, more: Vec<String>)
    ensures
        views(final(args)@) == views(old(args)@) + views(more@),
{
    let n = more.len();
    let mut i: usize = 0;
    while i < n
        invariant
            n == more@.len(),
            i <= n,
            views(args@) == views(old(args)@) + views(more@).take(i as int),
        decreases n - i,
    {
        let ghost before = views(args@);
        let c = more[i].clone();
        assert(c@ == more@[i as int]@);
        args.push(c);
        assert(views(args@) =~= before.push(views(more@)[i as int]));
        assert(views(more@).take(i + 1) =~= views(more@).take(i as int).push(views(more@)[i as int]));
        i = i + 1;
        assert(views(args@) =~= views(old(args)@) + views(more@).take(i as int));
    }
    assert(views(more@).take(n as int) =~= views(more@));
}

/// Builds the delayed (high security) wallet's descriptor on the device that
/// `hwnumber` names: the 5-of-11 threshold of the seven wallet keys with four
/// decaying time locks, and the 2-of-6 threshold of the four time machine
/// keys behind the time lock. The booted wallet's private key `xpriv`, or a
/// time machine's private key `time_machine_xpriv`, takes the place of its
/// public key in `keys`; any other number gives a watch-only descriptor.
pub fn build_high_descriptor(
    keys: &Vec<String>,
    hwnumber: &str,
    xpriv: &str,
    time_machine_xpriv: &str,
    decay: &DelayedDecay,
) -> (d: String)
    requires
        keys@.len() >= 11,
    ensures
        d@ == high_descriptor(
            high_keys(keys@, spec_hw_slot(hwnumber@), xpriv@, time_machine_xpriv@),
            *decay,
        ),
{
    let slot = hw_slot(hwnumber);
    let placed = match slot {
        HwSlot::Wallet(n) => place_keys(keys, 11, Some((n - 1) as usize), xpriv),
        HwSlot::TimeMachine(n) => place_keys(keys, 11, Some((n + 6) as usize), time_machine_xpriv),
        HwSlot::ReadOnly => place_keys(keys, 11, None, xpriv),
    };
    let ghost k = high_keys(keys@, spec_hw_slot(hwnumber@), xpriv@, time_machine_xpriv@);
    assert(views(placed@) =~= k);
    let mut first: Vec<String> = Vec::new();
    let mut second: Vec<String> = Vec::new();
    let mut i: usize = 0;
    while i < 11
        invariant
            placed@.len() == 11,
            i <= 11,
            views(first@) == views(placed@).take(if i < 7 { i as int } else { 7 }),
            views(second@) == views(placed@).subrange(7, if i < 7 { 7 } else { i as int }),
        decreases 11 - i,
    {
        let c = placed[i].clone();
        assert(c@ == views(placed@)[i as int]);
        if i < 7 {
            let ghost before = views(first@);
            first.push(c);
            assert(views(first@) =~= before.push(views(placed@)[i as int]));
            assert(views(first@) =~= views(placed@).take(i + 1));
        } else {
            let ghost before = views(second@);
            second.push(c);
            assert(views(second@) =~= before.push(views(placed@)[i as int]));
            assert(views(second@) =~= views(placed@).subrange(7, i + 1));
        }
        i = i + 1;
    }
    let mut args = first;
    push_time(&mut args, decay.decay2);
    push_time(&mut args, decay.decay3);
    push_time(&mut args, decay.decay4);
    push_time(&mut args, decay.decay5);
    push_all(&mut args, second);
    push_time(&mut args, decay.decay1);
    push_time(&mut args, decay.decay1);
    let lits: Vec<&str> = vec![
        "wsh(and_v(v:thresh(5,pk(",
        "),s:pk(",
        "),s:pk(",
        "),s:pk(",
        "),s:pk(",
        "),s:pk(",
        "),s:pk(",
        "),snu:after(",
        "),snu:after(",
        "),snu:after(",
        "),snu:after(",
        ")),thresh(2,pk(",
        "),s:pk(",
        "),s:pk(",
        "),s:pk(",
        "),snu:after(",
        "),snu:after(",
        "))))",
    ];
    assert(str_views(lits@) =~= high_template());
    assert(views(args@) =~= k.take(7) + seq![
        decimal(decay.decay2 as int),
        decimal(decay.decay3 as int),
        decimal(decay.decay4 as int),
        decimal(decay.decay5 as int),
    ] + k.subrange(7, 11) + seq![decimal(decay.decay1 as int), decimal(decay.decay1 as int)]);
    fill_template(&lits, &args)
}

/// Builds the immediate (medium security) wallet's descriptor on the device
/// that `hwnumber` names: the 2-of-8 threshold of the seven wallet keys and
/// the time lock `immediate_decay`. The booted wallet's private key `xpriv`
/// takes the place of its public key; any other number gives a watch-only
/// descriptor.
pub fn build_med_descriptor(
    keys: &Vec<String>,
    hwnumber: &str,
    xpriv: &str,
    immediate_decay: i64,
) -> (d: String)
    requires
        keys@.len() >= 7,
    ensures
        d@ == med_descriptor(med_keys(keys@, spec_hw_slot(hwnumber@), xpriv@), immediate_decay),
{
    let slot = hw_slot(hwnumber);
    let placed = match slot {
        HwSlot::Wallet(n) => place_keys(keys, 7, Some((n - 1) as usize), xpriv),
        _ => place_keys(keys, 7, None, xpriv),
    };
    let ghost k = med_keys(keys@, spec_hw_slot(hwnumber@), xpriv@);
    assert(views(placed@) =~= k);
    let mut args = placed;
    push_time(&mut args, immediate_decay);
    let lits: Vec<&str> = vec![
        "wsh(thresh(2,pk(",
        "),s:pk(",
        "),s:pk(",
        "),s:pk(",
        "),s:pk(",
        "),s:pk(",
        "),s:pk(",
        "),snu:after(",
        ")))",
    ];
    assert(str_views(lits@) =~= med_template());
    assert(views(args@) =~= k.take(7) + seq![decimal(immediate_decay as int)]);
    fill_template(&lits, &args)
}

/// Builds the low security wallet's descriptor on the device that `hwnumber`
/// names: any one of the seven wallet keys. The booted wallet's private key
/// `xpriv` takes the place of its public key; any other number gives a
/// watch-only descriptor.
pub fn build_low_descriptor(keys: &Vec<String>, hwnumber: &str, xpriv: &str) -> (d: String)
    requires
        keys@.len() >= 7,
    ensures
        d@ == low_descriptor(low_keys(keys@, spec_hw_slot(hwnumber@), xpriv@)),
{
    let slot = hw_slot(hwnumber);
    let placed = match slot {
        HwSlot::Wallet(n) => place_keys(keys, 7, Some((n - 1) as usize), xpriv),
        _ => place_keys(keys, 7, None, xpriv),
    };
    let ghost k = low_keys(keys@, spec_hw_slot(hwnumber@), xpriv@);
    assert(views(placed@) =~= k);
    let lits: Vec<&str> = vec![
        "wsh(c:or_i(pk_k(",
        "),or_i(pk_h(",
        "),or_i(pk_h(",
        "),or_i(pk_h(",
        "),or_i(pk_h(",
        "),or_i(pk_h(",
        "),pk_h(",
        "))))))))",
    ];
    assert(str_views(lits@) =~= low_template());
    assert(views(placed@) =~= k.take(7));
    fill_template(&lits, &placed)
}


// ---------------------------------------------------------------------------
// Key files and wallet names
// ---------------------------------------------------------------------------

/// The name of the private key file: the change key for internal (change)
/// descriptors, the receive key otherwise.
pub open spec fn private_key_name(internal: bool) -> Seq<char> {
    if internal {
        "private_change_key"@
    } else {
        "private_key"@
    }
}

/// The file that holds the booted hardware wallet's private key.
pub fn private_key_path(hwnumber: &str, internal: bool) -> (p: String)
    ensures
        p@ == "/mnt/ramdisk/sensitive/"@ + private_key_name(internal) + hwnumber@,
{
    let mut p = String::from_str("/mnt/ramdisk/sensitive/");
    if internal {
        p.append("private_change_key");
    } else {
        p.append("private_key");
    }
    p.append(hwnumber);
    p
}

/// The file that holds a time machine's private key: the first time machine
/// reads its receive key file whatever `internal` says, the others the change
/// or receive key file.
pub fn time_machine_key_path(hwnumber: &str, internal: bool) -> (p: String)
    ensures
        p@ == if hwnumber@ == "timemachine1"@ {
            "/mnt/ramdisk/CDROM/timemachinekeys/time_machine_private_key"@ + hwnumber@
        } else {
            "/mnt/ramdisk/CDROM/timemachinekeys/time_machine_"@ + private_key_name(internal)
                + hwnumber@
        },
{
    let v = chars_of(hwnumber);
    if is_text(&v, "timemachine1") {
        let mut p = String::from_str("/mnt/ramdisk/CDROM/timemachinekeys/time_machine_private_key");
        p.append(hwnumber);
        p
    } else {
        let mut p = String::from_str("/mnt/ramdisk/CDROM/timemachinekeys/time_machine_");
        if internal {
            p.append("private_change_key");
        } else {
            p.append("private_key");
        }
        p.append(hwnumber);
        p
    }
}

/// The file that holds the descriptor of `wallet` (`delayed`, `immediate`
/// or `low`) on hardware wallet `hwnumber`: the change descriptor for
/// internal descriptors, the receive descriptor otherwise.
pub fn descriptor_path(wallet: &str, hwnumber: &str, internal: bool) -> (p: String)
    ensures
        p@ == "/mnt/ramdisk/sensitive/descriptors/"@ + wallet@ + (if internal {
            "_change_descriptor"@
        } else {
            "_descriptor"@
        }) + hwnumber@,
{
    let mut p = String::from_str("/mnt/ramdisk/sensitive/descriptors/");
    p.append(wallet);
    if internal {
        p.append("_change_descriptor");
    } else {
        p.append("_descriptor");
    }
    p.append(hwnumber);
    p
}

/// The name of the node wallet that holds `wallet` for hardware wallet `hwnumber`.
pub fn wallet_name(wallet: &str, hwnumber: &str) -> (n: String)
    ensures
        n@ == wallet@ + "_wallet"@ + hwnumber@,
{
    let mut n = String::from_str(wallet);
    n.append("_wallet");
    n.append(hwnumber);
    n
}

/// The node RPC address of the wallet that holds `wallet` for hardware wallet `hwnumber`.
pub fn wallet_url(wallet: &str, hwnumber: &str) -> (u: String)
    ensures
        u@ == "127.0.0.1:8332/wallet/"@ + wallet@ + "_wallet"@ + hwnumber@,
{
    let name = wallet_name(wallet, hwnumber);
    let mut u = String::from_str("127.0.0.1:8332/wallet/");
    u.append(name.as_str());
    u
}

// ---------------------------------------------------------------------------
// Laws
// ---------------------------------------------------------------------------

/// Every hardware wallet describes the same delayed wallet: if wallet `n`
/// held the public key of its own slot in place of its private key, its
/// descriptor would be the watch-only one; the same holds for each time
/// machine key.
pub proof fn lemma_high_signers_share_wallet(keys: Seq<String>, slot: HwSlot, x: Seq<char>, t: Seq<char>, decay: DelayedDecay)
    requires
        keys.len() >= 11,
        match slot {
            HwSlot::Wallet(n) => 1 <= n <= 7,
            HwSlot::TimeMachine(n) => 1 <= n <= 4,
            HwSlot::ReadOnly => true,
        },
    ensures
        high_descriptor(
            high_keys(
                keys,
                slot,
                match slot {
                    HwSlot::Wallet(n) => keys[n - 1]@,
                    _ => x,
                },
                match slot {
                    HwSlot::TimeMachine(n) => keys[n + 6]@,
                    _ => t,
                },
            ),
            decay,
        ) == high_descriptor(high_keys(keys, HwSlot::ReadOnly, x, t), decay),
{
    let own = match slot {
        HwSlot::Wallet(n) => keys[n - 1]@,
        _ => x,
    };
    let own_tm = match slot {
        HwSlot::TimeMachine(n) => keys[n + 6]@,
        _ => t,
    };
    assert(high_keys(keys, slot, own, own_tm) =~= high_keys(keys, HwSlot::ReadOnly, x, t));
}

/// A signer's delayed-wallet descriptor differs from the watch-only one in
/// its own key slot alone, which holds its private key.
pub proof fn lemma_high_signer_fills_own_slot(keys: Seq<String>, slot: HwSlot, x: Seq<char>, t: Seq<char>, j: int)
    requires
        keys.len() >= 11,
        0 <= j < 11,
        match slot {
            HwSlot::Wallet(n) => 1 <= n <= 7,
            HwSlot::TimeMachine(n) => 1 <= n <= 4,
            HwSlot::ReadOnly => true,
        },
    ensures
        high_keys(keys, slot, x, t)[j] == match slot {
            HwSlot::Wallet(n) => if j == n - 1 { x } else { keys[j]@ },
            HwSlot::TimeMachine(n) => if j == n + 6 { t } else { keys[j]@ },
            HwSlot::ReadOnly => keys[j]@,
        },
{
}

/// Every hardware wallet describes the same low security wallet.
pub proof fn lemma_low_signers_share_wallet(keys: Seq<String>, n: u8, x: Seq<char>)
    requires
        keys.len() >= 7,
        1 <= n <= 7,
    ensures
        low_descriptor(low_keys(keys, HwSlot::Wallet(n), keys[n - 1]@)) == low_descriptor(
            low_keys(keys, HwSlot::ReadOnly, x),
        ),
{
    assert(low_keys(keys, HwSlot::Wallet(n), keys[n - 1]@) =~= low_keys(keys, HwSlot::ReadOnly, x));
}

/// Every hardware wallet describes the same immediate wallet: if wallet `n`
/// held the public key of its own slot in place of its private key, its
/// descriptor would be the watch-only one.
pub proof fn lemma_med_signers_share_wallet(keys: Seq<String>, n: u8, x: Seq<char>, decay: i64)
    requires
        keys.len() >= 7,
        1 <= n <= 7,
    ensures
        med_descriptor(med_keys(keys, HwSlot::Wallet(n), keys[n - 1]@), decay) == med_descriptor(
            med_keys(keys, HwSlot::ReadOnly, x),
            decay,
        ),
{
    assert(med_keys(keys, HwSlot::Wallet(n), keys[n - 1]@) =~= med_keys(keys, HwSlot::ReadOnly, x));
}

/// Each hardware wallet number names its own device: the decimal text of
/// `n` names hardware wallet `n` for `n` in `1..=7`, and `timemachine`
/// followed by `n` names time machine key `n` for `n` in `1..=4`. So wallet
/// `n`'s private key stands in key slot `n - 1` of each of its descriptors,
/// and a time machine key's in slot `n + 6` of the delayed descriptor.
pub proof fn lemma_hw_numbers_name_their_slots(
    keys: Seq<String>,
    n: u8,
    x: Seq<char>,
    t: Seq<char>,
)
    requires
        keys.len() >= 11,
        1 <= n <= 7,
    ensures
        spec_hw_slot(decimal(n as int)) == HwSlot::Wallet(n),
        high_keys(keys, spec_hw_slot(decimal(n as int)), x, t)[n - 1] == x,
        med_keys(keys, spec_hw_slot(decimal(n as int)), x)[n - 1] == x,
        low_keys(keys, spec_hw_slot(decimal(n as int)), x)[n - 1] == x,
        n <= 4 ==> spec_hw_slot("timemachine"@ + decimal(n as int)) == HwSlot::TimeMachine(n),
        n <= 4 ==> high_keys(keys, spec_hw_slot("timemachine"@ + decimal(n as int)), x, t)[n + 6]
            == t,
{
    reveal_strlit("1");
    reveal_strlit("2");
    reveal_strlit("3");
    reveal_strlit("4");
    reveal_strlit("5");
    reveal_strlit("6");
    reveal_strlit("7");
    reveal_strlit("timemachine");
    reveal_strlit("timemachine1");
    reveal_strlit("timemachine2");
    reveal_strlit("timemachine3");
    reveal_strlit("timemachine4");
    let d = decimal(n as int);
    assert(d == seq![crate::text::digit_char(n as int)]);
    let lits = seq!["1"@, "2"@, "3"@, "4"@, "5"@, "6"@, "7"@];
    assert(lits[0] =~= seq!['1'] && lits[1] =~= seq!['2'] && lits[2] =~= seq!['3'] && lits[3]
        =~= seq!['4'] && lits[4] =~= seq!['5'] && lits[5] =~= seq!['6'] && lits[6] =~= seq!['7']);
    assert forall|j: int| 0 <= j < 7 && j != n - 1 implies d != #[trigger] lits[j] by {
        lemma_differ_at(d, lits[j], 0);
    }
    assert(d == lits[n - 1]);
    let tms = seq!["timemachine1"@, "timemachine2"@, "timemachine3"@, "timemachine4"@];
    let tm = "timemachine"@ + d;
    assert(tm.len() == 12);
    assert forall|j: int| 0 <= j < 7 implies tm != #[trigger] lits[j] by {
        lemma_differ_at(tm, lits[j], 0);
    }
    if n <= 4 {
        assert(tms[n - 1] =~= tm);
        assert forall|j: int| 0 <= j < 4 && j != n - 1 implies tm != #[trigger] tms[j] by {
            lemma_differ_at(tm, tms[j], 11);
        }
    }
}

/// Texts that differ at one position differ.
proof fn lemma_differ_at(a: Seq<char>, b: Seq<char>, i: int)
    requires
        0 <= i < a.len(),
        0 <= i < b.len(),
        a[i] != b[i],
    ensures
        a != b,
{
}

} // verus!
