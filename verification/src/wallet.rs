//! Decisions of the wallet screens: the balance shown, the payload read from
//! a scanned QR code, the options of a funded PSBT, which output of a PSBT is
//! shown as its recipient, and the names of transaction kinds.
use vstd::prelude::*;
use crate::text::{
    chars_eq, chars_of, contains, contains_chars, is_ws, lemma_split_char_concat,
    lemma_split_char_single, lemma_trim_unchanged, pieces, split_char, split_chars, string_of, trim,
    trim_chars,
};

verus! {

/// The amount of a balance as the node shows it (`<amount> BTC`): the text
/// before the first space.
pub fn balance_amount(display: &str) -> (r: String)
    ensures
        r@ == split_char(display@, ' ')[0],
{
    let text = chars_of(display);
    let parts = split_chars(&text, ' ');
    proof {
        crate::text::lemma_split_char_len(display@, ' ');
    }
    assert(pieces(parts@)[0] == parts@[0]@);
    string_of(parts[0].as_slice())
}

/// The first position at or after `from` where `ps` holds `x`.
pub open spec fn first_index_from(ps: Seq<Seq<char>>, x: Seq<char>, from: int) -> Option<int>
    decreases ps.len() - from,
{
    if from < 0 || from >= ps.len() {
        None
    } else if ps[from] == x {
        Some(from)
    } else {
        first_index_from(ps, x, from + 1)
    }
}

/// The payload of a scanned QR code: the scanned text, trimmed and cut at
/// `:`; a single piece is the payload itself, otherwise the payload follows
/// the first `bitcoin` piece.
pub open spec fn qr_result(scan: Seq<char>) -> Result<Seq<char>, Seq<char>> {
    let parts = split_char(trim(scan), ':');
    if parts.len() == 1 {
        Ok(parts[0])
    } else {
        match first_index_from(parts, "bitcoin"@, 0) {
            Some(pos) => if pos + 1 < parts.len() {
                Ok(parts[pos + 1])
            } else {
                Err("ERROR, no data after 'bitcoin:' in payload"@)
            },
            None => Err("ERROR reading QR code"@),
        }
    }
}

/// Reads the payload of the QR code that the webcam scanned, from the
/// scanner's output `scan`: a bare address, or the address of a
/// `bitcoin:<address>` URI.
pub fn qr_payload(scan: &str) -> (r: Result<String, String>)
    ensures
        match (r, qr_result(scan@)) {
            (Ok(p), Ok(q)) => p@ == q,
            (Err(e), Err(f)) => e@ == f,
            _ => false,
        },
{
    let text = chars_of(scan);
    let trimmed = trim_chars(&text);
    let parts = split_chars(&trimmed, ':');
    let ghost ps = split_char(trim(scan@), ':');
    proof {
        crate::text::lemma_split_char_len(trim(scan@), ':');
    }
    if parts.len() == 1 {
        assert(pieces(parts@)[0] == parts@[0]@);
        return Ok(string_of(parts[0].as_slice()));
    }
    let marker = chars_of("bitcoin");
    let n = parts.len();
    let mut i: usize = 0;
    while i < n
        invariant
            n == parts@.len(),
            n != 1,
            ps == pieces(parts@),
            ps == split_char(trim(scan@), ':'),
            marker@ == "bitcoin"@,
            i <= n,
            first_index_from(ps, "bitcoin"@, 0) == first_index_from(ps, "bitcoin"@, i as int),
        decreases n - i,
    {
        assert(ps[i as int] == parts@[i as int]@);
        if chars_eq(&parts[i], &marker) {
            if i + 1 < n {
                assert(ps[i + 1] == parts@[i + 1]@);
                return Ok(string_of(parts[i + 1].as_slice()));
            } else {
                return Err(String::from_str("ERROR, no data after 'bitcoin:' in payload"));
            }
        }
        i = i + 1;
    }
    Err(String::from_str("ERROR reading QR code"))
}

/// A scanned code gives the address that it carries, bare or behind
/// `bitcoin:`, whenever the address holds no `:` and neither begins nor ends
/// with whitespace.
pub proof fn lemma_qr_gives_the_address(address: Seq<char>)
    requires
        address.len() > 0,
        !address.contains(':'),
        !is_ws(address[0]),
        !is_ws(address.last()),
    ensures
        qr_result(address) == Ok::<Seq<char>, Seq<char>>(address),
        qr_result("bitcoin:"@ + address) == Ok::<Seq<char>, Seq<char>>(address),
{
    reveal_strlit("bitcoin:");
    reveal_strlit("bitcoin");
    lemma_trim_unchanged(address);
    lemma_split_char_single(address, ':');
    let scheme = "bitcoin"@;
    let uri = "bitcoin:"@ + address;
    assert(uri =~= scheme + seq![':'] + address);
    assert(uri.last() == address.last());
    lemma_trim_unchanged(uri);
    assert(!scheme.contains(':')) by {
        if scheme.contains(':') {
            let k = choose|k: int| 0 <= k < scheme.len() && scheme[k] == ':';
        }
    }
    lemma_split_char_single(scheme, ':');
    lemma_split_char_concat(scheme, ':', address);
    let parts = split_char(uri, ':');
    assert(parts =~= seq![scheme, address]);
    assert(first_index_from(parts, scheme, 0) == Some(0int));
}

/// The index of the recipient's output in a funding request: the request
/// pays the one recipient, so its output comes first.
pub const RECIPIENT_OUTPUT: u32 = 0;

/// The options of a `walletcreatefundedpsbt` request.
pub struct PsbtOptions {
    /// The fee rate that the user chose, if any.
    pub fee_rate: Option<u64>,
    /// The indices of the outputs that the fee is taken from; empty when the
    /// fee is paid on top of the outputs.
    pub subtract_fee_from_outputs: Vec<u32>,
}

/// The options of the first attempt to fund a PSBT: the user's fee rate
/// when it is not zero, and the fee paid on top of the outputs.
pub fn psbt_options(fee: u64) -> (o: PsbtOptions)
    ensures
        o.fee_rate == if fee != 0 {
            Some(fee)
        } else {
            None::<u64>
        },
        o.subtract_fee_from_outputs@ == Seq::<u32>::empty(),
{
    PsbtOptions { fee_rate: if fee != 0 { Some(fee) } else { None }, subtract_fee_from_outputs: Vec::new() }
}

/// The options of the second attempt to fund a PSBT: when the first attempt
/// reported insufficient funds, the fee is taken from the recipient's
/// output; otherwise the first attempt's options are kept.
pub fn retry_psbt_options(first: &PsbtOptions, first_error: &str) -> (o: PsbtOptions)
    ensures
        o.fee_rate == first.fee_rate,
        o.subtract_fee_from_outputs@ == if contains(first_error@, "Insufficient funds"@) {
            seq![RECIPIENT_OUTPUT]
        } else {
            first.subtract_fee_from_outputs@
        },
{
    let text = chars_of(first_error);
    let pattern = chars_of("Insufficient funds");
    let short = contains_chars(&text, &pattern);
    let mut outputs: Vec<u32> = Vec::new();
    if short {
        outputs.push(RECIPIENT_OUTPUT);
    } else {
        let n = first.subtract_fee_from_outputs.len();
        let mut i: usize = 0;
        while i < n
            invariant
                n == first.subtract_fee_from_outputs@.len(),
                i <= n,
                outputs@ == first.subtract_fee_from_outputs@.take(i as int),
            decreases n - i,
        {
            outputs.push(first.subtract_fee_from_outputs[i]);
            i = i + 1;
            assert(outputs@ =~= first.subtract_fee_from_outputs@.take(i as int));
        }
        assert(first.subtract_fee_from_outputs@.take(n as int) =~= first.subtract_fee_from_outputs@);
    }
    assert(short ==> outputs@ =~= seq![RECIPIENT_OUTPUT]);
    PsbtOptions { fee_rate: first.fee_rate, subtract_fee_from_outputs: outputs }
}

/// The next step in finding the output of a PSBT that is shown as its
/// recipient: outputs are inspected in order, asking the node whether each
/// pays the wallet itself.
pub enum RecipientScan {
    /// Ask the node whether output `i` is the wallet's own.
    Inspect(usize),
    /// Show output `i`.
    Report(usize),
}

/// Where the search for the recipient of a PSBT with `outputs` outputs starts.
pub fn recipient_scan_start(outputs: usize) -> (s: RecipientScan)
    ensures
        s == if outputs > 0 {
            RecipientScan::Inspect(0)
        } else {
            RecipientScan::Report(0)
        },
{
    if outputs > 0 {
        RecipientScan::Inspect(0)
    } else {
        RecipientScan::Report(0)
    }
}

/// The step after inspecting output `index`, which the node reported as the
/// wallet's own (`Some(true)`), foreign (`Some(false)`) or unknown (`None`):
/// the first foreign output is the recipient; when every output is the
/// wallet's own, the first output is shown.
pub fn recipient_scan_next(index: usize, outputs: usize, is_mine: Option<bool>) -> (s: RecipientScan)
    ensures
        s == if is_mine == Some(false) {
            RecipientScan::Report(index)
        } else if index + 1 < outputs {
            RecipientScan::Inspect((index + 1) as usize)
        } else {
            RecipientScan::Report(0)
        },
{
    if is_mine == Some(false) {
        RecipientScan::Report(index)
    } else if index < outputs && index + 1 < outputs {
        RecipientScan::Inspect(index + 1)
    } else {
        RecipientScan::Report(0)
    }
}

/// The kind of a wallet transaction.
pub enum TxCategory {
    Send,
    Receive,
    Generate,
    Immature,
    Orphan,
}

impl TxCategory {
    /// The name shown for this kind of transaction.
    pub fn label(&self) -> (s: String)
        ensures
            s@ == match self {
                TxCategory::Send => "Send"@,
                TxCategory::Receive => "Receive"@,
                TxCategory::Generate => "Generate"@,
                TxCategory::Immature => "Immature"@,
                TxCategory::Orphan => "Orphan"@,
            },
    {
        match self {
            TxCategory::Send => String::from_str("Send"),
            TxCategory::Receive => String::from_str("Receive"),
            TxCategory::Generate => String::from_str("Generate"),
            TxCategory::Immature => String::from_str("Immature"),
            TxCategory::Orphan => String::from_str("Orphan"),
        }
    }
}

/// Whether a transaction signals replace-by-fee (BIP 125).
pub enum Replaceable {
    Yes,
    No,
    Unknown,
}

impl Replaceable {
    /// The name shown for this replaceability.
    pub fn label(&self) -> (s: String)
        ensures
            s@ == match self {
                Replaceable::Yes => "Yes"@,
                Replaceable::No => "No"@,
                Replaceable::Unknown => "Unknown"@,
            },
    {
        match self {
            Replaceable::Yes => String::from_str("Yes"),
            Replaceable::No => String::from_str("No"),
            Replaceable::Unknown => String::from_str("Unknown"),
        }
    }
}

} // verus!
