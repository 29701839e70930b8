//! Reading a PSBT for its review before signing: the Base64 text decoded,
//! the transaction's outputs and fee taken out of it, the address each output
//! pays, and the line that reports the recipient.
use vstd::prelude::*;
use crate::text::{decimal, nat_to_string, string_of};

verus! {

/// An output of the transaction that a PSBT carries.
pub struct PsbtOutput {
    /// The output's `scriptPubKey`, as bytes.
    pub script_pubkey: Vec<u8>,
    /// The amount that the output pays, in satoshi.
    pub value_sat: u64,
}

/// What the review of a PSBT reads from it: the outputs of its transaction,
/// in order, and its fee in satoshi when the PSBT holds what the fee is
/// computed from.
pub struct PsbtSummary {
    pub outputs: Vec<PsbtOutput>,
    pub fee_sat: Option<u64>,
}

/// The outputs as plain values: each output's script and amount.
pub open spec fn output_views(outputs: Seq<PsbtOutput>) -> Seq<(Seq<u8>, u64)> {
    outputs.map_values(|o: PsbtOutput| (o.script_pubkey@, o.value_sat))
}

/// Why a PSBT's text could not be read.
pub enum PsbtError {
    /// The text is not Base64.
    InvalidBase64,
    /// The decoded bytes are not a PSBT.
    InvalidPsbt,
}

/// The bytes that the Base64 text `text` encodes; `None` when it is not
/// valid Base64.
pub uninterp spec fn base64_decoded(text: Seq<char>) -> Option<Seq<u8>>;

/// Calls `base64::decode` (the standard alphabet, with padding): the bytes
/// that `text` encodes, `None` when it is not valid Base64.
#[allow(deprecated)]
#[verifier::external_body]
fn decode_base64(text: &str) -> (r: Option<Vec<u8>>)
    ensures
        match r {
            Some(b) => base64_decoded(text@) == Some(b@),
            None => base64_decoded(text@) is None,
        },
{
    base64::decode(text).ok()
}

/// The outputs (script and amount in satoshi) of the transaction of the PSBT
/// serialized as `bytes`; `None` when the bytes are not a PSBT.
pub uninterp spec fn psbt_outputs(bytes: Seq<u8>) -> Option<Seq<(Seq<u8>, u64)>>;

/// The fee in satoshi of the PSBT serialized as `bytes`: its inputs' value
/// less its outputs' value; `None` when an input's value is missing, the
/// sum overflows or the fee would be negative.
pub uninterp spec fn psbt_fee(bytes: Seq<u8>) -> Option<u64>;

/// Calls `PartiallySignedTransaction::deserialize` on `bytes` and, when it
/// succeeds, takes the outputs of the unsigned transaction (each script's
/// bytes and value) and calls `PartiallySignedTransaction::fee` (its amount
/// in satoshi, `None` on its error).
#[verifier::external_body]
fn deserialize_psbt(bytes: &Vec<u8>) -> (r: Option<PsbtSummary>)
    ensures
        match r {
            Some(s) => psbt_outputs(bytes@) == Some(output_views(s.outputs@)) && s.fee_sat
                == psbt_fee(bytes@),
            None => psbt_outputs(bytes@) is None,
        },
{
    match bitcoin::psbt::PartiallySignedTransaction::deserialize(bytes.as_slice()) {
        Ok(p) => Some(PsbtSummary {
            outputs: p.unsigned_tx.output.iter().map(
                |o| PsbtOutput { script_pubkey: o.script_pubkey.to_bytes(), value_sat: o.value },
            ).collect(),
            fee_sat: p.fee().ok().map(|a| a.to_sat()),
        }),
        Err(_) => None,
    }
}

/// The main-network address that pays to the script `script`, as text; the
/// text of the error when no address form exists for the script.
pub uninterp spec fn mainnet_address_text(script: Seq<u8>) -> Result<Seq<char>, Seq<char>>;

/// Calls `bitcoin::Address::from_script` for the main network and writes
/// the address as text (`Display`, which `Debug` also prints), or the error
/// as text.
#[verifier::external_body]
fn mainnet_address(script: &Vec<u8>) -> (r: Result<String, String>)
    ensures
        mainnet_address_text(script@) == match r {
            Ok(a) => Ok::<Seq<char>, Seq<char>>(a@),
            Err(e) => Err::<Seq<char>, Seq<char>>(e@),
        },
{
    match bitcoin::Address::from_script(bitcoin::Script::from_bytes(script.as_slice()), bitcoin::Network::Bitcoin) {
        Ok(a) => Ok(a.to_string()),
        Err(e) => Err(e.to_string()),
    }
}

/// What reading the PSBT text `text` gives: its outputs and fee, or why it
/// could not be read.
pub open spec fn spec_psbt_summary(text: Seq<char>) -> Result<(Seq<(Seq<u8>, u64)>, Option<u64>), PsbtError> {
    match base64_decoded(text) {
        None => Err(PsbtError::InvalidBase64),
        Some(b) => match psbt_outputs(b) {
            None => Err(PsbtError::InvalidPsbt),
            Some(outs) => Ok((outs, psbt_fee(b))),
        },
    }
}

/// Reads a PSBT from its Base64 text, as the node stores it: the outputs of
/// its transaction and its fee; `InvalidBase64` when the text is not
/// Base64, `InvalidPsbt` when the bytes are not a PSBT.
pub fn psbt_summary(psbt_base64: &str) -> (r: Result<PsbtSummary, PsbtError>)
    ensures
        match (r, spec_psbt_summary(psbt_base64@)) {
            (Ok(s), Ok((outs, fee))) => output_views(s.outputs@) == outs && s.fee_sat == fee,
            (Err(PsbtError::InvalidBase64), Err(PsbtError::InvalidBase64)) => true,
            (Err(PsbtError::InvalidPsbt), Err(PsbtError::InvalidPsbt)) => true,
            _ => false,
        },
{
    let bytes = match decode_base64(psbt_base64) {
        Some(b) => b,
        None => return Err(PsbtError::InvalidBase64),
    };
    match deserialize_psbt(&bytes) {
        Some(s) => Ok(s),
        None => Err(PsbtError::InvalidPsbt),
    }
}

/// Reading a PSBT keeps what its bytes say: when the text is Base64 for
/// bytes that are a PSBT, the reading succeeds with exactly the outputs and
/// the fee that those bytes give; text that is not Base64 is refused as
/// such, and Base64 of bytes that are not a PSBT as not a PSBT.
pub proof fn lemma_psbt_reading_keeps_outputs_and_fee(text: Seq<char>)
    ensures
        ({
            let b = base64_decoded(text)->Some_0;
            &&& (base64_decoded(text) is Some && psbt_outputs(b) is Some) ==> spec_psbt_summary(text)
                == Ok::<(Seq<(Seq<u8>, u64)>, Option<u64>), PsbtError>(
                (psbt_outputs(b)->Some_0, psbt_fee(b)),
            )
            &&& base64_decoded(text) is None ==> spec_psbt_summary(text) == Err::<
                (Seq<(Seq<u8>, u64)>, Option<u64>),
                PsbtError,
            >(PsbtError::InvalidBase64)
            &&& (base64_decoded(text) is Some && psbt_outputs(b) is None) ==> spec_psbt_summary(text)
                == Err::<(Seq<(Seq<u8>, u64)>, Option<u64>), PsbtError>(PsbtError::InvalidPsbt)
        }),
{
}

/// The main-network address that output `index` of the PSBT pays, or the
/// text of the error when its script has no address form.
pub fn output_address(summary: &PsbtSummary, index: usize) -> (r: Result<String, String>)
    requires
        index < summary.outputs@.len(),
    ensures
        mainnet_address_text(output_views(summary.outputs@)[index as int].0) == match r {
            Ok(a) => Ok::<Seq<char>, Seq<char>>(a@),
            Err(e) => Err::<Seq<char>, Seq<char>>(e@),
        },
{
    mainnet_address(&summary.outputs[index].script_pubkey)
}

/// The start of the line that reports a PSBT's recipient: its address and
/// the amount paid to it in satoshi, followed by the label of the fee.
pub fn recipient_report(address: &str, amount_sat: u64) -> (r: String)
    ensures
        r@ == "address="@ + address@ + ", amount="@ + decimal(amount_sat as int) + ", fee="@,
{
    let mut r = String::from_str("address=");
    r.append(address);
    r.append(", amount=");
    let amount = nat_to_string(amount_sat);
    r.append(amount.as_str());
    r.append(", fee=");
    r
}

/// The lowercase hexadecimal digit of `d`, below 16.
pub open spec fn hex_digit(d: int) -> char {
    if d < 10 {
        ('0' as int + d) as char
    } else {
        ('a' as int + d - 10) as char
    }
}

/// The lowercase hexadecimal text of `bytes`: two digits for each byte, the
/// high half first (as `hex::encode` writes it).
pub open spec fn hex_text(bytes: Seq<u8>) -> Seq<char>
    decreases bytes.len(),
{
    if bytes.len() == 0 {
        Seq::empty()
    } else {
        hex_text(bytes.drop_last()) + seq![
            hex_digit(bytes.last() as int / 16),
            hex_digit(bytes.last() as int % 16),
        ]
    }
}

/// The hexadecimal digit of `d`.
fn hex_digit_char(d: u8) -> (c: char)
    requires
        d < 16,
    ensures
        c == hex_digit(d as int),
{
    if d < 10 {
        (48 + d) as char
    } else {
        (87 + d) as char
    }
}

/// The raw transaction that a finalized PSBT gives, as the lowercase
/// hexadecimal text that `sendrawtransaction` takes.
pub fn transaction_hex(tx: &Vec<u8>) -> (r: String)
    ensures
        r@ == hex_text(tx@),
{
    let n = tx.len();
    let mut out: Vec<char> = Vec::new();
    let mut i: usize = 0;
    while i < n
        invariant
            n == tx@.len(),
            i <= n,
            out@ == hex_text(tx@.take(i as int)),
        decreases n - i,
    {
        let b = tx[i];
        out.push(hex_digit_char(b / 16));
        out.push(hex_digit_char(b % 16));
        proof {
            let t = tx@.take(i + 1);
            assert(t.drop_last() =~= tx@.take(i as int));
            assert(t.last() == b);
        }
        i = i + 1;
    }
    assert(tx@.take(n as int) =~= tx@);
    string_of(out.as_slice())
}

} // verus!
