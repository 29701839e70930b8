//! Setting up the vaults: the decay schedule written to the setup CD, the
//! key files each hardware wallet stores, and the checks made while the
//! descriptors are created.
use vstd::prelude::*;
use crate::descriptor::{high_args, high_template, med_args, med_template, DelayedDecay};
use crate::text::{chars_of, contains, contains_chars, nat_to_string, trim, trim_chars, parse_i32, parse_i32_chars, decimal};

verus! {

/// Four years of 365 days, in seconds.
pub const FOUR_YEARS: i32 = 126144000;

/// Two months of 30 days, in seconds.
pub const TWO_MONTHS: i32 = 5184000;

/// The decay times of both vaults, as unix timestamps. The thresholds of the
/// delayed wallet decay every two months after four years, and the immediate
/// wallet decays together with the last of them, four years and eight months
/// after the start.
pub struct DecaySchedule {
    pub start_time: i32,
    pub delayed_decay1: i32,
    pub delayed_decay2: i32,
    pub delayed_decay3: i32,
    pub delayed_decay4: i32,
    pub delayed_decay5: i32,
    pub immediate_decay: i32,
}

/// The decay schedule of a setup started at `start_time`.
pub open spec fn spec_decay_schedule(start_time: int) -> DecaySchedule {
    DecaySchedule {
        start_time: start_time as i32,
        delayed_decay1: (start_time + FOUR_YEARS) as i32,
        delayed_decay2: (start_time + FOUR_YEARS + TWO_MONTHS) as i32,
        delayed_decay3: (start_time + FOUR_YEARS + 2 * TWO_MONTHS) as i32,
        delayed_decay4: (start_time + FOUR_YEARS + 3 * TWO_MONTHS) as i32,
        delayed_decay5: (start_time + FOUR_YEARS + 4 * TWO_MONTHS) as i32,
        immediate_decay: (start_time + FOUR_YEARS + 4 * TWO_MONTHS) as i32,
    }
}

/// The decay schedule of a setup started at `start_time`.
pub fn decay_schedule(start_time: i32) -> (d: DecaySchedule)
    requires
        start_time + FOUR_YEARS + 4 * TWO_MONTHS <= i32::MAX,
    ensures
        d == spec_decay_schedule(start_time as int),
{
    let four_years: i32 = start_time + 126144000;
    let four_years_two_months: i32 = start_time + 126144000 + 5184000;
    let four_years_four_months: i32 = start_time + 126144000 + 10368000;
    let four_years_six_months: i32 = start_time + 126144000 + 15552000;
    let four_years_eight_months: i32 = start_time + 126144000 + 20736000;
    DecaySchedule {
        start_time,
        delayed_decay1: four_years,
        delayed_decay2: four_years_two_months,
        delayed_decay3: four_years_four_months,
        delayed_decay4: four_years_six_months,
        delayed_decay5: four_years_eight_months,
        immediate_decay: four_years_eight_months,
    }
}

/// The decay schedule only ever weakens the vaults later: each delayed decay
/// comes two months after the one before, the first four years after the
/// start, and the immediate wallet decays with the last delayed decay, four
/// years and eight months after the start.
pub proof fn lemma_decay_schedule_order(start_time: i32)
    requires
        start_time + FOUR_YEARS + 4 * TWO_MONTHS <= i32::MAX,
    ensures
        ({
            let d = spec_decay_schedule(start_time as int);
            &&& d.start_time < d.delayed_decay1 < d.delayed_decay2 < d.delayed_decay3
                < d.delayed_decay4 < d.delayed_decay5
            &&& d.delayed_decay1 - d.start_time == FOUR_YEARS
            &&& d.delayed_decay2 - d.delayed_decay1 == TWO_MONTHS
            &&& d.delayed_decay3 - d.delayed_decay2 == TWO_MONTHS
            &&& d.delayed_decay4 - d.delayed_decay3 == TWO_MONTHS
            &&& d.delayed_decay5 - d.delayed_decay4 == TWO_MONTHS
            &&& d.immediate_decay == d.delayed_decay5
            &&& d.immediate_decay - d.start_time == FOUR_YEARS + 4 * TWO_MONTHS
        }),
{
}

/// The decay times of the delayed wallet in the schedule `d`.
pub open spec fn delayed_decay_of(d: DecaySchedule) -> DelayedDecay {
    DelayedDecay {
        decay1: d.delayed_decay1 as i64,
        decay2: d.delayed_decay2 as i64,
        decay3: d.delayed_decay3 as i64,
        decay4: d.delayed_decay4 as i64,
        decay5: d.delayed_decay5 as i64,
    }
}

/// Both vaults decay to one key at the same moment, four years and eight
/// months after the start: built from one schedule, the last decay time of
/// the delayed wallet's 5-of-7 threshold and the decay time of the immediate
/// wallet's 2-of-7 threshold are the same time lock, whatever the keys.
pub proof fn lemma_vaults_decay_together(start_time: i32, high: Seq<Seq<char>>, med: Seq<Seq<char>>)
    requires
        start_time + FOUR_YEARS + 4 * TWO_MONTHS <= i32::MAX,
        high.len() >= 11,
        med.len() >= 7,
    ensures
        ({
            let d = spec_decay_schedule(start_time as int);
            let last_high = high_args(high, delayed_decay_of(d))[10];
            let only_med = med_args(med, d.immediate_decay as i64)[7];
            &&& high_template()[10] == "),snu:after("@ && high_template()[11] == ")),thresh(2,pk("@
            &&& med_template()[7] == "),snu:after("@ && med_template()[8] == ")))"@
            &&& last_high == only_med
            &&& last_high == decimal(start_time + FOUR_YEARS + 4 * TWO_MONTHS)
        }),
{
    let d = spec_decay_schedule(start_time as int);
    assert(high_args(high, delayed_decay_of(d))[10] == decimal(d.delayed_decay5 as int));
    assert(med_args(med, d.immediate_decay as i64)[7] == decimal(d.immediate_decay as int));
}

/// Reads the start time that `date +%s` printed: the trimmed text as an `i32`.
pub fn parse_start_time(output: &str) -> (r: Option<i32>)
    ensures
        match r {
            Some(t) => parse_i32(trim(output@)) == Some(t as int),
            None => parse_i32(trim(output@)) is None,
        },
{
    let text = chars_of(output);
    let trimmed = trim_chars(&text);
    parse_i32_chars(&trimmed)
}

/// The file contents of a decay time: its decimal text.
pub fn decay_file_text(t: i32) -> (s: String)
    ensures
        s@ == decimal(t as int),
{
    let v = crate::text::int_to_chars(t as i64);
    crate::text::string_of(v.as_slice())
}

/// Whether building a descriptor failed for a missing key file: the text
/// that came back tells of a file that does not exist.
pub fn descriptor_failed(descriptor: &str) -> (b: bool)
    ensures
        b == contains(descriptor@, "No such file or directory"@),
{
    let text = chars_of(descriptor);
    let pattern = chars_of("No such file or directory");
    contains_chars(&text, &pattern)
}

/// The text stored for an extended key on the receive (`/0/*`) or change
/// (`/1/*`) derivation path.
pub fn derived_key_text(xkey: &str, change: bool) -> (s: String)
    ensures
        s@ == xkey@ + if change {
            "/1/*"@
        } else {
            "/0/*"@
        },
{
    let mut s = String::from_str(xkey);
    if change {
        s.append("/1/*");
    } else {
        s.append("/0/*");
    }
    s
}

/// The public key files that the descriptors are built from: the seven
/// wallet keys `public_key1..7`, then the four time machine keys
/// `time_machine_public_key1..4`, or their change counterparts.
pub open spec fn public_key_file(change: bool, i: int) -> Seq<char> {
    let kind = if change {
        "change_key"@
    } else {
        "key"@
    };
    if i < 7 {
        "/mnt/ramdisk/CDROM/pubkeys/public_"@ + kind + decimal(i + 1)
    } else {
        "/mnt/ramdisk/CDROM/pubkeys/time_machine_public_"@ + kind + decimal(i - 6)
    }
}

/// The eleven public key files that the descriptors are built from.
pub fn public_key_files(change: bool) -> (r: Vec<String>)
    ensures
        r@.len() == 11,
        forall|i: int| 0 <= i < 11 ==> #[trigger] r@[i]@ == public_key_file(change, i),
{
    let mut r: Vec<String> = Vec::new();
    let mut i: u64 = 0;
    while i < 11
        invariant
            i <= 11,
            r@.len() == i,
            forall|j: int| 0 <= j < i ==> #[trigger] r@[j]@ == public_key_file(change, j),
        decreases 11 - i,
    {
        let mut p = if i < 7 {
            String::from_str("/mnt/ramdisk/CDROM/pubkeys/public_")
        } else {
            String::from_str("/mnt/ramdisk/CDROM/pubkeys/time_machine_public_")
        };
        if change {
            p.append("change_key");
        } else {
            p.append("key");
        }
        let number = if i < 7 {
            nat_to_string(i + 1)
        } else {
            nat_to_string(i - 6)
        };
        p.append(number.as_str());
        r.push(p);
        i = i + 1;
    }
    r
}

} // verus!
