//! Time on the chain: the block height expected at a time, and the countdown
//! to a vault's next decay.
use vstd::prelude::*;
use crate::text::{decimal, fill, fill_template, int_to_string, nat_to_string, str_views, views};

verus! {

/// Unix timestamp of the genesis block.
pub const GENESIS_TIMESTAMP: i64 = 1231006505;

/// Target spacing between blocks, in seconds.
pub const BLOCK_INTERVAL: i64 = 600;

/// Integer division that rounds toward zero, as Rust's `/` does on signed integers.
pub open spec fn div_toward_zero(x: int, d: int) -> int
    recommends
        d > 0,
{
    if x >= 0 {
        x / d
    } else {
        -((-x) / d)
    }
}

/// Remainder that keeps the sign of the dividend, as Rust's `%` does on signed integers.
pub open spec fn rem_toward_zero(x: int, d: int) -> int
    recommends
        d > 0,
{
    x - d * div_toward_zero(x, d)
}

/// The block height expected at `unix_timestamp`, counting one block every ten
/// minutes since the genesis block.
pub open spec fn spec_block_height(unix_timestamp: int) -> int {
    div_toward_zero(unix_timestamp - GENESIS_TIMESTAMP, BLOCK_INTERVAL as int)
}

/// Converts a unix timestamp to the block height expected at that time.
pub fn unix_to_block_height(unix_timestamp: i64) -> (height: i64)
    requires
        unix_timestamp - GENESIS_TIMESTAMP >= i64::MIN,
    ensures
        height == spec_block_height(unix_timestamp as int),
{
    let time_since_genesis: i64 = unix_timestamp - GENESIS_TIMESTAMP;
    time_since_genesis / BLOCK_INTERVAL
}


/// One block is expected every ten minutes after the genesis block: ten
/// minutes later, the expected height is one more. (Before the genesis block
/// the height is rounded toward zero, so this does not hold there.)
pub proof fn lemma_one_block_every_ten_minutes(unix_timestamp: int)
    requires
        unix_timestamp >= GENESIS_TIMESTAMP,
    ensures
        spec_block_height(unix_timestamp + BLOCK_INTERVAL) == spec_block_height(unix_timestamp) + 1,
{
    let x = unix_timestamp - GENESIS_TIMESTAMP;
    assert((x + 600) / 600 == x / 600 + 1) by (nonlinear_arith)
        requires
            x >= 0,
    ;
}

/// Seconds in a year of 365 days.
pub const YEAR_SECONDS: i64 = 31536000;
/// Seconds in a month of 30 days.
pub const MONTH_SECONDS: i64 = 2592000;
/// Seconds in a week.
pub const WEEK_SECONDS: i64 = 604800;
/// Seconds in a day.
pub const DAY_SECONDS: i64 = 86400;
/// Seconds in an hour.
pub const HOUR_SECONDS: i64 = 3600;
/// Seconds in a minute.
pub const MINUTE_SECONDS: i64 = 60;

/// A span of time split into calendar units.
pub struct Countdown {
    pub years: i64,
    pub months: i64,
    pub weeks: i64,
    pub days: i64,
    pub hours: i64,
    pub minutes: i64,
    pub seconds: i64,
}

/// `time` seconds split into years, months (30 days), weeks, days, hours,
/// minutes and seconds, each part taken toward zero as Rust's `/` and `%` do.
pub open spec fn spec_countdown(time: int) -> Countdown {
    let r1 = rem_toward_zero(time, YEAR_SECONDS as int);
    let r2 = rem_toward_zero(r1, MONTH_SECONDS as int);
    let r3 = rem_toward_zero(r2, WEEK_SECONDS as int);
    let r4 = rem_toward_zero(r3, DAY_SECONDS as int);
    let r5 = rem_toward_zero(r4, HOUR_SECONDS as int);
    Countdown {
        years: div_toward_zero(time, YEAR_SECONDS as int) as i64,
        months: div_toward_zero(r1, MONTH_SECONDS as int) as i64,
        weeks: div_toward_zero(r2, WEEK_SECONDS as int) as i64,
        days: div_toward_zero(r3, DAY_SECONDS as int) as i64,
        hours: div_toward_zero(r4, HOUR_SECONDS as int) as i64,
        minutes: div_toward_zero(r5, MINUTE_SECONDS as int) as i64,
        seconds: rem_toward_zero(r5, MINUTE_SECONDS as int) as i64,
    }
}

/// `time` seconds split into calendar units.
pub fn countdown(time: i64) -> (c: Countdown)
    ensures
        c == spec_countdown(time as int),
{
    let years = time / YEAR_SECONDS;
    let mut remainder = time % YEAR_SECONDS;
    let months = remainder / MONTH_SECONDS;
    remainder = remainder % MONTH_SECONDS;
    let weeks = remainder / WEEK_SECONDS;
    remainder = remainder % WEEK_SECONDS;
    let days = remainder / DAY_SECONDS;
    remainder = remainder % DAY_SECONDS;
    let hours = remainder / HOUR_SECONDS;
    remainder = remainder % HOUR_SECONDS;
    let minutes = remainder / MINUTE_SECONDS;
    remainder = remainder % MINUTE_SECONDS;
    Countdown { years, months, weeks, days, hours, minutes, seconds: remainder }
}

/// The literal fragments of a countdown's text.
pub open spec fn countdown_template() -> Seq<Seq<char>> {
    seq![
        "years="@,
        ", months="@,
        ", weeks="@,
        ", days="@,
        ", hours="@,
        ", minutes="@,
        ", seconds="@,
        ""@,
    ]
}

/// What the wallet shows of the time left until `decay_time`, at
/// `current_time`: `decay complete` once the decay time has been reached,
/// otherwise every unit of the countdown.
pub open spec fn decay_report(decay_time: int, current_time: int) -> Seq<char> {
    let c = spec_countdown(decay_time - current_time);
    if decay_time - current_time <= 0 {
        "decay complete"@
    } else {
        fill(
            countdown_template(),
            seq![
                decimal(c.years as int),
                decimal(c.months as int),
                decimal(c.weeks as int),
                decimal(c.days as int),
                decimal(c.hours as int),
                decimal(c.minutes as int),
                decimal(c.seconds as int),
            ],
        )
    }
}

/// Describes the time left until the decay time `decay_time`, at the chain's
/// time `current_time`.
pub fn calculate_decay_time(decay_time: i64, current_time: i64) -> (r: String)
    requires
        i64::MIN <= decay_time - current_time <= i64::MAX,
    ensures
        r@ == decay_report(decay_time as int, current_time as int),
{
    let time = decay_time - current_time;
    let c = countdown(time);
    if time <= 0 {
        String::from_str("decay complete")
    } else {
        let mut args: Vec<String> = Vec::new();
        args.push(int_to_string(c.years));
        args.push(int_to_string(c.months));
        args.push(int_to_string(c.weeks));
        args.push(int_to_string(c.days));
        args.push(int_to_string(c.hours));
        args.push(int_to_string(c.minutes));
        args.push(int_to_string(c.seconds));
        let lits: Vec<&str> = vec![
            "years=",
            ", months=",
            ", weeks=",
            ", days=",
            ", hours=",
            ", minutes=",
            ", seconds=",
            "",
        ];
        assert(str_views(lits@) =~= countdown_template());
        assert(views(args@) =~= seq![
            decimal(c.years as int),
            decimal(c.months as int),
            decimal(c.weeks as int),
            decimal(c.days as int),
            decimal(c.hours as int),
            decimal(c.minutes as int),
            decimal(c.seconds as int),
        ]);
        fill_template(&lits, &args)
    }
}

/// The locktime offered for a new transaction: 1000 seconds before the
/// chain's median block time `median_time`.
pub fn median_locktime(median_time: u64) -> (r: String)
    requires
        median_time >= 1000,
    ensures
        r@ == decimal(median_time - 1000),
{
    nat_to_string(median_time - 1000)
}

/// One step of the countdown: `x` is `d` times the quotient plus the
/// remainder, and both take the sign of `x`, the remainder smaller than `d`.
proof fn lemma_split_step(x: int, d: int)
    requires
        d > 0,
    ensures
        x == d * div_toward_zero(x, d) + rem_toward_zero(x, d),
        x >= 0 ==> 0 <= rem_toward_zero(x, d) < d && 0 <= div_toward_zero(x, d) <= x,
        x < 0 ==> -d < rem_toward_zero(x, d) <= 0 && x <= div_toward_zero(x, d) <= 0,
        (x >= 0 && x < d) ==> div_toward_zero(x, d) == 0,
        (x < 0 && x > -d) ==> div_toward_zero(x, d) == 0,
{
    if x >= 0 {
        assert(0 <= x % d < d) by (nonlinear_arith)
            requires
                d > 0,
        ;
        assert(x == d * (x / d) + x % d) by (nonlinear_arith)
            requires
                d > 0,
        ;
        assert(0 <= x / d <= x) by (nonlinear_arith)
            requires
                d > 0,
                x >= 0,
        ;
        assert(x < d ==> x / d == 0) by (nonlinear_arith)
            requires
                d > 0,
                x >= 0,
        ;
    } else {
        let y = -x;
        assert(0 <= y % d < d) by (nonlinear_arith)
            requires
                d > 0,
        ;
        assert(y == d * (y / d) + y % d) by (nonlinear_arith)
            requires
                d > 0,
        ;
        assert(0 <= y / d <= y) by (nonlinear_arith)
            requires
                d > 0,
                y >= 0,
        ;
        assert(y < d ==> y / d == 0) by (nonlinear_arith)
            requires
                d > 0,
                y >= 0,
        ;
        assert(d * (-(y / d)) == -(d * (y / d))) by (nonlinear_arith);
        assert(div_toward_zero(x, d) == -(y / d));
        assert(rem_toward_zero(x, d) == -(y % d));
    }
}

/// The countdown accounts for every second: its units, each weighed by its
/// length in seconds, add up to `time`. Every unit has the sign of `time`
/// and stays below the next unit up: at most 12 months, 4 weeks, 6 days,
/// 23 hours, 59 minutes and 59 seconds.
pub proof fn lemma_countdown_adds_up(time: i64)
    ensures
        ({
            let c = spec_countdown(time as int);
            &&& c.years * YEAR_SECONDS + c.months * MONTH_SECONDS + c.weeks * WEEK_SECONDS + c.days
                * DAY_SECONDS + c.hours * HOUR_SECONDS + c.minutes * MINUTE_SECONDS + c.seconds
                == time
            &&& time >= 0 ==> (0 <= c.years && 0 <= c.months <= 12 && 0 <= c.weeks <= 4 && 0
                <= c.days <= 6 && 0 <= c.hours <= 23 && 0 <= c.minutes <= 59 && 0 <= c.seconds
                <= 59)
            &&& time < 0 ==> (c.years <= 0 && -12 <= c.months <= 0 && -4 <= c.weeks <= 0 && -6
                <= c.days <= 0 && -23 <= c.hours <= 0 && -59 <= c.minutes <= 0 && -59 <= c.seconds
                <= 0)
        }),
{
    let t = time as int;
    lemma_split_step(t, YEAR_SECONDS as int);
    let r1 = rem_toward_zero(t, YEAR_SECONDS as int);
    lemma_split_step(r1, MONTH_SECONDS as int);
    let r2 = rem_toward_zero(r1, MONTH_SECONDS as int);
    lemma_split_step(r2, WEEK_SECONDS as int);
    let r3 = rem_toward_zero(r2, WEEK_SECONDS as int);
    lemma_split_step(r3, DAY_SECONDS as int);
    let r4 = rem_toward_zero(r3, DAY_SECONDS as int);
    lemma_split_step(r4, HOUR_SECONDS as int);
    let r5 = rem_toward_zero(r4, HOUR_SECONDS as int);
    lemma_split_step(r5, MINUTE_SECONDS as int);
    let c = spec_countdown(t);
    assert(c.years == div_toward_zero(t, YEAR_SECONDS as int));
    assert(c.months == div_toward_zero(r1, MONTH_SECONDS as int));
    assert(c.weeks == div_toward_zero(r2, WEEK_SECONDS as int));
    assert(c.days == div_toward_zero(r3, DAY_SECONDS as int));
    assert(c.hours == div_toward_zero(r4, HOUR_SECONDS as int));
    assert(c.minutes == div_toward_zero(r5, MINUTE_SECONDS as int));
    assert(c.seconds == rem_toward_zero(r5, MINUTE_SECONDS as int));
    assert(0 <= r1 < YEAR_SECONDS ==> div_toward_zero(r1, MONTH_SECONDS as int) <= 12) by {
        if 0 <= r1 < YEAR_SECONDS {
            let m = div_toward_zero(r1, MONTH_SECONDS as int);
            assert(MONTH_SECONDS * m <= r1);
        }
    }
    assert(-YEAR_SECONDS < r1 < 0 ==> div_toward_zero(r1, MONTH_SECONDS as int) >= -12) by {
        if -YEAR_SECONDS < r1 < 0 {
            let m = div_toward_zero(r1, MONTH_SECONDS as int);
            assert(MONTH_SECONDS * m >= r1);
        }
    }
}

/// The decay is reported complete exactly when the decay time has been
/// reached; before it, the countdown to it is shown.
pub proof fn lemma_decay_complete_when_reached(decay_time: i64, current_time: i64)
    requires
        i64::MIN <= decay_time - current_time <= i64::MAX,
    ensures
        decay_report(decay_time as int, current_time as int) == "decay complete"@ <==> decay_time
            <= current_time,
{
    reveal_strlit("years=");
    reveal_strlit("decay complete");
    if decay_time > current_time {
        let c = spec_countdown(decay_time - current_time);
        let args = seq![
            decimal(c.years as int),
            decimal(c.months as int),
            decimal(c.weeks as int),
            decimal(c.days as int),
            decimal(c.hours as int),
            decimal(c.minutes as int),
            decimal(c.seconds as int),
        ];
        let f = fill(countdown_template(), args);
        assert(decay_report(decay_time as int, current_time as int) == f);
        crate::text::lemma_fill_starts_with_first(countdown_template(), args);
        assert(f[0] == 'y');
        assert("decay complete"@[0] == 'd');
    }
}

/// The countdown to a decay not yet reached names each unit after its
/// label: with `t` seconds left, `years=` is followed by the whole years in
/// `t`, `months=` by the whole months of 30 days in what is left over, and
/// so on down to `seconds=` and the seconds left over; once the decay time
/// is reached the report is `decay complete`.
pub proof fn lemma_decay_report_units(decay_time: i64, current_time: i64)
    requires
        i64::MIN <= decay_time - current_time <= i64::MAX,
    ensures
        ({
            let t = decay_time - current_time;
            let r1 = t % 31536000;
            let r2 = r1 % 2592000;
            let r3 = r2 % 604800;
            let r4 = r3 % 86400;
            let r5 = r4 % 3600;
            decay_report(decay_time as int, current_time as int) == if t <= 0 {
                "decay complete"@
            } else {
                "years="@ + decimal(t / 31536000) + ", months="@ + decimal(r1 / 2592000)
                    + ", weeks="@ + decimal(r2 / 604800) + ", days="@ + decimal(r3 / 86400)
                    + ", hours="@ + decimal(r4 / 3600) + ", minutes="@ + decimal(r5 / 60)
                    + ", seconds="@ + decimal(r5 % 60)
            }
        }),
{
    let t = decay_time - current_time;
    if t > 0 {
        let time = t as i64;
        lemma_countdown_adds_up(time);
        let c = spec_countdown(t);
        lemma_split_step(t, YEAR_SECONDS as int);
        let r1 = rem_toward_zero(t, YEAR_SECONDS as int);
        lemma_split_step(r1, MONTH_SECONDS as int);
        let r2 = rem_toward_zero(r1, MONTH_SECONDS as int);
        lemma_split_step(r2, WEEK_SECONDS as int);
        let r3 = rem_toward_zero(r2, WEEK_SECONDS as int);
        lemma_split_step(r3, DAY_SECONDS as int);
        let r4 = rem_toward_zero(r3, DAY_SECONDS as int);
        lemma_split_step(r4, HOUR_SECONDS as int);
        let r5 = rem_toward_zero(r4, HOUR_SECONDS as int);
        lemma_split_step(r5, MINUTE_SECONDS as int);
        assert(r1 == t % 31536000);
        assert(r2 == r1 % 2592000);
        assert(r3 == r2 % 604800);
        assert(r4 == r3 % 86400);
        assert(r5 == r4 % 3600);
        assert(c.years == t / 31536000);
        assert(c.months == r1 / 2592000);
        assert(c.weeks == r2 / 604800);
        assert(c.days == r3 / 86400);
        assert(c.hours == r4 / 3600);
        assert(c.minutes == r5 / 60);
        assert(c.seconds == r5 % 60);
        let args = seq![
            decimal(c.years as int),
            decimal(c.months as int),
            decimal(c.weeks as int),
            decimal(c.days as int),
            decimal(c.hours as int),
            decimal(c.minutes as int),
            decimal(c.seconds as int),
        ];
        reveal_with_fuel(fill, 8);
        let lits = countdown_template();
        assert(fill(lits, args) =~= "years="@ + args[0] + ", months="@ + args[1] + ", weeks="@
            + args[2] + ", days="@ + args[3] + ", hours="@ + args[4] + ", minutes="@ + args[5]
            + ", seconds="@ + args[6]) by {
            reveal_strlit("");
            assert(""@ =~= Seq::<char>::empty());
            let l1 = lits.drop_last();
            let a1 = args.drop_last();
            let l2 = l1.drop_last();
            let a2 = a1.drop_last();
            let l3 = l2.drop_last();
            let a3 = a2.drop_last();
            let l4 = l3.drop_last();
            let a4 = a3.drop_last();
            let l5 = l4.drop_last();
            let a5 = a4.drop_last();
            let l6 = l5.drop_last();
            let a6 = a5.drop_last();
            let l7 = l6.drop_last();
            let a7 = a6.drop_last();
            assert(a7.len() == 0);
            assert(fill(l7, a7) == l7[0]);
            assert(l7[0] == "years="@);
        }
    }
}

} // verus!
