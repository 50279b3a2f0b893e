//! The time of day in UTC, from the system clock.
use vstd::prelude::*;

verus! {

/// A time of day: hours, minutes and seconds.
pub struct Present {
    hours: u64,
    minutes: u64,
    seconds: u64,
}

/// A clock that reads the time of day.
pub struct Time {
    as_days: u64,
}

/// Seconds in a day.
pub const DAY_SECONDS: u64 = 86400;

/// Hours, minutes and seconds into the day, in UTC, `secs` seconds after the
/// Unix epoch.
pub open spec fn time_of_day(secs: u64) -> (nat, nat, nat) {
    (
        ((secs % DAY_SECONDS) / 3600) as nat,
        ((secs % DAY_SECONDS) % 3600 / 60) as nat,
        (secs % 60) as nat,
    )
}

/// The decimal digits, by value.
pub open spec fn digits() -> Seq<char> {
    seq!['0', '1', '2', '3', '4', '5', '6', '7', '8', '9']
}

/// `n` written with two decimal digits.
pub open spec fn two_digits(n: nat) -> Seq<char> {
    seq![digits()[(n / 10) as int], digits()[(n % 10) as int]]
}

/// `h:m:s (UTC)`, each number written with two digits.
pub open spec fn clock_text(h: nat, m: nat, s: nat) -> Seq<char> {
    two_digits(h) + seq![':'] + two_digits(m) + seq![':'] + two_digits(s) + seq![
        ' ',
        '(',
        'U',
        'T',
        'C',
        ')',
    ]
}

#[verifier::external_type_specification]
#[verifier::external_body]
pub struct ExSystemTime(std::time::SystemTime);

/// Relies on `SystemTime::now`: a reading of the system clock.
#[verifier::external_body]
fn clock_now() -> (r: std::time::SystemTime) {
    std::time::SystemTime::now()
}

/// Relies on `SystemTime::duration_since` with `UNIX_EPOCH`: the time from the
/// epoch to `t`, or `None` when `t` is earlier.
#[verifier::external_body]
fn since_epoch(t: &std::time::SystemTime) -> (r: Option<std::time::Duration>) {
    t.duration_since(std::time::UNIX_EPOCH).ok()
}

/// Relies on `Duration::as_secs`: the whole seconds in `d`.
#[verifier::external_body]
fn whole_seconds(d: &std::time::Duration) -> (r: u64) {
    d.as_secs()
}

impl View for Present {
    type V = (nat, nat, nat);

    closed spec fn view(&self) -> (nat, nat, nat) {
        (self.hours as nat, self.minutes as nat, self.seconds as nat)
    }
}

impl Present {
    #[verifier::type_invariant]
    spec fn within_day(self) -> bool {
        self.hours < 24 && self.minutes < 60 && self.seconds < 60
    }

    pub fn get_hours(&self) -> (r: u64)
        ensures
            r == self@.0,
    {
        self.hours
    }

    pub fn get_minutes(&self) -> (r: u64)
        ensures
            r == self@.1,
    {
        self.minutes
    }

    pub fn get_seconds(&self) -> (r: u64)
        ensures
            r == self@.2,
    {
        self.seconds
    }

    /// The time as `hh:mm:ss (UTC)`.
    pub fn get_time(&self) -> (r: String)
        ensures
            self@.0 < 24 && self@.1 < 60 && self@.2 < 60,
            r@ == clock_text(self@.0, self@.1, self@.2),
    {
        proof {
            use_type_invariant(self);
        }
        let mut out = digits_of(self.hours);
        let colon = ":";
        let tail = " (UTC)";
        proof {
            reveal_strlit(":");
            reveal_strlit(" (UTC)");
        }
        out.append(colon);
        out.append(digits_of(self.minutes).as_str());
        out.append(colon);
        out.append(digits_of(self.seconds).as_str());
        out.append(tail);
        assert(out@ =~= clock_text(self@.0, self@.1, self@.2));
        out
    }
}

/// `n` written with two decimal digits.
fn digits_of(n: u64) -> (r: String)
    requires
        n < 100,
    ensures
        r@ == two_digits(n as nat),
{
    let all = "0123456789";
    proof {
        reveal_strlit("0123456789");
        assert(all@ =~= digits());
    }
    let tens = (n / 10) as usize;
    let ones = (n % 10) as usize;
    let mut out = String::from_str(all.substring_char(tens, tens + 1));
    out.append(all.substring_char(ones, ones + 1));
    assert(out@ =~= two_digits(n as nat));
    out
}

impl View for Time {
    type V = nat;

    closed spec fn view(&self) -> nat {
        self.as_days as nat
    }
}

impl Time {
    #[verifier::type_invariant]
    spec fn whole_day(self) -> bool {
        self.as_days == DAY_SECONDS
    }

    /// A clock for days of 86400 seconds.
    pub fn new() -> (r: Self)
        ensures
            r@ == DAY_SECONDS,
    {
        Time { as_days: DAY_SECONDS }
    }

    /// The time of day, in UTC, `secs` seconds after the Unix epoch.
    pub fn at(&self, secs: u64) -> (r: Present)
        ensures
            r@ == time_of_day(secs),
    {
        proof {
            use_type_invariant(self);
        }
        let today_seconds = secs % self.as_days;
        assert(today_seconds % 60 == secs % 60) by (nonlinear_arith)
            requires
                today_seconds == secs % 86400,
        ;
        Present {
            hours: today_seconds / 60 / 60,
            minutes: today_seconds % (60 * 60) / 60,
            seconds: today_seconds % 60,
        }
    }

    /// The time of day now, in UTC; `None` when the system clock reads
    /// before the Unix epoch.
    pub fn current(&self) -> (r: Option<Present>)
        ensures
            r matches Some(p) ==> exists|secs: u64| p@ == #[trigger] time_of_day(secs),
    {
        let now = clock_now();
        match since_epoch(&now) {
            Some(d) => Some(self.at(whole_seconds(&d))),
            None => None,
        }
    }
}

} // verus!
