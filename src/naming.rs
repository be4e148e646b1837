//! Names that the server generates: the time stamp that names stored files
//! and new users, the path of a stored file, and a new user's name.

use chrono::{Datelike, Timelike};
use vstd::prelude::*;
use vstd::string::StringExecFns;
use crate::session::BlobKind;
use crate::text::push_char;

verus! {

/// A calendar time in UTC, to the second.
#[derive(Clone, Copy, Debug, PartialEq, Eq, Structural)]
pub struct Timestamp {
    pub year: u32,
    pub month: u32,
    pub day: u32,
    pub hour: u32,
    pub minute: u32,
    pub second: u32,
}

impl Timestamp {
    /// The fields are in range, with a year of at most four digits.
    pub open spec fn wf(&self) -> bool {
        &&& self.year <= 9999
        &&& 1 <= self.month <= 12
        &&& 1 <= self.day <= 31
        &&& self.hour <= 23
        &&& self.minute <= 59
        &&& self.second <= 59
    }

    /// The time stamp with these fields, if they are in range.
    pub fn new(year: i32, month: u32, day: u32, hour: u32, minute: u32, second: u32) -> (r: Option<
        Timestamp,
    >)
        ensures
            r is Some <==> (0 <= year <= 9999 && 1 <= month <= 12 && 1 <= day <= 31 && hour <= 23
                && minute <= 59 && second <= 59),
            r matches Some(t) ==> t.wf() && t.year == year && t.month == month && t.day == day
                && t.hour == hour && t.minute == minute && t.second == second,
    {
        if 0 <= year && year <= 9999 && 1 <= month && month <= 12 && 1 <= day && day <= 31 && hour
            <= 23 && minute <= 59 && second <= 59 {
            Some(Timestamp { year: year as u32, month, day, hour, minute, second })
        } else {
            None
        }
    }

    /// The current time; `None` when the clock reads a year outside 0 to 9999.
    pub fn now() -> (r: Option<Timestamp>)
        ensures
            r matches Some(t) ==> t.wf(),
    {
        let (year, month, day, hour, minute, second) = utc_now();
        Timestamp::new(year, month, day, hour, minute, second)
    }
}

/// Relies on chrono's `Utc::now` and its `Datelike` / `Timelike` accessors,
/// which give a month from 1 to 12, a day from 1 to 31, an hour from 0 to 23
/// and a minute and a second from 0 to 59.
#[verifier::external_body]
fn utc_now() -> (r: (i32, u32, u32, u32, u32, u32))
    ensures
        1 <= r.1 <= 12,
        1 <= r.2 <= 31,
        r.3 <= 23,
        r.4 <= 59,
        r.5 <= 59,
{
    let now = chrono::Utc::now();
    (now.year(), now.month(), now.day(), now.hour(), now.minute(), now.second())
}

/// The decimal digit `d`.
pub open spec fn digit(d: nat) -> char {
    (d + 48) as char
}

/// The last `width` decimal digits of `n`, zero-padded.
pub open spec fn digits(n: nat, width: nat) -> Seq<char>
    decreases width,
{
    if width == 0 {
        seq![]
    } else {
        digits(n / 10, (width - 1) as nat).push(digit(n % 10))
    }
}

/// `t` written as `YYYYMMDDhhmmss`.
pub open spec fn stamp_text(t: Timestamp) -> Seq<char> {
    digits(t.year as nat, 4) + digits(t.month as nat, 2) + digits(t.day as nat, 2) + digits(
        t.hour as nat,
        2,
    ) + digits(t.minute as nat, 2) + digits(t.second as nat, 2)
}

/// Where content of kind `kind` received at time `t` is stored. The path
/// depends on the kind and the time alone, never on the client's file name.
pub open spec fn blob_path_text(kind: BlobKind, t: Timestamp) -> Seq<char> {
    match kind {
        BlobKind::File => "files/"@ + stamp_text(t) + ".txt"@,
        BlobKind::Image => "images/"@ + stamp_text(t) + ".png"@,
    }
}

fn push_digits(out: &mut String, n: u32, width: u32)
    ensures
        final(out)@ == old(out)@ + digits(n as nat, width as nat),
    decreases width,
{
    if width > 0 {
        push_digits(out, n / 10, width - 1);
        let d = (n % 10) as u8;
        push_char(out, (48u8 + d) as char);
        proof {
            let front = digits((n / 10) as nat, (width - 1) as nat);
            assert(digits(n as nat, width as nat) == front.push(digit((n % 10) as nat)));
            assert(final(out)@ =~= old(out)@ + digits(n as nat, width as nat));
        }
    } else {
        assert(old(out)@ + digits(n as nat, 0) =~= old(out)@);
    }
}

/// Appends the stamp of `t` to `out`.
fn push_stamp(out: &mut String, t: &Timestamp)
    ensures
        final(out)@ == old(out)@ + stamp_text(*t),
{
    push_digits(out, t.year, 4);
    push_digits(out, t.month, 2);
    push_digits(out, t.day, 2);
    push_digits(out, t.hour, 2);
    push_digits(out, t.minute, 2);
    push_digits(out, t.second, 2);
    assert(final(out)@ =~= old(out)@ + stamp_text(*t));
}

/// `t` written as `YYYYMMDDhhmmss`.
pub fn stamp(t: &Timestamp) -> (r: String)
    ensures
        r@ == stamp_text(*t),
{
    let mut r = String::new();
    push_stamp(&mut r, t);
    assert(r@ =~= stamp_text(*t));
    r
}

/// The path under which content of kind `kind` received at `t` is stored.
pub fn blob_path(kind: BlobKind, t: &Timestamp) -> (r: String)
    ensures
        r@ == blob_path_text(kind, *t),
{
    match kind {
        BlobKind::File => {
            let mut r = "files/".to_owned();
            push_stamp(&mut r, t);
            r.append(".txt");
            r
        },
        BlobKind::Image => {
            let mut r = "images/".to_owned();
            push_stamp(&mut r, t);
            r.append(".png");
            r
        },
    }
}

/// The name of the user created for a connection from address `ip` at `t`:
/// the address followed by the stamp of the time.
pub fn user_name(ip: &str, t: &Timestamp) -> (r: String)
    ensures
        r@ == ip@ + stamp_text(*t),
{
    let mut r = ip.to_owned();
    push_stamp(&mut r, t);
    r
}

} // verus!
