//! Time stamps and identifiers.

use crate::decimal::push_decimal;
use vstd::prelude::*;

verus! {

/// `std::time::SystemTime`, a reading of the system clock.
#[verifier::external_type_specification]
#[verifier::external_body]
pub struct ExSystemTime(std::time::SystemTime);

/// `std::time::SystemTimeError`, which says that a reading lies before another.
#[verifier::external_type_specification]
#[verifier::external_body]
pub struct ExSystemTimeError(std::time::SystemTimeError);

/// `SystemTime::now` reads the system clock; nothing is said of the reading.
pub assume_specification[ std::time::SystemTime::now ]() -> (r: std::time::SystemTime);

/// `SystemTime::duration_since` gives the time from `earlier` up to `this`, or an
/// error where `earlier` is the later one. Both readings are opaque, so nothing is
/// said of the result.
pub assume_specification[ std::time::SystemTime::duration_since ](
    this: &std::time::SystemTime,
    earlier: std::time::SystemTime,
) -> (r: Result<std::time::Duration, std::time::SystemTimeError>);

/// `Duration::as_millis` gives the whole milliseconds of a duration, which is
/// opaque, so nothing is said of their number.
pub assume_specification[ std::time::Duration::as_millis ](this: &std::time::Duration) -> (r: u128);

/// `SystemTime::UNIX_EPOCH`, the start of the year 1970.
#[verifier::external_body]
fn unix_epoch() -> (r: std::time::SystemTime) {
    std::time::SystemTime::UNIX_EPOCH
}

/// A number of milliseconds reduced to 64 bits; zero where there is none because
/// the clock stands before the epoch.
pub open spec fn stamp(elapsed: Option<u128>) -> u64 {
    match elapsed {
        Some(ms) => (ms % 0x1_0000_0000_0000_0000) as u64,
        None => 0,
    }
}

/// A number of milliseconds reduced to 64 bits; zero where there is none because
/// the clock stands before the epoch.
pub fn millis_or_zero(elapsed: Option<u128>) -> (r: u64)
    ensures
        r == stamp(elapsed),
{
    match elapsed {
        Some(ms) => {
            assert(ms as u64 == (ms % 0x1_0000_0000_0000_0000) as u64) by (bit_vector);
            #[verifier::truncate]
            (ms as u64)
        },
        None => 0,
    }
}

/// Whether `ms` is the stamp of the time from `epoch` up to `now`: its whole
/// milliseconds, or zero where `now` is the earlier one.
pub open spec fn stamped(
    epoch: std::time::SystemTime,
    now: std::time::SystemTime,
    ms: u64,
) -> bool {
    exists|since: Result<std::time::Duration, std::time::SystemTimeError>|
        {
            &&& #[trigger] call_ensures(
                std::time::SystemTime::duration_since,
                (&now, epoch),
                since,
            )
            &&& match since {
                Ok(d) => exists|n: u128| #[trigger]
                    call_ensures(std::time::Duration::as_millis, (&d,), n) && ms == stamp(Some(n)),
                Err(_) => ms == stamp(None),
            }
        }
}

/// Whether `ms` is the stamp of the time from the start of the year 1970 up to a
/// reading of the system clock.
pub closed spec fn is_reading(ms: u64) -> bool {
    exists|epoch: std::time::SystemTime, now: std::time::SystemTime|
        {
            &&& call_ensures(unix_epoch, (), epoch)
            &&& call_ensures(std::time::SystemTime::now, (), now)
            &&& #[trigger] stamped(epoch, now, ms)
        }
}

/// The milliseconds since the start of the year 1970, or zero where the clock
/// stands before it. What the clock shows is not said.
pub fn now_ms() -> (r: u64)
    ensures
        is_reading(r),
{
    let epoch = unix_epoch();
    let now = std::time::SystemTime::now();
    let elapsed = match now.duration_since(epoch) {
        Ok(d) => Some(d.as_millis()),
        Err(_) => None,
    };
    let ms = millis_or_zero(elapsed);
    assert(stamped(epoch, now, ms));
    ms
}

/// An identifier: a prefix, a time stamp and a running number.
pub open spec fn id_text(prefix: Seq<char>, ms: u64, count: u64) -> Seq<char> {
    prefix + "-"@ + crate::decimal::decimal(ms as nat) + "-"@ + crate::decimal::decimal(
        count as nat,
    )
}

/// The number that follows in a counter that starts again at zero after the last.
pub open spec fn next_count(count: u64) -> u64 {
    if count == u64::MAX {
        0
    } else {
        (count + 1) as u64
    }
}

/// An identifier made of a prefix, a time stamp and a running number.
pub fn make_id(prefix: &str, ms: u64, count: u64) -> (r: String)
    ensures
        r@ == id_text(prefix@, ms, count),
{
    let mut r = prefix.to_string();
    r.append("-");
    push_decimal(&mut r, ms);
    r.append("-");
    push_decimal(&mut r, count);
    r
}

/// A new identifier; the counter moves on.
pub fn new_id(counter: &mut u64, prefix: &str) -> (r: String)
    ensures
        *final(counter) == next_count(*old(counter)),
        exists|ms: u64| is_reading(ms) && r@ == #[trigger] id_text(prefix@, ms, *old(counter)),
{
    let count = *counter;
    *counter = count.wrapping_add(1);
    make_id(prefix, now_ms(), count)
}

proof fn lemma_digits_after_dash(a: Seq<char>, m: Seq<char>, b: Seq<char>, n: Seq<char>)
    requires
        crate::decimal::all_digits(m),
        crate::decimal::all_digits(n),
        a + "-"@ + m == b + "-"@ + n,
    ensures
        m == n,
{
    reveal_strlit("-");
    let s = a + "-"@ + m;
    let t = b + "-"@ + n;
    assert(s.len() == a.len() + 1 + m.len());
    assert(t.len() == b.len() + 1 + n.len());
    if a.len() < b.len() {
        assert(s[b.len() as int] == m[b.len() - a.len() - 1]);
        assert(t[b.len() as int] == '-');
    } else if b.len() < a.len() {
        assert(t[a.len() as int] == n[a.len() - b.len() - 1]);
        assert(s[a.len() as int] == '-');
    }
    assert(s.skip(a.len() as int + 1) =~= m);
    assert(t.skip(b.len() as int + 1) =~= n);
}

/// Identifiers with different running numbers are different, whatever their
/// prefixes and time stamps.
pub proof fn law_ids_distinct(p: Seq<char>, ms: u64, i: u64, q: Seq<char>, mt: u64, j: u64)
    requires
        i != j,
    ensures
        id_text(p, ms, i) != id_text(q, mt, j),
{
    if id_text(p, ms, i) == id_text(q, mt, j) {
        crate::decimal::law_decimal_value(i as nat);
        crate::decimal::law_decimal_value(j as nat);
        lemma_digits_after_dash(
            p + "-"@ + crate::decimal::decimal(ms as nat),
            crate::decimal::decimal(i as nat),
            q + "-"@ + crate::decimal::decimal(mt as nat),
            crate::decimal::decimal(j as nat),
        );
    }
}

/// An identifier holds its prefix, a hyphen, the milliseconds, a hyphen and the running
/// number, both numbers to be read back.
pub proof fn law_id_reads_back(prefix: Seq<char>, ms: u64, count: u64) -> (hyphen: int)
    ensures
        prefix.len() + 1 < hyphen < id_text(prefix, ms, count).len() - 1,
        id_text(prefix, ms, count).take(prefix.len() as int) == prefix,
        id_text(prefix, ms, count)[prefix.len() as int] == '-',
        crate::decimal::parsed(
            id_text(prefix, ms, count).subrange(prefix.len() as int + 1, hyphen),
        ) == Some(ms as nat),
        id_text(prefix, ms, count)[hyphen] == '-',
        crate::decimal::parsed(id_text(prefix, ms, count).skip(hyphen + 1)) == Some(count as nat),
{
    reveal_strlit("-");
    let id = id_text(prefix, ms, count);
    let m = crate::decimal::decimal(ms as nat);
    let c = crate::decimal::decimal(count as nat);
    crate::decimal::law_decimal_value(ms as nat);
    crate::decimal::law_decimal_value(count as nat);
    let hyphen = prefix.len() as int + 1 + m.len();
    assert(id.take(prefix.len() as int) =~= prefix);
    assert(id.subrange(prefix.len() as int + 1, hyphen) =~= m);
    assert(id.skip(hyphen + 1) =~= c);
    assert(crate::decimal::is_digit(m[0]) && crate::decimal::is_digit(c[0]));
    hyphen
}

/// Running numbers follow each other, and start again at zero after the last.
pub proof fn law_running_numbers_follow(count: u64)
    ensures
        count < u64::MAX ==> next_count(count) == count + 1,
        next_count(u64::MAX) == 0,
{
}

/// Milliseconds that fit in 64 bits are stamped as they are.
pub proof fn law_stamp_is_the_milliseconds(ms: u128)
    ensures
        ms <= u64::MAX ==> stamp(Some(ms)) == ms,
        ms + 0x1_0000_0000_0000_0000 <= u128::MAX ==> stamp(
            Some((ms + 0x1_0000_0000_0000_0000) as u128),
        ) == stamp(Some(ms)),
        stamp(None) == 0,
{
}

/// A stamp is made of what the clock told: zero where it told that the epoch is the
/// later one, and otherwise the milliseconds that it told, where they fit in 64 bits.
pub proof fn law_stamp_is_what_the_clock_told(
    epoch: std::time::SystemTime,
    now: std::time::SystemTime,
    ms: u64,
) -> (since: Result<std::time::Duration, std::time::SystemTimeError>)
    requires
        stamped(epoch, now, ms),
    ensures
        call_ensures(std::time::SystemTime::duration_since, (&now, epoch), since),
        since is Err ==> ms == 0,
        since matches Ok(d) ==> exists|n: u128| #[trigger]
            call_ensures(std::time::Duration::as_millis, (&d,), n) && (n <= u64::MAX ==> ms == n),
{
    let since = choose|since: Result<std::time::Duration, std::time::SystemTimeError>|
        {
            &&& #[trigger] call_ensures(
                std::time::SystemTime::duration_since,
                (&now, epoch),
                since,
            )
            &&& match since {
                Ok(d) => exists|n: u128| #[trigger]
                    call_ensures(std::time::Duration::as_millis, (&d,), n) && ms == stamp(Some(n)),
                Err(_) => ms == stamp(None),
            }
        };
    since
}

/// A reading is the stamp of the time from an epoch that the system told up to a point
/// in time that its clock told.
pub proof fn law_reading_is_taken_from_the_clock(ms: u64) -> (now: std::time::SystemTime)
    requires
        is_reading(ms),
    ensures
        call_ensures(std::time::SystemTime::now, (), now),
        exists|epoch: std::time::SystemTime| #[trigger] stamped(epoch, now, ms),
{
    let (epoch, now) = choose|epoch: std::time::SystemTime, now: std::time::SystemTime|
        {
            &&& call_ensures(unix_epoch, (), epoch)
            &&& call_ensures(std::time::SystemTime::now, (), now)
            &&& #[trigger] stamped(epoch, now, ms)
        };
    assert(stamped(epoch, now, ms));
    now
}

} // verus!
