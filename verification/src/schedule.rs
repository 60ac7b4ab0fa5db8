//! The garbage pickup calendar: which bins go out on which day, read from
//! the utility's service calendar and turned into all-day calendar events
//! with a reminder, and the cache that spares the utility a request on every
//! download.

use vstd::prelude::*;
use vstd::string::StringSliceAdditionalSpecFns;
use icalendar::{Component, EventLike};

verus! {

// ---------------------------------------------------------------------------
// Pickup dates: "month/day/year"

/// The byte of `'/'`.
pub const SLASH: u8 = 0x2f;

/// `s` cut at every `sep`: `"a/b"` gives `["a", "b"]`, `""` gives `[""]` and
/// `"a/"` gives `["a", ""]`.
pub open spec fn split_on(s: Seq<u8>, sep: u8) -> Seq<Seq<u8>>
    decreases s.len(),
{
    if s.len() == 0 {
        seq![seq![]]
    } else {
        let rest = split_on(s.drop_last(), sep);
        if s.last() == sep {
            rest.push(seq![])
        } else {
            rest.update(rest.len() - 1, rest.last().push(s.last()))
        }
    }
}

/// Whether `b` is an ASCII decimal digit.
pub open spec fn is_digit(b: u8) -> bool {
    0x30 <= b <= 0x39
}

/// The number that the decimal digits `d` spell.
pub open spec fn digits_value(d: Seq<u8>) -> nat
    decreases d.len(),
{
    if d.len() == 0 {
        0
    } else {
        digits_value(d.drop_last()) * 10 + (d.last() - 0x30) as nat
    }
}

/// `s` without the `+` sign that may lead it.
pub open spec fn unsigned_digits(s: Seq<u8>) -> Seq<u8> {
    if s.len() > 0 && s[0] == 0x2b {
        s.skip(1)
    } else {
        s
    }
}

/// Whether every byte of `d` is a decimal digit.
pub open spec fn all_digits(d: Seq<u8>) -> bool {
    forall|i: int| 0 <= i < d.len() ==> is_digit(#[trigger] d[i])
}

/// What `str::parse::<u32>` gives for `s`: an optional `+`, then at least one
/// decimal digit and nothing else, denoting a number that fits in a `u32`.
pub open spec fn parse_u32(s: Seq<u8>) -> Option<u32> {
    let digits = unsigned_digits(s);
    if digits.len() > 0 && all_digits(digits) && digits_value(digits) <= u32::MAX {
        Some(digits_value(digits) as u32)
    } else {
        None
    }
}

/// The numbers among `parts`, in order, leaving out the parts that are not numbers.
pub open spec fn numbers_among(parts: Seq<Seq<u8>>) -> Seq<u32>
    decreases parts.len(),
{
    if parts.len() == 0 {
        seq![]
    } else {
        let rest = numbers_among(parts.drop_last());
        match parse_u32(parts.last()) {
            Some(n) => rest.push(n),
            None => rest,
        }
    }
}

/// The `(month, day, year)` that a pickup date string names: the numbers
/// among its `/`-separated parts, when there are exactly three of them.
pub open spec fn pickup_date(s: Seq<u8>) -> Option<(u32, u32, u32)> {
    let n = numbers_among(split_on(s, SLASH));
    if n.len() == 3 {
        Some((n[0], n[1], n[2]))
    } else {
        None
    }
}

proof fn lemma_digits_value_monotone(d: Seq<u8>, i: int)
    requires
        0 <= i <= d.len(),
    ensures
        digits_value(d.take(i)) <= digits_value(d),
    decreases d.len() - i,
{
    if i < d.len() {
        lemma_digits_value_monotone(d, i + 1);
        assert(d.take(i + 1).drop_last() =~= d.take(i));
    } else {
        assert(d.take(i) =~= d);
    }
}

/// `n` written in decimal: its ASCII digits, most significant first,
/// without leading zeros.
pub open spec fn decimal_bytes(n: nat) -> Seq<u8>
    decreases n,
{
    if n < 10 {
        seq![(0x30 + n) as u8]
    } else {
        decimal_bytes(n / 10).push((0x30 + n % 10) as u8)
    }
}

proof fn lemma_decimal_bytes_digits(n: nat)
    ensures
        decimal_bytes(n).len() > 0,
        decimal_bytes(n)[0] != 0x2b,
        all_digits(decimal_bytes(n)),
        digits_value(decimal_bytes(n)) == n,
    decreases n,
{
    if n >= 10 {
        lemma_decimal_bytes_digits(n / 10);
        let d = decimal_bytes(n);
        assert(d.drop_last() =~= decimal_bytes(n / 10));
        assert(d.last() == (0x30 + n % 10) as u8);
        assert((d.last() - 0x30) as nat == n % 10);
        assert(n == (n / 10) * 10 + n % 10);
        assert forall|i: int| 0 <= i < d.len() implies is_digit(#[trigger] d[i]) by {
            if i < d.len() - 1 {
                assert(d[i] == decimal_bytes(n / 10)[i]);
            }
        }
    } else {
        let d = decimal_bytes(n);
        assert(d.drop_last() =~= Seq::<u8>::empty());
        assert(digits_value(d.drop_last()) == 0);
        assert((d.last() - 0x30) as nat == n);
    }
}

/// Every number written in decimal reads back as itself: the digits of any
/// `u32` parse to that very number, as `str::parse::<u32>` reads them.
pub proof fn lemma_parse_u32_reads_decimal(n: u32)
    ensures
        parse_u32(decimal_bytes(n as nat)) == Some(n),
{
    lemma_decimal_bytes_digits(n as nat);
}

/// Whether `s` holds no `/`.
pub open spec fn no_slash(s: Seq<u8>) -> bool {
    forall|i: int| 0 <= i < s.len() ==> #[trigger] s[i] != SLASH
}

proof fn lemma_split_without_slash(y: Seq<u8>)
    requires
        no_slash(y),
    ensures
        split_on(y, SLASH) == seq![y],
    decreases y.len(),
{
    if y.len() > 0 {
        lemma_split_without_slash(y.drop_last());
        assert(y.drop_last().push(y.last()) =~= y);
    } else {
        assert(y =~= Seq::<u8>::empty());
    }
}

proof fn lemma_split_after_slash(x: Seq<u8>, y: Seq<u8>)
    requires
        no_slash(y),
    ensures
        split_on(x + seq![SLASH] + y, SLASH) == split_on(x, SLASH).push(y),
    decreases y.len(),
{
    let s = x + seq![SLASH] + y;
    if y.len() == 0 {
        assert(s.drop_last() =~= x);
        assert(y =~= Seq::<u8>::empty());
    } else {
        lemma_split_after_slash(x, y.drop_last());
        assert(s.drop_last() =~= x + seq![SLASH] + y.drop_last());
        assert(s.last() == y.last());
        assert(y.drop_last().push(y.last()) =~= y);
    }
}

proof fn lemma_decimal_bytes_no_slash(n: nat)
    ensures
        no_slash(decimal_bytes(n)),
{
    lemma_decimal_bytes_digits(n);
    let d = decimal_bytes(n);
    assert forall|i: int| 0 <= i < d.len() implies #[trigger] d[i] != SLASH by {
        assert(is_digit(d[i]));
    }
}

/// A pickup date written `month/day/year` in decimal reads as
/// `(month, day, year)`, whatever the three numbers.
pub proof fn lemma_pickup_date_reads_decimal(month: u32, day: u32, year: u32)
    ensures
        pickup_date(
            decimal_bytes(month as nat) + seq![SLASH] + decimal_bytes(day as nat) + seq![SLASH] + decimal_bytes(
                year as nat,
            ),
        ) == Some((month, day, year)),
{
    let m = decimal_bytes(month as nat);
    let d = decimal_bytes(day as nat);
    let y = decimal_bytes(year as nat);
    lemma_decimal_bytes_no_slash(month as nat);
    lemma_decimal_bytes_no_slash(day as nat);
    lemma_decimal_bytes_no_slash(year as nat);
    lemma_split_without_slash(m);
    lemma_split_after_slash(m, d);
    lemma_split_after_slash(m + seq![SLASH] + d, y);
    let parts = split_on(m + seq![SLASH] + d + seq![SLASH] + y, SLASH);
    assert(parts =~= seq![m, d, y]);
    lemma_parse_u32_reads_decimal(month);
    lemma_parse_u32_reads_decimal(day);
    lemma_parse_u32_reads_decimal(year);
    let p2 = parts.drop_last();
    let p1 = p2.drop_last();
    assert(p2 =~= seq![m, d]);
    assert(p1 =~= seq![m]);
    assert(p1.drop_last() =~= Seq::<Seq<u8>>::empty());
    assert(numbers_among(p1.drop_last()) =~= Seq::<u32>::empty());
    assert(numbers_among(p1) =~= seq![month]);
    assert(numbers_among(p2) =~= seq![month, day]);
    assert(numbers_among(parts) =~= seq![month, day, year]);
}

/// Parses the number in `s[from..to]` as `str::parse::<u32>` would.
fn parse_u32_range(s: &[u8], from: usize, to: usize) -> (r: Option<u32>)
    requires
        from <= to <= s@.len(),
    ensures
        r == parse_u32(s@.subrange(from as int, to as int)),
{
    let ghost part = s@.subrange(from as int, to as int);
    let mut start = from;
    if from < to && s[from] == 0x2b {
        start = from + 1;
    }
    let ghost digits = s@.subrange(start as int, to as int);
    assert(digits =~= unsigned_digits(part));
    if start == to {
        assert(digits.len() == 0);
        assert(parse_u32(part).is_none());
        return None;
    }
    let mut acc: u32 = 0;
    let mut i = start;
    while i < to
        invariant
            start <= i <= to <= s@.len(),
            digits == s@.subrange(start as int, to as int),
            part == s@.subrange(from as int, to as int),
            digits == unsigned_digits(part),
            digits.len() > 0,
            forall|k: int| 0 <= k < i - start ==> is_digit(#[trigger] digits[k]),
            acc == digits_value(digits.take(i - start)),
        decreases to - i,
    {
        let b = s[i];
        if b < 0x30 || b > 0x39 {
            assert(!is_digit(digits[i - start]));
            assert(!all_digits(digits));
            assert(parse_u32(part).is_none());
            return None;
        }
        let d = (b - 0x30) as u32;
        assert(digits.take(i - start + 1).drop_last() =~= digits.take(i - start));
        assert(digits.take(i - start + 1).last() == b);
        assert(digits_value(digits.take(i - start + 1)) == acc * 10 + d);
        if acc > (u32::MAX - d) / 10 {
            proof {
                lemma_digits_value_monotone(digits, i - start + 1);
                assert(acc * 10 + d > u32::MAX) by (nonlinear_arith)
                    requires
                        acc > (u32::MAX - d) / 10,
                        d <= 9,
                ;
            }
            return None;
        }
        acc = acc * 10 + d;
        i = i + 1;
    }
    assert(digits.take(i - start) =~= digits);
    Some(acc)
}


/// The `(month, day, year)` that the pickup date `date` names, read as the
/// numbers among its `/`-separated parts when there are exactly three.
pub fn parse_pickup_date(date: &str) -> (r: Option<(u32, u32, u32)>)
    ensures
        r == pickup_date(date.spec_bytes()),
{
    let b = date.as_bytes();
    let ghost bs = b@;
    let mut nums: Vec<u32> = Vec::new();
    let ghost mut done: Seq<Seq<u8>> = seq![];
    let mut start: usize = 0;
    let mut i: usize = 0;
    assert(bs.take(0) =~= seq![]);
    assert(split_on(bs.take(0), SLASH) =~= done.push(bs.subrange(0, 0)));
    while i < b.len()
        invariant
            bs == b@,
            start <= i <= bs.len(),
            split_on(bs.take(i as int), SLASH) == done.push(bs.subrange(start as int, i as int)),
            nums@ == numbers_among(done),
        decreases bs.len() - i,
    {
        assert(bs.take(i + 1).drop_last() =~= bs.take(i as int));
        assert(bs.take(i + 1).last() == bs[i as int]);
        if b[i] == SLASH {
            let n = parse_u32_range(b, start, i);
            proof {
                assert(done.push(bs.subrange(start as int, i as int)).drop_last() =~= done);
            }
            match n {
                Some(v) => {
                    nums.push(v);
                },
                None => {},
            }
            proof {
                done = done.push(bs.subrange(start as int, i as int));
                assert(bs.subrange(i + 1, i + 1) =~= seq![]);
            }
            start = i + 1;
        } else {
            proof {
                assert(bs.subrange(start as int, i + 1) =~= bs.subrange(start as int, i as int).push(bs[i as int]));
                assert(done.push(bs.subrange(start as int, i + 1)) =~= done.push(bs.subrange(start as int, i as int)).update(
                    done.len() as int, bs.subrange(start as int, i as int).push(bs[i as int])));
            }
        }
        i = i + 1;
    }
    assert(bs.take(i as int) =~= bs);
    let last = parse_u32_range(b, start, i);
    proof {
        assert(done.push(bs.subrange(start as int, i as int)).drop_last() =~= done);
    }
    match last {
        Some(v) => {
            nums.push(v);
        },
        None => {},
    }
    if nums.len() == 3 {
        Some((nums[0], nums[1], nums[2]))
    } else {
        None
    }
}


// ---------------------------------------------------------------------------
// Grouping the services' pickup dates by day

/// A collection service of the account: what it is ("Garbage", "Recycle",
/// ...) and the service point the utility files its pickups under.
#[derive(Clone, Debug)]
pub struct Service {
    pub description: String,
    pub service_point_id: String,
}

/// The pickup dates that the utility's calendar lists for one service point.
#[derive(Clone, Debug)]
pub struct ServiceCalendar {
    pub service_point_id: String,
    pub dates: Vec<String>,
}

/// One pickup day: its date as the utility writes it, and the services
/// collected that day.
#[derive(Clone, Debug)]
pub struct PickupGroup {
    pub date: String,
    pub names: Vec<String>,
}

/// The text of each string.
pub open spec fn strings_view(v: Seq<String>) -> Seq<Seq<char>> {
    v.map_values(|s: String| s@)
}

/// A service as (description, service point).
pub open spec fn services_view(v: Seq<Service>) -> Seq<(Seq<char>, Seq<char>)> {
    v.map_values(|s: Service| (s.description@, s.service_point_id@))
}

/// A calendar as (service point, dates) entries.
pub open spec fn calendar_view(v: Seq<ServiceCalendar>) -> Seq<(Seq<char>, Seq<Seq<char>>)> {
    v.map_values(|c: ServiceCalendar| (c.service_point_id@, strings_view(c.dates@)))
}

/// Pickup days as (date, services) entries.
pub open spec fn groups_view(v: Seq<PickupGroup>) -> Seq<(Seq<char>, Seq<Seq<char>>)> {
    v.map_values(|g: PickupGroup| (g.date@, strings_view(g.names@)))
}

/// The position of the first entry at or after `i` whose key is `key`, or
/// the number of entries.
pub open spec fn key_index_from<V>(entries: Seq<(Seq<char>, V)>, key: Seq<char>, i: int) -> int
    decreases entries.len() - i,
{
    if i >= entries.len() {
        entries.len() as int
    } else if entries[i].0 == key {
        i
    } else {
        key_index_from(entries, key, i + 1)
    }
}

/// The position of the first entry whose key is `key`, or the number of entries.
pub open spec fn key_index<V>(entries: Seq<(Seq<char>, V)>, key: Seq<char>) -> int {
    key_index_from(entries, key, 0)
}

/// Files service `name` under pickup day `date`, opening the day if it is new.
pub open spec fn add_pickup(
    groups: Seq<(Seq<char>, Seq<Seq<char>>)>,
    date: Seq<char>,
    name: Seq<char>,
) -> Seq<(Seq<char>, Seq<Seq<char>>)> {
    let i = key_index(groups, date);
    if i < groups.len() {
        groups.update(i, (date, groups[i].1.push(name)))
    } else {
        groups.push((date, seq![name]))
    }
}

/// Files service `name` under each of `dates`, in order.
pub open spec fn add_dates(
    groups: Seq<(Seq<char>, Seq<Seq<char>>)>,
    dates: Seq<Seq<char>>,
    name: Seq<char>,
) -> Seq<(Seq<char>, Seq<Seq<char>>)>
    decreases dates.len(),
{
    if dates.len() == 0 {
        groups
    } else {
        add_pickup(add_dates(groups, dates.drop_last(), name), dates.last(), name)
    }
}

/// The pickup days of `services` according to `calendar`: each service, in
/// order, is filed under every date the calendar lists for its service point
/// (looked up by key; a service point the calendar does not list has no
/// pickups).
pub open spec fn group_pickups(
    services: Seq<(Seq<char>, Seq<char>)>,
    calendar: Seq<(Seq<char>, Seq<Seq<char>>)>,
) -> Seq<(Seq<char>, Seq<Seq<char>>)>
    decreases services.len(),
{
    if services.len() == 0 {
        seq![]
    } else {
        let groups = group_pickups(services.drop_last(), calendar);
        let service = services.last();
        let i = key_index(calendar, service.1);
        if i < calendar.len() {
            add_dates(groups, calendar[i].1, service.0)
        } else {
            groups
        }
    }
}

proof fn lemma_key_index_from<V>(entries: Seq<(Seq<char>, V)>, key: Seq<char>, i: int)
    requires
        0 <= i <= entries.len(),
    ensures
        i <= key_index_from(entries, key, i) <= entries.len(),
        key_index_from(entries, key, i) < entries.len() ==> entries[key_index_from(entries, key, i)].0 == key,
        forall|j: int| i <= j < key_index_from(entries, key, i) ==> entries[j].0 != key,
    decreases entries.len() - i,
{
    if i < entries.len() && entries[i].0 != key {
        lemma_key_index_from(entries, key, i + 1);
    }
}

/// The position of the pickup day `date` among `groups`, or their number.
fn find_group(groups: &Vec<PickupGroup>, date: &String) -> (r: usize)
    ensures
        r == key_index(groups_view(groups@), date@),
{
    let ghost gv = groups_view(groups@);
    let mut i: usize = 0;
    while i < groups.len()
        invariant
            gv == groups_view(groups@),
            i <= groups@.len(),
            key_index_from(gv, date@, i as int) == key_index(gv, date@),
        decreases groups@.len() - i,
    {
        if groups[i].date == *date {
            return i;
        }
        i = i + 1;
    }
    i
}

/// The position of the entry for `service_point` in `calendar`, or its length.
fn find_service_point(calendar: &Vec<ServiceCalendar>, service_point: &String) -> (r: usize)
    ensures
        r == key_index(calendar_view(calendar@), service_point@),
{
    let ghost cv = calendar_view(calendar@);
    let mut i: usize = 0;
    while i < calendar.len()
        invariant
            cv == calendar_view(calendar@),
            i <= calendar@.len(),
            key_index_from(cv, service_point@, i as int) == key_index(cv, service_point@),
        decreases calendar@.len() - i,
    {
        if calendar[i].service_point_id == *service_point {
            return i;
        }
        i = i + 1;
    }
    i
}

/// Files `name` under `date`.
fn add_pickup_exec(groups: &mut Vec<PickupGroup>, date: &String, name: &String)
    ensures
        groups_view(final(groups)@) == add_pickup(groups_view(old(groups)@), date@, name@),
{
    let i = find_group(groups, date);
    proof {
        lemma_key_index_from(groups_view(groups@), date@, 0);
    }
    if i < groups.len() {
        let ghost before = groups@;
        groups[i].names.push(name.clone());
        assert(strings_view(groups@[i as int].names@) =~= strings_view(before[i as int].names@).push(name@));
        assert(groups_view(groups@) =~= groups_view(before).update(
            i as int,
            (date@, strings_view(before[i as int].names@).push(name@)),
        ));
    } else {
        let mut names: Vec<String> = Vec::new();
        names.push(name.clone());
        let ghost before = groups@;
        groups.push(PickupGroup { date: date.clone(), names });
        assert(strings_view(groups@[i as int].names@) =~= seq![name@]);
        assert(groups_view(groups@) =~= groups_view(before).push((date@, seq![name@])));
    }
}

/// Groups the pickups of `services` by day, as `group_pickups` describes.
pub fn group_by_day(services: &Vec<Service>, calendar: &Vec<ServiceCalendar>) -> (r: Vec<PickupGroup>)
    ensures
        groups_view(r@) == group_pickups(services_view(services@), calendar_view(calendar@)),
{
    let ghost sv = services_view(services@);
    let ghost cv = calendar_view(calendar@);
    let mut groups: Vec<PickupGroup> = Vec::new();
    let mut s: usize = 0;
    assert(sv.take(0) =~= seq![]);
    assert(groups_view(groups@) =~= seq![]);
    while s < services.len()
        invariant
            sv == services_view(services@),
            cv == calendar_view(calendar@),
            s <= services@.len(),
            groups_view(groups@) == group_pickups(sv.take(s as int), cv),
        decreases services@.len() - s,
    {
        assert(sv.take(s + 1).drop_last() =~= sv.take(s as int));
        let service = &services[s];
        let c = find_service_point(calendar, &service.service_point_id);
        if c < calendar.len() {
            let dates = &calendar[c].dates;
            let ghost dv = strings_view(dates@);
            let ghost start = groups_view(groups@);
            let mut d: usize = 0;
            assert(dv.take(0) =~= seq![]);
            while d < dates.len()
                invariant
                    dv == strings_view(dates@),
                    d <= dates@.len(),
                    groups_view(groups@) == add_dates(start, dv.take(d as int), service.description@),
                decreases dates@.len() - d,
            {
                assert(dv.take(d + 1).drop_last() =~= dv.take(d as int));
                add_pickup_exec(&mut groups, &dates[d], &service.description);
                d = d + 1;
            }
            assert(dv.take(d as int) =~= dv);
        }
        s = s + 1;
    }
    assert(sv.take(s as int) =~= sv);
    groups
}


// ---------------------------------------------------------------------------
// Calendar dates and the pickup events

/// Whether `y` is a leap year of the proleptic Gregorian calendar.
pub open spec fn is_leap_year(y: int) -> bool {
    (y % 4 == 0 && y % 100 != 0) || y % 400 == 0
}

/// The number of days of month `m` (1 to 12) in year `y`.
pub open spec fn days_in_month(y: int, m: int) -> int {
    if m == 2 {
        if is_leap_year(y) {
            29
        } else {
            28
        }
    } else if m == 4 || m == 6 || m == 9 || m == 11 {
        30
    } else {
        31
    }
}

/// Whether `year-month-day` is a day that `chrono::NaiveDate` can hold: a
/// real date of the proleptic Gregorian calendar in years -262143 to 262142.
pub open spec fn is_calendar_date(year: i32, month: u32, day: u32) -> bool {
    &&& -262143 <= year <= 262142
    &&& 1 <= month <= 12
    &&& 1 <= day <= days_in_month(year as int, month as int)
}

/// Calls `chrono::NaiveDate::from_ymd_opt` and tells whether it gave a date.
/// Claimed, as chrono documents it (the year bounds are `NaiveDate::MIN` and
/// `NaiveDate::MAX` in its source): a date comes back exactly for the real
/// calendar days of years -262143 to 262142.
#[verifier::external_body]
fn calendar_date_exists(year: i32, month: u32, day: u32) -> (r: bool)
    ensures
        r == is_calendar_date(year, month, day),
{
    chrono::NaiveDate::from_ymd_opt(year, month, day).is_some()
}

/// `names` joined by `", "`.
pub open spec fn join_names(names: Seq<Seq<char>>) -> Seq<char>
    decreases names.len(),
{
    if names.len() == 0 {
        seq![]
    } else if names.len() == 1 {
        names[0]
    } else {
        join_names(names.drop_last()) + seq![',', ' '] + names.last()
    }
}

/// Joins `names` with `", "` between them.
pub fn join_with_commas(names: &Vec<String>) -> (r: String)
    ensures
        r@ == join_names(strings_view(names@)),
{
    let ghost nv = strings_view(names@);
    let mut r = String::new();
    let sep = ", ";
    proof {
        reveal_strlit(", ");
    }
    assert(nv.take(0) =~= seq![]);
    let mut i: usize = 0;
    while i < names.len()
        invariant
            nv == strings_view(names@),
            i <= names@.len(),
            sep@ == seq![',', ' '],
            r@ == join_names(nv.take(i as int)),
        decreases names@.len() - i,
    {
        assert(nv.take(i + 1).drop_last() =~= nv.take(i as int));
        if i > 0 {
            r.append(sep);
        } else {
            assert(r@ == Seq::<char>::empty());
        }
        r.append(names[i].as_str());
        proof {
            if i == 0 {
                assert(r@ =~= nv.take(1)[0]);
            }
        }
        i = i + 1;
    }
    assert(nv.take(i as int) =~= nv);
    r
}

/// A pickup day as an all-day calendar event: its date and the services
/// collected on it.
#[derive(Clone, Debug)]
pub struct PickupEvent {
    pub year: i32,
    pub month: u32,
    pub day: u32,
    pub summary: String,
}

/// A pickup event as (year, month, day, summary).
pub open spec fn events_view(v: Seq<PickupEvent>) -> Seq<(i32, u32, u32, Seq<char>)> {
    v.map_values(|e: PickupEvent| (e.year, e.month, e.day, e.summary@))
}

/// The calendar events of pickup days: one per day whose date reads as
/// month/day/year and names a real calendar day (the year taken as an `i32`,
/// as the `u32` it was read as converts), summarised by the joined service
/// names. Days whose date does not read so are left out.
pub open spec fn plan_events(groups: Seq<(Seq<char>, Seq<Seq<char>>)>) -> Seq<(i32, u32, u32, Seq<char>)>
    decreases groups.len(),
{
    if groups.len() == 0 {
        seq![]
    } else {
        let rest = plan_events(groups.drop_last());
        let g = groups.last();
        match pickup_date(vstd::utf8::encode_utf8(g.0)) {
            Some((month, day, year)) => if is_calendar_date(year as i32, month, day) {
                rest.push((year as i32, month, day, join_names(g.1)))
            } else {
                rest
            },
            None => rest,
        }
    }
}

/// Every planned event falls on a real calendar day.
pub proof fn lemma_plan_events_are_dates(groups: Seq<(Seq<char>, Seq<Seq<char>>)>)
    ensures
        forall|k: int|
            0 <= k < plan_events(groups).len() ==> #[trigger] is_calendar_date(
                plan_events(groups)[k].0,
                plan_events(groups)[k].1,
                plan_events(groups)[k].2,
            ),
    decreases groups.len(),
{
    if groups.len() > 0 {
        let rest = plan_events(groups.drop_last());
        lemma_plan_events_are_dates(groups.drop_last());
        let all = plan_events(groups);
        assert forall|k: int| 0 <= k < all.len() implies #[trigger] is_calendar_date(
            all[k].0,
            all[k].1,
            all[k].2,
        ) by {
            if k < rest.len() {
                assert(all[k] == rest[k]);
                assert(is_calendar_date(rest[k].0, rest[k].1, rest[k].2));
            }
        }
    }
}

/// The calendar events for the pickup days `groups`, as `plan_events` describes.
pub fn plan_pickups(groups: &Vec<PickupGroup>) -> (r: Vec<PickupEvent>)
    ensures
        events_view(r@) == plan_events(groups_view(groups@)),
{
    let ghost gv = groups_view(groups@);
    let mut r: Vec<PickupEvent> = Vec::new();
    let mut i: usize = 0;
    assert(gv.take(0) =~= seq![]);
    assert(events_view(r@) =~= seq![]);
    while i < groups.len()
        invariant
            gv == groups_view(groups@),
            i <= groups@.len(),
            events_view(r@) == plan_events(gv.take(i as int)),
        decreases groups@.len() - i,
    {
        assert(gv.take(i + 1).drop_last() =~= gv.take(i as int));
        let g = &groups[i];
        let parsed = parse_pickup_date(g.date.as_str());
        match parsed {
            Some((month, day, year)) => {
                let year = year as i32;
                if calendar_date_exists(year, month, day) {
                    let summary = join_with_commas(&g.names);
                    let ghost before = r@;
                    r.push(PickupEvent { year, month, day, summary });
                    assert(events_view(r@) =~= events_view(before).push((year, month, day, summary@)));
                }
            },
            None => {},
        }
        i = i + 1;
    }
    assert(gv.take(i as int) =~= gv);
    r
}


// ---------------------------------------------------------------------------
// The iCalendar document

#[verifier::external_type_specification]
#[verifier::external_body]
pub struct ExCalendar(icalendar::Calendar);

#[verifier::external_type_specification]
#[verifier::external_body]
pub struct ExCalendarComponent(icalendar::CalendarComponent);

/// The events of a calendar, in the order they were pushed, each as (year,
/// month, day, summary, reminder text, reminder offset in hours).
pub uninterp spec fn calendar_events(cal: icalendar::Calendar) -> Seq<(i32, u32, u32, Seq<char>, Seq<char>, i64)>;

/// Whether the calendar is one that `new_calendar` and `push_all_day_event`
/// built: its top-level properties are those that `Calendar::new` puts there
/// (`VERSION:2.0`, `PRODID:ICALENDAR-RS` and `CALSCALE:GREGORIAN`, in that
/// order) and each of its components is an all-day event with one display
/// alarm, so that `calendar_events` lists them all.
pub uninterp spec fn calendar_holds_all_day_events(cal: icalendar::Calendar) -> bool;

/// Carriage return and line feed, which end every line of iCalendar text.
pub open spec fn crlf() -> Seq<char> {
    seq!['\r', '\n']
}

/// The lines that open the text of a calendar whose properties are those of
/// `Calendar::new`.
pub open spec fn ics_opening() -> Seq<char> {
    "BEGIN:VCALENDAR\r\nVERSION:2.0\r\nPRODID:ICALENDAR-RS\r\nCALSCALE:GREGORIAN\r\n"@
}

/// The line that closes the text of every calendar.
pub open spec fn ics_closing() -> Seq<char> {
    "END:VCALENDAR\r\n"@
}

/// The number of bytes that `text` takes in UTF-8.
pub open spec fn utf8_len(text: Seq<char>) -> nat
    decreases text.len(),
{
    if text.len() == 0 {
        0
    } else {
        let c = text.last() as u32;
        utf8_len(text.drop_last()) + if c < 0x80 {
            1nat
        } else if c < 0x800 {
            2nat
        } else if c < 0x10000 {
            3nat
        } else {
            4nat
        }
    }
}

/// iCalendar TEXT escaping: a backslash, comma, semicolon or line feed is
/// written as a backslash followed by `\`, `,`, `;` or `n`.
pub open spec fn ics_escape(text: Seq<char>) -> Seq<char>
    decreases text.len(),
{
    if text.len() == 0 {
        seq![]
    } else {
        let c = text.last();
        ics_escape(text.drop_last()) + if c == '\\' {
            seq!['\\', '\\']
        } else if c == ',' {
            seq!['\\', ',']
        } else if c == ';' {
            seq!['\\', ';']
        } else if c == '\n' {
            seq!['\\', 'n']
        } else {
            seq![c]
        }
    }
}

/// What icalendar's `fold_line` makes of the content line `line` (without
/// its line break): the line broken into pieces of at most 75 bytes, joined
/// by a line break and a space. It depends on the line alone.
pub uninterp spec fn ics_fold_line(line: Seq<char>) -> Seq<char>;

/// Pieces of a line joined by a line break and a space.
pub open spec fn ics_joined(pieces: Seq<Seq<char>>) -> Seq<char>
    decreases pieces.len(),
{
    if pieces.len() <= 1 {
        pieces.flatten()
    } else {
        pieces[0] + crlf() + seq![' '] + ics_joined(pieces.drop_first())
    }
}

/// Whether `folded` is a way in which `fold_line` may write `line`: pieces
/// joined by a line break and a space that, put together, give the line
/// back; a line of at most 75 bytes stays whole.
pub open spec fn ics_folding_of(line: Seq<char>, folded: Seq<char>) -> bool {
    &&& exists|pieces: Seq<Seq<char>>|
        #![trigger ics_joined(pieces)]
        pieces.len() >= 1 && pieces.flatten() == line && folded == ics_joined(pieces)
    &&& utf8_len(line) <= 75 ==> folded == line
}

/// The decimal digits of `n`, padded with leading zeros to `width` digits.
pub open spec fn zero_padded(n: nat, width: nat) -> Seq<char> {
    let digits = crate::message::decimal_text(n);
    if digits.len() < width {
        Seq::new((width - digits.len()) as nat, |i: int| '0') + digits
    } else {
        digits
    }
}

/// A date as the value of an iCalendar DATE: the year in four digits (with a
/// sign, and more digits where needed, outside the years 0 to 9999), then
/// the month and the day in two digits each.
pub open spec fn ics_date(year: int, month: nat, day: nat) -> Seq<char> {
    let y = if 0 <= year <= 9999 {
        zero_padded(year as nat, 4)
    } else if year < 0 {
        seq!['-'] + zero_padded((-year) as nat, 4)
    } else {
        seq!['+'] + zero_padded(year as nat, 4)
    };
    y + zero_padded(month, 2) + zero_padded(day, 2)
}

/// An offset of `hours` hours as an iCalendar DURATION, in seconds.
pub open spec fn ics_duration_hours(hours: int) -> Seq<char> {
    if hours == 0 {
        seq!['P', '0', 'D']
    } else if hours < 0 {
        seq!['-', 'P', 'T'] + crate::message::decimal_text((-hours * 3600) as nat) + seq!['S']
    } else {
        seq!['P', 'T'] + crate::message::decimal_text((hours * 3600) as nat) + seq!['S']
    }
}

/// What varies in the text of one event from one rendering to the next: the
/// event's time stamp and UID, and the alarm's time stamp and UID.
pub type IcsEventVariation = (Seq<char>, Seq<char>, Seq<char>, Seq<char>);

/// The SUMMARY content line of an event.
pub open spec fn ics_summary_line(e: (i32, u32, u32, Seq<char>, Seq<char>, i64)) -> Seq<char> {
    "SUMMARY:"@ + ics_escape(e.3)
}

/// The DESCRIPTION content line of an event's alarm.
pub open spec fn ics_description_line(e: (i32, u32, u32, Seq<char>, Seq<char>, i64)) -> Seq<char> {
    "DESCRIPTION:"@ + ics_escape(e.4)
}

/// An event of `calendar_events` as the text of a VEVENT with its VALARM:
/// the time stamp, the all-day start date, the summary, the UID, then the
/// alarm with its time stamp, action, description, trigger and UID; `fold`
/// writes the summary and description lines.
pub open spec fn ics_event(
    e: (i32, u32, u32, Seq<char>, Seq<char>, i64),
    v: IcsEventVariation,
    fold: spec_fn(Seq<char>) -> Seq<char>,
) -> Seq<char> {
    "BEGIN:VEVENT\r\nDTSTAMP:"@ + v.0 + crlf()
        + "DTSTART;VALUE=DATE:"@ + ics_date(e.0 as int, e.1 as nat, e.2 as nat) + crlf()
        + fold(ics_summary_line(e)) + crlf()
        + "UID:"@ + v.1 + crlf()
        + "BEGIN:VALARM\r\nDTSTAMP:"@ + v.2 + crlf()
        + "ACTION:DISPLAY\r\n"@
        + fold(ics_description_line(e)) + crlf()
        + "TRIGGER:"@ + ics_duration_hours(e.5 as int) + crlf()
        + "UID:"@ + v.3 + crlf()
        + "END:VALARM\r\nEND:VEVENT\r\n"@
}

/// The events, in order, each rendered with its own variation.
pub open spec fn ics_events(
    events: Seq<(i32, u32, u32, Seq<char>, Seq<char>, i64)>,
    vs: Seq<IcsEventVariation>,
    fold: spec_fn(Seq<char>) -> Seq<char>,
) -> Seq<char>
    decreases events.len(),
{
    if events.len() == 0 || vs.len() < events.len() {
        seq![]
    } else {
        ics_events(events.drop_last(), vs.take(events.len() - 1), fold) + ics_event(
            events.last(),
            vs[events.len() - 1],
            fold,
        )
    }
}

/// Whether `text` is an iCalendar document holding `events`: the calendar's
/// header, one VEVENT block per event in order, and the closing line, for
/// some time stamps and UIDs, where `fold` writes the SUMMARY and
/// DESCRIPTION lines as `fold_line` may (see `ics_folding_of`).
pub open spec fn ics_document(
    text: Seq<char>,
    events: Seq<(i32, u32, u32, Seq<char>, Seq<char>, i64)>,
    fold: spec_fn(Seq<char>) -> Seq<char>,
) -> bool {
    &&& exists|vs: Seq<IcsEventVariation>|
        #![trigger ics_events(events, vs, fold)]
        vs.len() == events.len() && text == ics_opening() + ics_events(events, vs, fold) + ics_closing()
    &&& forall|i: int|
        0 <= i < events.len() ==> ics_folding_of(
            #[trigger] ics_summary_line(events[i]),
            fold(ics_summary_line(events[i])),
        ) && ics_folding_of(ics_description_line(events[i]), fold(ics_description_line(events[i])))
}

/// Calls `icalendar::Calendar::new`. Claimed, as its source shows: the new
/// calendar holds no components, and its properties are the three that
/// `Calendar::default` fills in (VERSION, PRODID and CALSCALE).
#[verifier::external_body]
fn new_calendar() -> (cal: icalendar::Calendar)
    ensures
        calendar_events(cal) == Seq::<(i32, u32, u32, Seq<char>, Seq<char>, i64)>::empty(),
        calendar_holds_all_day_events(cal),
{
    icalendar::Calendar::new()
}

/// Calls `icalendar::Calendar::push` with an all-day event on
/// `year-month-day` (the date made by `chrono::NaiveDate::from_ymd_opt`),
/// summarised by `summary`, that carries a display alarm `reminder` firing
/// `reminder_hours` hours (through `chrono::TimeDelta::hours`) from the
/// event's start. Claimed, as `push` appends to the calendar's components:
/// the calendar's events are the old ones followed by this one, and its
/// properties are left as they were, so a calendar that held only such
/// events still does.
#[verifier::external_body]
fn push_all_day_event(
    cal: &mut icalendar::Calendar,
    year: i32,
    month: u32,
    day: u32,
    summary: &str,
    reminder: &str,
    reminder_hours: i64,
)
    requires
        is_calendar_date(year, month, day),
        -2_562_047_788_015 <= reminder_hours <= 2_562_047_788_015,
    ensures
        calendar_events(*final(cal)) == calendar_events(*old(cal)).push(
            (year, month, day, summary@, reminder@, reminder_hours),
        ),
        calendar_holds_all_day_events(*final(cal)) == calendar_holds_all_day_events(*old(cal)),
{
    let date = chrono::NaiveDate::from_ymd_opt(year, month, day).unwrap();
    let mut event = icalendar::Event::new();
    event.summary(summary);
    event.starts(date);
    event.alarm(icalendar::Alarm::display(reminder, chrono::TimeDelta::hours(reminder_hours)));
    cal.push(event);
}

/// Calls `to_string` (its `Display`) on the calendar. Claimed, as
/// `Calendar::fmt_write`, `Component::fmt_write` and `Property::to_line`
/// show: the text opens with `BEGIN:VCALENDAR` and closes with
/// `END:VCALENDAR`. For a calendar built by `new_calendar` and
/// `push_all_day_event` it is `ics_document` of its events:
/// - the three header properties, each on one line;
/// - per event, `BEGIN:VEVENT`, a `DTSTAMP` line, the `DTSTART;VALUE=DATE`
///   line (chrono's `%Y%m%d`), the escaped `SUMMARY` line, a `UID` line,
///   the `VALARM` (its own `DTSTAMP`, `ACTION:DISPLAY`, the escaped
///   `DESCRIPTION`, the `TRIGGER` as chrono prints the `TimeDelta`, its own
///   `UID`), and `END:VEVENT`;
/// - properties in key order, every line ended by CRLF.
///
/// The SUMMARY and DESCRIPTION lines are written as `fold_line` folds them,
/// named `ics_fold_line`: its pieces give the line back, and lines of at
/// most 75 bytes stay whole. The time stamps (`Utc::now` at rendering) and
/// UIDs (random `Uuid::new_v4`) are left open, so the text differs from one
/// call to the next.
#[verifier::external_body]
fn calendar_text(cal: &icalendar::Calendar) -> (text: String)
    ensures
        "BEGIN:VCALENDAR\r\n"@.is_prefix_of(text@),
        ics_closing().is_suffix_of(text@),
        calendar_holds_all_day_events(*cal) ==> ics_document(
            text@,
            calendar_events(*cal),
            |line: Seq<char>| ics_fold_line(line),
        ),
{
    cal.to_string()
}

/// The text of the reminder that every pickup event carries.
pub const REMINDER: &'static str = "Take out the bins";

/// The reminder fires this many hours before the pickup day begins.
pub const REMINDER_HOURS: i64 = -6;

/// The calendar events, with their reminders, for `services` according to
/// the utility's `calendar`.
pub open spec fn pickup_calendar_events(
    services: Seq<(Seq<char>, Seq<char>)>,
    calendar: Seq<(Seq<char>, Seq<Seq<char>>)>,
) -> Seq<(i32, u32, u32, Seq<char>, Seq<char>, i64)> {
    plan_events(group_pickups(services, calendar)).map_values(
        |e: (i32, u32, u32, Seq<char>)| (e.0, e.1, e.2, e.3, REMINDER@, REMINDER_HOURS),
    )
}

/// The pickup calendar of `services`: one all-day event per pickup day,
/// with a reminder to take out the bins the evening before.
pub fn pickup_calendar(services: &Vec<Service>, calendar: &Vec<ServiceCalendar>) -> (cal: icalendar::Calendar)
    ensures
        calendar_events(cal) == pickup_calendar_events(services_view(services@), calendar_view(calendar@)),
        calendar_holds_all_day_events(cal),
{
    let groups = group_by_day(services, calendar);
    let events = plan_pickups(&groups);
    let ghost ev = events_view(events@);
    proof {
        lemma_plan_events_are_dates(groups_view(groups@));
    }
    let mut cal = new_calendar();
    let mut i: usize = 0;
    while i < events.len()
        invariant
            ev == events_view(events@),
            i <= events@.len(),
            calendar_holds_all_day_events(cal),
            calendar_events(cal) =~= ev.take(i as int).map_values(
                |e: (i32, u32, u32, Seq<char>)| (e.0, e.1, e.2, e.3, REMINDER@, REMINDER_HOURS),
            ),
            forall|k: int| 0 <= k < ev.len() ==> #[trigger] is_calendar_date(ev[k].0, ev[k].1, ev[k].2),
        decreases events@.len() - i,
    {
        let e = &events[i];
        assert(is_calendar_date(ev[i as int].0, ev[i as int].1, ev[i as int].2));
        push_all_day_event(&mut cal, e.year, e.month, e.day, e.summary.as_str(), REMINDER, REMINDER_HOURS);
        assert(ev.take(i + 1) =~= ev.take(i as int).push(ev[i as int]));
        i = i + 1;
    }
    assert(ev.take(i as int) =~= ev);
    cal
}

/// The pickup calendar of `services` as an iCalendar document: the header,
/// one all-day event per pickup day with its date, the services' names and
/// the reminder to take out the bins six hours before, and the closing line.
/// Time stamps and UIDs vary from call to call.
pub fn generate_ics(services: &Vec<Service>, calendar: &Vec<ServiceCalendar>) -> (text: String)
    ensures
        ics_document(
            text@,
            pickup_calendar_events(services_view(services@), calendar_view(calendar@)),
            |line: Seq<char>| ics_fold_line(line),
        ),
{
    let cal = pickup_calendar(services, calendar);
    calendar_text(&cal)
}


// ---------------------------------------------------------------------------
// The cache in front of the utility

/// An upper bound on the clock's reading in microseconds since the Unix
/// epoch: chrono's latest `DateTime<Utc>`, the end of the year 262142, lies
/// about 8.21e18 microseconds after the epoch.
pub const CLOCK_MICROS_MAX: i64 = 8_300_000_000_000_000_000;

/// Calls `chrono::Utc::now` and returns its `timestamp_micros`: microseconds
/// since the Unix epoch. Claimed, as chrono's source shows: `Utc::now`
/// measures the system time from the Unix epoch (it panics on a system
/// clock set before the epoch, which no argument can rule out) and builds
/// the `DateTime` with `DateTime::from_timestamp(..).unwrap()`, which only
/// yields instants up to `DateTime::<Utc>::MAX_UTC`; so the reading is not
/// negative and stays below `CLOCK_MICROS_MAX`. Not stated: which reading it
/// is.
#[verifier::external_body]
fn utc_now_micros() -> (now: i64)
    ensures
        0 <= now <= CLOCK_MICROS_MAX,
{
    chrono::Utc::now().timestamp_micros()
}

/// Two hours, in microseconds: how long a fetched calendar is served.
pub const CALENDAR_TIMEOUT_MICROS: i64 = 7_200_000_000;

/// A value that is fetched from `provider` again once `timeout`
/// microseconds have passed since it was last fetched. Instants are
/// microseconds since the Unix epoch.
#[verifier::reject_recursive_types(T)]
pub struct Cache<T, P: Fn() -> T> {
    value: Option<T>,
    expiration: i64,
    provider: P,
    timeout: i64,
}

impl<T, P: Fn() -> T> Cache<T, P> {
    pub closed spec fn spec_value(&self) -> Option<T> {
        self.value
    }

    pub closed spec fn spec_expiration(&self) -> i64 {
        self.expiration
    }

    pub closed spec fn spec_provider(&self) -> P {
        self.provider
    }

    pub closed spec fn spec_timeout(&self) -> i64 {
        self.timeout
    }

    /// Whether a read at `now` fetches a fresh value: when nothing is cached,
    /// or when `now` has reached the expiration instant.
    pub open spec fn refreshes_at(&self, now: i64) -> bool {
        self.spec_value() is None || now >= self.spec_expiration()
    }

    /// An empty cache whose values stay fresh for `timeout` microseconds. Its
    /// expiration instant is the Unix epoch.
    pub fn new(timeout: i64, provider: P) -> (c: Cache<T, P>)
        ensures
            c.spec_value() is None,
            c.spec_expiration() == 0,
            c.spec_provider() == provider,
            c.spec_timeout() == timeout,
    {
        Cache { value: None, expiration: 0, provider, timeout }
    }

    /// What a read at instant `now` that answers `v` does, taking the cache
    /// from `before` to `after`: a value still fresh is answered and kept as
    /// it is; otherwise the provider's new value is answered, cached, and
    /// fresh until `now + timeout`.
    pub open spec fn read_step(before: Self, after: Self, v: T, now: i64) -> bool {
        &&& after.spec_provider() == before.spec_provider()
        &&& after.spec_timeout() == before.spec_timeout()
        &&& after.spec_value() == Some(v)
        &&& before.refreshes_at(now) ==> {
            &&& after.spec_expiration() == now + before.spec_timeout()
            &&& before.spec_provider().ensures((), v)
        }
        &&& !before.refreshes_at(now) ==> {
            &&& after.spec_expiration() == before.spec_expiration()
            &&& Some(v) == before.spec_value()
        }
    }

    /// The value at instant `now`: the cached one if it is still fresh,
    /// otherwise a new one from the provider, fresh until `now + timeout`.
    pub fn get_at(&mut self, now: i64) -> (r: &T)
        requires
            i64::MIN <= now + old(self).spec_timeout() <= i64::MAX,
            old(self).spec_provider().requires(()),
        ensures
            Self::read_step(*old(self), *final(self), *r, now),
    {
        if now >= self.expiration {
            self.value = None;
        }
        if self.value.is_none() {
            self.expiration = now + self.timeout;
            let fresh = (self.provider)();
            self.value = Some(fresh);
        }
        match &self.value {
            Some(v) => v,
            None => vstd::pervasive::unreached(),
        }
    }

    /// What a read at instant `now` does, taking the cache from `before` to
    /// `after` and answering `r`: when `now + timeout` is an instant that can
    /// be held, the value `get_at(now)` gives, with the cache updated as
    /// `get_at` updates it; otherwise `None`, with the cache unchanged.
    pub open spec fn read_at(before: Self, after: Self, r: Option<&T>, now: i64) -> bool {
        &&& after.spec_provider() == before.spec_provider()
        &&& after.spec_timeout() == before.spec_timeout()
        &&& if i64::MIN <= now + before.spec_timeout() <= i64::MAX {
            &&& r is Some
            &&& Self::read_step(before, after, *r->Some_0, now)
        } else {
            &&& r is None
            &&& after.spec_value() == before.spec_value()
            &&& after.spec_expiration() == before.spec_expiration()
        }
    }

    /// Whether `now` is a reading the clock can give.
    pub open spec fn clock_reading(now: i64) -> bool {
        0 <= now <= CLOCK_MICROS_MAX
    }

    /// The value now, as `get_at` gives it at the clock's current reading;
    /// `None`, with the cache unchanged, when the reading plus the timeout
    /// falls outside the instants that can be held. That cannot happen with
    /// a timeout of at most `i64::MAX - CLOCK_MICROS_MAX` microseconds (some
    /// 29,000 years), so then a value is always returned.
    pub fn get(&mut self) -> (r: Option<&T>)
        requires
            old(self).spec_provider().requires(()),
        ensures
            exists|now: i64| #[trigger] Self::clock_reading(now) && Self::read_at(*old(self), *final(self), r, now),
            old(self).spec_timeout() <= i64::MAX - CLOCK_MICROS_MAX ==> r is Some,
    {
        let now = utc_now_micros();
        proof {
            assert(Self::clock_reading(now));
        }
        let fits = if self.timeout >= 0 {
            now <= i64::MAX - self.timeout
        } else {
            now >= i64::MIN - self.timeout
        };
        if fits {
            Some(self.get_at(now))
        } else {
            None
        }
    }
}

/// Reading a new cache twice, at `t1` and then at `t2` before `t1 + timeout`,
/// asks the provider once (at the first read) and answers the same value
/// both times; a third read at `t3` from `t1 + timeout` on asks it again.
pub proof fn lemma_cache_reads_within_timeout<T, P: Fn() -> T>(
    c0: Cache<T, P>,
    c1: Cache<T, P>,
    c2: Cache<T, P>,
    v1: T,
    v2: T,
    t1: i64,
    t2: i64,
    t3: i64,
)
    requires
        c0.spec_value() is None,
        Cache::read_step(c0, c1, v1, t1),
        Cache::read_step(c1, c2, v2, t2),
        t1 <= t2 < t1 + c0.spec_timeout(),
        t3 >= t1 + c0.spec_timeout(),
    ensures
        c0.refreshes_at(t1),
        c0.spec_provider().ensures((), v1),
        !c1.refreshes_at(t2),
        v2 == v1,
        c2.refreshes_at(t3),
{
}

/// The same law for `get`, which reads the clock: two reads of a new cache
/// at clock readings `t1` and then `t2` before `t1 + timeout` both answer,
/// ask the provider once (at the first read) and answer the same value; a
/// third read at `t3` from `t1 + timeout` on asks it again.
pub proof fn lemma_cache_gets_within_timeout<T, P: Fn() -> T>(
    c0: Cache<T, P>,
    c1: Cache<T, P>,
    c2: Cache<T, P>,
    r1: Option<&T>,
    r2: Option<&T>,
    t1: i64,
    t2: i64,
    t3: i64,
)
    requires
        c0.spec_value() is None,
        c0.spec_timeout() <= i64::MAX - CLOCK_MICROS_MAX,
        Cache::<T, P>::clock_reading(t1),
        Cache::<T, P>::clock_reading(t2),
        Cache::read_at(c0, c1, r1, t1),
        Cache::read_at(c1, c2, r2, t2),
        t1 <= t2 < t1 + c0.spec_timeout(),
        t3 >= t1 + c0.spec_timeout(),
    ensures
        r1 is Some,
        r2 is Some,
        c0.refreshes_at(t1),
        c0.spec_provider().ensures((), *r1->Some_0),
        !c1.refreshes_at(t2),
        *r2->Some_0 == *r1->Some_0,
        c2.refreshes_at(t3),
{
    lemma_cache_reads_within_timeout(c0, c1, c2, *r1->Some_0, *r2->Some_0, t1, t2, t3);
}

/// Whether no two entries share a key.
pub open spec fn keys_distinct<V>(entries: Seq<(Seq<char>, V)>) -> bool {
    forall|i: int, j: int| 0 <= i < j < entries.len() ==> entries[i].0 != entries[j].0
}

proof fn lemma_add_pickup_keeps_distinct(
    groups: Seq<(Seq<char>, Seq<Seq<char>>)>,
    date: Seq<char>,
    name: Seq<char>,
)
    requires
        keys_distinct(groups),
    ensures
        keys_distinct(add_pickup(groups, date, name)),
        add_pickup(groups, date, name).len() >= groups.len(),
{
    lemma_key_index_from(groups, date, 0);
    let r = add_pickup(groups, date, name);
    assert forall|i: int, j: int| 0 <= i < j < r.len() implies r[i].0 != r[j].0 by {
        if j == groups.len() {
            assert(r[i].0 == groups[i].0);
        } else {
            assert(r[i].0 == groups[i].0 && r[j].0 == groups[j].0);
        }
    }
}

proof fn lemma_add_dates_keeps_distinct(
    groups: Seq<(Seq<char>, Seq<Seq<char>>)>,
    dates: Seq<Seq<char>>,
    name: Seq<char>,
)
    requires
        keys_distinct(groups),
    ensures
        keys_distinct(add_dates(groups, dates, name)),
    decreases dates.len(),
{
    if dates.len() > 0 {
        lemma_add_dates_keeps_distinct(groups, dates.drop_last(), name);
        lemma_add_pickup_keeps_distinct(add_dates(groups, dates.drop_last(), name), dates.last(), name);
    }
}

/// Each pickup day appears once: the services collected on one date are all
/// gathered under a single day, whatever order the services and their dates
/// come in.
pub proof fn lemma_pickup_days_distinct(
    services: Seq<(Seq<char>, Seq<char>)>,
    calendar: Seq<(Seq<char>, Seq<Seq<char>>)>,
)
    ensures
        keys_distinct(group_pickups(services, calendar)),
    decreases services.len(),
{
    if services.len() > 0 {
        lemma_pickup_days_distinct(services.drop_last(), calendar);
        let i = key_index(calendar, services.last().1);
        if i < calendar.len() {
            lemma_add_dates_keeps_distinct(
                group_pickups(services.drop_last(), calendar),
                calendar[i].1,
                services.last().0,
            );
        }
    }
}

/// Filing a service under a date puts it on that day: afterwards the day
/// exists and its last service is the one filed.
pub proof fn lemma_add_pickup_files_service(
    groups: Seq<(Seq<char>, Seq<Seq<char>>)>,
    date: Seq<char>,
    name: Seq<char>,
)
    ensures
        ({
            let r = add_pickup(groups, date, name);
            let i = key_index(r, date);
            &&& i < r.len()
            &&& r[i].1.len() > 0
            &&& r[i].1.last() == name
        }),
{
    lemma_key_index_from(groups, date, 0);
    let r = add_pickup(groups, date, name);
    let k = key_index(groups, date);
    lemma_key_index_from(r, date, 0);
    let i = key_index(r, date);
    if k < groups.len() {
        assert(r[k].0 == date);
        assert(i <= k);
        if i < k {
            assert(r[i] == groups[i]);
        }
    } else {
        assert(r[groups.len() as int].0 == date);
        assert(i <= groups.len());
        if i < groups.len() {
            assert(r[i] == groups[i]);
        }
    }
}

} // verus!
