use chrono::{Datelike, NaiveDateTime};
use rand::Rng;
use std::rc::Rc;
use vstd::prelude::*;

use crate::columns::{
    columns_values, group_count_defined, group_count_output, BooleanNotNullColumn, Column, Table,
};

verus! {

/// Number of trip records of the benchmark.
pub const ELEMENTS: usize = 1000 * 1000 * 1000;

/// Passenger counts are below this.
pub const MAX_PASSENGERS: usize = 10;

/// Pickups fall in the years from 1970 up to, not including, this one.
pub const END_YEAR: i32 = 2018;

/// Number of years the pickups span.
pub const YEARS: usize = 48;

/// Trip distances are counted in this many whole-mile buckets.
pub const DISTANCE_BUCKETS: usize = 100;

/// Pickup timestamps are drawn below this number of seconds after the epoch.
pub const TIMESTAMP_LIMIT: i64 = 48 * 365 * 24 * 60 * 60;

/// The earliest timestamp (in seconds) whose date can be represented:
/// January 1 of year -262143.
pub const MIN_TIMESTAMP: i64 = -8334601228800;

/// The latest timestamp (in seconds) whose date can be represented: the last
/// second of December 31 of year 262142.
pub const MAX_TIMESTAMP: i64 = 8210266876799;

/// A random 64-bit integer: calls `rand::thread_rng().gen::<i64>()`. Any value
/// may come back; nothing is claimed of it.
#[verifier::external_body]
fn random_i64() -> i64 {
    rand::thread_rng().gen()
}

/// A random `i64` in `[low, high)`: calls `rand::thread_rng().gen_range(low, high)`,
/// which the rand documentation says returns a value in that range and panics
/// when the range is empty.
#[verifier::external_body]
fn random_i64_between(low: i64, high: i64) -> (r: i64)
    requires
        low < high,
    ensures
        low <= r < high,
{
    rand::thread_rng().gen_range(low, high)
}

/// Number of leap years among the years `1 ..= n` of the proleptic
/// Gregorian calendar (negative when `n` is below zero: minus the leap years
/// among `n + 1 ..= 0`).
pub open spec fn leap_years_through(n: int) -> int {
    n / 4 - n / 100 + n / 400
}

/// The day (counted from January 1, 1970) on which year `y` begins.
pub open spec fn year_start_day(y: int) -> int {
    365 * (y - 1970) + leap_years_through(y - 1) - leap_years_through(1969)
}

/// The day (counted from January 1, 1970) of the moment `secs` seconds after
/// the Unix epoch.
pub open spec fn timestamp_day(secs: i64) -> int {
    secs / 86400
}

/// The calendar year (UTC) of the moment `secs` seconds after the Unix epoch:
/// the year whose days include that moment's day.
pub open spec fn timestamp_year(secs: i64) -> int {
    choose|y: int| #![trigger year_start_day(y)] year_start_day(y) <= timestamp_day(secs) < year_start_day(y + 1)
}

/// Every year has at least one day.
proof fn lemma_year_has_days(y: int)
    ensures
        year_start_day(y) < year_start_day(y + 1),
{
    assert(0 <= (y / 4) - ((y - 1) / 4) <= 1);
    assert(0 <= (y / 100) - ((y - 1) / 100) <= 1);
    assert(0 <= (y / 400) - ((y - 1) / 400) <= 1);
}

/// Later years begin later.
pub proof fn lemma_year_start_increasing(a: int, b: int)
    requires
        a < b,
    ensures
        year_start_day(a + 1) <= year_start_day(b),
    decreases b - a,
{
    lemma_year_has_days(a);
    if a + 1 < b {
        lemma_year_start_increasing(a + 1, b);
        lemma_year_has_days(a + 1);
    }
}

/// A year whose days include a moment is that moment's year.
pub proof fn lemma_timestamp_year(secs: i64, y: int)
    requires
        year_start_day(y) <= timestamp_day(secs) < year_start_day(y + 1),
    ensures
        timestamp_year(secs) == y,
{
    let z = timestamp_year(secs);
    assert(year_start_day(z) <= timestamp_day(secs) < year_start_day(z + 1));
    if z < y {
        lemma_year_start_increasing(z, y);
    } else if y < z {
        lemma_year_start_increasing(y, z);
    }
}

/// Timestamps of the benchmark fall in the years 1970 to 2017.
pub proof fn lemma_benchmark_years(secs: i64, y: int)
    requires
        0 <= secs < TIMESTAMP_LIMIT,
        year_start_day(y) <= timestamp_day(secs) < year_start_day(y + 1),
    ensures
        1970 <= y < END_YEAR,
{
    assert(year_start_day(1970) == 0);
    assert(year_start_day(2018) == 17532);
    if y < 1970 {
        lemma_year_start_increasing(y, 1970);
    }
    if y >= 2018 {
        if y > 2018 {
            lemma_year_start_increasing(2018, y);
            lemma_year_has_days(2018);
        }
    }
}

/// Year of a Unix timestamp: calls
/// `chrono::NaiveDateTime::from_timestamp(secs, 0).date().year()`. chrono
/// counts days from the epoch by Euclidean division and dates them in the
/// proleptic Gregorian calendar in UTC, so the year is the one whose days
/// include the timestamp's day. chrono panics outside the dates it can
/// represent, which `requires` excludes.
#[verifier::external_body]
#[allow(deprecated)]
fn year_of_timestamp(secs: i64) -> (y: i32)
    requires
        MIN_TIMESTAMP <= secs <= MAX_TIMESTAMP,
    ensures
        year_start_day(y as int) <= timestamp_day(secs) < year_start_day(y + 1),
{
    NaiveDateTime::from_timestamp(secs, 0).date().year()
}

/// `n` random values, each holding 64 booleans.
pub fn random_bits_column(n: usize) -> (v: Vec<i64>)
    ensures
        v@.len() == n,
{
    let mut v: Vec<i64> = Vec::new();
    let mut i: usize = 0;
    while i < n
        invariant
            i <= n,
            v@.len() == i,
        decreases n - i,
    {
        v.push(random_i64());
        i = i + 1;
    }
    v
}

/// `n` random passenger counts, each below [`MAX_PASSENGERS`].
pub fn random_passenger_counts(n: usize) -> (v: Vec<u8>)
    ensures
        v@.len() == n,
        forall|i: int| 0 <= i < n ==> v@[i] < MAX_PASSENGERS,
{
    let mut v: Vec<u8> = Vec::new();
    let mut i: usize = 0;
    while i < n
        invariant
            i <= n,
            v@.len() == i,
            forall|j: int| 0 <= j < i ==> v@[j] < MAX_PASSENGERS,
        decreases n - i,
    {
        let p = random_i64_between(0, 10);
        v.push(p as u8);
        i = i + 1;
    }
    v
}

/// `n` random pickup timestamps, each in `[1, TIMESTAMP_LIMIT)`.
pub fn random_pickup_timestamps(n: usize) -> (v: Vec<i64>)
    ensures
        v@.len() == n,
        forall|i: int| 0 <= i < n ==> 1 <= #[trigger] v@[i] < TIMESTAMP_LIMIT,
{
    let mut v: Vec<i64> = Vec::new();
    let mut i: usize = 0;
    while i < n
        invariant
            i <= n,
            v@.len() == i,
            forall|j: int| 0 <= j < i ==> 1 <= #[trigger] v@[j] < TIMESTAMP_LIMIT,
        decreases n - i,
    {
        v.push(random_i64_between(1, TIMESTAMP_LIMIT));
        i = i + 1;
    }
    v
}

/// The result of the first query on a boolean column: the number of set
/// bits and the number of clear bits.
pub fn run_query1(data: Vec<i64>) -> (r: Vec<i64>)
    requires
        group_count_defined(seq![data@]),
    ensures
        r@ == group_count_output(seq![data@])[0],
{
    let ghost values = data@;
    let column = BooleanNotNullColumn { data };
    let table = Table { columns: vec![Rc::new(Column::BooleanNotNull(column))] };
    proof {
        assert(columns_values(table.columns@) =~= seq![values]);
    }
    let q1 = table.query();
    let q2 = q1.count_group_by(&[0usize]);
    let op_output = q2.execute();
    proof {
        assert(op_output@.len() == columns_values(op_output@).len());
        assert(columns_values(op_output@)[0] == op_output@[0].values());
    }
    let result = op_output[0].data();
    let mut r: Vec<i64> = Vec::new();
    r.push(result[0]);
    r.push(result[1]);
    proof {
        assert(r@ =~= group_count_output(seq![values])[0]);
    }
    r
}


/// How many times `k` occurs in `keys`.
pub open spec fn occurrences(keys: Seq<int>, k: int) -> nat
    decreases keys.len(),
{
    if keys.len() == 0 {
        0
    } else {
        occurrences(keys.drop_last(), k) + if keys.last() == k {
            1nat
        } else {
            0nat
        }
    }
}

/// The total of the occurrences of the keys `0 .. size`.
pub open spec fn bucket_total(keys: Seq<int>, size: nat) -> nat
    decreases size,
{
    if size == 0 {
        0
    } else {
        bucket_total(keys, (size - 1) as nat) + occurrences(keys, size - 1)
    }
}

/// A prefix holds no more occurrences of a key than the whole.
pub proof fn lemma_occurrences_prefix(keys: Seq<int>, i: int, k: int)
    requires
        0 <= i <= keys.len(),
    ensures
        occurrences(keys.take(i), k) <= occurrences(keys, k),
    decreases keys.len() - i,
{
    if i < keys.len() {
        lemma_occurrences_prefix(keys, i + 1, k);
        assert(keys.take(i + 1).drop_last() =~= keys.take(i));
    } else {
        assert(keys.take(i) =~= keys);
    }
}

proof fn lemma_bucket_total_step(keys: Seq<int>, size: nat)
    requires
        keys.len() > 0,
    ensures
        bucket_total(keys, size) == bucket_total(keys.drop_last(), size) + if 0 <= keys.last()
            < size {
            1nat
        } else {
            0nat
        },
    decreases size,
{
    if size > 0 {
        lemma_bucket_total_step(keys, (size - 1) as nat);
    }
}

/// When every key is below `size`, the occurrences of the keys `0 .. size`
/// add up to the number of keys: each record lands in exactly one bucket.
pub proof fn lemma_every_key_counted_once(keys: Seq<int>, size: nat)
    requires
        forall|i: int| 0 <= i < keys.len() ==> 0 <= #[trigger] keys[i] < size,
    ensures
        bucket_total(keys, size) == keys.len(),
    decreases keys.len(),
{
    if keys.len() == 0 {
        lemma_empty_buckets(keys, size);
    } else {
        let rest = keys.drop_last();
        assert forall|i: int| 0 <= i < rest.len() implies 0 <= #[trigger] rest[i] < size by {
            assert(rest[i] == keys[i]);
        }
        lemma_every_key_counted_once(rest, size);
        lemma_bucket_total_step(keys, size);
        assert(keys.last() == keys[keys.len() - 1]);
    }
}

proof fn lemma_empty_buckets(keys: Seq<int>, size: nat)
    requires
        keys.len() == 0,
    ensures
        bucket_total(keys, size) == 0,
    decreases size,
{
    if size > 0 {
        lemma_empty_buckets(keys, (size - 1) as nat);
    }
}

/// `size` counters, all zero.
fn zero_counts(size: usize, Ghost(keys): Ghost<Seq<int>>) -> (counts: Vec<u32>)
    ensures
        counts@.len() == size,
        forall|k: int| 0 <= k < size ==> #[trigger] counts@[k] == occurrences(keys.take(0), k),
{
    let mut counts: Vec<u32> = Vec::new();
    let mut j: usize = 0;
    while j < size
        invariant
            j <= size,
            counts@.len() == j,
            forall|k: int| 0 <= k < j ==> #[trigger] counts@[k] == 0,
        decreases size - j,
    {
        counts.push(0u32);
        j = j + 1;
    }
    assert(keys.take(0).len() == 0);
    counts
}

/// Counts record `i`, whose key is `key`.
fn count_record(
    counts: &mut Vec<u32>,
    key: usize,
    Ghost(keys): Ghost<Seq<int>>,
    Ghost(i): Ghost<int>,
)
    requires
        0 <= i < keys.len(),
        keys[i] == key,
        key < old(counts)@.len(),
        forall|k: int|
            0 <= k < old(counts)@.len() ==> #[trigger] old(counts)@[k] == occurrences(
                keys.take(i),
                k,
            ),
        occurrences(keys, key as int) <= u32::MAX,
    ensures
        final(counts)@.len() == old(counts)@.len(),
        forall|k: int|
            0 <= k < final(counts)@.len() ==> #[trigger] final(counts)@[k] == occurrences(
                keys.take(i + 1),
                k,
            ),
{
    proof {
        assert(keys.take(i + 1).drop_last() =~= keys.take(i));
        assert(keys.take(i + 1).last() == keys[i]);
        lemma_occurrences_prefix(keys, i + 1, key as int);
    }
    let c = counts[key];
    counts.set(key, c + 1);
    proof {
        assert forall|k: int| 0 <= k < counts@.len() implies #[trigger] counts@[k]
            == occurrences(keys.take(i + 1), k) by {
            assert(occurrences(keys.take(i + 1), k) == occurrences(keys.take(i), k) + if keys[i]
                == k {
                1nat
            } else {
                0nat
            });
        }
    }
}

/// The passenger count of each record, as a key.
pub open spec fn passenger_keys(passengers: Seq<u8>) -> Seq<int> {
    Seq::new(passengers.len(), |i: int| passengers[i] as int)
}

/// The bucket of each record by year and passenger count.
pub open spec fn year_passenger_keys(passengers: Seq<u8>, years: Seq<i32>) -> Seq<int> {
    Seq::new(
        passengers.len(),
        |i: int| MAX_PASSENGERS * (years[i] - 1970) + passengers[i],
    )
}

/// The bucket of each record by year, passenger count and distance.
pub open spec fn year_passenger_distance_keys(
    passengers: Seq<u8>,
    years: Seq<i32>,
    distances: Seq<usize>,
) -> Seq<int> {
    Seq::new(
        passengers.len(),
        |i: int|
            MAX_PASSENGERS * DISTANCE_BUCKETS * (years[i] - 1970) + DISTANCE_BUCKETS
                * passengers[i] + distances[i],
    )
}

/// The number of trips with each passenger count (the counting part of the
/// second query).
pub fn count_by_passengers(passengers: &Vec<u8>) -> (counts: Vec<u32>)
    requires
        forall|i: int| 0 <= i < passengers@.len() ==> #[trigger] passengers@[i] < MAX_PASSENGERS,
        forall|k: int| #[trigger] occurrences(passenger_keys(passengers@), k) <= u32::MAX,
    ensures
        counts@.len() == MAX_PASSENGERS,
        forall|k: int|
            0 <= k < MAX_PASSENGERS ==> #[trigger] counts@[k] == occurrences(
                passenger_keys(passengers@),
                k,
            ),
{
    let ghost keys = passenger_keys(passengers@);
    let mut counts = zero_counts(MAX_PASSENGERS, Ghost(keys));
    let mut i: usize = 0;
    while i < passengers.len()
        invariant
            i <= passengers@.len(),
            keys == passenger_keys(passengers@),
            counts@.len() == MAX_PASSENGERS,
            forall|k: int|
                0 <= k < MAX_PASSENGERS ==> #[trigger] counts@[k] == occurrences(
                    keys.take(i as int),
                    k,
                ),
            forall|j: int| 0 <= j < passengers@.len() ==> #[trigger] passengers@[j] < MAX_PASSENGERS,
            forall|k: int| #[trigger] occurrences(keys, k) <= u32::MAX,
        decreases passengers@.len() - i,
    {
        let key = passengers[i] as usize;
        count_record(&mut counts, key, Ghost(keys), Ghost(i as int));
        i = i + 1;
    }
    assert(keys.take(passengers@.len() as int) =~= keys);
    counts
}

/// The number of trips in each bucket by pickup year and passenger count,
/// bucket `10 * (year - 1970) + passengers` (the counting part of the third
/// query), given the pickup year of each trip.
pub fn count_by_year_and_passengers(passengers: &Vec<u8>, years: &Vec<i32>) -> (counts: Vec<u32>)
    requires
        years@.len() == passengers@.len(),
        forall|i: int|
            0 <= i < passengers@.len() ==> #[trigger] years@[i] >= 1970 && 0 <= year_passenger_keys(
                passengers@,
                years@,
            )[i] < MAX_PASSENGERS * YEARS,
        forall|k: int| #[trigger] occurrences(year_passenger_keys(passengers@, years@), k) <= u32::MAX,
    ensures
        counts@.len() == MAX_PASSENGERS * YEARS,
        forall|k: int|
            0 <= k < MAX_PASSENGERS * YEARS ==> #[trigger] counts@[k] == occurrences(
                year_passenger_keys(passengers@, years@),
                k,
            ),
{
    let ghost keys = year_passenger_keys(passengers@, years@);
    let mut counts = zero_counts(MAX_PASSENGERS * YEARS, Ghost(keys));
    let mut i: usize = 0;
    while i < passengers.len()
        invariant
            i <= passengers@.len(),
            years@.len() == passengers@.len(),
            keys == year_passenger_keys(passengers@, years@),
            counts@.len() == MAX_PASSENGERS * YEARS,
            forall|k: int|
                0 <= k < MAX_PASSENGERS * YEARS ==> #[trigger] counts@[k] == occurrences(
                    keys.take(i as int),
                    k,
                ),
            forall|j: int|
                0 <= j < passengers@.len() ==> #[trigger] years@[j] >= 1970 && 0 <= keys[j]
                    < MAX_PASSENGERS * YEARS,
            forall|k: int| #[trigger] occurrences(keys, k) <= u32::MAX,
        decreases passengers@.len() - i,
    {
        let passengers_i = passengers[i] as usize;
        let year = (years[i] - 1970) as usize;
        assert(keys[i as int] == MAX_PASSENGERS * year + passengers_i);
        let key = MAX_PASSENGERS * year + passengers_i;
        count_record(&mut counts, key, Ghost(keys), Ghost(i as int));
        i = i + 1;
    }
    assert(keys.take(passengers@.len() as int) =~= keys);
    counts
}

/// The number of trips in each bucket by pickup year, passenger count and
/// distance, bucket `1000 * (year - 1970) + 100 * passengers + distance` (the
/// counting part of the fourth query), given the pickup year and the whole
/// distance of each trip.
pub fn count_by_year_passengers_and_distance(
    passengers: &Vec<u8>,
    years: &Vec<i32>,
    distances: &Vec<usize>,
) -> (counts: Vec<u32>)
    requires
        years@.len() == passengers@.len(),
        distances@.len() == passengers@.len(),
        forall|i: int|
            0 <= i < passengers@.len() ==> #[trigger] years@[i] >= 1970 && 0
                <= year_passenger_distance_keys(passengers@, years@, distances@)[i]
                < MAX_PASSENGERS * DISTANCE_BUCKETS * YEARS,
        forall|k: int|
            #[trigger] occurrences(year_passenger_distance_keys(passengers@, years@, distances@), k)
                <= u32::MAX,
    ensures
        counts@.len() == MAX_PASSENGERS * DISTANCE_BUCKETS * YEARS,
        forall|k: int|
            0 <= k < MAX_PASSENGERS * DISTANCE_BUCKETS * YEARS ==> #[trigger] counts@[k]
                == occurrences(year_passenger_distance_keys(passengers@, years@, distances@), k),
{
    let ghost keys = year_passenger_distance_keys(passengers@, years@, distances@);
    let size = MAX_PASSENGERS * DISTANCE_BUCKETS * YEARS;
    let mut counts = zero_counts(size, Ghost(keys));
    let mut i: usize = 0;
    while i < passengers.len()
        invariant
            size == MAX_PASSENGERS * DISTANCE_BUCKETS * YEARS,
            i <= passengers@.len(),
            years@.len() == passengers@.len(),
            distances@.len() == passengers@.len(),
            keys == year_passenger_distance_keys(passengers@, years@, distances@),
            counts@.len() == size,
            forall|k: int|
                0 <= k < size ==> #[trigger] counts@[k] == occurrences(keys.take(i as int), k),
            forall|j: int|
                0 <= j < passengers@.len() ==> #[trigger] years@[j] >= 1970 && 0 <= keys[j] < size,
            forall|k: int| #[trigger] occurrences(keys, k) <= u32::MAX,
        decreases passengers@.len() - i,
    {
        let passengers_i = passengers[i] as usize;
        let year = (years[i] - 1970) as usize;
        let distance = distances[i];
        assert(keys[i as int] == MAX_PASSENGERS * DISTANCE_BUCKETS * year + DISTANCE_BUCKETS
            * passengers_i + distance);
        let key = MAX_PASSENGERS * DISTANCE_BUCKETS * year + DISTANCE_BUCKETS * passengers_i
            + distance;
        count_record(&mut counts, key, Ghost(keys), Ghost(i as int));
        i = i + 1;
    }
    assert(keys.take(passengers@.len() as int) =~= keys);
    counts
}


/// A key occurs at most as often as there are keys.
pub proof fn lemma_occurrences_bound(keys: Seq<int>, k: int)
    ensures
        occurrences(keys, k) <= keys.len(),
    decreases keys.len(),
{
    if keys.len() > 0 {
        lemma_occurrences_bound(keys.drop_last(), k);
    }
}

/// The pickup year of each timestamp.
pub open spec fn pickup_years(timestamps: Seq<i64>) -> Seq<i32> {
    Seq::new(timestamps.len(), |i: int| timestamp_year(timestamps[i]) as i32)
}

/// The pickup years of the given timestamps.
fn years_of(timestamps: &Vec<i64>) -> (years: Vec<i32>)
    requires
        forall|i: int|
            0 <= i < timestamps@.len() ==> MIN_TIMESTAMP <= #[trigger] timestamps@[i]
                <= MAX_TIMESTAMP,
    ensures
        years@ == pickup_years(timestamps@),
        forall|i: int|
            0 <= i < timestamps@.len() ==> year_start_day(#[trigger] years@[i] as int)
                <= timestamp_day(timestamps@[i]) < year_start_day(years@[i] + 1),
{
    let mut years: Vec<i32> = Vec::new();
    let mut i: usize = 0;
    while i < timestamps.len()
        invariant
            i <= timestamps@.len(),
            years@ == pickup_years(timestamps@).take(i as int),
            forall|j: int|
                0 <= j < i ==> year_start_day(#[trigger] years@[j] as int) <= timestamp_day(
                    timestamps@[j],
                ) < year_start_day(years@[j] + 1),
            forall|j: int|
                0 <= j < timestamps@.len() ==> MIN_TIMESTAMP <= #[trigger] timestamps@[j]
                    <= MAX_TIMESTAMP,
        decreases timestamps@.len() - i,
    {
        let y = year_of_timestamp(timestamps[i]);
        proof {
            lemma_timestamp_year(timestamps@[i as int], y as int);
        }
        years.push(y);
        i = i + 1;
        assert(years@ =~= pickup_years(timestamps@).take(i as int));
    }
    assert(pickup_years(timestamps@).take(timestamps@.len() as int) =~= pickup_years(
        timestamps@,
    ));
    years
}

/// A key that no record has occurs zero times.
pub proof fn lemma_occurrences_absent(keys: Seq<int>, k: int)
    requires
        forall|i: int| 0 <= i < keys.len() ==> #[trigger] keys[i] != k,
    ensures
        occurrences(keys, k) == 0,
    decreases keys.len(),
{
    if keys.len() > 0 {
        let rest = keys.drop_last();
        assert forall|i: int| 0 <= i < rest.len() implies #[trigger] rest[i] != k by {
            assert(rest[i] == keys[i]);
        }
        lemma_occurrences_absent(rest, k);
        assert(keys.last() == keys[keys.len() - 1]);
    }
}

/// Whether no key occurs more than `u32::MAX` times, given the keys, all
/// below `size`.
fn buckets_fit_u32(bucket_keys: &Vec<usize>, size: usize, Ghost(keys): Ghost<Seq<int>>) -> (r:
    bool)
    requires
        bucket_keys@.len() == keys.len(),
        forall|i: int|
            0 <= i < keys.len() ==> keys[i] == #[trigger] bucket_keys@[i] && bucket_keys@[i]
                < size,
    ensures
        r == forall|k: int| #[trigger] occurrences(keys, k) <= u32::MAX,
{
    let mut counts: Vec<usize> = Vec::new();
    let mut j: usize = 0;
    while j < size
        invariant
            j <= size,
            counts@.len() == j,
            forall|k: int| 0 <= k < j ==> #[trigger] counts@[k] == 0,
        decreases size - j,
    {
        counts.push(0usize);
        j = j + 1;
    }
    assert(keys.take(0).len() == 0);
    let mut i: usize = 0;
    while i < bucket_keys.len()
        invariant
            i <= keys.len(),
            bucket_keys@.len() == keys.len(),
            counts@.len() == size,
            forall|k: int|
                0 <= k < size ==> #[trigger] counts@[k] == occurrences(keys.take(i as int), k),
            forall|n: int|
                0 <= n < keys.len() ==> keys[n] == #[trigger] bucket_keys@[n] && bucket_keys@[n]
                    < size,
        decreases keys.len() - i,
    {
        let key = bucket_keys[i];
        proof {
            assert(keys.take(i + 1).drop_last() =~= keys.take(i as int));
            assert(keys.take(i + 1).last() == keys[i as int]);
            lemma_occurrences_bound(keys.take(i as int), key as int);
        }
        let c = counts[key];
        counts.set(key, c + 1);
        proof {
            assert forall|k: int| 0 <= k < size implies #[trigger] counts@[k] == occurrences(
                keys.take(i + 1),
                k,
            ) by {
                assert(occurrences(keys.take(i + 1), k) == occurrences(keys.take(i as int), k)
                    + if keys[i as int] == k {
                    1nat
                } else {
                    0nat
                });
            }
        }
        i = i + 1;
    }
    assert(keys.take(keys.len() as int) =~= keys);
    let mut k: usize = 0;
    while k < size
        invariant
            k <= size,
            counts@.len() == size,
            forall|m: int| 0 <= m < size ==> #[trigger] counts@[m] == occurrences(keys, m),
            forall|m: int| 0 <= m < k ==> #[trigger] occurrences(keys, m) <= u32::MAX,
        decreases size - k,
    {
        if counts[k] > 4294967295usize {
            assert(occurrences(keys, k as int) > u32::MAX);
            return false;
        }
        k = k + 1;
    }
    proof {
        assert forall|m: int| #[trigger] occurrences(keys, m) <= u32::MAX by {
            if m < 0 || m >= size {
                assert forall|i: int| 0 <= i < keys.len() implies #[trigger] keys[i] != m by {
                    assert(keys[i] == bucket_keys@[i]);
                }
                lemma_occurrences_absent(keys, m);
            }
        }
    }
    true
}

/// Trips as the benchmark draws them: pickups from 1970 to 2017, passenger
/// counts below ten, and no more trips than a `u32` counts.
pub open spec fn benchmark_trips(passengers: Seq<u8>, timestamps: Seq<i64>) -> bool {
    &&& passengers.len() <= u32::MAX
    &&& forall|i: int|
        0 <= i < passengers.len() ==> 0 <= #[trigger] timestamps[i] < TIMESTAMP_LIMIT
            && passengers[i] < MAX_PASSENGERS
}

/// The trips of the third query all fall in the counted years and buckets.
pub open spec fn year_buckets_in_range(passengers: Seq<u8>, years: Seq<i32>) -> bool {
    forall|i: int|
        0 <= i < passengers.len() ==> #[trigger] years[i] >= 1970 && 0 <= year_passenger_keys(
            passengers,
            years,
        )[i] < MAX_PASSENGERS * YEARS
}

/// The trips of the fourth query all fall in the counted years and buckets.
pub open spec fn distance_buckets_in_range(
    passengers: Seq<u8>,
    years: Seq<i32>,
    distances: Seq<usize>,
) -> bool {
    forall|i: int|
        0 <= i < passengers.len() ==> #[trigger] years[i] >= 1970 && 0
            <= year_passenger_distance_keys(passengers, years, distances)[i] < MAX_PASSENGERS
            * DISTANCE_BUCKETS * YEARS
}

/// The third query's counts from passenger counts and pickup timestamps:
/// looks up the pickup year of each trip, and counts the trips by year and
/// passenger count. `None` when a trip falls outside the counted years and
/// buckets, or a bucket would count more trips than a `u32` holds.
pub fn count_trips_by_year(passengers: &Vec<u8>, timestamps: &Vec<i64>) -> (r: Option<Vec<u32>>)
    requires
        timestamps@.len() == passengers@.len(),
        forall|i: int|
            0 <= i < timestamps@.len() ==> MIN_TIMESTAMP <= #[trigger] timestamps@[i]
                <= MAX_TIMESTAMP,
    ensures
        r is Some <==> year_buckets_in_range(passengers@, pickup_years(timestamps@)) && forall|
            k: int,
        |
            #[trigger] occurrences(year_passenger_keys(passengers@, pickup_years(timestamps@)), k)
                <= u32::MAX,
        benchmark_trips(passengers@, timestamps@) ==> r is Some,
        r matches Some(counts) ==> {
            &&& counts@.len() == MAX_PASSENGERS * YEARS
            &&& forall|k: int|
                0 <= k < MAX_PASSENGERS * YEARS ==> #[trigger] counts@[k] == occurrences(
                    year_passenger_keys(passengers@, pickup_years(timestamps@)),
                    k,
                )
        },
{
    let years = years_of(timestamps);
    let ghost keys = year_passenger_keys(passengers@, years@);
    let mut bucket_keys: Vec<usize> = Vec::new();
    let mut i: usize = 0;
    while i < passengers.len()
        invariant
            i <= passengers@.len(),
            timestamps@.len() == passengers@.len(),
            years@.len() == passengers@.len(),
            years@ == pickup_years(timestamps@),
            forall|j: int|
                0 <= j < timestamps@.len() ==> year_start_day(#[trigger] years@[j] as int)
                    <= timestamp_day(timestamps@[j]) < year_start_day(years@[j] + 1),
            keys == year_passenger_keys(passengers@, years@),
            bucket_keys@.len() == i,
            forall|j: int|
                0 <= j < i ==> #[trigger] years@[j] >= 1970 && 0 <= keys[j] < MAX_PASSENGERS
                    * YEARS,
            forall|j: int|
                0 <= j < i ==> keys[j] == #[trigger] bucket_keys@[j] && bucket_keys@[j]
                    < MAX_PASSENGERS * YEARS,
        decreases passengers@.len() - i,
    {
        let y = years[i];
        if y < 1970 || y >= END_YEAR {
            proof {
                if benchmark_trips(passengers@, timestamps@) {
                    assert(0 <= timestamps@[i as int] < TIMESTAMP_LIMIT);
                    lemma_benchmark_years(timestamps@[i as int], y as int);
                }
            }
            assert(!(years@[i as int] >= 1970 && 0 <= keys[i as int] < MAX_PASSENGERS * YEARS));
            return None;
        }
        let key = MAX_PASSENGERS * ((y - 1970) as usize) + passengers[i] as usize;
        if key >= MAX_PASSENGERS * YEARS {
            proof {
                if benchmark_trips(passengers@, timestamps@) {
                    assert(0 <= timestamps@[i as int] < TIMESTAMP_LIMIT);
                    assert(passengers@[i as int] < MAX_PASSENGERS);
                }
            }
            assert(keys[i as int] == key);
            return None;
        }
        bucket_keys.push(key);
        i = i + 1;
    }
    if !buckets_fit_u32(&bucket_keys, MAX_PASSENGERS * YEARS, Ghost(keys)) {
        proof {
            if benchmark_trips(passengers@, timestamps@) {
                assert forall|k: int| #[trigger] occurrences(keys, k) <= u32::MAX by {
                    lemma_occurrences_bound(keys, k);
                }
            }
        }
        return None;
    }
    Some(count_by_year_and_passengers(passengers, &years))
}

/// Trips as the benchmark draws them, each with a whole distance below 100.
pub open spec fn benchmark_trips_with_distances(
    passengers: Seq<u8>,
    timestamps: Seq<i64>,
    distances: Seq<usize>,
) -> bool {
    &&& benchmark_trips(passengers, timestamps)
    &&& forall|i: int| 0 <= i < passengers.len() ==> #[trigger] distances[i] < DISTANCE_BUCKETS
}

/// The fourth query's counts from passenger counts, pickup timestamps and
/// whole trip distances: looks up the pickup year of each trip, and counts
/// the trips by year, passenger count and distance. `None` when a trip falls
/// outside the counted years and buckets, or a bucket would count more trips
/// than a `u32` holds.
pub fn count_trips_by_year_and_distance(
    passengers: &Vec<u8>,
    timestamps: &Vec<i64>,
    distances: &Vec<usize>,
) -> (r: Option<Vec<u32>>)
    requires
        timestamps@.len() == passengers@.len(),
        distances@.len() == passengers@.len(),
        forall|i: int|
            0 <= i < timestamps@.len() ==> MIN_TIMESTAMP <= #[trigger] timestamps@[i]
                <= MAX_TIMESTAMP,
    ensures
        r is Some <==> distance_buckets_in_range(
            passengers@,
            pickup_years(timestamps@),
            distances@,
        ) && forall|k: int|
            #[trigger] occurrences(
                year_passenger_distance_keys(passengers@, pickup_years(timestamps@), distances@),
                k,
            ) <= u32::MAX,
        benchmark_trips_with_distances(passengers@, timestamps@, distances@) ==> r is Some,
        r matches Some(counts) ==> {
            &&& counts@.len() == MAX_PASSENGERS * DISTANCE_BUCKETS * YEARS
            &&& forall|k: int|
                0 <= k < MAX_PASSENGERS * DISTANCE_BUCKETS * YEARS ==> #[trigger] counts@[k]
                    == occurrences(
                    year_passenger_distance_keys(passengers@, pickup_years(timestamps@), distances@),
                    k,
                )
        },
{
    let years = years_of(timestamps);
    let ghost keys = year_passenger_distance_keys(passengers@, years@, distances@);
    let size = MAX_PASSENGERS * DISTANCE_BUCKETS * YEARS;
    let mut bucket_keys: Vec<usize> = Vec::new();
    let mut i: usize = 0;
    while i < passengers.len()
        invariant
            size == MAX_PASSENGERS * DISTANCE_BUCKETS * YEARS,
            i <= passengers@.len(),
            timestamps@.len() == passengers@.len(),
            years@.len() == passengers@.len(),
            distances@.len() == passengers@.len(),
            years@ == pickup_years(timestamps@),
            forall|j: int|
                0 <= j < timestamps@.len() ==> year_start_day(#[trigger] years@[j] as int)
                    <= timestamp_day(timestamps@[j]) < year_start_day(years@[j] + 1),
            keys == year_passenger_distance_keys(passengers@, years@, distances@),
            bucket_keys@.len() == i,
            forall|j: int| 0 <= j < i ==> #[trigger] years@[j] >= 1970 && 0 <= keys[j] < size,
            forall|j: int|
                0 <= j < i ==> keys[j] == #[trigger] bucket_keys@[j] && bucket_keys@[j] < size,
        decreases passengers@.len() - i,
    {
        let y = years[i];
        if y < 1970 || y >= END_YEAR {
            proof {
                if benchmark_trips_with_distances(passengers@, timestamps@, distances@) {
                    assert(0 <= timestamps@[i as int] < TIMESTAMP_LIMIT);
                    lemma_benchmark_years(timestamps@[i as int], y as int);
                }
            }
            assert(!(years@[i as int] >= 1970 && 0 <= keys[i as int] < size));
            return None;
        }
        let d = distances[i];
        let base = MAX_PASSENGERS * DISTANCE_BUCKETS * ((y - 1970) as usize) + DISTANCE_BUCKETS
            * (passengers[i] as usize);
        if base >= size || d >= size - base {
            proof {
                if benchmark_trips_with_distances(passengers@, timestamps@, distances@) {
                    assert(0 <= timestamps@[i as int] < TIMESTAMP_LIMIT);
                    assert(passengers@[i as int] < MAX_PASSENGERS);
                    assert(distances@[i as int] < DISTANCE_BUCKETS);
                }
            }
            assert(keys[i as int] == base + d);
            return None;
        }
        bucket_keys.push(base + d);
        i = i + 1;
    }
    if !buckets_fit_u32(&bucket_keys, size, Ghost(keys)) {
        proof {
            if benchmark_trips_with_distances(passengers@, timestamps@, distances@) {
                assert forall|k: int| #[trigger] occurrences(keys, k) <= u32::MAX by {
                    lemma_occurrences_bound(keys, k);
                }
            }
        }
        return None;
    }
    Some(count_by_year_passengers_and_distance(passengers, &years, distances))
}

} // verus!
