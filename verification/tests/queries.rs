use redb_store::columns::count_ones;
use redb_store::queries::{
    count_by_passengers, count_by_year_and_passengers, count_by_year_passengers_and_distance,
    count_trips_by_year, count_trips_by_year_and_distance, random_bits_column,
    random_passenger_counts, random_pickup_timestamps, run_query1,
    MAX_PASSENGERS, MAX_TIMESTAMP, MIN_TIMESTAMP, TIMESTAMP_LIMIT, YEARS,
};

#[test]
fn count_ones_matches_std() {
    for x in [0i64, 1, -1, 0x5555_5555_5555_5555, i64::MIN, i64::MAX, 12345] {
        assert_eq!(count_ones(x), x.count_ones());
    }
}

#[test]
fn query1_counts_set_and_clear_bits() {
    let data = vec![0i64, -1, 0b1011, i64::MIN];
    assert_eq!(run_query1(data), vec![64 + 3 + 1, 4 * 64 - 68]);
    assert_eq!(run_query1(vec![]), vec![0, 0]);
}

#[test]
fn query1_on_random_data_partitions_bits() {
    let data = random_bits_column(100);
    assert_eq!(data.len(), 100);
    let expected: u32 = data.iter().map(|x| x.count_ones()).sum();
    let r = run_query1(data);
    assert_eq!(r[0], expected as i64);
    assert_eq!(r[0] + r[1], 6400);
}

#[test]
fn passengers_are_counted_by_number() {
    let passengers = vec![0u8, 3, 3, 9, 0, 3];
    let counts = count_by_passengers(&passengers);
    assert_eq!(counts, vec![2, 0, 0, 3, 0, 0, 0, 0, 0, 1]);
    assert_eq!(counts.iter().sum::<u32>() as usize, passengers.len());
}

#[test]
fn trips_are_counted_by_year_and_passengers() {
    let passengers = vec![1u8, 1, 2, 9];
    let years = vec![1970, 1970, 1971, 2017];
    let counts = count_by_year_and_passengers(&passengers, &years);
    assert_eq!(counts.len(), MAX_PASSENGERS * YEARS);
    assert_eq!(counts[1], 2);
    assert_eq!(counts[12], 1);
    assert_eq!(counts[479], 1);
    assert_eq!(counts.iter().sum::<u32>(), 4);
}

#[test]
fn trips_are_counted_by_year_passengers_and_distance() {
    let passengers = vec![1u8, 1, 0];
    let years = vec![1970, 1970, 1975];
    let distances = vec![7usize, 7, 99];
    let counts = count_by_year_passengers_and_distance(&passengers, &years, &distances);
    assert_eq!(counts.len(), 48000);
    assert_eq!(counts[107], 2);
    assert_eq!(counts[5099], 1);
    assert_eq!(counts.iter().sum::<u32>(), 3);
}

#[test]
fn years_of_timestamps() {
    // Each trip lands in the bucket of its pickup year (passenger count 0).
    let cases = [
        (0i64, 1970usize),
        (31_535_999, 1970),
        (31_536_000, 1971),
        (1_000_000_000, 2001),
        (TIMESTAMP_LIMIT - 1, 2017),
    ];
    for (ts, year) in cases {
        let counts = count_trips_by_year(&vec![0u8], &vec![ts]).unwrap();
        assert_eq!(counts[MAX_PASSENGERS * (year - 1970)], 1);
        assert_eq!(counts.iter().sum::<u32>(), 1);
    }
}

#[test]
fn trips_by_timestamp() {
    let passengers = vec![2u8, 2, 5];
    let timestamps = vec![1i64, 31_536_000, 1_000_000_000];
    let counts = count_trips_by_year(&passengers, &timestamps).unwrap();
    assert_eq!(counts[2], 1);
    assert_eq!(counts[12], 1);
    assert_eq!(counts[31 * 10 + 5], 1);
    assert_eq!(counts.iter().sum::<u32>(), 3);

    // A pickup in 2020 falls outside the counted years.
    let late = vec![1_600_000_000i64, 1, 1];
    assert_eq!(count_trips_by_year(&passengers, &late), None);
}

#[test]
fn trips_by_timestamp_and_distance() {
    let passengers = vec![3u8];
    let timestamps = vec![31_536_000i64 * 2 + 5];
    let counts = count_trips_by_year_and_distance(&passengers, &timestamps, &vec![42]).unwrap();
    assert_eq!(counts[2000 + 300 + 42], 1);
    assert_eq!(counts.iter().sum::<u32>(), 1);
    assert_eq!(
        count_trips_by_year_and_distance(&passengers, &vec![1_600_000_000], &vec![1]),
        None
    );
    // The last year with the largest passenger count and distance overflows
    // the buckets.
    assert_eq!(
        count_trips_by_year_and_distance(&vec![255], &vec![TIMESTAMP_LIMIT - 1], &vec![99]),
        None
    );
}

#[test]
fn random_inputs_stay_in_range() {
    let passengers = random_passenger_counts(1000);
    assert_eq!(passengers.len(), 1000);
    assert!(passengers.iter().all(|p| (*p as usize) < MAX_PASSENGERS));
    let timestamps = random_pickup_timestamps(1000);
    assert!(timestamps.iter().all(|t| 1 <= *t && *t < TIMESTAMP_LIMIT));
    let counts = count_trips_by_year(&passengers, &timestamps).unwrap();
    assert_eq!(counts.iter().sum::<u32>(), 1000);
}

#[test]
fn extreme_timestamps_fall_outside_the_counted_years() {
    let passengers = vec![0u8];
    assert_eq!(count_trips_by_year(&passengers, &vec![MIN_TIMESTAMP]), None);
    assert_eq!(count_trips_by_year(&passengers, &vec![MAX_TIMESTAMP]), None);
    assert_eq!(count_trips_by_year(&passengers, &vec![-1]), None);
    let counts = count_trips_by_year(&passengers, &vec![TIMESTAMP_LIMIT - 1]).unwrap();
    assert_eq!(counts[470], 1);
}

#[test]
fn leap_years_shift_year_boundaries() {
    // 1972 is a leap year: its last second is 366 days after its first.
    let start_1972 = 2 * 365 * 86400i64;
    let start_1973 = start_1972 + 366 * 86400;
    let counts =
        count_trips_by_year(&vec![0u8, 0, 0], &vec![start_1972, start_1973 - 1, start_1973])
            .unwrap();
    assert_eq!(counts[20], 2);
    assert_eq!(counts[30], 1);
}
