use porkchop::epoch::search_start_epoch;
use porkchop::metadata::metadata_record;

#[test]
fn metadata_record_of_a_search() {
    let epoch = search_start_epoch((2026, 1, 1)).unwrap();
    let record = metadata_record(epoch, (127, 902, 90, 450), "60".to_string());
    assert_eq!(
        record,
        vec![
            "2026-01-01T00:00:00.000000Z".to_string(),
            "127".to_string(),
            "902".to_string(),
            "90".to_string(),
            "450".to_string(),
            "60".to_string(),
        ]
    );
}

#[test]
fn metadata_record_writes_negative_and_zero_bounds() {
    let epoch = search_start_epoch((2003, 6, 1)).unwrap();
    let record = metadata_record(epoch, (-30, 0, 0, i32::MIN), "1.5".to_string());
    assert_eq!(record[0], "2003-06-01T00:00:00.000000Z");
    assert_eq!(record[1], "-30");
    assert_eq!(record[2], "0");
    assert_eq!(record[3], "0");
    assert_eq!(record[4], "-2147483648");
    assert_eq!(record[5], "1.5");
}
