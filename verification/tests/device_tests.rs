use disklist::attr::{numeric_attr, string_attr, AttrError, AttrOutcome};
use disklist::device::{
    build_record, model_or_sentinel, non_loop_status, unknown_model, BuildError, DiskInfo,
    BYTES_PER_BLOCK,
};

fn content(s: &str) -> AttrOutcome {
    AttrOutcome::Content(s.to_string())
}

fn ok_record(name: &str, size: &str, removable: &str, model: AttrOutcome, children: Option<Vec<String>>) -> DiskInfo {
    match build_record(name.to_string(), content(size), model, content(removable), children) {
        Ok(d) => d,
        Err(_) => panic!("expected a record"),
    }
}

#[test]
fn numeric_attr_classifies_each_failure() {
    assert_eq!(numeric_attr(&content(" 42\n")), Ok(42));
    assert_eq!(numeric_attr(&AttrOutcome::OpenFailed), Err(AttrError::CannotOpen));
    assert_eq!(numeric_attr(&AttrOutcome::ReadFailed), Err(AttrError::CannotRead));
    assert_eq!(numeric_attr(&content("abc")), Err(AttrError::CannotParse));
    assert_eq!(numeric_attr(&content("")), Err(AttrError::CannotParse));
}

#[test]
fn string_attr_trims_and_classifies() {
    assert_eq!(string_attr(&content(" SAMSUNG SSD \n")), Ok("SAMSUNG SSD".to_string()));
    assert_eq!(string_attr(&AttrOutcome::OpenFailed), Err(AttrError::CannotOpen));
    assert_eq!(string_attr(&AttrOutcome::ReadFailed), Err(AttrError::CannotRead));
}

#[test]
fn sentinel_replaces_every_model_failure() {
    assert_eq!(unknown_model(), "[UNKNOWN]");
    assert_eq!(model_or_sentinel(Err(AttrError::CannotOpen)), "[UNKNOWN]");
    assert_eq!(model_or_sentinel(Err(AttrError::CannotRead)), "[UNKNOWN]");
    assert_eq!(model_or_sentinel(Ok("WD BLUE".to_string())), "WD BLUE");

    let d = ok_record("sda", "8\n", "0\n", AttrOutcome::OpenFailed, None);
    assert_eq!(d.model_name, "[UNKNOWN]");
    let d = ok_record("sda", "8\n", "0\n", AttrOutcome::ReadFailed, None);
    assert_eq!(d.model_name, "[UNKNOWN]");
}

#[test]
fn non_loop_follows_the_child_listing() {
    let with_loop = vec!["dev".to_string(), "loop".to_string(), "queue".to_string()];
    let without_loop = vec!["dev".to_string(), "queue".to_string()];
    assert!(!non_loop_status(&Some(with_loop)));
    assert!(non_loop_status(&Some(without_loop)));
    assert!(non_loop_status(&Some(vec![])));
    // a failed child listing conservatively leaves the flag unset
    assert!(!non_loop_status(&None));
}

#[test]
fn size_is_exactly_blocks_times_512() {
    assert_eq!(BYTES_PER_BLOCK, 512);
    let d = ok_record("sda", "2097152\n", "0\n", AttrOutcome::OpenFailed, None);
    assert_eq!(d.size_bytes, 2097152 * 512);
    let d = ok_record("sda", "0", "0", AttrOutcome::OpenFailed, None);
    assert_eq!(d.size_bytes, 0);
    let d = ok_record("sda", "36028797018963967", "0", AttrOutcome::OpenFailed, None);
    assert_eq!(d.size_bytes, u64::MAX - 511);
}

#[test]
fn removable_flag_must_be_zero_or_one() {
    let d = ok_record("sdb", "8", "1\n", AttrOutcome::OpenFailed, None);
    assert!(d.is_removable);
    let d = ok_record("sdb", "8", "0\n", AttrOutcome::OpenFailed, None);
    assert!(!d.is_removable);

    let r = build_record(
        "sdb".to_string(),
        content("8"),
        AttrOutcome::OpenFailed,
        content("2\n"),
        None,
    );
    assert!(matches!(r, Err(BuildError::RemovableInvalid(2))));

    let r = build_record(
        "sdb".to_string(),
        content("8"),
        AttrOutcome::OpenFailed,
        AttrOutcome::ReadFailed,
        None,
    );
    assert!(matches!(r, Err(BuildError::RemovableUnreadable(AttrError::CannotRead))));
}

#[test]
fn missing_size_is_fatal_for_the_record() {
    let r = build_record(
        "sdc".to_string(),
        AttrOutcome::OpenFailed,
        AttrOutcome::OpenFailed,
        content("0"),
        None,
    );
    assert!(matches!(r, Err(BuildError::SizeUnavailable(AttrError::CannotOpen))));

    let r = build_record(
        "sdc".to_string(),
        content("not a number"),
        AttrOutcome::OpenFailed,
        content("0"),
        None,
    );
    assert!(matches!(r, Err(BuildError::SizeUnavailable(AttrError::CannotParse))));

    // one block past the largest representable byte count
    let r = build_record(
        "sdc".to_string(),
        content("36028797018963968"),
        AttrOutcome::OpenFailed,
        content("0"),
        None,
    );
    assert!(matches!(r, Err(BuildError::SizeOverflow)));
}

#[test]
fn record_carries_its_name_and_trimmed_model() {
    let d = ok_record(
        "nvme0n1",
        "1000215216\n",
        "0\n",
        content(" Samsung SSD 970 \n"),
        Some(vec!["queue".to_string()]),
    );
    assert_eq!(d.device_name, "nvme0n1");
    assert_eq!(d.model_name, "Samsung SSD 970");
    assert_eq!(d.size_bytes, 1000215216 * 512);
    assert!(!d.is_removable);
    assert!(d.non_loop);
}
