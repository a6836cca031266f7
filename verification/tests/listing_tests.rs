use disklist::attr::AttrOutcome;
use disklist::device::{build_record, Config, DiskInfo};
use disklist::listing::{
    cardinality_message, device_names, filter_devices, list_disk_info, quoted_name_list,
    sort_devices, Report,
};
use disklist::render::render_line;
use disklist::text::dec_string;

fn cfg(non_loop_only: bool, removable_only: bool, expect_one: bool, brief: bool) -> Config {
    Config { non_loop_only, removable_only, expect_one, brief }
}

fn record(name: &str, raw_blocks: &str, removable: &str, model: Option<&str>, has_loop_child: bool) -> DiskInfo {
    let model_attr = match model {
        Some(m) => AttrOutcome::Content(m.to_string()),
        None => AttrOutcome::OpenFailed,
    };
    let children = if has_loop_child {
        Some(vec!["loop".to_string(), "queue".to_string()])
    } else {
        Some(vec!["queue".to_string()])
    };
    match build_record(
        name.to_string(),
        AttrOutcome::Content(raw_blocks.to_string()),
        model_attr,
        AttrOutcome::Content(removable.to_string()),
        children,
    ) {
        Ok(d) => d,
        Err(_) => panic!("expected a record"),
    }
}

fn sda() -> DiskInfo {
    record("sda", "2097152", "0", Some("SAMSUNG SSD"), false)
}

fn loop0() -> DiskInfo {
    record("loop0", "204800", "0", None, true)
}

fn usb() -> DiskInfo {
    record("sdb", "1024", "1", Some("USB STICK"), false)
}

fn names_of(disks: &Vec<DiskInfo>) -> Vec<String> {
    device_names(disks)
}

#[test]
fn filters_apply_independently_and_commute() {
    let all = vec![sda(), loop0(), usb()];
    let non_loop = cfg(true, false, false, false);
    let removable = cfg(false, true, false, false);

    let a = filter_devices(&filter_devices(&all, &non_loop), &removable);
    let b = filter_devices(&filter_devices(&all, &removable), &non_loop);
    assert_eq!(names_of(&a), names_of(&b));
    assert_eq!(names_of(&a), vec!["sdb".to_string()]);

    // re-applying a filter to an already-filtered set changes nothing
    let once = filter_devices(&all, &non_loop);
    let twice = filter_devices(&once, &non_loop);
    assert_eq!(names_of(&once), names_of(&twice));
    assert_eq!(names_of(&once), vec!["sda".to_string(), "sdb".to_string()]);
}

#[test]
fn non_loop_only_excludes_devices_with_a_loop_child() {
    let all = vec![sda(), loop0()];
    let kept = filter_devices(&all, &cfg(true, false, false, false));
    assert_eq!(names_of(&kept), vec!["sda".to_string()]);
}

#[test]
fn removable_only_excludes_fixed_devices() {
    let all = vec![sda(), loop0(), usb()];
    let kept = filter_devices(&all, &cfg(false, true, false, false));
    assert_eq!(names_of(&kept), vec!["sdb".to_string()]);
}

#[test]
fn sorting_orders_names_ascending() {
    let disks = vec![usb(), sda(), loop0()];
    let sorted = sort_devices(disks);
    assert_eq!(
        names_of(&sorted),
        vec!["loop0".to_string(), "sda".to_string(), "sdb".to_string()]
    );
}

#[test]
fn cardinality_check_fires_on_zero_matches() {
    let all = vec![sda(), loop0()];
    // both devices are fixed, so removable-only retains nothing
    match list_disk_info(all, &cfg(false, true, true, false)) {
        Report::ExpectOneViolation { count, names } => {
            assert_eq!(count, 0);
            assert!(names.is_empty());
            assert_eq!(
                cardinality_message(count, &names),
                "Expected a single device but 0 were found: []"
            );
        },
        _ => panic!("expected the cardinality violation"),
    }
}

#[test]
fn cardinality_check_fires_on_two_matches() {
    let all = vec![sda(), loop0()];
    match list_disk_info(all, &cfg(false, false, true, false)) {
        Report::ExpectOneViolation { count, names } => {
            assert_eq!(count, 2);
            assert_eq!(names, vec!["sda".to_string(), "loop0".to_string()]);
            assert_eq!(
                cardinality_message(count, &names),
                "Expected a single device but 2 were found: [\"sda\", \"loop0\"]"
            );
        },
        _ => panic!("expected the cardinality violation"),
    }
}

#[test]
fn decimal_rendering_is_exact() {
    assert_eq!(dec_string(0), "0");
    assert_eq!(dec_string(7), "7");
    assert_eq!(dec_string(10), "10");
    assert_eq!(dec_string(204800), "204800");
    assert_eq!(dec_string(u64::MAX), "18446744073709551615");
}

#[test]
fn quoted_list_quotes_and_separates() {
    assert_eq!(quoted_name_list(&vec![]), "[]");
    assert_eq!(quoted_name_list(&vec!["sda".to_string()]), "[\"sda\"]");
    assert_eq!(
        quoted_name_list(&vec!["a".to_string(), "b".to_string(), "c".to_string()]),
        "[\"a\", \"b\", \"c\"]"
    );
}

#[test]
fn cardinality_check_passes_on_exactly_one_match() {
    let all = vec![sda(), loop0()];
    match list_disk_info(all, &cfg(true, false, true, false)) {
        Report::Listing { records, lines } => {
            assert_eq!(records.len(), 1);
            assert_eq!(lines.len(), 1);
            assert_eq!(records[0].device_name, "sda");
        },
        _ => panic!("expected a listing"),
    }
}

#[test]
fn no_disks_reported_before_filtering() {
    match list_disk_info(Vec::new(), &cfg(true, true, false, false)) {
        Report::NoDisks => {},
        _ => panic!("expected the empty report"),
    }
    // a non-empty enumeration whose filtered set is empty is not NoDisks
    match list_disk_info(vec![loop0()], &cfg(true, false, false, false)) {
        Report::Listing { records, lines } => {
            assert_eq!(records.len(), 0);
            assert_eq!(lines.len(), 0);
        },
        _ => panic!("expected an empty listing"),
    }
}

#[test]
fn full_listing_of_the_two_device_example() {
    let all = vec![sda(), loop0()];
    match list_disk_info(all, &cfg(false, false, false, false)) {
        Report::Listing { records, lines } => {
            assert_eq!(names_of(&records), vec!["loop0".to_string(), "sda".to_string()]);
            assert_eq!(lines.len(), 2);
            assert_eq!(lines[0], "/dev/loop0      100.0 MiB  [UNKNOWN]      fixed     ");
            assert_eq!(lines[1], "/dev/sda        1.0 GiB    SAMSUNG SSD    fixed     ");
        },
        _ => panic!("expected a listing"),
    }
}

#[test]
fn brief_listing_of_the_two_device_example() {
    let all = vec![sda(), loop0()];
    match list_disk_info(all, &cfg(false, false, false, true)) {
        Report::Listing { records: _, lines } => {
            assert_eq!(lines, vec!["/dev/loop0".to_string(), "/dev/sda".to_string()]);
        },
        _ => panic!("expected a listing"),
    }
}

#[test]
fn long_fields_are_truncated_with_an_ellipsis() {
    let d = record("averylongdevicename", "8", "0", Some("0123456789ABCDEF"), false);
    let line = render_line(&d, false);
    assert!(line.starts_with("/dev/averylong…"));
    assert!(line.contains("0123456789ABC…"));
}

#[test]
fn brief_line_is_the_bare_path() {
    let line = render_line(&sda(), true);
    assert_eq!(line, "/dev/sda");
}
