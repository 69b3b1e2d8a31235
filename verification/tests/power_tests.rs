use rustgovernor::monitor::{
    display_from_names, format_path_display, mismatch_message, read_error_message, slot_line,
    slot_status_text, summarize_slot, ReadFailure, SlotReading,
};
use rustgovernor::number::{decimal_string, parse_u32, IntErrorKind};
use rustgovernor::power::{DirEntryProbe, FilePaths, PowerManager};
use rustgovernor::text::trim;

fn probe(path: &str, is_dir: bool, has_target: bool, text: Option<&str>) -> DirEntryProbe {
    DirEntryProbe {
        path: path.to_string(),
        is_dir,
        has_target,
        target_text: text.map(|t| t.to_string()),
    }
}

fn some(v: &[&str]) -> Vec<Option<String>> {
    v.iter().map(|x| Some(x.to_string())).collect()
}

#[test]
fn directories_holding_the_file_are_kept_in_order() {
    let entries = vec![
        probe("/c/policy1", true, true, None),
        probe("/c/boost", false, true, None),
        probe("/c/policy0", true, true, None),
        probe("/c/empty", true, false, None),
    ];
    assert_eq!(PowerManager::get_file_path(&entries), vec!["/c/policy1", "/c/policy0"]);
}

#[test]
fn ac_supplies_exclude_unreadable_and_battery() {
    let entries = vec![
        probe("/p/AC", true, true, Some("1\n")),
        probe("/p/BAT0", true, true, Some("Battery")),
        probe("/p/USB", true, true, None),
        probe("/p/X", true, false, Some("0")),
    ];
    assert_eq!(FilePaths::get_file_ac(&entries), vec!["/p/AC"]);
}

#[test]
fn config_file_paths_assigns_each_scan() {
    let one = vec![probe("/a", true, true, Some("1"))];
    let two = vec![probe("/b", true, true, None)];
    let p = FilePaths::config_file_paths(&two, &one, &one, &two, &one);
    assert_eq!(p.governor, vec!["/b"]);
    assert_eq!(p.boost_paths, vec!["/a"]);
    assert_eq!(p.ac, vec!["/a"]);
    assert_eq!(p.battery_paths, vec!["/b"]);
    assert_eq!(p.cpu_paths, vec!["/a"]);
}

#[test]
fn ac_status_decision() {
    assert!(PowerManager::get_ac_status(&some(&["0\n", " 1 "]), &some(&["Discharging"])));
    assert!(!PowerManager::get_ac_status(&some(&["0"]), &some(&["Full", "Discharging\n"])));
    assert!(PowerManager::get_ac_status(&vec![None], &some(&["Charging"])));
    assert!(PowerManager::get_ac_status(&vec![], &vec![None]));
}

#[test]
fn sub_check_and_setting_text_are_trimmed() {
    assert!(PowerManager::searches_subfolders(" 1\n"));
    assert!(!PowerManager::searches_subfolders("0"));
    assert!(!PowerManager::searches_subfolders("11"));
    assert_eq!(PowerManager::setting_text("  powersave\n"), "powersave");
    assert_eq!(trim("\u{a0}\tx y\u{2003}"), "x y");
}

#[test]
fn decimal_text_and_parsing() {
    assert_eq!(decimal_string(0), "0");
    assert_eq!(decimal_string(4294967295), "4294967295");
    assert_eq!(decimal_string(1200), "1200");
    let chars = |t: &str| t.chars().collect::<Vec<char>>();
    assert_eq!(parse_u32(&chars("+42")), Ok(42));
    assert_eq!(parse_u32(&chars("-")), Err(IntErrorKind::InvalidDigit));
    assert_eq!(parse_u32(&chars("-1")), Err(IntErrorKind::InvalidDigit));
    assert_eq!(parse_u32(&chars("")), Err(IntErrorKind::Empty));
    assert_eq!(parse_u32(&chars("4294967295")), Ok(4294967295));
    for n in [0u32, 7, 10, 65535, 4294967295] {
        assert_eq!(parse_u32(&chars(&decimal_string(n as u64))), Ok(n));
    }
}

#[test]
fn path_display_keeps_parent_and_file() {
    assert_eq!(
        format_path_display("/sys/devices/system/cpu/cpufreq/policy0/energy_performance_preference"),
        "policy0/energy_performance_preference"
    );
    assert_eq!(format_path_display("test.txt"), "test.txt");
    assert_eq!(format_path_display("/test.txt"), "test.txt");
    assert_eq!(display_from_names(Some("f".into()), None), "f");
    assert_eq!(display_from_names(None, Some("d".into())), "d/");
}

#[test]
fn slot_status_and_line() {
    assert_eq!(slot_status_text(0, 0), "(File Not Found)");
    assert_eq!(slot_status_text(3, 3), "(Successful 3/3)");
    assert_eq!(slot_status_text(4, 1), "(Failed 3/4)");
    assert_eq!(slot_line(7, "test.txt", "Light_Work", "(Successful 1/1)"), "Slot 07: [test.txt] -> Light_Work (Successful 1/1)");
    assert_eq!(slot_line(123, "f", "v", "s"), "Slot 123: [f] -> v s");
}

#[test]
fn slot_readings_are_summarized() {
    let readings = vec![
        SlotReading { path: "/a/p0/f".into(), content: Ok(" hot\n".into()) },
        SlotReading { path: "/a/p1/f".into(), content: Ok("cold".into()) },
        SlotReading { path: "/a/p2/f".into(), content: Err(ReadFailure::PermissionDenied) },
        SlotReading { path: "/a/p3/f".into(), content: Err(ReadFailure::Other("gone".into())) },
    ];
    let sum = summarize_slot(&readings, "hot");
    assert_eq!(sum.success_count, 1);
    assert_eq!(
        sum.errors,
        vec![
            "Mismatch in \"p1/f\": Found 'cold' expected 'hot'".to_string(),
            "ReadErr in \"p2/f\": Permission Denied. Please run with sudo.".to_string(),
            "ReadErr in \"p3/f\": gone".to_string(),
        ]
    );
    assert_eq!(mismatch_message("d/f", " a ", "b\n"), "Mismatch in \"d/f\": Found 'a' expected 'b'");
    assert_eq!(read_error_message("\"x\"", &ReadFailure::Other("e".into())), "ReadErr in \"x\": e");
}
