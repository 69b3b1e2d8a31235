use rustgovernor::config::{Config, ConfigError, LineLevels};
use rustgovernor::number::IntErrorKind;

/// The level of a load percentage: a number that orders loads as the
/// percentages do.
fn level(x: f32) -> i32 {
    let x = if x == 0.0 { 0.0 } else { x };
    let bits = x.to_bits() as i32;
    bits ^ ((((bits >> 31) as u32) >> 1) as i32)
}

fn text_level(t: &Option<String>) -> i32 {
    match t {
        Some(s) => level(s.parse::<f32>().unwrap_or(0.0)),
        None => 0,
    }
}

fn lines_of(text: &str) -> Vec<String> {
    text.lines().map(|l| l.to_string()).collect()
}

fn parse(text: &str) -> Option<Result<Config, ConfigError>> {
    let lines = lines_of(text);
    let texts = Config::level_texts(&lines);
    let levels: Vec<LineLevels> = texts
        .iter()
        .map(|t| LineLevels { setting: text_level(&t.setting), slot: text_level(&t.slot) })
        .collect();
    Config::parse_lines(&lines, &levels)
}

fn steps(v: &[(i32, String)]) -> Vec<(i32, &str)> {
    v.iter().map(|(l, s)| (*l, s.as_str())).collect()
}

#[test]
fn default_content_parses_into_ordered_steps() {
    let cfg = parse(Config::default_content()).unwrap().unwrap();
    assert_eq!(cfg.ac_governor.len(), 9);
    assert_eq!(cfg.ac_governor[0], (level(20.0), "powersave".to_string()));
    assert_eq!(cfg.ac_governor[8], (level(100.0), "performance".to_string()));
    assert_eq!(cfg.ac_turbo, vec![(level(15.0), 1), (level(50.0), 1), (level(65.0), 0)]);
    assert_eq!(cfg.ac_epp.len(), 9);
    assert_eq!(cfg.ac_epp[4], (level(20.0), "balance_power".to_string()));
    assert_eq!(cfg.dc_cap_governor, "powersave");
    // `dc_cap_governor` is itself a `dc_*_governor` key, whose threshold text `cap` reads as 0.
    assert_eq!(cfg.dc_governor.len(), 5);
    assert_eq!(cfg.dc_governor[0], (level(0.0), "powersave".to_string()));
    assert_eq!(cfg.dc_epp[3], (level(60.0), "balanced_power".to_string()));
    assert!(cfg.ac_custom.is_empty());
    assert!(cfg.dc_custom.is_empty());
    for w in cfg.ac_governor.windows(2) {
        assert!(w[0].0 <= w[1].0);
    }
}

#[test]
fn steps_are_kept_ordered_with_ties_in_file_order() {
    let cfg = parse("ac_50_governor=a\nac_20_governor=b\nac_50_governor=c\n").unwrap().unwrap();
    assert_eq!(
        steps(&cfg.ac_governor),
        vec![(level(20.0), "b"), (level(50.0), "a"), (level(50.0), "c")]
    );
}

#[test]
fn blank_and_comment_lines_are_skipped() {
    let cfg = parse("\n   \n# ac_10_governor=x\nac_10_epp = power \n").unwrap().unwrap();
    assert!(cfg.ac_governor.is_empty());
    assert_eq!(steps(&cfg.ac_epp), vec![(level(10.0), "power")]);
}

#[test]
fn line_without_single_equals_is_refused_with_its_number() {
    let r = parse("ac_10_epp=power\na=b=c\n").unwrap();
    assert_eq!(r.unwrap_err(), ConfigError::InvalidFormat { line: 2 });
    let r = parse("# comment\nno equals here\n").unwrap();
    assert_eq!(r.unwrap_err(), ConfigError::InvalidFormat { line: 2 });
}

#[test]
fn turbo_value_must_be_an_integer() {
    assert_eq!(
        parse("ac_10_turbo=on").unwrap().unwrap_err(),
        ConfigError::InvalidTurbo(IntErrorKind::InvalidDigit)
    );
    assert_eq!(
        parse("ac_10_turbo=").unwrap().unwrap_err(),
        ConfigError::InvalidTurbo(IntErrorKind::Empty)
    );
    assert_eq!(
        parse("ac_10_turbo=4294967296").unwrap().unwrap_err(),
        ConfigError::InvalidTurbo(IntErrorKind::PosOverflow)
    );
    let cfg = parse("ac_10_turbo=+7").unwrap().unwrap();
    assert_eq!(cfg.ac_turbo, vec![(level(10.0), 7)]);
}

#[test]
fn key_with_overlapping_prefix_and_suffix_is_not_read() {
    assert!(parse("ac_governor=performance").is_none());
    assert!(parse("dc_epp=power").is_none());
    // A malformed line before it stops the reading first.
    assert_eq!(
        parse("oops\nac_governor=performance").unwrap().unwrap_err(),
        ConfigError::InvalidFormat { line: 1 }
    );
}

#[test]
fn battery_settings_and_cap() {
    let cfg = parse("dc_max_cap=schedutil\ndc_40_governor=x\ndc_20_epp=power").unwrap().unwrap();
    assert_eq!(cfg.dc_cap_governor, "schedutil");
    assert_eq!(steps(&cfg.dc_governor), vec![(level(40.0), "x")]);
    assert_eq!(steps(&cfg.dc_epp), vec![(level(20.0), "power")]);
}

#[test]
fn unreadable_threshold_counts_as_zero() {
    let cfg = parse("ac_high_governor=performance").unwrap().unwrap();
    assert_eq!(steps(&cfg.ac_governor), vec![(level(0.0), "performance")]);
}

#[test]
fn custom_slots_are_filled_in() {
    let text = "ac_custom2path=/tmp\nac_custom2file=out.txt\nac_custom2sub_check=1\nac_50_custom2val=hot\nac_0_custom2val=idle\n";
    let cfg = parse(text).unwrap().unwrap();
    assert_eq!(cfg.ac_custom.len(), 3);
    for (i, s) in cfg.ac_custom.iter().enumerate() {
        assert_eq!(s.slot_id as usize, i);
    }
    let s = &cfg.ac_custom[2];
    assert_eq!(s.folder_path, "/tmp");
    assert_eq!(s.file_name, "out.txt");
    assert_eq!(s.subfolder_check, "1");
    assert_eq!(steps(&s.thresholds), vec![(level(0.0), "idle"), (level(50.0), "hot")]);
    assert_eq!(cfg.ac_custom[0].subfolder_check, "0");
    assert!(cfg.dc_custom.is_empty());
}

#[test]
fn custom_slot_number_defaults_to_one_and_wraps_ids() {
    let cfg = parse("dc_customval=x").unwrap().unwrap();
    assert_eq!(cfg.dc_custom.len(), 2);
    assert_eq!(steps(&cfg.dc_custom[1].thresholds), vec![(level(0.0), "x")]);
    let cfg = parse("ac_custom300path=/p").unwrap().unwrap();
    assert_eq!(cfg.ac_custom.len(), 301);
    assert_eq!(cfg.ac_custom[300].slot_id, 44);
    assert_eq!(cfg.ac_custom[300].folder_path, "/p");
}

#[test]
fn level_texts_name_the_threshold_texts() {
    let lines = lines_of("ac_15_governor=x\nac_20_custom1val=y\n# c\ndc_max_cap=z");
    let t = Config::level_texts(&lines);
    assert_eq!(t.len(), 4);
    assert_eq!(t[0].setting.as_deref(), Some("15"));
    assert_eq!(t[0].slot, None);
    assert_eq!(t[1].setting, None);
    assert_eq!(t[1].slot.as_deref(), Some("20"));
    assert_eq!(t[2].setting, None);
    assert_eq!(t[3].setting, None);
}
