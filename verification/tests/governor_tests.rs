use rustgovernor::config::{Config, CustomSlots};
use rustgovernor::governor::{
    active_value, select_targets, GovernorState, HardwareSetting,
};

fn s(x: &str) -> String {
    x.to_string()
}

fn config() -> Config {
    let mut c = Config::empty();
    c.ac_governor = vec![(20, s("powersave")), (60, s("performance"))];
    c.ac_turbo = vec![(15, 1), (65, 0)];
    c.ac_epp = vec![(10, s("power")), (80, s("performance"))];
    c.dc_governor = vec![(40, s("ignored"))];
    c.dc_epp = vec![(15, s("power")), (60, s("balance_power"))];
    c.dc_cap_governor = s("cap");
    c
}

#[test]
fn ac_targets_take_first_step_at_or_above_the_load() {
    let t = select_targets(&config(), 20, true);
    assert_eq!((t.governor.as_str(), t.turbo, t.epp.as_str()), ("powersave", 0, "performance"));
    let t = select_targets(&config(), 21, true);
    assert_eq!((t.governor.as_str(), t.turbo, t.epp.as_str()), ("performance", 0, "performance"));
    let t = select_targets(&config(), 5, true);
    assert_eq!((t.governor.as_str(), t.turbo, t.epp.as_str()), ("powersave", 1, "power"));
}

#[test]
fn ac_targets_fall_back_to_defaults_above_every_step() {
    let t = select_targets(&config(), 90, true);
    assert_eq!(
        (t.governor.as_str(), t.turbo, t.epp.as_str()),
        ("performance", 0, "balanced_performance")
    );
}

#[test]
fn battery_targets_use_cap_governor() {
    let t = select_targets(&config(), 30, false);
    assert_eq!((t.governor.as_str(), t.turbo, t.epp.as_str()), ("cap", 0, "balance_power"));
    let t = select_targets(&config(), 70, false);
    assert_eq!((t.governor.as_str(), t.turbo, t.epp.as_str()), ("powersave", 0, "power"));
}

#[test]
fn staircase_selects_last_step_reached() {
    let steps = vec![(0, s("idle")), (20, s("light")), (50, s("hot"))];
    assert_eq!(active_value(&steps, -1), None);
    assert_eq!(active_value(&steps, 0), Some(s("idle")));
    assert_eq!(active_value(&steps, 49), Some(s("light")));
    assert_eq!(active_value(&steps, 50), Some(s("hot")));
    assert_eq!(active_value(&steps, 1000), Some(s("hot")));
    // A higher load never selects an earlier step.
    let mut last = None;
    for load in -5..60 {
        let idx = steps.iter().rposition(|(t, _)| *t <= load);
        assert!(idx >= last);
        last = idx;
        assert_eq!(active_value(&steps, load), idx.map(|i| steps[i].1.clone()));
    }
}

#[test]
fn new_state_remembers_nothing() {
    let st: GovernorState<f32> = GovernorState::new();
    assert_eq!(st.avg_load, 0);
    assert_eq!(st.max_history, 10);
    assert!(st.history.is_empty());
    assert_eq!(st.last_ac_custom.len(), 256);
    assert_eq!(st.last_dc_custom.len(), 256);
    assert!(st.last_ac_boost.is_none() && st.last_dc_epp.is_none());
}

#[test]
fn history_keeps_the_last_samples() {
    let mut st: GovernorState<f32> = GovernorState::new();
    for i in 0..25 {
        st.record_sample(i as f32);
        assert!(st.history.len() <= 10);
        assert_eq!(*st.history.last().unwrap(), i as f32);
    }
    assert_eq!(st.history, (15..25).map(|i| i as f32).collect::<Vec<f32>>());
}

fn kinds(w: &[HardwareSetting]) -> Vec<(String, String)> {
    w.iter().map(|h| (h.file_name().to_string(), h.value_text())).collect()
}

#[test]
fn hardware_writes_settle_once_remembered() {
    let mut st: GovernorState<f32> = GovernorState::new();
    let gov = s("performance");
    let epp = s("balance_power");
    let w = st.pending_hardware_writes(&gov, 1, &epp, true, false);
    assert_eq!(
        kinds(&w),
        vec![
            (s("no_turbo"), s("0")),
            (s("energy_performance_preference"), s("balance_power")),
            (s("scaling_governor"), s("performance")),
        ]
    );
    for h in &w {
        st.record_hardware_write(h, true);
    }
    assert!(st.pending_hardware_writes(&gov, 1, &epp, true, false).is_empty());
    // A change of power source asks for every write again.
    assert_eq!(st.pending_hardware_writes(&gov, 1, &epp, true, true).len(), 3);
    // Battery memory is separate.
    assert_eq!(st.pending_hardware_writes(&gov, 1, &epp, false, false).len(), 3);
    // Only the setting that differs is written; turbo value 0 disables turbo.
    let w = st.pending_hardware_writes(&gov, 0, &epp, true, false);
    assert_eq!(kinds(&w), vec![(s("no_turbo"), s("1"))]);
}

#[test]
fn failed_write_is_retried() {
    let mut st: GovernorState<f32> = GovernorState::new();
    let gov = s("powersave");
    let epp = s("power");
    let w = st.pending_hardware_writes(&gov, 12, &epp, false, false);
    // Only the turbo write succeeded.
    st.record_hardware_write(&w[0], false);
    assert_eq!(st.last_dc_boost, Some(12));
    let again = st.pending_hardware_writes(&gov, 12, &epp, false, false);
    assert_eq!(kinds(&again), vec![(s("energy_performance_preference"), s("power")), (s("scaling_governor"), s("powersave"))]);
}

fn slot(id: u8, folder: &str, steps: Vec<(i32, String)>) -> CustomSlots {
    CustomSlots {
        folder_path: s(folder),
        subfolder_check: s("0"),
        file_name: s("f"),
        thresholds: steps,
        slot_id: id,
    }
}

#[test]
fn custom_writes_settle_once_remembered() {
    let mut st: GovernorState<f32> = GovernorState::new();
    st.avg_load = 30;
    let sl = slot(3, "/tmp", vec![(0, s("idle")), (20, s("busy")), (80, s("max"))]);
    let v = st.custom_write_for(&sl, false, true);
    assert_eq!(v, Some(s("busy")));
    st.record_custom_write(3, &s("busy"), true);
    assert_eq!(st.last_ac_custom[3], Some(s("busy")));
    assert_eq!(st.custom_write_for(&sl, false, true), None);
    assert_eq!(st.custom_write_for(&sl, true, true), Some(s("busy")));
    assert_eq!(st.custom_write_for(&sl, false, false), Some(s("busy")));
    st.avg_load = 90;
    assert_eq!(st.custom_write_for(&sl, false, true), Some(s("max")));
}

#[test]
fn custom_slot_without_folder_or_reached_step_writes_nothing() {
    let mut st: GovernorState<f32> = GovernorState::new();
    st.avg_load = 30;
    assert_eq!(st.custom_write_for(&slot(1, "", vec![(0, s("x"))]), true, true), None);
    assert_eq!(st.custom_write_for(&slot(1, "/tmp", vec![]), true, true), None);
    assert_eq!(st.custom_write_for(&slot(1, "/tmp", vec![(50, s("x"))]), true, true), None);
}

#[test]
fn turbo_value_one_enables_turbo() {
    assert_eq!(HardwareSetting::Turbo(1).value_text(), "0");
    assert_eq!(HardwareSetting::Turbo(0).value_text(), "1");
    assert_eq!(HardwareSetting::Turbo(7).value_text(), "0");
    assert_eq!(HardwareSetting::Turbo(0).file_name(), "no_turbo");
}

#[test]
fn power_source_change_is_observed() {
    let mut st: GovernorState<f32> = GovernorState::new();
    assert!(st.observe_power_source(true));
    assert_eq!(st.last_ac_status, Some(true));
    assert!(!st.observe_power_source(true));
    assert!(st.observe_power_source(false));
    assert!(!st.observe_power_source(false));
}

#[test]
fn custom_slot_list_follows_power_source() {
    let mut c = Config::empty();
    c.ac_custom = vec![slot(0, "/ac", vec![])];
    c.dc_custom = vec![slot(0, "/dc", vec![]), slot(1, "/dc1", vec![])];
    assert_eq!(c.custom_slots_for(true)[0].folder_path, "/ac");
    assert_eq!(c.custom_slots_for(false).len(), 2);
}

#[test]
fn list_of_slots_settles_after_one_tick() {
    let mut st: GovernorState<f32> = GovernorState::new();
    st.avg_load = 40;
    let slots = vec![
        slot(0, "/a", vec![(0, s("x")), (30, s("y"))]),
        slot(1, "", vec![(0, s("z"))]),
        slot(2, "/c", vec![(50, s("w"))]),
        slot(3, "/d", vec![(10, s("v"))]),
    ];
    let mut written = Vec::new();
    for sl in &slots {
        if let Some(v) = st.custom_write_for(sl, true, false) {
            st.record_custom_write(sl.slot_id, &v, false);
            written.push((sl.slot_id, v));
        }
    }
    assert_eq!(written, vec![(0, s("y")), (3, s("v"))]);
    let before = st.last_dc_custom.clone();
    for sl in &slots {
        assert_eq!(st.custom_write_for(sl, false, false), None);
    }
    assert_eq!(st.last_dc_custom, before);
}

#[test]
fn custom_memory_of_any_length_is_accepted() {
    let mut st: GovernorState<f32> = GovernorState::new();
    st.last_ac_custom = vec![None; 3];
    st.avg_load = 5;
    let sl = slot(2, "/a", vec![(0, s("x"))]);
    assert_eq!(st.custom_write_for(&sl, false, true), Some(s("x")));
    st.record_custom_write(2, &s("x"), true);
    assert_eq!(st.last_ac_custom, vec![None, None, Some(s("x"))]);
}
