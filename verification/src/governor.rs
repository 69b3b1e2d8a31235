//! The governor's memory of what it last wrote, and the decisions taken on
//! each tick: which step the current load selects, and which settings must
//! be written again.

use vstd::prelude::*;
use crate::config::{Config, CustomSlots, SlotView, ordered_by_level, steps_view};
use crate::text::{chars_of, string_of};

verus! {

// ---------------------------------------------------------------------------
// Selecting a step
// ---------------------------------------------------------------------------

/// The index of the first step whose level is at least `load`, from index `i` on.
pub open spec fn first_at_or_above_from<V>(steps: Seq<(i32, V)>, load: i32, i: int) -> Option<int>
    decreases steps.len() - i,
{
    if i < 0 || i >= steps.len() {
        None
    } else if load <= steps[i].0 {
        Some(i)
    } else {
        first_at_or_above_from(steps, load, i + 1)
    }
}

/// The index of the first step whose level is at least `load`.
pub open spec fn first_at_or_above<V>(steps: Seq<(i32, V)>, load: i32) -> Option<int> {
    first_at_or_above_from(steps, load, 0)
}

/// The index of the last step, among the first `n`, whose level is at most `load`.
pub open spec fn last_at_or_below_upto<V>(steps: Seq<(i32, V)>, load: i32, n: int) -> Option<int>
    decreases n,
{
    if n <= 0 || n > steps.len() {
        None
    } else if steps[n - 1].0 <= load {
        Some(n - 1)
    } else {
        last_at_or_below_upto(steps, load, n - 1)
    }
}

/// The index of the last step whose level is at most `load`.
pub open spec fn last_at_or_below<V>(steps: Seq<(i32, V)>, load: i32) -> Option<int> {
    last_at_or_below_upto(steps, load, steps.len() as int)
}

/// The value at `i`, where there is an index.
pub open spec fn value_at<V>(steps: Seq<(i32, V)>, i: Option<int>) -> Option<V> {
    match i {
        Some(k) => Some(steps[k].1),
        None => None,
    }
}

/// The index of the first step whose level is at least `load`.
pub fn first_index_at_or_above<V>(steps: &Vec<(i32, V)>, load: i32) -> (r: Option<usize>)
    ensures
        r matches Some(k) ==> first_at_or_above(steps@, load) == Some(k as int) && k < steps@.len(),
        r is None ==> first_at_or_above(steps@, load) is None,
{
    let n = steps.len();
    let mut i: usize = 0;
    while i < n
        invariant
            n == steps@.len(),
            i <= n,
            first_at_or_above(steps@, load) == first_at_or_above_from(steps@, load, i as int),
        decreases n - i,
    {
        if load <= steps[i].0 {
            return Some(i);
        }
        i = i + 1;
    }
    None
}

/// The index of the last step whose level is at most `load`.
pub fn last_index_at_or_below<V>(steps: &Vec<(i32, V)>, load: i32) -> (r: Option<usize>)
    ensures
        r matches Some(k) ==> last_at_or_below(steps@, load) == Some(k as int) && k < steps@.len(),
        r is None ==> last_at_or_below(steps@, load) is None,
{
    let mut i: usize = steps.len();
    while i > 0
        invariant
            i <= steps@.len(),
            last_at_or_below(steps@, load) == last_at_or_below_upto(steps@, load, i as int),
        decreases i,
    {
        if steps[i - 1].0 <= load {
            return Some(i - 1);
        }
        i = i - 1;
    }
    None
}

/// The text of the step that `load` selects in a staircase: the last step
/// whose level the load reaches.
pub fn active_value(steps: &Vec<(i32, String)>, load: i32) -> (r: Option<String>)
    ensures
        opt_str(r) == value_at(steps_view(steps@), last_at_or_below(steps@, load)),
{
    proof {
        lemma_last_view(steps@, load, steps@.len() as int);
    }
    match last_index_at_or_below(steps, load) {
        Some(k) => Some(steps[k].1.clone()),
        None => None,
    }
}

/// An optional text as a value.
pub open spec fn opt_str(o: Option<String>) -> Option<Seq<char>> {
    match o {
        Some(s) => Some(s@),
        None => None,
    }
}

/// The hardware targets for one tick.
#[derive(Debug)]
pub struct Targets {
    pub governor: String,
    pub turbo: u32,
    pub epp: String,
}

/// The text chosen by the first step at or above `load`, or `default`.
pub open spec fn first_text_or(steps: Seq<(i32, Seq<char>)>, load: i32, default: Seq<char>) -> Seq<char> {
    match value_at(steps, first_at_or_above(steps, load)) {
        Some(v) => v,
        None => default,
    }
}

fn first_text_or_exec(steps: &Vec<(i32, String)>, load: i32, default: &str) -> (r: String)
    ensures
        r@ == first_text_or(steps_view(steps@), load, default@),
{
    proof {
        lemma_first_view(steps@, load, 0);
    }
    match first_index_at_or_above(steps, load) {
        Some(k) => steps[k].1.clone(),
        None => string_of(&chars_of(default)),
    }
}

proof fn lemma_last_view(steps: Seq<(i32, String)>, load: i32, n: int)
    ensures
        last_at_or_below_upto(steps_view(steps), load, n) == last_at_or_below_upto(steps, load, n),
    decreases n,
{
    if 0 < n <= steps.len() {
        lemma_last_view(steps, load, n - 1);
    }
}

proof fn lemma_first_view(steps: Seq<(i32, String)>, load: i32, i: int)
    ensures
        first_at_or_above_from(steps_view(steps), load, i) == first_at_or_above_from(steps, load, i),
    decreases steps.len() - i,
{
    if 0 <= i < steps.len() {
        lemma_first_view(steps, load, i + 1);
    }
}

/// Chooses governor, turbo and EPP for the averaged load: on AC each comes from
/// the first step whose level is at least the load (else `performance`, `0`,
/// `balanced_performance`); on battery the governor is the cap governor where
/// some `dc_*_governor` step is at least the load (else `powersave`), turbo is
/// `0`, and EPP comes from the `dc_*_epp` steps (else `power`).
pub fn select_targets(config: &Config, avg_load: i32, is_ac: bool) -> (t: Targets)
    ensures
        is_ac ==> t.governor@ == first_text_or(config@.ac_governor, avg_load, "performance"@),
        is_ac ==> t.turbo == match value_at(config@.ac_turbo, first_at_or_above(config@.ac_turbo, avg_load)) {
            Some(n) => n,
            None => 0u32,
        },
        is_ac ==> t.epp@ == first_text_or(config@.ac_epp, avg_load, "balanced_performance"@),
        !is_ac ==> t.governor@ == (if first_at_or_above(config@.dc_governor, avg_load) is Some {
            config@.dc_cap_governor
        } else {
            "powersave"@
        }),
        !is_ac ==> t.turbo == 0,
        !is_ac ==> t.epp@ == first_text_or(config@.dc_epp, avg_load, "power"@),
{
    if is_ac {
        let governor = first_text_or_exec(&config.ac_governor, avg_load, "performance");
        let turbo = match first_index_at_or_above(&config.ac_turbo, avg_load) {
            Some(k) => config.ac_turbo[k].1,
            None => 0,
        };
        let epp = first_text_or_exec(&config.ac_epp, avg_load, "balanced_performance");
        Targets { governor, turbo, epp }
    } else {
        proof {
            lemma_first_view(config.dc_governor@, avg_load, 0);
        }
        let governor = match first_index_at_or_above(&config.dc_governor, avg_load) {
            Some(_) => config.dc_cap_governor.clone(),
            None => string_of(&chars_of("powersave")),
        };
        let epp = first_text_or_exec(&config.dc_epp, avg_load, "power");
        Targets { governor, turbo: 0, epp }
    }
}


// ---------------------------------------------------------------------------
// What was last written
// ---------------------------------------------------------------------------

/// What the governor last wrote while on one power source.
pub struct Memory {
    pub boost: Option<u32>,
    pub epp: Option<Seq<char>>,
    pub governor: Option<Seq<char>>,
    pub custom: Seq<Option<Seq<char>>>,
}

/// The governor's state: the averaged load (as a level), the recent load
/// samples, and, for AC and for battery, the values last written.
#[derive(Debug)]
pub struct GovernorState<S> {
    /// The level of the average of `history`.
    pub avg_load: i32,
    /// The most recent load samples, oldest first.
    pub history: Vec<S>,
    /// How many samples `history` keeps.
    pub max_history: usize,
    pub last_ac_status: Option<bool>,
    pub last_ac_boost: Option<u32>,
    pub last_ac_governor: Option<String>,
    pub last_ac_epp: Option<String>,
    pub last_dc_boost: Option<u32>,
    pub last_dc_governor: Option<String>,
    pub last_dc_epp: Option<String>,
    /// The value last written for each custom slot id while on AC.
    pub last_ac_custom: Vec<Option<String>>,
    /// The value last written for each custom slot id while on battery.
    pub last_dc_custom: Vec<Option<String>>,
}

/// Optional texts as values.
pub open spec fn opt_strs(s: Seq<Option<String>>) -> Seq<Option<Seq<char>>> {
    s.map_values(|o: Option<String>| opt_str(o))
}

/// `h` with `sample` appended and, where that makes it longer than `max`,
/// its oldest sample dropped.
pub open spec fn window<S>(h: Seq<S>, sample: S, max: nat) -> Seq<S> {
    let pushed = h.push(sample);
    if pushed.len() > max {
        pushed.drop_first()
    } else {
        pushed
    }
}

/// A hardware setting that the governor writes.
#[derive(Debug)]
pub enum HardwareSetting {
    /// Turbo under the boost paths: 0 disables it, any other value enables it.
    Turbo(u32),
    /// `energy_performance_preference` under the cpu paths.
    Epp(String),
    /// `scaling_governor` under the governor paths.
    Governor(String),
}

/// A hardware setting as a value.
pub enum SettingView {
    Turbo(u32),
    Epp(Seq<char>),
    Governor(Seq<char>),
}

impl View for HardwareSetting {
    type V = SettingView;

    open spec fn view(&self) -> SettingView {
        match self {
            HardwareSetting::Turbo(n) => SettingView::Turbo(*n),
            HardwareSetting::Epp(e) => SettingView::Epp(e@),
            HardwareSetting::Governor(g) => SettingView::Governor(g@),
        }
    }
}

/// Hardware settings as values.
pub open spec fn settings_view(s: Seq<HardwareSetting>) -> Seq<SettingView> {
    s.map_values(|h: HardwareSetting| h@)
}

/// The settings to write, in the order turbo, EPP, governor: each whose target
/// differs from what was last written, or all of them where the power source changed.
pub open spec fn hardware_plan(m: Memory, governor: Seq<char>, turbo: u32, epp: Seq<char>, changed: bool) -> Seq<SettingView> {
    let a = if m.boost != Some(turbo) || changed { seq![SettingView::Turbo(turbo)] } else { Seq::empty() };
    let b = if m.epp != Some(epp) || changed { seq![SettingView::Epp(epp)] } else { Seq::empty() };
    let c = if m.governor != Some(governor) || changed {
        seq![SettingView::Governor(governor)]
    } else {
        Seq::empty()
    };
    a + b + c
}

/// `m` after `s` was written.
pub open spec fn remember(m: Memory, s: SettingView) -> Memory {
    match s {
        SettingView::Turbo(n) => Memory { boost: Some(n), ..m },
        SettingView::Epp(e) => Memory { epp: Some(e), ..m },
        SettingView::Governor(g) => Memory { governor: Some(g), ..m },
    }
}

/// `m` after every setting of `plan` was written.
pub open spec fn remember_all(m: Memory, plan: Seq<SettingView>) -> Memory
    decreases plan.len(),
{
    if plan.len() == 0 {
        m
    } else {
        remember(remember_all(m, plan.drop_last()), plan.last())
    }
}

/// The value a custom slot asks for at `load`: that of the last step the load
/// reaches, where the slot has a folder and steps.
pub open spec fn slot_target(slot: SlotView, load: i32) -> Option<Seq<char>> {
    if slot.folder_path.len() == 0 || slot.thresholds.len() == 0 {
        None
    } else {
        value_at(slot.thresholds, last_at_or_below(slot.thresholds, load))
    }
}

/// The value to write into a custom slot: the one it asks for, where that
/// differs from what was last written for the slot id or the power source changed.
pub open spec fn custom_write(m: Memory, slot: SlotView, load: i32, changed: bool) -> Option<Seq<char>> {
    match slot_target(slot, load) {
        None => None,
        Some(v) => if m.custom[slot.slot_id as int] != Some(v) || changed {
            Some(v)
        } else {
            None
        },
    }
}

/// `m` after `v` was written for custom slot id `id`.
pub open spec fn remember_custom(m: Memory, id: u8, v: Seq<char>) -> Memory {
    Memory { custom: m.custom.update(id as int, Some(v)), ..m }
}

/// `m` after a tick over `slots` in which every custom write succeeded.
pub open spec fn custom_pass(m: Memory, slots: Seq<SlotView>, load: i32, changed: bool) -> Memory
    decreases slots.len(),
{
    if slots.len() == 0 {
        m
    } else {
        let m1 = custom_pass(m, slots.drop_last(), load, changed);
        match custom_write(m1, slots.last(), load, changed) {
            Some(v) => remember_custom(m1, slots.last().slot_id, v),
            None => m1,
        }
    }
}

/// The custom writes, `(slot id, value)`, made by a tick over `slots` in
/// which every write succeeded.
pub open spec fn custom_pass_writes(m: Memory, slots: Seq<SlotView>, load: i32, changed: bool) -> Seq<(u8, Seq<char>)>
    decreases slots.len(),
{
    if slots.len() == 0 {
        Seq::empty()
    } else {
        let rest = custom_pass_writes(m, slots.drop_last(), load, changed);
        match custom_write(custom_pass(m, slots.drop_last(), load, changed), slots.last(), load, changed) {
            Some(v) => rest.push((slots.last().slot_id, v)),
            None => rest,
        }
    }
}

/// The text written into `no_turbo` for a turbo value: `1` (turbo off) for 0,
/// `0` (turbo on) for any other value.
pub open spec fn no_turbo_text(n: u32) -> Seq<char> {
    if n == 0 {
        "1"@
    } else {
        "0"@
    }
}

impl HardwareSetting {
    /// The sysfs file that holds the setting.
    pub fn file_name(&self) -> (r: &'static str)
        ensures
            r@ == match self@ {
                SettingView::Turbo(_) => "no_turbo"@,
                SettingView::Epp(_) => "energy_performance_preference"@,
                SettingView::Governor(_) => "scaling_governor"@,
            },
    {
        match self {
            HardwareSetting::Turbo(_) => "no_turbo",
            HardwareSetting::Epp(_) => "energy_performance_preference",
            HardwareSetting::Governor(_) => "scaling_governor",
        }
    }

    /// The text written into the file; for turbo, `no_turbo` is `1` where the
    /// value is 0 and `0` (turbo enabled) for any other value.
    pub fn value_text(&self) -> (r: String)
        ensures
            r@ == match self@ {
                SettingView::Turbo(n) => no_turbo_text(n),
                SettingView::Epp(e) => e,
                SettingView::Governor(g) => g,
            },
    {
        match self {
            HardwareSetting::Turbo(n) => if *n == 0 {
                string_of(&chars_of("1"))
            } else {
                string_of(&chars_of("0"))
            },
            HardwareSetting::Epp(e) => e.clone(),
            HardwareSetting::Governor(g) => g.clone(),
        }
    }
}

fn differs(last: &Option<String>, target: &String) -> (r: bool)
    ensures
        r == (opt_str(*last) != Some(target@)),
{
    match last {
        Some(x) => *x != *target,
        None => true,
    }
}

impl<S> GovernorState<S> {
    /// What was last written while on AC (`is_ac`) or on battery.
    pub open spec fn memory(&self, is_ac: bool) -> Memory {
        if is_ac {
            Memory {
                boost: self.last_ac_boost,
                epp: opt_str(self.last_ac_epp),
                governor: opt_str(self.last_ac_governor),
                custom: opt_strs(self.last_ac_custom@),
            }
        } else {
            Memory {
                boost: self.last_dc_boost,
                epp: opt_str(self.last_dc_epp),
                governor: opt_str(self.last_dc_governor),
                custom: opt_strs(self.last_dc_custom@),
            }
        }
    }

    /// One remembered value for each of the 256 custom slot ids, on AC and on battery.
    pub open spec fn wf(&self) -> bool {
        &&& self.last_ac_custom@.len() == 256
        &&& self.last_dc_custom@.len() == 256
    }

    /// A fresh state: no samples, a window of 10, load level 0, nothing written yet.
    pub fn new() -> (r: Self)
        ensures
            r.wf(),
            r.avg_load == 0,
            r.history@.len() == 0,
            r.max_history == 10,
            r.last_ac_status is None,
            r.memory(true) == (Memory { boost: None, epp: None, governor: None, custom: Seq::new(256, |i: int| None) }),
            r.memory(false) == (Memory { boost: None, epp: None, governor: None, custom: Seq::new(256, |i: int| None) }),
    {
        let mut ac: Vec<Option<String>> = Vec::new();
        let mut dc: Vec<Option<String>> = Vec::new();
        let mut i: usize = 0;
        while i < 256
            invariant
                i <= 256,
                ac@.len() == i,
                dc@.len() == i,
                forall|j: int| 0 <= j < i ==> ac@[j] is None && dc@[j] is None,
            decreases 256 - i,
        {
            ac.push(None);
            dc.push(None);
            i = i + 1;
        }
        let r = GovernorState {
            avg_load: 0,
            history: Vec::new(),
            max_history: 10,
            last_ac_status: None,
            last_ac_boost: None,
            last_ac_governor: None,
            last_ac_epp: None,
            last_dc_boost: None,
            last_dc_governor: None,
            last_dc_epp: None,
            last_ac_custom: ac,
            last_dc_custom: dc,
        };
        assert(opt_strs(ac@) =~= Seq::new(256, |i: int| None));
        assert(opt_strs(dc@) =~= Seq::new(256, |i: int| None));
        r
    }

    /// Adds a load sample to the history, dropping the oldest where the
    /// history would exceed `max_history`.
    pub fn record_sample(&mut self, sample: S)
        ensures
            final(self).history@ == window(old(self).history@, sample, old(self).max_history as nat),
            final(self).max_history == old(self).max_history,
            final(self).avg_load == old(self).avg_load,
            final(self).last_ac_status == old(self).last_ac_status,
            final(self).memory(true) == old(self).memory(true),
            final(self).memory(false) == old(self).memory(false),
            final(self).wf() == old(self).wf(),
    {
        self.history.push(sample);
        if self.history.len() > self.max_history {
            self.history.remove(0);
            assert(self.history@ =~= old(self).history@.push(sample).drop_first());
        }
    }

    /// The hardware settings to write for the targets, in the order turbo, EPP,
    /// governor: each whose target differs from what was last written on this
    /// power source, or all three where the power source changed.
    pub fn pending_hardware_writes(&self, t_governor: &String, t_turbo: u32, t_epp: &String, is_ac: bool, changed: bool) -> (r: Vec<HardwareSetting>)
        ensures
            settings_view(r@) == hardware_plan(self.memory(is_ac), t_governor@, t_turbo, t_epp@, changed),
    {
        let (boost, epp, governor) = if is_ac {
            (&self.last_ac_boost, &self.last_ac_epp, &self.last_ac_governor)
        } else {
            (&self.last_dc_boost, &self.last_dc_epp, &self.last_dc_governor)
        };
        let mut r: Vec<HardwareSetting> = Vec::new();
        let boost_differs = match boost {
            Some(b) => *b != t_turbo,
            None => true,
        };
        if boost_differs || changed {
            r.push(HardwareSetting::Turbo(t_turbo));
        }
        if differs(epp, t_epp) || changed {
            r.push(HardwareSetting::Epp(t_epp.clone()));
        }
        if differs(governor, t_governor) || changed {
            r.push(HardwareSetting::Governor(t_governor.clone()));
        }
        assert(settings_view(r@) =~= hardware_plan(self.memory(is_ac), t_governor@, t_turbo, t_epp@, changed));
        r
    }

    /// Remembers that `setting` was written while on AC (`is_ac`) or on battery.
    pub fn record_hardware_write(&mut self, setting: &HardwareSetting, is_ac: bool)
        ensures
            final(self).memory(is_ac) == remember(old(self).memory(is_ac), setting@),
            final(self).memory(!is_ac) == old(self).memory(!is_ac),
            final(self).history == old(self).history,
            final(self).max_history == old(self).max_history,
            final(self).avg_load == old(self).avg_load,
            final(self).last_ac_status == old(self).last_ac_status,
            final(self).wf() == old(self).wf(),
    {
        match setting {
            HardwareSetting::Turbo(n) => {
                if is_ac {
                    self.last_ac_boost = Some(*n);
                } else {
                    self.last_dc_boost = Some(*n);
                }
            },
            HardwareSetting::Epp(e) => {
                if is_ac {
                    self.last_ac_epp = Some(e.clone());
                } else {
                    self.last_dc_epp = Some(e.clone());
                }
            },
            HardwareSetting::Governor(g) => {
                if is_ac {
                    self.last_ac_governor = Some(g.clone());
                } else {
                    self.last_dc_governor = Some(g.clone());
                }
            },
        }
    }

    /// The value to write into `slot` on this tick, if any: that of the last
    /// step the averaged load reaches, where the slot has a folder and steps,
    /// and the value differs from what was last written for the slot id on
    /// this power source or the power source changed.
    pub fn custom_write_for(&self, slot: &CustomSlots, changed: bool, is_ac: bool) -> (r: Option<String>)
        requires
            (slot.slot_id as int) < self.memory(is_ac).custom.len(),
        ensures
            opt_str(r) == custom_write(self.memory(is_ac), slot@, self.avg_load, changed),
    {
        if slot.folder_path.as_str().is_empty() || slot.thresholds.len() == 0 {
            return None;
        }
        proof {
            lemma_last_view(slot.thresholds@, self.avg_load, slot.thresholds@.len() as int);
        }
        match active_value(&slot.thresholds, self.avg_load) {
            None => None,
            Some(v) => {
                let last = if is_ac {
                    &self.last_ac_custom[slot.slot_id as usize]
                } else {
                    &self.last_dc_custom[slot.slot_id as usize]
                };
                assert(self.memory(is_ac).custom[slot.slot_id as int] == opt_str(*last));
                if differs(last, &v) || changed {
                    Some(v)
                } else {
                    None
                }
            },
        }
    }

    /// Records the power source seen on this tick and tells whether it differs
    /// from the one seen on the tick before (true on the first tick).
    pub fn observe_power_source(&mut self, is_ac: bool) -> (changed: bool)
        ensures
            changed == (old(self).last_ac_status != Some(is_ac)),
            final(self).last_ac_status == Some(is_ac),
            final(self).memory(true) == old(self).memory(true),
            final(self).memory(false) == old(self).memory(false),
            final(self).history == old(self).history,
            final(self).max_history == old(self).max_history,
            final(self).avg_load == old(self).avg_load,
            final(self).wf() == old(self).wf(),
    {
        let changed = match self.last_ac_status {
            Some(b) => b != is_ac,
            None => true,
        };
        self.last_ac_status = Some(is_ac);
        changed
    }

    /// Remembers that `value` was written for custom slot id `slot_id`.
    pub fn record_custom_write(&mut self, slot_id: u8, value: &String, is_ac: bool)
        requires
            (slot_id as int) < old(self).memory(is_ac).custom.len(),
        ensures
            final(self).wf() == old(self).wf(),
            final(self).memory(is_ac) == remember_custom(old(self).memory(is_ac), slot_id, value@),
            final(self).memory(!is_ac) == old(self).memory(!is_ac),
            final(self).history == old(self).history,
            final(self).max_history == old(self).max_history,
            final(self).avg_load == old(self).avg_load,
            final(self).last_ac_status == old(self).last_ac_status,
    {
        let id = slot_id as usize;
        if is_ac {
            self.last_ac_custom.set(id, Some(value.clone()));
            assert(opt_strs(self.last_ac_custom@) =~= opt_strs(old(self).last_ac_custom@).update(
                slot_id as int,
                Some(value@),
            ));
        } else {
            self.last_dc_custom.set(id, Some(value.clone()));
            assert(opt_strs(self.last_dc_custom@) =~= opt_strs(old(self).last_dc_custom@).update(
                slot_id as int,
                Some(value@),
            ));
        }
    }
}


// ---------------------------------------------------------------------------
// Laws
// ---------------------------------------------------------------------------

proof fn lemma_first_from_is_first<V>(steps: Seq<(i32, V)>, load: i32, i: int, k: int)
    requires
        0 <= i <= k < steps.len(),
        load <= steps[k].0,
        forall|j: int| i <= j < k ==> steps[j].0 < load,
    ensures
        first_at_or_above_from(steps, load, i) == Some(k),
    decreases k - i,
{
    if i < k {
        lemma_first_from_is_first(steps, load, i + 1, k);
    }
}

proof fn lemma_last_upto_is_last<V>(steps: Seq<(i32, V)>, load: i32, n: int, k: int)
    requires
        0 <= k < n <= steps.len(),
        steps[k].0 <= load,
        forall|j: int| k < j < n ==> load < steps[j].0,
    ensures
        last_at_or_below_upto(steps, load, n) == Some(k),
    decreases n - k,
{
    if k < n - 1 {
        lemma_last_upto_is_last(steps, load, n - 1, k);
    }
}

/// On an ordered staircase of thresholds, a load above the threshold before
/// step `k` and at most step `k`'s threshold selects step `k` (the first step
/// at or above the load).
pub proof fn law_first_step_brackets_load<V>(steps: Seq<(i32, V)>, load: i32, k: int)
    requires
        ordered_by_level(steps),
        0 <= k < steps.len(),
        load <= steps[k].0,
        k > 0 ==> steps[k - 1].0 < load,
    ensures
        first_at_or_above(steps, load) == Some(k),
{
    assert forall|j: int| 0 <= j < k implies steps[j].0 < load by {
        assert(steps[j].0 <= steps[k - 1].0);
    }
    lemma_first_from_is_first(steps, load, 0, k);
}

/// On an ordered staircase of thresholds, a load that reaches step `k`'s
/// threshold but not the next one's selects step `k` (the last step the load reaches).
pub proof fn law_last_step_reached<V>(steps: Seq<(i32, V)>, load: i32, k: int)
    requires
        ordered_by_level(steps),
        0 <= k < steps.len(),
        steps[k].0 <= load,
        k + 1 < steps.len() ==> load < steps[k + 1].0,
    ensures
        last_at_or_below(steps, load) == Some(k),
{
    assert forall|j: int| k < j < steps.len() implies load < steps[j].0 by {
        assert(steps[k + 1].0 <= steps[j].0);
    }
    lemma_last_upto_is_last(steps, load, steps.len() as int, k);
}

proof fn lemma_last_upto_monotone<V>(steps: Seq<(i32, V)>, a: i32, b: i32, n: int)
    requires
        a <= b,
    ensures
        last_at_or_below_upto(steps, a, n) matches Some(i) ==> (last_at_or_below_upto(steps, b, n) matches Some(j) && i <= j),
    decreases n,
{
    if 0 < n <= steps.len() {
        lemma_last_upto_monotone(steps, a, b, n - 1);
        lemma_last_upto_bounds(steps, a, n - 1);
    }
}

proof fn lemma_last_upto_bounds<V>(steps: Seq<(i32, V)>, load: i32, n: int)
    ensures
        last_at_or_below_upto(steps, load, n) matches Some(i) ==> 0 <= i < n,
    decreases n,
{
    if 0 < n <= steps.len() {
        lemma_last_upto_bounds(steps, load, n - 1);
    }
}

proof fn lemma_first_from_monotone<V>(steps: Seq<(i32, V)>, a: i32, b: i32, i: int)
    requires
        a <= b,
    ensures
        first_at_or_above_from(steps, b, i) matches Some(j) ==> (first_at_or_above_from(steps, a, i) matches Some(k) && k <= j),
    decreases steps.len() - i,
{
    if 0 <= i < steps.len() {
        lemma_first_from_monotone(steps, a, b, i + 1);
        lemma_first_from_bounds(steps, a, i + 1);
    }
}

proof fn lemma_first_from_bounds<V>(steps: Seq<(i32, V)>, load: i32, i: int)
    ensures
        first_at_or_above_from(steps, load, i) matches Some(k) ==> i <= k,
    decreases steps.len() - i,
{
    if 0 <= i < steps.len() {
        lemma_first_from_bounds(steps, load, i + 1);
    }
}

/// A higher load never selects an earlier step: neither the last step it
/// reaches (custom slots) nor the first step at or above it (hardware settings).
pub proof fn law_higher_load_never_selects_earlier_step<V>(steps: Seq<(i32, V)>, low: i32, high: i32)
    requires
        low <= high,
    ensures
        last_at_or_below(steps, low) matches Some(i) ==> (last_at_or_below(steps, high) matches Some(j) && i <= j),
        first_at_or_above(steps, high) matches Some(j) ==> (first_at_or_above(steps, low) matches Some(i) && i <= j),
{
    lemma_last_upto_monotone(steps, low, high, steps.len() as int);
    lemma_first_from_monotone(steps, low, high, 0);
}

/// Once every pending hardware write has been made and remembered, the same
/// targets ask for no write on a tick where the power source did not change.
pub proof fn law_written_settings_settle(m: Memory, governor: Seq<char>, turbo: u32, epp: Seq<char>, changed: bool)
    ensures
        hardware_plan(
            remember_all(m, hardware_plan(m, governor, turbo, epp, changed)),
            governor,
            turbo,
            epp,
            false,
        ).len() == 0,
{
    let plan = hardware_plan(m, governor, turbo, epp, changed);
    let a = if m.boost != Some(turbo) || changed { seq![SettingView::Turbo(turbo)] } else { Seq::empty() };
    let b = if m.epp != Some(epp) || changed { seq![SettingView::Epp(epp)] } else { Seq::empty() };
    let c = if m.governor != Some(governor) || changed {
        seq![SettingView::Governor(governor)]
    } else {
        Seq::empty()
    };
    assert(plan == a + b + c);
    lemma_remember_all_concat(m, a + b, c);
    lemma_remember_all_concat(m, a, b);
    let ma = remember_all(m, a);
    let mb = remember_all(ma, b);
    let mc = remember_all(mb, c);
    lemma_remember_one(m, a);
    lemma_remember_one(ma, b);
    lemma_remember_one(mb, c);
    assert(mc.boost == Some(turbo));
    assert(mc.epp == Some(epp));
    assert(mc.governor == Some(governor));
    assert(hardware_plan(mc, governor, turbo, epp, false) =~= Seq::<SettingView>::empty());
}

proof fn lemma_remember_one(m: Memory, p: Seq<SettingView>)
    requires
        p.len() <= 1,
    ensures
        remember_all(m, p) == if p.len() == 0 { m } else { remember(m, p[0]) },
{
    if p.len() == 1 {
        assert(p.drop_last() =~= Seq::<SettingView>::empty());
        assert(remember_all(m, p.drop_last()) == m);
        assert(p.last() == p[0]);
    }
}

proof fn lemma_remember_all_concat(m: Memory, p: Seq<SettingView>, q: Seq<SettingView>)
    ensures
        remember_all(m, p + q) == remember_all(remember_all(m, p), q),
    decreases q.len(),
{
    if q.len() == 0 {
        assert(p + q =~= p);
    } else {
        lemma_remember_all_concat(m, p, q.drop_last());
        assert((p + q).drop_last() =~= p + q.drop_last());
    }
}

/// When the power source changes, every hardware setting is written again,
/// in the order turbo, EPP, governor, whatever was written before.
pub proof fn law_power_source_change_rewrites_all(m: Memory, governor: Seq<char>, turbo: u32, epp: Seq<char>)
    ensures
        hardware_plan(m, governor, turbo, epp, true) == seq![
            SettingView::Turbo(turbo),
            SettingView::Epp(epp),
            SettingView::Governor(governor),
        ],
{
    assert(hardware_plan(m, governor, turbo, epp, true) =~= seq![
        SettingView::Turbo(turbo),
        SettingView::Epp(epp),
        SettingView::Governor(governor),
    ]);
}

/// Once a custom slot's value has been written and remembered, the slot asks
/// for no write at the same load on a tick where the power source did not change.
pub proof fn law_written_slot_settles(m: Memory, slot: SlotView, load: i32, changed: bool)
    requires
        slot.slot_id < m.custom.len(),
    ensures
        custom_write(m, slot, load, changed) matches Some(v) ==> custom_write(
            Memory { custom: m.custom.update(slot.slot_id as int, Some(v)), ..m },
            slot,
            load,
            false,
        ) is None,
{
}

/// The slots' ids are distinct and each has a remembered value in `m`.
pub open spec fn distinct_known_ids(m: Memory, slots: Seq<SlotView>) -> bool {
    &&& forall|i: int| 0 <= i < slots.len() ==> (#[trigger] slots[i].slot_id as int) < m.custom.len()
    &&& forall|i: int, j: int|
        0 <= i < slots.len() && 0 <= j < slots.len() && i != j ==> #[trigger] slots[i].slot_id
            != #[trigger] slots[j].slot_id
}

/// Every slot that asks for a value has it remembered in `m`.
pub open spec fn targets_remembered(m: Memory, slots: Seq<SlotView>, load: i32) -> bool {
    forall|i: int|
        0 <= i < slots.len() ==> (#[trigger] slot_target(slots[i], load) matches Some(v) ==> m.custom[slots[i].slot_id as int] == Some(v))
}

proof fn lemma_pass_remembers_targets(m: Memory, slots: Seq<SlotView>, load: i32, changed: bool)
    requires
        distinct_known_ids(m, slots),
    ensures
        targets_remembered(custom_pass(m, slots, load, changed), slots, load),
        custom_pass(m, slots, load, changed).custom.len() == m.custom.len(),
    decreases slots.len(),
{
    if slots.len() > 0 {
        let t = slots.drop_last();
        assert(distinct_known_ids(m, t)) by {
            assert forall|i: int, j: int|
                0 <= i < t.len() && 0 <= j < t.len() && i != j implies #[trigger] t[i].slot_id
                != #[trigger] t[j].slot_id by {
                assert(t[i] == slots[i] && t[j] == slots[j]);
            }
            assert forall|i: int| 0 <= i < t.len() implies (#[trigger] t[i].slot_id as int) < m.custom.len() by {
                assert(t[i] == slots[i]);
            }
        }
        lemma_pass_remembers_targets(m, t, load, changed);
        let m1 = custom_pass(m, t, load, changed);
        let last = slots.last();
        assert(slots[slots.len() - 1] == last);
        assert forall|i: int| 0 <= i < slots.len() implies (#[trigger] slot_target(slots[i], load) matches Some(v)
            ==> custom_pass(m, slots, load, changed).custom[slots[i].slot_id as int] == Some(v)) by {
            if i < slots.len() - 1 {
                assert(slots[i] == t[i]);
                assert(slots[i].slot_id != slots[slots.len() - 1].slot_id);
            }
        }
    }
}

proof fn lemma_quiet_pass(m: Memory, slots: Seq<SlotView>, load: i32)
    requires
        distinct_known_ids(m, slots),
        targets_remembered(m, slots, load),
    ensures
        custom_pass(m, slots, load, false) == m,
        custom_pass_writes(m, slots, load, false).len() == 0,
    decreases slots.len(),
{
    if slots.len() > 0 {
        let t = slots.drop_last();
        assert(distinct_known_ids(m, t)) by {
            assert forall|i: int, j: int|
                0 <= i < t.len() && 0 <= j < t.len() && i != j implies #[trigger] t[i].slot_id
                != #[trigger] t[j].slot_id by {
                assert(t[i] == slots[i] && t[j] == slots[j]);
            }
            assert forall|i: int| 0 <= i < t.len() implies (#[trigger] t[i].slot_id as int) < m.custom.len() by {
                assert(t[i] == slots[i]);
            }
        }
        assert(targets_remembered(m, t, load)) by {
            assert forall|i: int| 0 <= i < t.len() implies (#[trigger] slot_target(t[i], load) matches Some(v)
                ==> m.custom[t[i].slot_id as int] == Some(v)) by {
                assert(t[i] == slots[i]);
            }
        }
        lemma_quiet_pass(m, t, load);
        assert(slot_target(slots[slots.len() - 1], load) == slot_target(slots.last(), load));
    }
}

/// Once a tick over a list of custom slots with distinct ids has written every
/// value it asked for, a next tick over the same slots at the same load, with
/// the power source unchanged, writes nothing and leaves the memory as it is.
pub proof fn law_written_slots_settle(m: Memory, slots: Seq<SlotView>, load: i32, changed: bool)
    requires
        distinct_known_ids(m, slots),
    ensures
        custom_pass_writes(custom_pass(m, slots, load, changed), slots, load, false).len() == 0,
        custom_pass(custom_pass(m, slots, load, changed), slots, load, false) == custom_pass(
            m,
            slots,
            load,
            changed,
        ),
{
    lemma_pass_remembers_targets(m, slots, load, changed);
    let m2 = custom_pass(m, slots, load, changed);
    assert(distinct_known_ids(m2, slots));
    lemma_quiet_pass(m2, slots, load);
}

/// On a tick, the turbo, EPP and governor settings are each planned exactly
/// when what was last written for it on this power source is not the target
/// (nothing written counting as different), or the power source changed; the
/// plan holds nothing else, and lists turbo before EPP before governor.
pub proof fn law_plan_holds_exactly_the_stale_settings(m: Memory, governor: Seq<char>, turbo: u32, epp: Seq<char>, changed: bool)
    ensures
        hardware_plan(m, governor, turbo, epp, changed).contains(SettingView::Turbo(turbo))
            <==> (m.boost != Some(turbo) || changed),
        hardware_plan(m, governor, turbo, epp, changed).contains(SettingView::Epp(epp))
            <==> (m.epp != Some(epp) || changed),
        hardware_plan(m, governor, turbo, epp, changed).contains(SettingView::Governor(governor))
            <==> (m.governor != Some(governor) || changed),
        forall|i: int|
            0 <= i < hardware_plan(m, governor, turbo, epp, changed).len() ==> {
                let x = #[trigger] hardware_plan(m, governor, turbo, epp, changed)[i];
                x == SettingView::Turbo(turbo) || x == SettingView::Epp(epp) || x
                    == SettingView::Governor(governor)
            },
        forall|i: int, j: int|
            0 <= i < j < hardware_plan(m, governor, turbo, epp, changed).len() ==> setting_rank(
                #[trigger] hardware_plan(m, governor, turbo, epp, changed)[i],
            ) < setting_rank(#[trigger] hardware_plan(m, governor, turbo, epp, changed)[j]),
{
    let plan = hardware_plan(m, governor, turbo, epp, changed);
    let a = if m.boost != Some(turbo) || changed { seq![SettingView::Turbo(turbo)] } else { Seq::empty() };
    let b = if m.epp != Some(epp) || changed { seq![SettingView::Epp(epp)] } else { Seq::empty() };
    let c = if m.governor != Some(governor) || changed {
        seq![SettingView::Governor(governor)]
    } else {
        Seq::empty()
    };
    assert(plan =~= a + b + c);
    if m.boost != Some(turbo) || changed {
        assert(plan[0] == SettingView::Turbo(turbo));
    }
    if m.epp != Some(epp) || changed {
        assert(plan[a.len() as int] == SettingView::Epp(epp));
    }
    if m.governor != Some(governor) || changed {
        assert(plan[(a.len() + b.len()) as int] == SettingView::Governor(governor));
    }
    assert forall|i: int| 0 <= i < plan.len() implies setting_rank(#[trigger] plan[i]) == (if i
        < a.len() {
        0int
    } else if i < a.len() + b.len() {
        1int
    } else {
        2int
    }) by {
        if i < a.len() {
            assert(plan[i] == a[i]);
        } else if i < a.len() + b.len() {
            assert(plan[i] == b[i - a.len()]);
        } else {
            assert(plan[i] == c[i - a.len() - b.len()]);
        }
    }
}

/// The place of a setting in the order of writing: turbo, EPP, governor.
pub open spec fn setting_rank(s: SettingView) -> int {
    match s {
        SettingView::Turbo(_) => 0,
        SettingView::Epp(_) => 1,
        SettingView::Governor(_) => 2,
    }
}

/// The step chosen for a load is the first whose level is at or above it: the
/// index found is such a step and none before it is; no index is found exactly
/// when every step lies below the load.
pub proof fn law_first_step_at_or_above<V>(steps: Seq<(i32, V)>, load: i32)
    ensures
        first_at_or_above(steps, load) is None <==> (forall|i: int| 0 <= i < steps.len() ==> #[trigger] steps[i].0 < load),
        first_at_or_above(steps, load) matches Some(k) ==> 0 <= k < steps.len() && load <= steps[k].0
            && forall|j: int| 0 <= j < k ==> #[trigger] steps[j].0 < load,
{
    lemma_first_from_char(steps, load, 0);
}

proof fn lemma_first_from_char<V>(steps: Seq<(i32, V)>, load: i32, i: int)
    requires
        0 <= i,
    ensures
        first_at_or_above_from(steps, load, i) is None <==> (forall|j: int| i <= j < steps.len() ==> #[trigger] steps[j].0 < load),
        first_at_or_above_from(steps, load, i) matches Some(k) ==> i <= k < steps.len() && load <= steps[k].0
            && forall|j: int| i <= j < k ==> #[trigger] steps[j].0 < load,
    decreases steps.len() - i,
{
    if i < steps.len() && !(load <= steps[i].0) {
        lemma_first_from_char(steps, load, i + 1);
    }
}

/// The step a staircase selects for a load is the last whose level the load
/// reaches: the index found is such a step and none after it is; no index is
/// found exactly when every step lies above the load.
pub proof fn law_last_step_at_or_below<V>(steps: Seq<(i32, V)>, load: i32)
    ensures
        last_at_or_below(steps, load) is None <==> (forall|i: int| 0 <= i < steps.len() ==> load < #[trigger] steps[i].0),
        last_at_or_below(steps, load) matches Some(k) ==> 0 <= k < steps.len() && steps[k].0 <= load
            && forall|j: int| k < j < steps.len() ==> load < #[trigger] steps[j].0,
{
    lemma_last_upto_char(steps, load, steps.len() as int);
}

proof fn lemma_last_upto_char<V>(steps: Seq<(i32, V)>, load: i32, n: int)
    requires
        0 <= n <= steps.len(),
    ensures
        last_at_or_below_upto(steps, load, n) is None <==> (forall|j: int| 0 <= j < n ==> load < #[trigger] steps[j].0),
        last_at_or_below_upto(steps, load, n) matches Some(k) ==> 0 <= k < n && steps[k].0 <= load
            && forall|j: int| k < j < n ==> load < #[trigger] steps[j].0,
    decreases n,
{
    if n > 0 && !(steps[n - 1].0 <= load) {
        lemma_last_upto_char(steps, load, n - 1);
    }
}

/// The text chosen from a list of steps for a load: the default where every
/// step lies below the load, else the text of the first step at or above it.
pub proof fn law_text_of_first_step_or_default(steps: Seq<(i32, Seq<char>)>, load: i32, default: Seq<char>)
    ensures
        (forall|i: int| 0 <= i < steps.len() ==> #[trigger] steps[i].0 < load) ==> first_text_or(
            steps,
            load,
            default,
        ) == default,
        forall|k: int|
            0 <= k < steps.len() && load <= #[trigger] steps[k].0 && (forall|j: int|
                0 <= j < k ==> #[trigger] steps[j].0 < load) ==> first_text_or(steps, load, default)
                == steps[k].1,
{
    law_first_step_at_or_above(steps, load);
    assert forall|k: int|
        0 <= k < steps.len() && load <= #[trigger] steps[k].0 && (forall|j: int|
            0 <= j < k ==> #[trigger] steps[j].0 < load) implies first_text_or(steps, load, default)
        == steps[k].1 by {
        let f = first_at_or_above(steps, load);
        if f is None {
            assert(steps[k].0 < load);
        }
        let k2 = f->0;
        if k2 < k {
            assert(steps[k2].0 < load);
        } else if k < k2 {
            assert(steps[k].0 < load);
        }
    }
}

/// A custom slot asks for a value exactly when it has a folder and steps and
/// some step's level is reached by the load; the value is that of the last
/// such step. It is written exactly when it differs from what was last
/// written for the slot's id, or the power source changed.
pub proof fn law_custom_write_is_the_reached_step(m: Memory, slot: SlotView, load: i32, changed: bool)
    ensures
        slot_target(slot, load) is Some <==> (slot.folder_path.len() > 0 && exists|i: int|
            0 <= i < slot.thresholds.len() && #[trigger] slot.thresholds[i].0 <= load),
        slot_target(slot, load) matches Some(v) ==> exists|k: int|
            0 <= k < slot.thresholds.len() && #[trigger] slot.thresholds[k].0 <= load
                && slot.thresholds[k].1 == v && forall|j: int|
                k < j < slot.thresholds.len() ==> load < #[trigger] slot.thresholds[j].0,
        custom_write(m, slot, load, changed) is Some <==> (slot_target(slot, load) is Some && (
        m.custom[slot.slot_id as int] != slot_target(slot, load) || changed)),
        custom_write(m, slot, load, changed) is Some ==> custom_write(m, slot, load, changed)
            == slot_target(slot, load),
{
    law_last_step_at_or_below(slot.thresholds, load);
    if slot.folder_path.len() > 0 && slot.thresholds.len() > 0 {
        if let Some(k) = last_at_or_below(slot.thresholds, load) {
            assert(slot.thresholds[k].0 <= load);
        } else {
            assert forall|i: int| 0 <= i < slot.thresholds.len() implies !(#[trigger] slot.thresholds[i].0 <= load) by {}
        }
    } else if slot.folder_path.len() > 0 {
        assert forall|i: int| 0 <= i < slot.thresholds.len() implies !(#[trigger] slot.thresholds[i].0 <= load) by {}
    }
}

/// Turbo is switched on (`no_turbo` gets `0`) for every non-zero turbo value,
/// and off (`no_turbo` gets `1`) for 0.
pub proof fn law_turbo_value_one_enables_turbo(n: u32)
    ensures
        n != 0 ==> no_turbo_text(n) == seq!['0'],
        n == 0 ==> no_turbo_text(n) == seq!['1'],
{
    reveal_strlit("0");
    reveal_strlit("1");
    assert("0"@ =~= seq!['0']);
    assert("1"@ =~= seq!['1']);
}

/// Adding a sample to a history shorter than `max` keeps every sample; to a
/// history of `max` samples or more, it drops exactly the oldest one.
pub proof fn law_window_drops_only_the_oldest<S>(h: Seq<S>, sample: S, max: nat)
    ensures
        h.len() < max ==> window(h, sample, max) == h.push(sample),
        h.len() >= max ==> window(h, sample, max) == h.push(sample).subrange(1, h.len() + 1int),
{
    if h.len() >= max {
        assert(h.push(sample).drop_first() =~= h.push(sample).subrange(1, h.len() + 1int));
    }
}

/// A history within its window stays within it: adding a sample keeps at most
/// `max` samples, the newest last.
pub proof fn law_history_stays_within_window<S>(h: Seq<S>, sample: S, max: nat)
    requires
        h.len() <= max,
    ensures
        window(h, sample, max).len() <= max,
        max > 0 ==> window(h, sample, max).last() == sample,
{
}

} // verus!
