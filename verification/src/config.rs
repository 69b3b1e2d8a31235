//! The configuration file: `key=value` lines that tie hardware settings to
//! load thresholds, and the custom slots that write arbitrary files.
//!
//! A load threshold is held as an `i32` level: a number that orders loads the
//! way the percentages written in the file order them. Turning the text of a
//! threshold into its level is left to the caller ([`Config::level_texts`]
//! names the texts); everything else about the file is decided here.

use vstd::prelude::*;
use crate::number::{IntErrorKind, u32_parse, parse_u32};
use crate::text::{
    match_at, find_from, chars_of, contains, contains_spec, count_char, count_of, find, find_spec, has_prefix,
    has_suffix, numeric_prefix, numeric_prefix_from, same_chars, slice_chars, starts_with,
    ends_with, string_of, string_of_range, trim_bounds, trim_spec, trimmed_range,
};

verus! {

/// A custom slot: a file (or one file in each subfolder) that receives the
/// value of the highest threshold that the current load reaches.
#[derive(Debug)]
pub struct CustomSlots {
    /// The folder that holds the file, or its subfolders.
    pub folder_path: String,
    /// `1` (after trimming) to write the file in every subfolder of `folder_path`.
    pub subfolder_check: String,
    /// The name of the file to write.
    pub file_name: String,
    /// `(level, value)` steps, ordered by level.
    pub thresholds: Vec<(i32, String)>,
    /// The slot's index in its list, modulo 256.
    pub slot_id: u8,
}

/// The configuration: thresholds for AC and battery power, and custom slots.
#[derive(Debug)]
pub struct Config {
    /// `ac_<load>_governor` steps.
    pub ac_governor: Vec<(i32, String)>,
    /// `ac_<load>_turbo` steps: 1 (any non-zero value) enables turbo, 0 disables it.
    pub ac_turbo: Vec<(i32, u32)>,
    /// `ac_<load>_epp` steps.
    pub ac_epp: Vec<(i32, String)>,
    /// The governor used on battery where a `dc_*_governor` step applies (`dc_max_cap`).
    pub dc_cap_governor: String,
    /// `dc_<load>_governor` steps; only their thresholds are used.
    pub dc_governor: Vec<(i32, String)>,
    /// `dc_<load>_epp` steps.
    pub dc_epp: Vec<(i32, String)>,
    /// Custom slots used on AC, by slot number.
    pub ac_custom: Vec<CustomSlots>,
    /// Custom slots used on battery, by slot number.
    pub dc_custom: Vec<CustomSlots>,
}

/// Why the configuration text was refused.
#[derive(Clone, Copy, Debug, PartialEq, Eq, Structural)]
pub enum ConfigError {
    /// The line (counted from 1) is not blank, not a comment, and does not hold exactly one `=`.
    InvalidFormat { line: usize },
    /// An `ac_*_turbo` value is not a `u32`.
    InvalidTurbo(IntErrorKind),
}

/// The levels of the two thresholds that a line may name: that of a hardware
/// setting and that of a custom slot step.
#[derive(Clone, Copy, Debug)]
pub struct LineLevels {
    pub setting: i32,
    pub slot: i32,
}

/// The texts of the thresholds that a line names, as the file writes them.
#[derive(Debug)]
pub struct LevelTexts {
    pub setting: Option<String>,
    pub slot: Option<String>,
}

/// A custom slot as a value.
pub struct SlotView {
    pub folder_path: Seq<char>,
    pub subfolder_check: Seq<char>,
    pub file_name: Seq<char>,
    pub thresholds: Seq<(i32, Seq<char>)>,
    pub slot_id: u8,
}

/// The configuration as a value.
pub struct ConfigView {
    pub ac_governor: Seq<(i32, Seq<char>)>,
    pub ac_turbo: Seq<(i32, u32)>,
    pub ac_epp: Seq<(i32, Seq<char>)>,
    pub dc_cap_governor: Seq<char>,
    pub dc_governor: Seq<(i32, Seq<char>)>,
    pub dc_epp: Seq<(i32, Seq<char>)>,
    pub ac_custom: Seq<SlotView>,
    pub dc_custom: Seq<SlotView>,
}

/// A list of `(level, text)` steps as values.
pub open spec fn steps_view(s: Seq<(i32, String)>) -> Seq<(i32, Seq<char>)> {
    s.map_values(|e: (i32, String)| (e.0, e.1@))
}

/// A list of custom slots as values.
pub open spec fn slots_view(s: Seq<CustomSlots>) -> Seq<SlotView> {
    s.map_values(|x: CustomSlots| x@)
}

impl View for CustomSlots {
    type V = SlotView;

    open spec fn view(&self) -> SlotView {
        SlotView {
            folder_path: self.folder_path@,
            subfolder_check: self.subfolder_check@,
            file_name: self.file_name@,
            thresholds: steps_view(self.thresholds@),
            slot_id: self.slot_id,
        }
    }
}

impl View for Config {
    type V = ConfigView;

    open spec fn view(&self) -> ConfigView {
        ConfigView {
            ac_governor: steps_view(self.ac_governor@),
            ac_turbo: self.ac_turbo@,
            ac_epp: steps_view(self.ac_epp@),
            dc_cap_governor: self.dc_cap_governor@,
            dc_governor: steps_view(self.dc_governor@),
            dc_epp: steps_view(self.dc_epp@),
            ac_custom: slots_view(self.ac_custom@),
            dc_custom: slots_view(self.dc_custom@),
        }
    }
}

// ---------------------------------------------------------------------------
// The meaning of the file
// ---------------------------------------------------------------------------

/// `s` with `e` placed after every step whose level is at most `e`'s and before
/// the others: what a stable sort by level makes of an ordered list with `e` appended.
pub open spec fn insert_by_level<V>(s: Seq<(i32, V)>, e: (i32, V)) -> Seq<(i32, V)>
    decreases s.len(),
{
    if s.len() == 0 {
        seq![e]
    } else if s.last().0 <= e.0 {
        s.push(e)
    } else {
        insert_by_level(s.drop_last(), e).push(s.last())
    }
}

/// The steps are ordered by level.
pub open spec fn ordered_by_level<V>(s: Seq<(i32, V)>) -> bool {
    forall|i: int, j: int| 0 <= i <= j < s.len() ==> s[i].0 <= s[j].0
}

/// What a line of the file is.
pub enum LineShape {
    /// Blank, or a comment (starting with `#`).
    Skipped,
    /// Not exactly one `=`.
    Malformed,
    /// `key=value`, both trimmed.
    Setting { key: Seq<char>, val: Seq<char> },
}

pub open spec fn line_shape(line: Seq<char>) -> LineShape {
    if trim_spec(line).len() == 0 || has_prefix(line, "#"@) {
        LineShape::Skipped
    } else if count_char(line, '=') != 1 {
        LineShape::Malformed
    } else {
        let p = find_spec(line, "="@)->0;
        LineShape::Setting {
            key: trim_spec(line.subrange(0, p)),
            val: trim_spec(line.subrange(p + 1, line.len() as int)),
        }
    }
}

/// Which hardware setting a key names.
#[derive(Clone, Copy, Debug, PartialEq, Eq, Structural)]
pub enum SettingKind {
    AcGovernor,
    AcTurbo,
    AcEpp,
    DcMaxCap,
    DcGovernor,
    DcEpp,
    NoSetting,
}

pub open spec fn setting_kind(key: Seq<char>) -> SettingKind {
    let ac = has_prefix(key, "ac_"@);
    let dc = has_prefix(key, "dc_"@);
    if ac && has_suffix(key, "_governor"@) {
        SettingKind::AcGovernor
    } else if ac && has_suffix(key, "_turbo"@) {
        SettingKind::AcTurbo
    } else if ac && has_suffix(key, "_epp"@) {
        SettingKind::AcEpp
    } else if key == "dc_max_cap"@ {
        SettingKind::DcMaxCap
    } else if dc && has_suffix(key, "_governor"@) {
        SettingKind::DcGovernor
    } else if dc && has_suffix(key, "_epp"@) {
        SettingKind::DcEpp
    } else {
        SettingKind::NoSetting
    }
}

/// The key's prefix for a setting that reads a threshold from its key.
pub open spec fn kind_prefix(k: SettingKind) -> Seq<char> {
    match k {
        SettingKind::DcGovernor | SettingKind::DcEpp => "dc_"@,
        _ => "ac_"@,
    }
}

/// The key's suffix for a setting that reads a threshold from its key.
pub open spec fn kind_suffix(k: SettingKind) -> Seq<char> {
    match k {
        SettingKind::AcGovernor | SettingKind::DcGovernor => "_governor"@,
        SettingKind::AcTurbo => "_turbo"@,
        _ => "_epp"@,
    }
}

/// The setting reads its threshold from the text between prefix and suffix.
pub open spec fn reads_level(k: SettingKind) -> bool {
    !(k is DcMaxCap) && !(k is NoSetting)
}

/// Prefix and suffix overlap, so the text between them cannot be cut out.
pub open spec fn key_too_short(key: Seq<char>, k: SettingKind) -> bool {
    reads_level(k) && key.len() < kind_prefix(k).len() + kind_suffix(k).len()
}

/// Why a line stops the reading of the file.
pub enum LineFault {
    /// Not exactly one `=`.
    Malformed,
    /// An `ac_*_turbo` value that is not a `u32`.
    BadTurbo(IntErrorKind),
    /// A key such as `ac_governor`, in which prefix and suffix overlap.
    SliceOutOfRange,
}

pub open spec fn line_fault(line: Seq<char>) -> Option<LineFault> {
    match line_shape(line) {
        LineShape::Skipped => None,
        LineShape::Malformed => Some(LineFault::Malformed),
        LineShape::Setting { key, val } => {
            let k = setting_kind(key);
            if key_too_short(key, k) {
                Some(LineFault::SliceOutOfRange)
            } else if k is AcTurbo && u32_parse(val) is Err {
                Some(LineFault::BadTurbo(u32_parse(val)->Err_0))
            } else {
                None
            }
        },
    }
}

/// The first line, from index `i` on, that stops the reading, with its fault.
pub open spec fn first_fault(lines: Seq<Seq<char>>, i: int) -> Option<(int, LineFault)>
    decreases lines.len() - i,
{
    if i < 0 || i >= lines.len() {
        None
    } else {
        match line_fault(lines[i]) {
            Some(f) => Some((i, f)),
            None => first_fault(lines, i + 1),
        }
    }
}

/// The lines as values.
pub open spec fn lines_view(lines: Seq<String>) -> Seq<Seq<char>> {
    lines.map_values(|l: String| l@)
}

/// The configuration before any line is read.
pub open spec fn initial_config() -> ConfigView {
    ConfigView {
        ac_governor: Seq::empty(),
        ac_turbo: Seq::empty(),
        ac_epp: Seq::empty(),
        dc_cap_governor: "powersave"@,
        dc_governor: Seq::empty(),
        dc_epp: Seq::empty(),
        ac_custom: Seq::empty(),
        dc_custom: Seq::empty(),
    }
}

/// The hardware setting that `key=val` makes, `level` being its threshold's level.
pub open spec fn apply_setting(cfg: ConfigView, key: Seq<char>, val: Seq<char>, level: i32) -> ConfigView {
    match setting_kind(key) {
        SettingKind::AcGovernor => ConfigView {
            ac_governor: insert_by_level(cfg.ac_governor, (level, val)),
            ..cfg
        },
        SettingKind::AcTurbo => ConfigView {
            ac_turbo: insert_by_level(
                cfg.ac_turbo,
                (level, match u32_parse(val) {
                    Ok(n) => n,
                    Err(_) => 0u32,
                }),
            ),
            ..cfg
        },
        SettingKind::AcEpp => ConfigView { ac_epp: insert_by_level(cfg.ac_epp, (level, val)), ..cfg },
        SettingKind::DcMaxCap => ConfigView { dc_cap_governor: val, ..cfg },
        SettingKind::DcGovernor => ConfigView {
            dc_governor: insert_by_level(cfg.dc_governor, (level, val)),
            ..cfg
        },
        SettingKind::DcEpp => ConfigView { dc_epp: insert_by_level(cfg.dc_epp, (level, val)), ..cfg },
        SettingKind::NoSetting => cfg,
    }
}

/// A slot that no line has filled in yet.
pub open spec fn empty_slot(slot_id: u8) -> SlotView {
    SlotView {
        folder_path: Seq::empty(),
        subfolder_check: "0"@,
        file_name: Seq::empty(),
        thresholds: Seq::empty(),
        slot_id,
    }
}

/// `slots` extended with empty slots until index `id` exists; each new slot's
/// id is its index modulo 256.
pub open spec fn grow_slots(slots: Seq<SlotView>, id: nat) -> Seq<SlotView> {
    if id < slots.len() {
        slots
    } else {
        slots + Seq::new(
            (id + 1 - slots.len()) as nat,
            |j: int| empty_slot(((slots.len() + j) % 256) as u8),
        )
    }
}

/// The slot number that a custom key names: the digits after its first
/// `custom`, or 1 where they do not read as a `u32`.
pub open spec fn slot_number(key: Seq<char>, at: int) -> nat {
    match u32_parse(numeric_prefix(key.subrange(at + "custom"@.len(), key.len() as int))) {
        Ok(n) => n as nat,
        Err(_) => 1,
    }
}

/// The slot `s` after the line `key=val`, `level` being the level of its step.
pub open spec fn fill_slot(s: SlotView, key: Seq<char>, val: Seq<char>, level: i32) -> SlotView {
    let s1 = if contains_spec(key, "path"@) { SlotView { folder_path: val, ..s } } else { s };
    let s2 = if contains_spec(key, "file"@) { SlotView { file_name: val, ..s1 } } else { s1 };
    let s3 = if contains_spec(key, "sub_check"@) {
        SlotView { subfolder_check: val, ..s2 }
    } else {
        s2
    };
    if contains_spec(key, "val"@) {
        SlotView { thresholds: insert_by_level(s3.thresholds, (level, val)), ..s3 }
    } else {
        s3
    }
}

/// The slot list after the line `key=val` that names slot `id`.
pub open spec fn update_slots(slots: Seq<SlotView>, id: nat, key: Seq<char>, val: Seq<char>, level: i32) -> Seq<SlotView> {
    let g = grow_slots(slots, id);
    g.update(id as int, fill_slot(g[id as int], key, val, level))
}

/// The custom slot change that `key=val` makes, `level` being its step's level.
pub open spec fn apply_custom(cfg: ConfigView, key: Seq<char>, val: Seq<char>, level: i32) -> ConfigView {
    if !contains_spec(key, "_custom"@) {
        cfg
    } else {
        match find_spec(key, "custom"@) {
            None => cfg,
            Some(at) => {
                let id = slot_number(key, at);
                if has_prefix(key, "ac_"@) {
                    ConfigView { ac_custom: update_slots(cfg.ac_custom, id, key, val, level), ..cfg }
                } else {
                    ConfigView { dc_custom: update_slots(cfg.dc_custom, id, key, val, level), ..cfg }
                }
            },
        }
    }
}

/// The configuration after one more line.
pub open spec fn apply_line(cfg: ConfigView, line: Seq<char>, levels: LineLevels) -> ConfigView {
    match line_shape(line) {
        LineShape::Setting { key, val } => apply_custom(
            apply_setting(cfg, key, val, levels.setting),
            key,
            val,
            levels.slot,
        ),
        _ => cfg,
    }
}

/// The configuration after the first `n` lines.
pub open spec fn apply_lines(lines: Seq<Seq<char>>, levels: Seq<LineLevels>, n: int) -> ConfigView
    decreases n,
{
    if n <= 0 {
        initial_config()
    } else {
        apply_line(apply_lines(lines, levels, n - 1), lines[n - 1], levels[n - 1])
    }
}

/// What reading the whole file gives, where no line overlaps prefix and suffix.
pub open spec fn parse_result(lines: Seq<Seq<char>>, levels: Seq<LineLevels>) -> Option<Result<ConfigView, ConfigError>> {
    match first_fault(lines, 0) {
        None => Some(Ok(apply_lines(lines, levels, lines.len() as int))),
        Some((i, LineFault::Malformed)) => Some(Err(ConfigError::InvalidFormat { line: (i + 1) as usize })),
        Some((_, LineFault::BadTurbo(k))) => Some(Err(ConfigError::InvalidTurbo(k))),
        Some((_, LineFault::SliceOutOfRange)) => None,
    }
}

/// The text of the setting threshold that a key names.
pub open spec fn setting_level_text(key: Seq<char>) -> Option<Seq<char>> {
    let k = setting_kind(key);
    if reads_level(k) && !key_too_short(key, k) {
        Some(key.subrange(kind_prefix(k).len() as int, key.len() - kind_suffix(k).len()))
    } else {
        None
    }
}

/// The second `_`-separated field of `key`.
pub open spec fn second_field(key: Seq<char>) -> Seq<char> {
    match find_spec(key, "_"@) {
        None => Seq::empty(),
        Some(p) => {
            let rest = key.subrange(p + 1, key.len() as int);
            match find_spec(rest, "_"@) {
                Some(q) => rest.subrange(0, q),
                None => rest,
            }
        },
    }
}

/// The text of the custom step threshold that a key names.
pub open spec fn slot_level_text(key: Seq<char>) -> Option<Seq<char>> {
    if contains_spec(key, "_custom"@) && find_spec(key, "custom"@) is Some && contains_spec(key, "val"@) {
        Some(second_field(key))
    } else {
        None
    }
}

/// Both threshold texts of a line.
pub open spec fn line_level_texts(line: Seq<char>) -> (Option<Seq<char>>, Option<Seq<char>>) {
    match line_shape(line) {
        LineShape::Setting { key, val } => (setting_level_text(key), slot_level_text(key)),
        _ => (None, None),
    }
}

pub open spec fn opt_view(o: Option<String>) -> Option<Seq<char>> {
    match o {
        Some(s) => Some(s@),
        None => None,
    }
}


// ---------------------------------------------------------------------------
// Lemmas
// ---------------------------------------------------------------------------

proof fn lemma_insert_at<V>(s: Seq<(i32, V)>, e: (i32, V), i: int)
    requires
        0 <= i <= s.len(),
        i > 0 ==> s[i - 1].0 <= e.0,
        forall|k: int| i <= k < s.len() ==> s[k].0 > e.0,
    ensures
        insert_by_level(s, e) == s.insert(i, e),
    decreases s.len(),
{
    if s.len() == 0 {
        assert(s.insert(i, e) =~= seq![e]);
    } else if i == s.len() {
        assert(s.insert(i, e) =~= s.push(e));
    } else {
        lemma_insert_at(s.drop_last(), e, i);
        assert(s.drop_last().insert(i, e).push(s.last()) =~= s.insert(i, e));
    }
}

proof fn lemma_steps_view_insert(s: Seq<(i32, String)>, e: (i32, String))
    ensures
        steps_view(insert_by_level(s, e)) == insert_by_level(steps_view(s), (e.0, e.1@)),
    decreases s.len(),
{
    if s.len() == 0 {
        assert(steps_view(seq![e]) =~= seq![(e.0, e.1@)]);
    } else if s.last().0 <= e.0 {
        assert(steps_view(s.push(e)) =~= steps_view(s).push((e.0, e.1@)));
    } else {
        lemma_steps_view_insert(s.drop_last(), e);
        assert(steps_view(s.drop_last()) =~= steps_view(s).drop_last());
        assert(steps_view(insert_by_level(s.drop_last(), e).push(s.last())) =~= steps_view(
            insert_by_level(s.drop_last(), e),
        ).push((s.last().0, s.last().1@)));
    }
}

proof fn lemma_find_from_some(s: Seq<char>, p: Seq<char>, i: int, j: int)
    requires
        0 <= i <= j,
        match_at(s, p, j),
    ensures
        find_from(s, p, i) is Some,
    decreases j - i,
{
    if !match_at(s, p, i) {
        lemma_find_from_some(s, p, i + 1, j);
    }
}

proof fn lemma_count_finds(s: Seq<char>, c: char)
    requires
        count_char(s, c) > 0,
    ensures
        find_spec(s, seq![c]) is Some,
    decreases s.len(),
{
    if s.last() == c {
        assert(s.subrange(s.len() - 1, s.len() as int) =~= seq![c]);
        lemma_find_from_some(s, seq![c], 0, s.len() - 1);
    } else {
        lemma_count_finds(s.drop_last(), c);
        let j = find_spec(s.drop_last(), seq![c])->0;
        lemma_find_is_match(s.drop_last(), seq![c], 0);
        assert(s.drop_last().subrange(j, j + 1) =~= s.subrange(j, j + 1));
        lemma_find_from_some(s, seq![c], 0, j);
    }
}

proof fn lemma_find_is_match(s: Seq<char>, p: Seq<char>, i: int)
    ensures
        find_from(s, p, i) matches Some(j) ==> match_at(s, p, j) && i <= j,
    decreases s.len() + 1 - i,
{
    if !(i < 0 || i + p.len() > s.len()) && !match_at(s, p, i) {
        lemma_find_is_match(s, p, i + 1);
    }
}


// ---------------------------------------------------------------------------
// Laws of the reading
// ---------------------------------------------------------------------------

/// Every step list is ordered by level, and each custom slot's id is its
/// index modulo 256.
pub open spec fn well_ordered(c: ConfigView) -> bool {
    &&& ordered_by_level(c.ac_governor)
    &&& ordered_by_level(c.ac_turbo)
    &&& ordered_by_level(c.ac_epp)
    &&& ordered_by_level(c.dc_governor)
    &&& ordered_by_level(c.dc_epp)
    &&& slots_well_ordered(c.ac_custom)
    &&& slots_well_ordered(c.dc_custom)
}

/// Each slot's steps are ordered by level, and its id is its index modulo 256.
pub open spec fn slots_well_ordered(slots: Seq<SlotView>) -> bool {
    forall|j: int|
        0 <= j < slots.len() ==> ordered_by_level(#[trigger] slots[j].thresholds) && slots[j].slot_id
            == (j % 256) as u8
}

proof fn lemma_insert_bound<V>(s: Seq<(i32, V)>, e: (i32, V), b: i32)
    requires
        forall|i: int| 0 <= i < s.len() ==> s[i].0 <= b,
        e.0 <= b,
    ensures
        forall|i: int| 0 <= i < insert_by_level(s, e).len() ==> insert_by_level(s, e)[i].0 <= b,
        insert_by_level(s, e).len() == s.len() + 1,
    decreases s.len(),
{
    if s.len() > 0 && s.last().0 > e.0 {
        lemma_insert_bound(s.drop_last(), e, b);
    }
}

/// Placing a step into an ordered list keeps it ordered.
pub proof fn lemma_insert_keeps_order<V>(s: Seq<(i32, V)>, e: (i32, V))
    requires
        ordered_by_level(s),
    ensures
        ordered_by_level(insert_by_level(s, e)),
    decreases s.len(),
{
    if s.len() == 0 {
    } else if s.last().0 <= e.0 {
    } else {
        let t = s.drop_last();
        lemma_insert_keeps_order(t, e);
        lemma_insert_bound(t, e, s.last().0);
        let r = insert_by_level(t, e);
        assert forall|i: int, j: int| 0 <= i <= j < r.push(s.last()).len() implies r.push(
            s.last(),
        )[i].0 <= r.push(s.last())[j].0 by {
            if j == r.len() {
                if i < r.len() {
                    assert(r[i].0 <= s.last().0);
                }
            }
        }
    }
}

proof fn lemma_apply_line_keeps_order(cfg: ConfigView, line: Seq<char>, levels: LineLevels)
    requires
        well_ordered(cfg),
    ensures
        well_ordered(apply_line(cfg, line, levels)),
{
    match line_shape(line) {
        LineShape::Setting { key, val } => {
            let c1 = apply_setting(cfg, key, val, levels.setting);
            lemma_insert_keeps_order(cfg.ac_governor, (levels.setting, val));
            lemma_insert_keeps_order(
                cfg.ac_turbo,
                (levels.setting, match u32_parse(val) {
                    Ok(n) => n,
                    Err(_) => 0u32,
                }),
            );
            lemma_insert_keeps_order(cfg.ac_epp, (levels.setting, val));
            lemma_insert_keeps_order(cfg.dc_governor, (levels.setting, val));
            lemma_insert_keeps_order(cfg.dc_epp, (levels.setting, val));
            assert(well_ordered(c1));
            if contains_spec(key, "_custom"@) {
                match find_spec(key, "custom"@) {
                    None => {},
                    Some(at) => {
                        let id = slot_number(key, at);
                        lemma_update_slots_keeps_order(c1.ac_custom, id, key, val, levels.slot);
                        lemma_update_slots_keeps_order(c1.dc_custom, id, key, val, levels.slot);
                    },
                }
            }
        },
        _ => {},
    }
}

proof fn lemma_update_slots_keeps_order(slots: Seq<SlotView>, id: nat, key: Seq<char>, val: Seq<char>, level: i32)
    requires
        slots_well_ordered(slots),
    ensures
        slots_well_ordered(update_slots(slots, id, key, val, level)),
{
    let g = grow_slots(slots, id);
    assert(slots_well_ordered(g)) by {
        assert forall|j: int| 0 <= j < g.len() implies ordered_by_level(#[trigger] g[j].thresholds)
            && g[j].slot_id == (j % 256) as u8 by {
            if j >= slots.len() {
                assert(g[j].thresholds =~= Seq::<(i32, Seq<char>)>::empty());
            }
        }
    }
    let s = g[id as int];
    lemma_insert_keeps_order(fill_slot_pre(s, key, val).thresholds, (level, val));
    let u = g.update(id as int, fill_slot(s, key, val, level));
    assert forall|j: int| 0 <= j < u.len() implies ordered_by_level(#[trigger] u[j].thresholds)
        && u[j].slot_id == (j % 256) as u8 by {
        if j != id as int {
            assert(u[j] == g[j]);
        }
    }
}

/// The slot `s` after the line `key=val`, before any step is added.
pub open spec fn fill_slot_pre(s: SlotView, key: Seq<char>, val: Seq<char>) -> SlotView {
    let s1 = if contains_spec(key, "path"@) { SlotView { folder_path: val, ..s } } else { s };
    let s2 = if contains_spec(key, "file"@) { SlotView { file_name: val, ..s1 } } else { s1 };
    if contains_spec(key, "sub_check"@) {
        SlotView { subfolder_check: val, ..s2 }
    } else {
        s2
    }
}

proof fn lemma_apply_lines_keeps_order(lines: Seq<Seq<char>>, levels: Seq<LineLevels>, n: int)
    ensures
        well_ordered(apply_lines(lines, levels, n)),
    decreases n,
{
    if n <= 0 {
        assert(well_ordered(initial_config()));
    } else {
        lemma_apply_lines_keeps_order(lines, levels, n - 1);
        lemma_apply_line_keeps_order(apply_lines(lines, levels, n - 1), lines[n - 1], levels[n - 1]);
    }
}

/// Whatever the file holds, the configuration read from it has every step
/// list ordered by level (steps of one level in file order), and each custom
/// slot's id equal to its index in its list, modulo 256.
pub proof fn law_parsed_config_is_ordered(lines: Seq<Seq<char>>, levels: Seq<LineLevels>)
    ensures
        parse_result(lines, levels) matches Some(Ok(c)) ==> well_ordered(c),
{
    lemma_apply_lines_keeps_order(lines, levels, lines.len() as int);
}

/// A step is placed right after the last step, counting from the end, whose
/// level is at most its own: every step after it has a higher level, the step
/// before it (if any) a level at most its own, and the other steps keep their order.
pub proof fn law_step_is_placed_after_its_level<V>(s: Seq<(i32, V)>, e: (i32, V))
    ensures
        exists|p: int|
            0 <= p <= s.len() && insert_by_level(s, e) == s.insert(p, e) && (forall|i: int|
                p <= i < s.len() ==> #[trigger] s[i].0 > e.0) && (p > 0 ==> s[p - 1].0 <= e.0),
    decreases s.len(),
{
    if s.len() == 0 {
        assert(s.insert(0, e) =~= seq![e]);
    } else if s.last().0 <= e.0 {
        assert(s.insert(s.len() as int, e) =~= s.push(e));
        assert(s[s.len() - 1] == s.last());
    } else {
        let t = s.drop_last();
        law_step_is_placed_after_its_level(t, e);
        let p = choose|p: int|
            0 <= p <= t.len() && insert_by_level(t, e) == t.insert(p, e) && (forall|i: int|
                p <= i < t.len() ==> #[trigger] t[i].0 > e.0) && (p > 0 ==> t[p - 1].0 <= e.0);
        assert(t.insert(p, e).push(s.last()) =~= s.insert(p, e));
        assert forall|i: int| p <= i < s.len() implies #[trigger] s[i].0 > e.0 by {
            if i < s.len() - 1 {
                assert(s[i] == t[i]);
            }
        }
        assert(p > 0 ==> s[p - 1] == t[p - 1]);
    }
}

proof fn lemma_first_fault_char(lines: Seq<Seq<char>>, i: int)
    requires
        0 <= i,
    ensures
        first_fault(lines, i) matches Some((k, f)) ==> i <= k < lines.len() && line_fault(lines[k])
            == Some(f) && forall|j: int| i <= j < k ==> (#[trigger] line_fault(lines[j])) is None,
        first_fault(lines, i) is None <==> forall|j: int|
            i <= j < lines.len() ==> (#[trigger] line_fault(lines[j])) is None,
    decreases lines.len() - i,
{
    if i < lines.len() && line_fault(lines[i]) is None {
        lemma_first_fault_char(lines, i + 1);
    }
}

/// Reading stops at the first faulty line: a refused file's error (or the
/// missing result of a file whose reading cannot go on) comes from a line
/// before which no line is faulty, that line's fault deciding which; a file is
/// read to the end exactly when no line is faulty.
pub proof fn law_reading_stops_at_first_faulty_line(lines: Seq<Seq<char>>, levels: Seq<LineLevels>)
    ensures
        parse_result(lines, levels) matches Some(Ok(_)) <==> forall|j: int|
            0 <= j < lines.len() ==> (#[trigger] line_fault(lines[j])) is None,
        parse_result(lines, levels) matches Some(Ok(c)) ==> c == apply_lines(
            lines,
            levels,
            lines.len() as int,
        ),
        parse_result(lines, levels) matches Some(Err(ConfigError::InvalidFormat { line })) ==> exists|k: int|
            0 <= k < lines.len() && line == (k + 1) as usize && (#[trigger] line_shape(lines[k])) is Malformed
                && forall|j: int| 0 <= j < k ==> (#[trigger] line_fault(lines[j])) is None,
        parse_result(lines, levels) matches Some(Err(ConfigError::InvalidTurbo(kind))) ==> exists|k: int|
            0 <= k < lines.len() && (#[trigger] line_fault(lines[k])) == Some(LineFault::BadTurbo(kind))
                && forall|j: int| 0 <= j < k ==> (#[trigger] line_fault(lines[j])) is None,
        parse_result(lines, levels) is None ==> exists|k: int|
            0 <= k < lines.len() && (#[trigger] line_fault(lines[k])) == Some(LineFault::SliceOutOfRange)
                && forall|j: int| 0 <= j < k ==> (#[trigger] line_fault(lines[j])) is None,
{
    lemma_first_fault_char(lines, 0);
    if let Some((k, f)) = first_fault(lines, 0) {
        assert(line_fault(lines[k]) == Some(f));
        if f is Malformed {
            assert(line_shape(lines[k]) is Malformed);
        }
    }
}

// ---------------------------------------------------------------------------
// Reading the file
// ---------------------------------------------------------------------------

/// Places `e` after every step whose level is at most `e`'s, before the others.
pub fn insert_step<V>(steps: &mut Vec<(i32, V)>, e: (i32, V))
    ensures
        final(steps)@ == insert_by_level(old(steps)@, e),
{
    let mut i = steps.len();
    while i > 0 && steps[i - 1].0 > e.0
        invariant
            i <= steps@.len(),
            steps@ == old(steps)@,
            forall|k: int| i <= k < steps@.len() ==> steps@[k].0 > e.0,
        decreases i,
    {
        i = i - 1;
    }
    proof {
        lemma_insert_at(steps@, e, i as int);
    }
    steps.insert(i, e);
}

/// A line, cut into what the reading needs.
enum Shape {
    Skipped,
    Malformed,
    Setting(Vec<char>, Vec<char>),
}

fn shape_of(v: &Vec<char>) -> (r: Shape)
    ensures
        r is Skipped ==> line_shape(v@) is Skipped,
        r is Malformed ==> line_shape(v@) is Malformed,
        r matches Shape::Setting(k, w) ==> line_shape(v@) == (LineShape::Setting { key: k@, val: w@ }),
{
    let (a, b) = trim_bounds(v);
    let hash = chars_of("#");
    if a == b || starts_with(v, &hash) {
        return Shape::Skipped;
    }
    if count_of(v, '=') != 1 {
        return Shape::Malformed;
    }
    let eq = chars_of("=");
    proof {
        reveal_strlit("=");
        assert(eq@ =~= seq!['=']);
        lemma_count_finds(v@, '=');
    }
    match find(v, &eq) {
        Some(p) => {
            let n = v.len();
            proof {
                lemma_find_is_match(v@, eq@, 0);
                assert(match_at(v@, eq@, p as int));
            }
            assert(p < n);
            let key = trimmed_range(v, 0, p);
            let val = trimmed_range(v, p + 1, n);
            Shape::Setting(key, val)
        },
        None => Shape::Malformed,
    }
}

/// Which hardware setting `key` names.
pub fn kind_of(key: &Vec<char>) -> (k: SettingKind)
    ensures
        k == setting_kind(key@),
{
    let ac = starts_with(key, &chars_of("ac_"));
    let dc = starts_with(key, &chars_of("dc_"));
    let governor = ends_with(key, &chars_of("_governor"));
    let turbo = ends_with(key, &chars_of("_turbo"));
    let epp = ends_with(key, &chars_of("_epp"));
    if ac && governor {
        SettingKind::AcGovernor
    } else if ac && turbo {
        SettingKind::AcTurbo
    } else if ac && epp {
        SettingKind::AcEpp
    } else if same_chars(key, &chars_of("dc_max_cap")) {
        SettingKind::DcMaxCap
    } else if dc && governor {
        SettingKind::DcGovernor
    } else if dc && epp {
        SettingKind::DcEpp
    } else {
        SettingKind::NoSetting
    }
}

/// The lengths of the prefix and suffix around a setting's threshold text.
fn kind_bounds(k: SettingKind) -> (r: (usize, usize))
    ensures
        r.0 == kind_prefix(k).len(),
        r.1 == kind_suffix(k).len(),
{
    let pre = match k {
        SettingKind::DcGovernor | SettingKind::DcEpp => chars_of("dc_"),
        _ => chars_of("ac_"),
    };
    let suf = match k {
        SettingKind::AcGovernor | SettingKind::DcGovernor => chars_of("_governor"),
        SettingKind::AcTurbo => chars_of("_turbo"),
        _ => chars_of("_epp"),
    };
    (pre.len(), suf.len())
}

fn kind_reads_level(k: SettingKind) -> (r: bool)
    ensures
        r == reads_level(k),
{
    match k {
        SettingKind::DcMaxCap | SettingKind::NoSetting => false,
        _ => true,
    }
}

/// Extends `slots` with empty slots until index `id` exists.
fn grow_slots_exec(slots: &mut Vec<CustomSlots>, id: usize)
    ensures
        slots_view(final(slots)@) == grow_slots(slots_view(old(slots)@), id as nat),
        final(slots)@.len() > id,
{
    let ghost start = slots_view(slots@);
    let ghost n0 = slots@.len();
    while slots.len() <= id
        invariant
            slots@.len() >= n0,
            n0 == start.len(),
            slots@.len() <= id + 1 || slots@.len() == n0,
            forall|j: int| 0 <= j < n0 ==> #[trigger] slots@[j]@ == start[j],
            forall|j: int| n0 <= j < slots@.len() ==> #[trigger] slots@[j]@ == empty_slot(
                (j % 256) as u8,
            ),
        decreases id + 1 - slots@.len(),
    {
        let sid: u8 = (slots.len() % 256) as u8;
        let slot = CustomSlots {
            folder_path: String::new(),
            subfolder_check: string_of(&chars_of("0")),
            file_name: String::new(),
            thresholds: Vec::new(),
            slot_id: sid,
        };
        assert(slot@.thresholds =~= Seq::<(i32, Seq<char>)>::empty());
        assert(slot@ == empty_slot(sid));
        slots.push(slot);
    }
    assert(slots_view(slots@) =~= grow_slots(start, id as nat));
}

/// Fills in the slot `s` from the line `key=val`.
fn fill_slot_exec(s: &mut CustomSlots, key: &Vec<char>, val: &Vec<char>, level: i32)
    ensures
        final(s)@ == fill_slot(old(s)@, key@, val@, level),
{
    if contains(key, &chars_of("path")) {
        s.folder_path = string_of(val);
    }
    if contains(key, &chars_of("file")) {
        s.file_name = string_of(val);
    }
    if contains(key, &chars_of("sub_check")) {
        s.subfolder_check = string_of(val);
    }
    if contains(key, &chars_of("val")) {
        Config::add_step(&mut s.thresholds, level, val);
    }
}

/// Applies the line `key=val` to slot `id` of `slots`.
fn update_slots_exec(slots: &mut Vec<CustomSlots>, id: usize, key: &Vec<char>, val: &Vec<char>, level: i32)
    ensures
        slots_view(final(slots)@) == update_slots(slots_view(old(slots)@), id as nat, key@, val@, level),
{
    grow_slots_exec(slots, id);
    let ghost g = slots@;
    let mut s = slots.remove(id);
    fill_slot_exec(&mut s, key, val, level);
    slots.insert(id, s);
    assert(slots_view(slots@) =~= slots_view(g).update(
        id as int,
        fill_slot(slots_view(g)[id as int], key@, val@, level),
    ));
}

/// The setting threshold text of `key`.
fn setting_text_of(key: &Vec<char>) -> (r: Option<String>)
    ensures
        opt_view(r) == setting_level_text(key@),
{
    let kind = kind_of(key);
    let (pre, suf) = kind_bounds(kind);
    let n = key.len();
    if kind_reads_level(kind) && n >= suf && n - suf >= pre {
        Some(string_of_range(key, pre, n - suf))
    } else {
        None
    }
}

/// The custom step threshold text of `key`.
fn slot_text_of(key: &Vec<char>) -> (r: Option<String>)
    ensures
        opt_view(r) == slot_level_text(key@),
{
    if !(contains(key, &chars_of("_custom")) && find(key, &chars_of("custom")).is_some()
        && contains(key, &chars_of("val"))) {
        return None;
    }
    let under = chars_of("_");
    let n = key.len();
    match find(key, &under) {
        None => Some(String::new()),
        Some(p) => {
            proof {
                lemma_find_is_match(key@, under@, 0);
            }
            assert(p + under@.len() <= n);
            proof {
                reveal_strlit("_");
            }
            let rest = slice_chars(key, p + 1, n);
            match find(&rest, &under) {
                Some(q) => {
                    proof {
                        lemma_find_is_match(rest@, under@, 0);
                    }
                    Some(string_of_range(&rest, 0, q))
                },
                None => Some(string_of(&rest)),
            }
        },
    }
}

/// The outcome of reading, as a value.
pub open spec fn parse_outcome(r: Option<Result<Config, ConfigError>>) -> Option<Result<ConfigView, ConfigError>> {
    match r {
        None => None,
        Some(Ok(c)) => Some(Ok(c@)),
        Some(Err(e)) => Some(Err(e)),
    }
}

/// The text written to a new configuration file: the minimum settings,
/// and a commented-out example of a custom slot.
pub const DEFAULT_CONFIG_TEXT: &'static str = "# --- TEST SLOT: Writing to /tmp/test.txt ---
# Be sure to create the test.txt file in your user folder in Documents or whatever you chose.
#ac_custom1path=/home/user/Documents
#ac_custom1sub_check=0
#ac_custom1file=test.txt
        
# Staircase of values based on load
#ac_0_custom1val=System_is_Idle
#ac_20_custom1val=Light_Work
#ac_50_custom1val=Getting_Hot
#ac_80_custom1val=RUST_GOVERNOR_MAX_LOAD

#Upto 255 number of custom slots, more than enough for anyone

# Slot Format:
# ac_customXpath: The directory containing the file.
# ac_customXfile: The filename to write to.
# ac_customXsub_check: 1 to search subfolders (like policy*), 0 for direct file.
# ac_[load]_customXval: The string to write at that load threshold.

# --- The following are the minimum settings pre-configured ---
# You could delete these if you don't want them because it isn't supported for you or you want everything custom.
ac_15_max=80
ac_20_governor=powersave
ac_30_governor=powersave
ac_40_governor=powersave
ac_50_governor=powersave
ac_60_governor=performance
ac_70_governor=performance
ac_80_governor=performance
ac_90_governor=performance
ac_100_governor=performance
ac_15_turbo=1
ac_50_turbo=1
ac_65_turbo=0
ac_1_epp=power
ac_5_epp=power
ac_10_epp=power
ac_15_epp=power
ac_20_epp=balance_power
ac_40_epp=balance_power
ac_60_epp=balance_performance
ac_80_epp=performance
ac_100_epp=performance
ac_cooling_threshold=45
dc_cap_governor=powersave
dc_15_governor=powersave
dc_40_governor=powersave
dc_60_governor=powersave
dc_100_governor=performance
dc_1_epp=power
dc_15_epp=power
dc_40_epp=power
dc_60_epp=balanced_power";

impl Config {
    /// The text written to a new configuration file: the minimum settings,
    /// and a commented-out example of a custom slot.
    pub fn default_content() -> (r: &'static str)
        ensures
            r@ == DEFAULT_CONFIG_TEXT@,
    {
        DEFAULT_CONFIG_TEXT
    }

    /// The custom slots that apply on AC (`is_ac`) or on battery: `ac_custom`
    /// or `dc_custom`.
    pub fn custom_slots_for(&self, is_ac: bool) -> (r: &Vec<CustomSlots>)
        ensures
            r@ == if is_ac { self.ac_custom@ } else { self.dc_custom@ },
    {
        if is_ac {
            &self.ac_custom
        } else {
            &self.dc_custom
        }
    }

    /// The configuration before any line is read.
    pub fn empty() -> (c: Config)
        ensures
            c@ == initial_config(),
    {
        let c = Config {
            ac_governor: Vec::new(),
            ac_turbo: Vec::new(),
            ac_epp: Vec::new(),
            dc_cap_governor: string_of(&chars_of("powersave")),
            dc_governor: Vec::new(),
            dc_epp: Vec::new(),
            ac_custom: Vec::new(),
            dc_custom: Vec::new(),
        };
        assert(c@.ac_governor =~= Seq::<(i32, Seq<char>)>::empty());
        assert(c@.ac_epp =~= Seq::<(i32, Seq<char>)>::empty());
        assert(c@.dc_governor =~= Seq::<(i32, Seq<char>)>::empty());
        assert(c@.dc_epp =~= Seq::<(i32, Seq<char>)>::empty());
        assert(c@.ac_custom =~= Seq::<SlotView>::empty());
        assert(c@.dc_custom =~= Seq::<SlotView>::empty());
        c
    }

    fn add_step(steps: &mut Vec<(i32, String)>, level: i32, val: &Vec<char>)
        ensures
            steps_view(final(steps)@) == insert_by_level(steps_view(old(steps)@), (level, val@)),
    {
        let e = (level, string_of(val));
        proof {
            lemma_steps_view_insert(steps@, e);
        }
        insert_step(steps, e);
    }

    /// Reads the configuration from the lines of the file, `levels[i]` being the
    /// levels of the thresholds that line `i` names (see [`Config::level_texts`]).
    ///
    /// Blank lines and lines starting with `#` are skipped; any other line must
    /// hold exactly one `=`, else the reading stops with `InvalidFormat` and
    /// the line's number. `ac_<load>_governor`, `ac_<load>_turbo`,
    /// `ac_<load>_epp`, `dc_<load>_governor` and `dc_<load>_epp` add a step,
    /// kept ordered by level (later lines after earlier ones of the same
    /// level); `dc_max_cap` sets the battery governor; a turbo value that is not
    /// a `u32` stops the reading with `InvalidTurbo`. Keys holding `_custom`
    /// fill in custom slots. `None` where the reading meets a key such as
    /// `ac_governor`, whose prefix and suffix overlap so that no threshold
    /// text lies between them.
    pub fn parse_lines(lines: &Vec<String>, levels: &Vec<LineLevels>) -> (r: Option<Result<Config, ConfigError>>)
        requires
            lines@.len() == levels@.len(),
        ensures
            parse_outcome(r) == parse_result(lines_view(lines@), levels@),
    {
        let ghost ls = lines_view(lines@);
        let mut cfg = Config::empty();
        let n = lines.len();
        let mut i: usize = 0;
        while i < n
            invariant
                n == lines@.len(),
                n == levels@.len(),
                ls == lines_view(lines@),
                i <= n,
                cfg@ == apply_lines(ls, levels@, i as int),
                first_fault(ls, 0) == first_fault(ls, i as int),
            decreases n - i,
        {
            let v = chars_of(lines[i].as_str());
            assert(v@ == ls[i as int]);
            match shape_of(&v) {
                Shape::Skipped => {},
                Shape::Malformed => {
                    return Some(Err(ConfigError::InvalidFormat { line: i + 1 }));
                },
                Shape::Setting(key, val) => {
                    let kind = kind_of(&key);
                    let (pre, suf) = kind_bounds(kind);
                    if kind_reads_level(kind) && !(key.len() >= suf && key.len() - suf >= pre) {
                        return None;
                    }
                    let mut turbo: u32 = 0;
                    if let SettingKind::AcTurbo = kind {
                        match parse_u32(&val) {
                            Err(k) => {
                                return Some(Err(ConfigError::InvalidTurbo(k)));
                            },
                            Ok(t) => {
                                turbo = t;
                            },
                        }
                    }
                    cfg.apply_setting_exec(kind, &key, &val, turbo, levels[i].setting);
                    cfg.apply_custom_exec(&key, &val, levels[i].slot);
                },
            }
            i = i + 1;
        }
        Some(Ok(cfg))
    }

    /// The threshold texts that each line names: for a setting key, the text
    /// between its prefix (`ac_`/`dc_`) and its suffix; for a custom step key
    /// (holding `_custom` and `val`), its second `_`-separated field.
    pub fn level_texts(lines: &Vec<String>) -> (r: Vec<LevelTexts>)
        ensures
            r@.len() == lines@.len(),
            forall|i: int|
                0 <= i < r@.len() ==> (opt_view(#[trigger] r@[i].setting), opt_view(r@[i].slot))
                    == line_level_texts(lines@[i]@),
    {
        let n = lines.len();
        let mut r: Vec<LevelTexts> = Vec::new();
        let mut i: usize = 0;
        while i < n
            invariant
                n == lines@.len(),
                i <= n,
                r@.len() == i,
                forall|j: int|
                    0 <= j < i ==> (opt_view(#[trigger] r@[j].setting), opt_view(r@[j].slot))
                        == line_level_texts(lines@[j]@),
            decreases n - i,
        {
            let v = chars_of(lines[i].as_str());
            let texts = match shape_of(&v) {
                Shape::Setting(key, _) => LevelTexts {
                    setting: setting_text_of(&key),
                    slot: slot_text_of(&key),
                },
                _ => LevelTexts { setting: None, slot: None },
            };
            r.push(texts);
            i = i + 1;
        }
        r
    }

    fn apply_custom_exec(&mut self, key: &Vec<char>, val: &Vec<char>, level: i32)
        ensures
            final(self)@ == apply_custom(old(self)@, key@, val@, level),
    {
        if !contains(key, &chars_of("_custom")) {
            return;
        }
        let word = chars_of("custom");
        match find(key, &word) {
            None => {},
            Some(at) => {
                let n = key.len();
                proof {
                    lemma_find_is_match(key@, word@, 0);
                }
                assert(at + word@.len() <= n);
                let digits = numeric_prefix_from(key, at + word.len());
                assert(key@.skip(at + word@.len()) =~= key@.subrange(
                    at + "custom"@.len(),
                    key@.len() as int,
                ));
                let id: usize = match parse_u32(&digits) {
                    Ok(n) => n as usize,
                    Err(_) => 1,
                };
                if starts_with(key, &chars_of("ac_")) {
                    update_slots_exec(&mut self.ac_custom, id, key, val, level);
                } else {
                    update_slots_exec(&mut self.dc_custom, id, key, val, level);
                }
            },
        }
    }

    fn apply_setting_exec(&mut self, kind: SettingKind, key: &Vec<char>, val: &Vec<char>, turbo: u32, level: i32)
        requires
            kind == setting_kind(key@),
            kind is AcTurbo ==> u32_parse(val@) == Ok::<u32, IntErrorKind>(turbo),
        ensures
            final(self)@ == apply_setting(old(self)@, key@, val@, level),
    {
        match kind {
            SettingKind::AcGovernor => Self::add_step(&mut self.ac_governor, level, val),
            SettingKind::AcTurbo => insert_step(&mut self.ac_turbo, (level, turbo)),
            SettingKind::AcEpp => Self::add_step(&mut self.ac_epp, level, val),
            SettingKind::DcMaxCap => {
                self.dc_cap_governor = string_of(val);
            },
            SettingKind::DcGovernor => Self::add_step(&mut self.dc_governor, level, val),
            SettingKind::DcEpp => Self::add_step(&mut self.dc_epp, level, val),
            SettingKind::NoSetting => {},
        }
    }
}

} // verus!
