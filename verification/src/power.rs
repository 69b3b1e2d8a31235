//! Where the sysfs files live, and what their contents mean: which
//! directories hold a setting, and whether the machine runs on AC.

use vstd::prelude::*;
use crate::text::{chars_of, same_chars, trim, trim_spec};

verus! {

/// The directory whose entries are the power supplies.
pub const POWER_SUPPLY_DIR: &'static str = "/sys/class/power_supply/";
/// The directory whose entries are the cpufreq policies.
pub const CPUFREQ_DIR: &'static str = "/sys/devices/system/cpu/cpufreq/";
/// The directory whose entries include the Intel P-state driver.
pub const INTEL_BOOST_DIR: &'static str = "/sys/devices/system/cpu/";
/// The file that marks a battery.
pub const BATTERY_FILE: &'static str = "energy_full";
/// The file that tells whether a supply is online.
pub const ONLINE_FILE: &'static str = "online";
/// The file that holds a policy's governor.
pub const GOVERNOR_FILE: &'static str = "scaling_governor";
/// The file that switches turbo off.
pub const NO_TURBO_FILE: &'static str = "no_turbo";
/// The file that holds a battery's charging status.
pub const STATUS_FILE: &'static str = "status";

/// What was found about one entry of a directory: its path, whether it is a
/// directory, whether the looked-for file exists inside it, and that file's
/// text where it could be read.
#[derive(Debug)]
pub struct DirEntryProbe {
    pub path: String,
    pub is_dir: bool,
    pub has_target: bool,
    pub target_text: Option<String>,
}

/// A probe as a value.
pub struct ProbeView {
    pub path: Seq<char>,
    pub is_dir: bool,
    pub has_target: bool,
    pub target_text: Option<Seq<char>>,
}

impl View for DirEntryProbe {
    type V = ProbeView;

    open spec fn view(&self) -> ProbeView {
        ProbeView {
            path: self.path@,
            is_dir: self.is_dir,
            has_target: self.has_target,
            target_text: match self.target_text {
                Some(t) => Some(t@),
                None => None,
            },
        }
    }
}

/// The paths of the sysfs directories that the governor reads and writes.
#[derive(Debug)]
pub struct FilePaths {
    /// Directories holding `scaling_governor`, whose EPP file is written.
    pub cpu_paths: Vec<String>,
    /// Power supplies holding `energy_full`: the batteries.
    pub battery_paths: Vec<String>,
    /// Power supplies with a readable `online` file that is not `Battery`.
    pub ac: Vec<String>,
    /// Directories holding `no_turbo`.
    pub boost_paths: Vec<String>,
    /// Directories holding `scaling_governor`.
    pub governor: Vec<String>,
}

/// The paths of the probed entries that are directories holding the file.
pub open spec fn dirs_with_target(entries: Seq<ProbeView>) -> Seq<Seq<char>>
    decreases entries.len(),
{
    if entries.len() == 0 {
        Seq::empty()
    } else {
        let rest = dirs_with_target(entries.drop_last());
        let e = entries.last();
        if e.is_dir && e.has_target {
            rest.push(e.path)
        } else {
            rest
        }
    }
}

/// The paths of the probed supplies that are directories whose `online` file
/// was read and does not say `Battery`.
pub open spec fn ac_supplies(entries: Seq<ProbeView>) -> Seq<Seq<char>>
    decreases entries.len(),
{
    if entries.len() == 0 {
        Seq::empty()
    } else {
        let rest = ac_supplies(entries.drop_last());
        let e = entries.last();
        if e.is_dir && e.has_target && e.target_text is Some && e.target_text->0 != "Battery"@ {
            rest.push(e.path)
        } else {
            rest
        }
    }
}

/// Probes as values.
pub open spec fn probes_view(s: Seq<DirEntryProbe>) -> Seq<ProbeView> {
    s.map_values(|p: DirEntryProbe| p@)
}

/// Paths as values.
pub open spec fn paths_view(s: Seq<String>) -> Seq<Seq<char>> {
    s.map_values(|p: String| p@)
}

/// Some reading, trimmed, is `word`.
pub open spec fn some_reading_is(readings: Seq<Option<String>>, word: Seq<char>) -> bool {
    exists|i: int|
        0 <= i < readings.len() && (#[trigger] readings[i]) is Some && trim_spec(
            readings[i]->0@,
        ) == word
}

/// Whether the machine runs on AC: some `online` reading is `1`; failing
/// that, no battery `status` reading is `Discharging`.
pub open spec fn on_ac(online: Seq<Option<String>>, status: Seq<Option<String>>) -> bool {
    some_reading_is(online, "1"@) || !some_reading_is(status, "Discharging"@)
}

/// Whether some reading, trimmed, is `word`.
fn any_reading_is(readings: &Vec<Option<String>>, word: &str) -> (r: bool)
    ensures
        r == some_reading_is(readings@, word@),
{
    let w = chars_of(word);
    let n = readings.len();
    let mut i: usize = 0;
    while i < n
        invariant
            n == readings@.len(),
            i <= n,
            w@ == word@,
            forall|j: int|
                0 <= j < i ==> !((#[trigger] readings@[j]) is Some && trim_spec(readings@[j]->0@)
                    == word@),
        decreases n - i,
    {
        match &readings[i] {
            Some(text) => {
                let t = trim(text.as_str());
                if same_chars(&chars_of(t.as_str()), &w) {
                    return true;
                }
            },
            None => {},
        }
        i = i + 1;
    }
    false
}

/// The paths of the probed directories holding the file; where `ac_only`,
/// only those whose file was read and does not say `Battery`.
fn collect_paths(entries: &Vec<DirEntryProbe>, ac_only: bool) -> (r: Vec<String>)
    ensures
        ac_only ==> paths_view(r@) == ac_supplies(probes_view(entries@)),
        !ac_only ==> paths_view(r@) == dirs_with_target(probes_view(entries@)),
{
    let battery = chars_of("Battery");
    let n = entries.len();
    let mut r: Vec<String> = Vec::new();
    let mut i: usize = 0;
    while i < n
        invariant
            n == entries@.len(),
            i <= n,
            battery@ == "Battery"@,
            ac_only ==> paths_view(r@) == ac_supplies(probes_view(entries@.subrange(0, i as int))),
            !ac_only ==> paths_view(r@) == dirs_with_target(
                probes_view(entries@.subrange(0, i as int)),
            ),
        decreases n - i,
    {
        let e = &entries[i];
        let ghost before = entries@.subrange(0, i as int);
        assert(probes_view(entries@.subrange(0, i + 1)).drop_last() =~= probes_view(before));
        assert(probes_view(entries@.subrange(0, i + 1)).last() == e@);
        let keep = if !(e.is_dir && e.has_target) {
            false
        } else if ac_only {
            match &e.target_text {
                Some(t) => !same_chars(&chars_of(t.as_str()), &battery),
                None => false,
            }
        } else {
            true
        };
        let ghost old_r = r@;
        if keep {
            r.push(e.path.clone());
            assert(paths_view(r@) =~= paths_view(old_r).push(e.path@));
        }
        i = i + 1;
    }
    assert(entries@.subrange(0, n as int) =~= entries@);
    r
}

proof fn lemma_dirs_with_target_members(entries: Seq<ProbeView>)
    ensures
        forall|i: int|
            0 <= i < entries.len() && (#[trigger] entries[i]).is_dir && entries[i].has_target
                ==> dirs_with_target(entries).contains(entries[i].path),
        forall|x: Seq<char>|
            dirs_with_target(entries).contains(x) ==> exists|i: int|
                0 <= i < entries.len() && (#[trigger] entries[i]).is_dir && entries[i].has_target
                    && entries[i].path == x,
        dirs_with_target(entries).len() <= entries.len(),
    decreases entries.len(),
{
    if entries.len() > 0 {
        let t = entries.drop_last();
        lemma_dirs_with_target_members(t);
        let r = dirs_with_target(entries);
        let rt = dirs_with_target(t);
        assert forall|i: int|
            0 <= i < entries.len() && (#[trigger] entries[i]).is_dir && entries[i].has_target
                implies r.contains(entries[i].path) by {
            if i < entries.len() - 1 {
                assert(t[i] == entries[i]);
                let k = choose|k: int| 0 <= k < rt.len() && rt[k] == entries[i].path;
                assert(r[k] == rt[k]);
            } else {
                assert(r[r.len() - 1] == entries[i].path);
            }
        }
        assert forall|x: Seq<char>| r.contains(x) implies exists|i: int|
            0 <= i < entries.len() && (#[trigger] entries[i]).is_dir && entries[i].has_target
                && entries[i].path == x by {
            let k = choose|k: int| 0 <= k < r.len() && r[k] == x;
            if k < rt.len() {
                assert(r[k] == rt[k]);
                assert(rt[k] == x);
                assert(rt.contains(x));
                let i = choose|i: int|
                    0 <= i < t.len() && (#[trigger] t[i]).is_dir && t[i].has_target && t[i].path == x;
                assert(entries[i] == t[i]);
            } else {
                let i = entries.len() - 1;
                assert(entries[i] == entries.last());
                assert(entries[i].path == x);
            }
        }
    }
}

/// The directories kept from a listing are exactly the probed entries that are
/// directories holding the looked-for file: each such entry's path is kept,
/// and each kept path is such an entry's.
pub proof fn law_kept_dirs_are_those_holding_the_file(entries: Seq<ProbeView>)
    ensures
        forall|i: int|
            0 <= i < entries.len() && (#[trigger] entries[i]).is_dir && entries[i].has_target
                ==> dirs_with_target(entries).contains(entries[i].path),
        forall|x: Seq<char>|
            dirs_with_target(entries).contains(x) ==> exists|i: int|
                0 <= i < entries.len() && (#[trigger] entries[i]).is_dir && entries[i].has_target
                    && entries[i].path == x,
{
    lemma_dirs_with_target_members(entries);
}

/// The AC supplies kept from a listing are exactly the probed entries that are
/// directories whose `online` file exists and was read, whatever it reads
/// (`0` included), unless it reads `Battery`: each such entry's path is kept,
/// and each kept path is such an entry's.
pub proof fn law_ac_supplies_are_readable_non_batteries(entries: Seq<ProbeView>)
    ensures
        forall|i: int|
            0 <= i < entries.len() && (#[trigger] entries[i]).is_dir && entries[i].has_target
                && entries[i].target_text is Some && entries[i].target_text->0 != "Battery"@
                ==> ac_supplies(entries).contains(entries[i].path),
        forall|x: Seq<char>|
            ac_supplies(entries).contains(x) ==> exists|i: int|
                0 <= i < entries.len() && (#[trigger] entries[i]).is_dir && entries[i].has_target
                    && entries[i].target_text is Some && entries[i].target_text->0 != "Battery"@
                    && entries[i].path == x,
    decreases entries.len(),
{
    if entries.len() > 0 {
        let t = entries.drop_last();
        law_ac_supplies_are_readable_non_batteries(t);
        let r = ac_supplies(entries);
        let rt = ac_supplies(t);
        assert forall|i: int|
            0 <= i < entries.len() && (#[trigger] entries[i]).is_dir && entries[i].has_target
                && entries[i].target_text is Some && entries[i].target_text->0 != "Battery"@
                implies r.contains(entries[i].path) by {
            if i < entries.len() - 1 {
                assert(t[i] == entries[i]);
                let k = choose|k: int| 0 <= k < rt.len() && rt[k] == entries[i].path;
                assert(r[k] == rt[k]);
            } else {
                assert(r[r.len() - 1] == entries[i].path);
            }
        }
        assert forall|x: Seq<char>| r.contains(x) implies exists|i: int|
            0 <= i < entries.len() && (#[trigger] entries[i]).is_dir && entries[i].has_target
                && entries[i].target_text is Some && entries[i].target_text->0 != "Battery"@
                && entries[i].path == x by {
            let k = choose|k: int| 0 <= k < r.len() && r[k] == x;
            if k < rt.len() {
                assert(r[k] == rt[k]);
                assert(rt[k] == x);
                assert(rt.contains(x));
                let i = choose|i: int|
                    0 <= i < t.len() && (#[trigger] t[i]).is_dir && t[i].has_target
                        && t[i].target_text is Some && t[i].target_text->0 != "Battery"@
                        && t[i].path == x;
                assert(entries[i] == t[i]);
            } else {
                let i = entries.len() - 1;
                assert(entries[i] == entries.last());
                assert(entries[i].path == x);
            }
        }
    }
}

/// The machine is on AC where any `online` reading, trimmed, is `1`; failing
/// that, it is on battery where any `status` reading, trimmed, is
/// `Discharging`, at whatever index; otherwise it is on AC.
pub proof fn law_ac_status_decision(online: Seq<Option<String>>, status: Seq<Option<String>>)
    ensures
        (exists|i: int|
            0 <= i < online.len() && (#[trigger] online[i]) is Some && trim_spec(online[i]->0@)
                == "1"@) ==> on_ac(online, status),
        (forall|i: int|
            0 <= i < online.len() && (#[trigger] online[i]) is Some ==> trim_spec(online[i]->0@)
                != "1"@) && (exists|j: int|
            0 <= j < status.len() && (#[trigger] status[j]) is Some && trim_spec(status[j]->0@)
                == "Discharging"@) ==> !on_ac(online, status),
        (forall|i: int|
            0 <= i < online.len() && (#[trigger] online[i]) is Some ==> trim_spec(online[i]->0@)
                != "1"@) && (forall|j: int|
            0 <= j < status.len() && (#[trigger] status[j]) is Some ==> trim_spec(status[j]->0@)
                != "Discharging"@) ==> on_ac(online, status),
{
}

/// Decides the power source and probes sysfs directories.
pub struct PowerManager;

impl PowerManager {
    /// The entries of a directory that are themselves directories holding the
    /// looked-for file, in the order the directory listed them.
    pub fn get_file_path(entries: &Vec<DirEntryProbe>) -> (r: Vec<String>)
        ensures
            paths_view(r@) == dirs_with_target(probes_view(entries@)),
    {
        collect_paths(entries, false)
    }

    /// Whether the machine runs on AC, from the `online` files of the AC
    /// supplies and the `status` files of the batteries (`None` where a file
    /// could not be read): AC where some `online` reads `1`; else battery where
    /// some `status` reads `Discharging`; else AC.
    pub fn get_ac_status(online: &Vec<Option<String>>, status: &Vec<Option<String>>) -> (r: bool)
        ensures
            r == on_ac(online@, status@),
    {
        if any_reading_is(online, "1") {
            return true;
        }
        !any_reading_is(status, "Discharging")
    }

    /// Whether a custom slot writes into every subfolder: its `sub_check`,
    /// trimmed, is `1`.
    pub fn searches_subfolders(sub_check: &str) -> (r: bool)
        ensures
            r == (trim_spec(sub_check@) == "1"@),
    {
        let t = trim(sub_check);
        same_chars(&chars_of(t.as_str()), &chars_of("1"))
    }

    /// The text written into a setting file: the value, trimmed.
    pub fn setting_text(value: &str) -> (r: String)
        ensures
            r@ == trim_spec(value@),
    {
        trim(value)
    }
}

impl FilePaths {
    /// The power supplies that are directories holding an `online` file whose
    /// text could be read and is not `Battery`.
    pub fn get_file_ac(entries: &Vec<DirEntryProbe>) -> (r: Vec<String>)
        ensures
            paths_view(r@) == ac_supplies(probes_view(entries@)),
    {
        collect_paths(entries, true)
    }

    /// The governor's paths, from the probes of: the cpufreq policies for
    /// `scaling_governor` (for the governor paths), the Intel directory for
    /// `no_turbo`, the power supplies for `online`, the power supplies for
    /// `energy_full`, and the cpufreq policies for `scaling_governor` again
    /// (for the cpu paths).
    pub fn config_file_paths(
        governor: &Vec<DirEntryProbe>,
        boost: &Vec<DirEntryProbe>,
        online: &Vec<DirEntryProbe>,
        battery: &Vec<DirEntryProbe>,
        cpu: &Vec<DirEntryProbe>,
    ) -> (r: FilePaths)
        ensures
            paths_view(r.governor@) == dirs_with_target(probes_view(governor@)),
            paths_view(r.boost_paths@) == dirs_with_target(probes_view(boost@)),
            paths_view(r.ac@) == ac_supplies(probes_view(online@)),
            paths_view(r.battery_paths@) == dirs_with_target(probes_view(battery@)),
            paths_view(r.cpu_paths@) == dirs_with_target(probes_view(cpu@)),
    {
        FilePaths {
            governor: PowerManager::get_file_path(governor),
            boost_paths: PowerManager::get_file_path(boost),
            ac: FilePaths::get_file_ac(online),
            battery_paths: PowerManager::get_file_path(battery),
            cpu_paths: PowerManager::get_file_path(cpu),
        }
    }
}

} // verus!
