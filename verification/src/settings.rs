//! The settings record, its normal form, how a stored record is taken in,
//! and the steps of an atomic save.
//!
//! The record is stored as JSON under the user's application-data folder; the
//! file access and the JSON encoding happen outside this crate.  Saving writes
//! a temporary file next to the target, flushes it and moves it over the
//! target, so that a reader sees either the old or the new record.

use vstd::prelude::*;
use vstd::string::*;
use crate::text::{
    canonical_name, insert_sorted, name_lt, lemma_name_lt_order, strictly_sorted, string_views,
    to_lowercase_str, trim_str,
};
use crate::texture::TextureKind;

verus! {

/// The persistent settings.
#[derive(Debug, PartialEq, Eq)]
pub struct Settings {
    pub enabled: bool,
    pub texture: TextureKind,
    /// Target opacity in percent (15, 20, 25 or 30).
    pub intensity: u32,
    /// Excluded applications: lower-case executable file names.
    pub exclusions: Vec<String>,
}

/// The mathematical value of a settings record.
#[verifier::ext_equal]
pub struct SettingsView {
    pub enabled: bool,
    pub texture: TextureKind,
    pub intensity: u32,
    pub exclusions: Seq<Seq<char>>,
}

impl View for Settings {
    type V = SettingsView;

    open spec fn view(&self) -> SettingsView {
        SettingsView {
            enabled: self.enabled,
            texture: self.texture,
            intensity: self.intensity,
            exclusions: string_views(self.exclusions@),
        }
    }
}

/// The default record: enabled, Classic Matte, 20 percent, no exclusions.
pub open spec fn default_settings() -> SettingsView {
    SettingsView {
        enabled: true,
        texture: TextureKind::ClassicMatte,
        intensity: 20,
        exclusions: Seq::empty(),
    }
}

impl Default for Settings {
    fn default() -> (s: Self)
        ensures
            s@ == default_settings(),
    {
        let s = Settings {
            enabled: true,
            texture: TextureKind::ClassicMatte,
            intensity: 20,
            exclusions: Vec::new(),
        };
        assert(s@ =~= default_settings());
        s
    }
}

/// The intensities the tray menu offers.
pub open spec fn allowed_intensity(v: u32) -> bool {
    v == 15 || v == 20 || v == 25 || v == 30
}

/// The names an exclusion list stands for: each entry trimmed and
/// lower-cased, empty results dropped.
pub open spec fn canonical_names(es: Seq<Seq<char>>) -> Set<Seq<char>> {
    Set::new(
        |c: Seq<char>|
            c.len() > 0 && exists|i: int| 0 <= i < es.len() && #[trigger] canonical_name(es[i]) == c,
    )
}

/// `n` is the normal form of `s`: same switch and preset, the intensity kept
/// when the menu offers it and reset to 20 otherwise, and the exclusions
/// replaced by their canonical names, sorted in `String` order, each once.
pub open spec fn is_normal_form_of(n: SettingsView, s: SettingsView) -> bool {
    &&& n.enabled == s.enabled
    &&& n.texture == s.texture
    &&& n.intensity == (if allowed_intensity(s.intensity) {
        s.intensity
    } else {
        20
    })
    &&& strictly_sorted(n.exclusions)
    &&& n.exclusions.to_set() == canonical_names(s.exclusions)
}

/// A record already in normal form: allowed intensity, exclusions sorted
/// without duplicates, each non-empty and equal to its canonical name.
pub open spec fn is_normal(s: SettingsView) -> bool {
    &&& allowed_intensity(s.intensity)
    &&& strictly_sorted(s.exclusions)
    &&& forall|i: int|
        0 <= i < s.exclusions.len() ==> (#[trigger] s.exclusions[i]).len() > 0 && canonical_name(
            s.exclusions[i],
        ) == s.exclusions[i]
}

/// Copies a list of strings.
fn clone_strings(v: &Vec<String>) -> (r: Vec<String>)
    ensures
        string_views(r@) == string_views(v@),
{
    let mut r: Vec<String> = Vec::new();
    let mut i: usize = 0;
    while i < v.len()
        invariant
            i <= v@.len(),
            string_views(r@) == string_views(v@).subrange(0, i as int),
        decreases v.len() - i,
    {
        let s: String = v[i].clone();
        let ghost prev = r@;
        r.push(s);
        assert(r@ =~= prev.push(s));
        assert(string_views(r@) =~= string_views(prev).push(s@));
        i = i + 1;
        assert(string_views(r@) =~= string_views(v@).subrange(0, i as int));
    }
    assert(string_views(v@).subrange(0, v@.len() as int) =~= string_views(v@));
    r
}

impl Settings {
    /// A copy of the record.
    pub fn duplicate(&self) -> (r: Settings)
        ensures
            r@ == self@,
    {
        Settings {
            enabled: self.enabled,
            texture: self.texture,
            intensity: self.intensity,
            exclusions: clone_strings(&self.exclusions),
        }
    }

    /// Repairs a record read from disk or edited by hand: an intensity that the
    /// menu does not offer becomes 20, and the exclusions are trimmed,
    /// lower-cased, emptied entries dropped, sorted and deduplicated.
    pub fn normalized(self) -> (r: Settings)
        ensures
            is_normal_form_of(r@, self@),
    {
        let intensity: u32 = if self.intensity == 15 || self.intensity == 20 || self.intensity == 25
            || self.intensity == 30 {
            self.intensity
        } else {
            20
        };
        let ghost es = self@.exclusions;
        let mut out: Vec<String> = Vec::new();
        let mut i: usize = 0;
        while i < self.exclusions.len()
            invariant
                es == string_views(self.exclusions@),
                i <= es.len(),
                strictly_sorted(string_views(out@)),
                string_views(out@).to_set() == Set::new(
                    |c: Seq<char>|
                        c.len() > 0 && exists|k: int|
                            0 <= k < i && #[trigger] canonical_name(es[k]) == c,
                ),
            decreases self.exclusions.len() - i,
        {
            let trimmed = trim_str(self.exclusions[i].as_str());
            let lower = to_lowercase_str(trimmed);
            let ghost before = string_views(out@).to_set();
            proof {
                assert(lower@ == canonical_name(es[i as int]));
            }
            if !lower.as_str().is_empty() {
                insert_sorted(&mut out, lower);
            }
            proof {
                let target = Set::new(
                    |c: Seq<char>|
                        c.len() > 0 && exists|k: int|
                            0 <= k < i + 1 && #[trigger] canonical_name(es[k]) == c,
                );
                assert(string_views(out@).to_set() =~= target) by {
                    assert forall|c: Seq<char>| target.contains(c) implies string_views(
                        out@,
                    ).to_set().contains(c) by {
                        let k = choose|k: int| 0 <= k < i + 1 && #[trigger] canonical_name(es[k]) == c;
                        if k < i {
                            assert(before.contains(c));
                        }
                    }
                    assert forall|c: Seq<char>| string_views(out@).to_set().contains(c) implies target.contains(c) by {
                        if before.contains(c) {
                            let k = choose|k: int| 0 <= k < i && #[trigger] canonical_name(es[k]) == c;
                            assert(0 <= k < i + 1 && canonical_name(es[k]) == c);
                        } else {
                            assert(canonical_name(es[i as int]) == c);
                        }
                    }
                }
            }
            i = i + 1;
        }
        let r = Settings {
            enabled: self.enabled,
            texture: self.texture,
            intensity,
            exclusions: out,
        };
        proof {
            assert(r@.exclusions.to_set() =~= canonical_names(self@.exclusions)) by {
                assert forall|c: Seq<char>| #[trigger] canonical_names(self@.exclusions).contains(c)
                    implies r@.exclusions.to_set().contains(c) by {
                    let k = choose|k: int| 0 <= k < es.len() && #[trigger] canonical_name(es[k]) == c;
                    assert(0 <= k < i && canonical_name(es[k]) == c);
                }
            }
        }
        r
    }
}

proof fn lemma_drop_first_set(a: Seq<Seq<char>>)
    requires
        a.len() > 0,
        strictly_sorted(a),
    ensures
        a.drop_first().to_set() == a.to_set().remove(a[0]),
{
    assert forall|x: Seq<char>| a.to_set().remove(a[0]).contains(x) implies a.drop_first().to_set().contains(x) by {
        let k = choose|k: int| 0 <= k < a.len() && a[k] == x;
        assert(k != 0);
        assert(a.drop_first()[k - 1] == x);
    }
    assert forall|x: Seq<char>| a.drop_first().to_set().contains(x) implies a.to_set().remove(a[0]).contains(x) by {
        let k = choose|k: int| 0 <= k < a.len() - 1 && a.drop_first()[k] == x;
        assert(a[k + 1] == x);
        lemma_name_lt_order(a[0], a[0], a[0]);
        assert(name_lt(a[0], a[k + 1]));
    }
    assert(a.drop_first().to_set() =~= a.to_set().remove(a[0]));
}

/// Two strictly sorted lists with the same elements are equal.
pub proof fn lemma_strictly_sorted_unique(a: Seq<Seq<char>>, b: Seq<Seq<char>>)
    requires
        strictly_sorted(a),
        strictly_sorted(b),
        a.to_set() == b.to_set(),
    ensures
        a == b,
    decreases a.len(),
{
    if a.len() == 0 {
        if b.len() > 0 {
            assert(a.to_set().contains(b[0]));
        }
        assert(a =~= b);
    } else {
        assert(b.to_set().contains(a[0]));
        assert(b.len() > 0);
        let j = choose|j: int| 0 <= j < b.len() && b[j] == a[0];
        assert(a.to_set().contains(b[0]));
        let k = choose|k: int| 0 <= k < a.len() && a[k] == b[0];
        lemma_name_lt_order(a[0], b[0], a[0]);
        lemma_name_lt_order(b[0], a[0], b[0]);
        if j > 0 {
            assert(name_lt(b[0], b[j]));
            if k > 0 {
                assert(name_lt(a[0], a[k]));
            }
        }
        assert(a[0] == b[0]);
        lemma_drop_first_set(a);
        lemma_drop_first_set(b);
        lemma_strictly_sorted_unique(a.drop_first(), b.drop_first());
        assert(a =~= seq![a[0]] + a.drop_first());
        assert(b =~= seq![b[0]] + b.drop_first());
    }
}

/// Normalizing a record that is already in normal form leaves it unchanged.
pub proof fn lemma_normalized_fixes_normal(s: SettingsView, n: SettingsView)
    requires
        is_normal(s),
        is_normal_form_of(n, s),
    ensures
        n == s,
{
    assert(canonical_names(s.exclusions) =~= s.exclusions.to_set()) by {
        assert forall|c: Seq<char>| s.exclusions.to_set().contains(c) implies #[trigger] canonical_names(
            s.exclusions,
        ).contains(c) by {
            let k = choose|k: int| 0 <= k < s.exclusions.len() && s.exclusions[k] == c;
            assert(canonical_name(s.exclusions[k]) == c);
        }
        assert forall|c: Seq<char>| #[trigger] canonical_names(s.exclusions).contains(c) implies s.exclusions.to_set().contains(c) by {
            let k = choose|k: int|
                0 <= k < s.exclusions.len() && #[trigger] canonical_name(s.exclusions[k]) == c;
            assert(s.exclusions[k] == c);
        }
    }
    lemma_strictly_sorted_unique(n.exclusions, s.exclusions);
    assert(n =~= s);
}

/// What a save writes is what loading takes in again: if `n` is the record a
/// save of `s` writes and `r` what loading `n` back gives, then `r` is `n`,
/// whenever each name `n` holds is its own canonical form (lower-casing a
/// trimmed lower-case name gives it back).
pub proof fn lemma_save_load_round_trip(s: SettingsView, n: SettingsView, r: SettingsView)
    requires
        is_normal_form_of(n, s),
        is_normal_form_of(r, n),
        forall|i: int|
            0 <= i < n.exclusions.len() ==> canonical_name(#[trigger] n.exclusions[i])
                == n.exclusions[i],
    ensures
        r == n,
{
    lemma_normal_form_shape(s, n);
    lemma_normalized_fixes_normal(n, r);
}

/// Every record that normalization produces has an allowed intensity and
/// only non-empty, distinct exclusion names in `String` order.
pub proof fn lemma_normal_form_shape(s: SettingsView, n: SettingsView)
    requires
        is_normal_form_of(n, s),
    ensures
        allowed_intensity(n.intensity),
        strictly_sorted(n.exclusions),
        forall|i: int| 0 <= i < n.exclusions.len() ==> (#[trigger] n.exclusions[i]).len() > 0,
{
    assert forall|i: int| 0 <= i < n.exclusions.len() implies (#[trigger] n.exclusions[i]).len() > 0 by {
        assert(n.exclusions.to_set().contains(n.exclusions[i]));
    }
}

/// What taking in the stored record gives.
pub struct LoadOutcome {
    /// The record to run with.
    pub settings: Settings,
    /// Whether it came from the file of an earlier version and is to be
    /// written to the current location.
    pub migrate: bool,
}

impl Settings {
    /// Takes in the stored record.  `current_exists` says whether the file at
    /// the current location exists (else the earlier version's file was
    /// read); `read` is `None` when the file could not be read, `Some(None)`
    /// when it held no valid record, and `Some(Some(s))` for a record `s`
    /// (fields missing from the file take their default values).
    pub fn load(current_exists: bool, read: Option<Option<Settings>>) -> (r: LoadOutcome)
        ensures
            r.migrate == (!current_exists && read is Some),
            match read {
                Some(Some(s)) => is_normal_form_of(r.settings@, s@),
                _ => r.settings@ == default_settings(),
            },
    {
        let migrate = !current_exists && read.is_some();
        let settings = match read {
            Some(Some(s)) => s.normalized(),
            _ => Settings::default(),
        };
        LoadOutcome { settings, migrate }
    }
}

/// The steps of an atomic save, in order.
#[derive(Clone, Copy, Debug, PartialEq, Eq, Structural)]
pub enum SaveStep {
    /// Encode the record as pretty-printed JSON.
    Serialize,
    /// Create the folder of the target (nothing to do without one).
    CreateDir,
    /// Create or truncate the temporary file beside the target.
    OpenTemp,
    /// Write the encoded record to it.
    WriteTemp,
    /// Flush it to the disk.
    SyncTemp,
    /// Move it over the target, replacing it.
    Replace,
    /// Delete the temporary file after a failure (its own failure is ignored).
    RemoveTemp,
    /// The target holds the new record.
    Succeeded,
    /// The save failed; the error of the failed step is the result.
    Failed,
}

/// The step after `step` when it succeeded (`ok`) or failed.  A failure
/// before the temporary file exists ends the save; a failure after it exists
/// removes it first.
pub open spec fn next_save_step(step: SaveStep, ok: bool) -> SaveStep {
    match step {
        SaveStep::Serialize => if ok {
            SaveStep::CreateDir
        } else {
            SaveStep::Failed
        },
        SaveStep::CreateDir => if ok {
            SaveStep::OpenTemp
        } else {
            SaveStep::Failed
        },
        SaveStep::OpenTemp => if ok {
            SaveStep::WriteTemp
        } else {
            SaveStep::RemoveTemp
        },
        SaveStep::WriteTemp => if ok {
            SaveStep::SyncTemp
        } else {
            SaveStep::RemoveTemp
        },
        SaveStep::SyncTemp => if ok {
            SaveStep::Replace
        } else {
            SaveStep::RemoveTemp
        },
        SaveStep::Replace => if ok {
            SaveStep::Succeeded
        } else {
            SaveStep::RemoveTemp
        },
        SaveStep::RemoveTemp => SaveStep::Failed,
        SaveStep::Succeeded => SaveStep::Succeeded,
        SaveStep::Failed => SaveStep::Failed,
    }
}

/// The step reached from `step` after the outcomes `outs`, one per step.
pub open spec fn run_save(step: SaveStep, outs: Seq<bool>) -> SaveStep
    decreases outs.len(),
{
    if outs.len() == 0 {
        step
    } else {
        run_save(next_save_step(step, outs[0]), outs.drop_first())
    }
}

/// The step is final.
pub open spec fn save_finished(step: SaveStep) -> bool {
    step == SaveStep::Succeeded || step == SaveStep::Failed
}

/// A save in progress: the record it writes and the step to do next.
pub struct SaveJob {
    settings: Settings,
    step: SaveStep,
}

impl SaveJob {
    pub closed spec fn record(&self) -> SettingsView {
        self.settings@
    }

    pub closed spec fn current(&self) -> SaveStep {
        self.step
    }

    /// The record to encode and write.
    pub fn settings(&self) -> (s: &Settings)
        ensures
            s@ == self.record(),
    {
        &self.settings
    }

    /// The step to do next.
    pub fn step(&self) -> (s: SaveStep)
        ensures
            s == self.current(),
    {
        self.step
    }

    /// Records the outcome of the current step.
    pub fn advance(&mut self, ok: bool)
        ensures
            final(self).current() == next_save_step(old(self).current(), ok),
            final(self).record() == old(self).record(),
    {
        self.step = match self.step {
            SaveStep::Serialize => if ok {
                SaveStep::CreateDir
            } else {
                SaveStep::Failed
            },
            SaveStep::CreateDir => if ok {
                SaveStep::OpenTemp
            } else {
                SaveStep::Failed
            },
            SaveStep::OpenTemp => if ok {
                SaveStep::WriteTemp
            } else {
                SaveStep::RemoveTemp
            },
            SaveStep::WriteTemp => if ok {
                SaveStep::SyncTemp
            } else {
                SaveStep::RemoveTemp
            },
            SaveStep::SyncTemp => if ok {
                SaveStep::Replace
            } else {
                SaveStep::RemoveTemp
            },
            SaveStep::Replace => if ok {
                SaveStep::Succeeded
            } else {
                SaveStep::RemoveTemp
            },
            SaveStep::RemoveTemp => SaveStep::Failed,
            SaveStep::Succeeded => SaveStep::Succeeded,
            SaveStep::Failed => SaveStep::Failed,
        };
    }
}

impl Settings {
    /// Starts saving the record: the job writes the normal form of the record
    /// and begins by encoding it.
    pub fn save(&self) -> (job: SaveJob)
        ensures
            is_normal_form_of(job.record(), self@),
            job.current() == SaveStep::Serialize,
    {
        SaveJob { settings: self.duplicate().normalized(), step: SaveStep::Serialize }
    }
}

/// Every save ends within seven steps, whatever the outcomes.
pub proof fn lemma_save_terminates(outs: Seq<bool>)
    requires
        outs.len() >= 7,
    ensures
        save_finished(run_save(SaveStep::Serialize, outs)),
{
    reveal_with_fuel(run_save, 8);
    lemma_run_save_stays(run_save(SaveStep::Serialize, outs.take(7)), outs.skip(7));
    lemma_run_save_split(SaveStep::Serialize, outs, 7);
}

/// A save succeeds exactly when its six working steps all succeed.
pub proof fn lemma_save_succeeds_iff_all_steps_succeed(outs: Seq<bool>)
    requires
        outs.len() >= 7,
    ensures
        run_save(SaveStep::Serialize, outs) == SaveStep::Succeeded <==> (forall|i: int|
            0 <= i < 6 ==> #[trigger] outs[i]),
{
    reveal_with_fuel(run_save, 8);
    lemma_run_save_stays(run_save(SaveStep::Serialize, outs.take(7)), outs.skip(7));
    lemma_run_save_split(SaveStep::Serialize, outs, 7);
    if forall|i: int| 0 <= i < 6 ==> #[trigger] outs[i] {
        assert(outs[0] && outs[1] && outs[2] && outs[3] && outs[4] && outs[5]);
    }
}

/// Once the temporary file may exist, a failure of any later step is
/// followed by its removal before the save ends.
pub proof fn lemma_failure_removes_temp(step: SaveStep)
    requires
        step == SaveStep::OpenTemp || step == SaveStep::WriteTemp || step == SaveStep::SyncTemp
            || step == SaveStep::Replace,
    ensures
        next_save_step(step, false) == SaveStep::RemoveTemp,
        next_save_step(SaveStep::RemoveTemp, true) == SaveStep::Failed,
        next_save_step(SaveStep::RemoveTemp, false) == SaveStep::Failed,
{
}

proof fn lemma_run_save_stays(step: SaveStep, outs: Seq<bool>)
    requires
        save_finished(step),
    ensures
        run_save(step, outs) == step,
    decreases outs.len(),
{
    if outs.len() > 0 {
        lemma_run_save_stays(next_save_step(step, outs[0]), outs.drop_first());
    }
}

proof fn lemma_run_save_split(step: SaveStep, outs: Seq<bool>, k: int)
    requires
        0 <= k <= outs.len(),
    ensures
        run_save(step, outs) == run_save(run_save(step, outs.take(k)), outs.skip(k)),
    decreases k,
{
    if k > 0 {
        lemma_run_save_split(next_save_step(step, outs[0]), outs.drop_first(), k - 1);
        assert(outs.take(k).drop_first() =~= outs.drop_first().take(k - 1));
        assert(outs.drop_first().skip(k - 1) =~= outs.skip(k));
    } else {
        assert(outs.skip(0) =~= outs);
    }
}

} // verus!
