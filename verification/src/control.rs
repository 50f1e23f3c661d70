//! The tray commands and the state they act on.
//!
//! The window procedure of the hidden control window turns tray clicks and
//! timers into calls of the functions here.  Each call updates the state and
//! returns the effects to carry out, in order: saving the settings, showing or
//! hiding the overlays, regenerating the texture, closing the control window,
//! starting the snooze timer.

use vstd::prelude::*;
use crate::settings::{Settings, SettingsView};
use crate::text::string_views;
use crate::texture::{TextureKind, KINDS};

verus! {

/// Menu command: switch the texture on or off.
pub const ID_TOGGLE: u16 = 1001;
/// Menu command: quit.
pub const ID_EXIT: u16 = 1002;
/// Menu commands `ID_TEX_BASE + i`: choose preset `KINDS[i]`.
pub const ID_TEX_BASE: u16 = 1100;
/// Menu commands `ID_INT_BASE + i`: choose intensity `INTENSITIES[i]`.
pub const ID_INT_BASE: u16 = 1200;
/// Menu command: hide the texture for five minutes.
pub const ID_SNOOZE_5: u16 = 1301;
/// Menu command: hide the texture for fifteen minutes.
pub const ID_SNOOZE_15: u16 = 1302;
/// Menu command: exclude the application that was in the foreground.
pub const ID_EXCLUDE: u16 = 1401;

/// The intensities the menu offers, in percent.
pub const INTENSITIES: [u32; 4] = [15, 20, 25, 30];

/// The overlays show exactly when the texture is on, not snoozed, and the
/// foreground application is not excluded.
pub fn overlay_should_be_visible(enabled: bool, snoozed: bool, hidden_by_exclusion: bool) -> (r:
    bool)
    ensures
        r == (enabled && !snoozed && !hidden_by_exclusion),
{
    enabled && !snoozed && !hidden_by_exclusion
}

/// How often the foreground application is polled, in milliseconds: every
/// half second, whether or not the foreground-change hook is installed (the
/// hook only makes the check immediate on a switch).
pub fn poll_interval_ms(hook_installed: bool) -> (ms: u32)
    ensures
        ms == 500,
{
    500
}

/// Position of a preset in `KINDS`.
pub open spec fn kind_index(kind: TextureKind) -> int {
    match kind {
        TextureKind::ClassicMatte => 0,
        TextureKind::WhisperWeave => 1,
        TextureKind::Parchment => 2,
        TextureKind::VellumMist => 3,
    }
}

/// The menu position of a preset.
pub fn tex_idx(kind: TextureKind) -> (i: usize)
    ensures
        i == kind_index(kind),
        i < 4,
        KINDS[i as int] == kind,
{
    match kind {
        TextureKind::ClassicMatte => 0,
        TextureKind::WhisperWeave => 1,
        TextureKind::Parchment => 2,
        TextureKind::VellumMist => 3,
    }
}

/// The menu position of an intensity: its index in `INTENSITIES`, or 1 (the
/// default 20 percent) for one the menu does not offer.
pub open spec fn intensity_index(v: u32) -> int {
    if v == 15 {
        0
    } else if v == 20 {
        1
    } else if v == 25 {
        2
    } else if v == 30 {
        3
    } else {
        1
    }
}

/// The menu position of an intensity.
pub fn int_idx(intensity: u32) -> (i: usize)
    ensures
        i == intensity_index(intensity),
        i < 4,
        crate::settings::allowed_intensity(intensity) ==> INTENSITIES[i as int] == intensity,
{
    let mut i: usize = 0;
    while i < 4
        invariant
            i <= 4,
            forall|k: int| 0 <= k < i ==> INTENSITIES[k] != intensity,
        decreases 4 - i,
    {
        if INTENSITIES[i] == intensity {
            return i;
        }
        i = i + 1;
    }
    1
}

/// An effect of a command, for the caller to carry out.
#[derive(Clone, Copy, Debug, PartialEq, Eq, Structural)]
pub enum Effect {
    /// Write the settings to disk.
    SaveSettings,
    /// Show or hide every overlay according to `AppState::visible`.
    ApplyVisibility,
    /// Regenerate the texture block and draw it on every overlay.
    RefreshTextures,
    /// Close the control window, which ends the program.
    DestroyWindow,
    /// Start the snooze timer with this many milliseconds.
    StartSnoozeTimer(u32),
}

/// The state the commands act on.
pub struct AppState {
    pub settings: Settings,
    /// A snooze timer is running.
    pub snoozed: bool,
    /// The foreground application is on the exclusion list.
    pub hidden_by_exclusion: bool,
}

/// The mathematical value of the state.
#[verifier::ext_equal]
pub struct AppView {
    pub settings: SettingsView,
    pub snoozed: bool,
    pub hidden_by_exclusion: bool,
}

impl View for AppState {
    type V = AppView;

    open spec fn view(&self) -> AppView {
        AppView {
            settings: self.settings@,
            snoozed: self.snoozed,
            hidden_by_exclusion: self.hidden_by_exclusion,
        }
    }
}

/// Whether the overlays show in a state.
pub open spec fn visible_spec(s: AppView) -> bool {
    s.settings.enabled && !s.snoozed && !s.hidden_by_exclusion
}

/// The state with other settings.
pub open spec fn with_settings(s: AppView, settings: SettingsView) -> AppView {
    AppView { settings, snoozed: s.snoozed, hidden_by_exclusion: s.hidden_by_exclusion }
}

/// What a menu command does: the new state and the effects, in order.  The
/// command is read as a 16-bit menu id.  `fg` is the foreground application
/// captured before the menu opened, `own` this program's executable name.
pub open spec fn command_spec(
    s: AppView,
    cmd: u32,
    fg: Option<Seq<char>>,
    own: Option<Seq<char>>,
) -> (AppView, Seq<Effect>) {
    let c = cmd as u16;
    let st = s.settings;
    if c == ID_TOGGLE {
        (
            with_settings(
                s,
                SettingsView {
                    enabled: !st.enabled,
                    texture: st.texture,
                    intensity: st.intensity,
                    exclusions: st.exclusions,
                },
            ),
            seq![Effect::SaveSettings, Effect::ApplyVisibility],
        )
    } else if c == ID_EXIT {
        (s, seq![Effect::DestroyWindow])
    } else if c == ID_SNOOZE_5 || c == ID_SNOOZE_15 {
        let ms: u32 = if c == ID_SNOOZE_5 {
            300_000
        } else {
            900_000
        };
        (
            AppView {
                settings: st,
                snoozed: true,
                hidden_by_exclusion: s.hidden_by_exclusion,
            },
            seq![Effect::ApplyVisibility, Effect::StartSnoozeTimer(ms)],
        )
    } else if c == ID_EXCLUDE {
        match fg {
            Some(name) => if Some(name) != own && !st.exclusions.contains(name) {
                (
                    with_settings(
                        s,
                        SettingsView {
                            enabled: st.enabled,
                            texture: st.texture,
                            intensity: st.intensity,
                            exclusions: st.exclusions.push(name),
                        },
                    ),
                    seq![Effect::SaveSettings],
                )
            } else {
                (s, Seq::empty())
            },
            None => (s, Seq::empty()),
        }
    } else if ID_TEX_BASE <= c < ID_TEX_BASE + 4 {
        let kind = KINDS[c - ID_TEX_BASE];
        if st.texture == kind {
            (s, Seq::empty())
        } else {
            (
                with_settings(
                    s,
                    SettingsView {
                        enabled: st.enabled,
                        texture: kind,
                        intensity: st.intensity,
                        exclusions: st.exclusions,
                    },
                ),
                seq![Effect::SaveSettings, Effect::RefreshTextures, Effect::ApplyVisibility],
            )
        }
    } else if ID_INT_BASE <= c < ID_INT_BASE + 4 {
        let v = INTENSITIES[c - ID_INT_BASE];
        if st.intensity == v {
            (s, Seq::empty())
        } else {
            (
                with_settings(
                    s,
                    SettingsView {
                        enabled: st.enabled,
                        texture: st.texture,
                        intensity: v,
                        exclusions: st.exclusions,
                    },
                ),
                seq![Effect::SaveSettings, Effect::RefreshTextures, Effect::ApplyVisibility],
            )
        }
    } else {
        (s, Seq::empty())
    }
}

/// What polling the foreground application does: the exclusion flag follows
/// whether its name is listed, and the overlays are updated when it changed.
pub open spec fn poll_spec(s: AppView, fg: Option<Seq<char>>) -> (AppView, Seq<Effect>) {
    let excluded = match fg {
        Some(name) => s.settings.exclusions.contains(name),
        None => false,
    };
    if excluded != s.hidden_by_exclusion {
        (
            AppView {
                settings: s.settings,
                snoozed: s.snoozed,
                hidden_by_exclusion: excluded,
            },
            seq![Effect::ApplyVisibility],
        )
    } else {
        (s, Seq::empty())
    }
}

/// The views of an optional string.
pub open spec fn opt_view(o: Option<String>) -> Option<Seq<char>> {
    match o {
        Some(s) => Some(s@),
        None => None,
    }
}

/// Whether `list` holds `name`.
fn contains_name(list: &Vec<String>, name: &String) -> (r: bool)
    ensures
        r == string_views(list@).contains(name@),
{
    let mut i: usize = 0;
    while i < list.len()
        invariant
            i <= list@.len(),
            forall|k: int| 0 <= k < i ==> string_views(list@)[k] != name@,
        decreases list.len() - i,
    {
        if list[i] == *name {
            assert(string_views(list@)[i as int] == name@);
            return true;
        }
        i = i + 1;
    }
    false
}

impl AppState {
    /// The state at start-up: the loaded settings, no snooze, nothing excluded.
    pub fn new(settings: Settings) -> (s: AppState)
        ensures
            s@ == (AppView { settings: settings@, snoozed: false, hidden_by_exclusion: false }),
    {
        AppState { settings, snoozed: false, hidden_by_exclusion: false }
    }

    /// Whether the overlays show.
    pub fn visible(&self) -> (r: bool)
        ensures
            r == visible_spec(self@),
    {
        overlay_should_be_visible(self.settings.enabled, self.snoozed, self.hidden_by_exclusion)
    }

    /// Carries out a menu command.
    pub fn handle_command(&mut self, cmd: u32, fg_name: Option<String>, own_exe: Option<String>) -> (effects: Vec<Effect>)
        ensures
            (final(self)@, effects@) == command_spec(old(self)@, cmd, opt_view(fg_name), opt_view(own_exe)),
    {
        let c: u16 = cmd as u16;
        let mut effects: Vec<Effect> = Vec::new();
        if c == ID_TOGGLE {
            self.settings.enabled = !self.settings.enabled;
            effects.push(Effect::SaveSettings);
            effects.push(Effect::ApplyVisibility);
        } else if c == ID_EXIT {
            effects.push(Effect::DestroyWindow);
        } else if c == ID_SNOOZE_5 || c == ID_SNOOZE_15 {
            let ms: u32 = if c == ID_SNOOZE_5 {
                5 * 60_000
            } else {
                15 * 60_000
            };
            self.snoozed = true;
            effects.push(Effect::ApplyVisibility);
            effects.push(Effect::StartSnoozeTimer(ms));
        } else if c == ID_EXCLUDE {
            if let Some(name) = fg_name {
                let is_own = match &own_exe {
                    Some(own) => *own == name,
                    None => false,
                };
                if !is_own {
                    if !contains_name(&self.settings.exclusions, &name) {
                        let ghost before = self.settings.exclusions@;
                        self.settings.exclusions.push(name);
                        proof {
                            assert(string_views(self.settings.exclusions@) =~= string_views(before).push(name@));
                        }
                        effects.push(Effect::SaveSettings);
                    }
                }
            }
        } else if ID_TEX_BASE <= c && c < ID_TEX_BASE + 4 {
            let kind = KINDS[(c - ID_TEX_BASE) as usize];
            if self.settings.texture != kind {
                self.settings.texture = kind;
                effects.push(Effect::SaveSettings);
                effects.push(Effect::RefreshTextures);
                effects.push(Effect::ApplyVisibility);
            }
        } else if ID_INT_BASE <= c && c < ID_INT_BASE + 4 {
            let v = INTENSITIES[(c - ID_INT_BASE) as usize];
            if self.settings.intensity != v {
                self.settings.intensity = v;
                effects.push(Effect::SaveSettings);
                effects.push(Effect::RefreshTextures);
                effects.push(Effect::ApplyVisibility);
            }
        }
        proof {
            let expected = command_spec(old(self)@, cmd, opt_view(fg_name), opt_view(own_exe));
            assert(self@ =~= expected.0);
            assert(effects@ =~= expected.1);
        }
        effects
    }

    /// The snooze timer could not be started: the snooze is called off.
    pub fn snooze_timer_failed(&mut self) -> (effects: Vec<Effect>)
        ensures
            final(self)@ == (AppView {
                settings: old(self)@.settings,
                snoozed: false,
                hidden_by_exclusion: old(self)@.hidden_by_exclusion,
            }),
            effects@ == seq![Effect::ApplyVisibility],
    {
        self.snoozed = false;
        let mut effects: Vec<Effect> = Vec::new();
        effects.push(Effect::ApplyVisibility);
        assert(effects@ =~= seq![Effect::ApplyVisibility]);
        effects
    }

    /// The snooze timer fired: the snooze is over.
    pub fn snooze_ended(&mut self) -> (effects: Vec<Effect>)
        ensures
            final(self)@ == (AppView {
                settings: old(self)@.settings,
                snoozed: false,
                hidden_by_exclusion: old(self)@.hidden_by_exclusion,
            }),
            effects@ == seq![Effect::ApplyVisibility],
    {
        self.snooze_timer_failed()
    }

    /// Checks the foreground application against the exclusion list.
    pub fn poll_exclusion(&mut self, fg: Option<String>) -> (effects: Vec<Effect>)
        ensures
            (final(self)@, effects@) == poll_spec(old(self)@, opt_view(fg)),
    {
        let excluded = match &fg {
            Some(name) => contains_name(&self.settings.exclusions, name),
            None => false,
        };
        let mut effects: Vec<Effect> = Vec::new();
        if excluded != self.hidden_by_exclusion {
            self.hidden_by_exclusion = excluded;
            effects.push(Effect::ApplyVisibility);
        }
        proof {
            let expected = poll_spec(old(self)@, opt_view(fg));
            assert(self@ =~= expected.0);
            assert(effects@ =~= expected.1);
        }
        effects
    }
}

/// The intensities the menu offers are exactly those that normalization
/// keeps.
pub proof fn lemma_offered_intensities(v: u32)
    ensures
        crate::settings::allowed_intensity(v) <==> exists|i: int| 0 <= i < 4 && #[trigger] INTENSITIES[i] == v,
{
    if crate::settings::allowed_intensity(v) {
        assert(INTENSITIES[intensity_index(v)] == v);
    }
}

/// Toggling twice gives back the state.
pub proof fn lemma_toggle_twice(s: AppView, fg: Option<Seq<char>>, own: Option<Seq<char>>)
    ensures
        command_spec(command_spec(s, ID_TOGGLE as u32, fg, own).0, ID_TOGGLE as u32, fg, own).0
            == s,
{
    let once = command_spec(s, ID_TOGGLE as u32, fg, own).0;
    assert(command_spec(once, ID_TOGGLE as u32, fg, own).0 =~= s);
}

/// Choosing the preset or intensity already in use changes nothing and has
/// no effect.
pub proof fn lemma_reselect_is_noop(s: AppView, i: int, fg: Option<Seq<char>>, own: Option<Seq<char>>)
    requires
        0 <= i < 4,
    ensures
        s.settings.texture == KINDS[i] ==> command_spec(s, (ID_TEX_BASE + i) as u32, fg, own) == (
        s,
        Seq::<Effect>::empty(),
        ),
        s.settings.intensity == INTENSITIES[i] ==> command_spec(
            s,
            (ID_INT_BASE + i) as u32,
            fg,
            own,
        ) == (s, Seq::<Effect>::empty()),
{
}

/// A command saves the settings exactly when it changes them.
pub proof fn lemma_saved_iff_changed(
    s: AppView,
    cmd: u32,
    fg: Option<Seq<char>>,
    own: Option<Seq<char>>,
)
    ensures
        command_spec(s, cmd, fg, own).1.contains(Effect::SaveSettings) <==> command_spec(
            s,
            cmd,
            fg,
            own,
        ).0.settings != s.settings,
{
    let (n, e) = command_spec(s, cmd, fg, own);
    let c = cmd as u16;
    if e.contains(Effect::SaveSettings) {
        if c == ID_EXCLUDE {
            assert(n.settings.exclusions.len() != s.settings.exclusions.len());
        } else if c == ID_TOGGLE {
            assert(n.settings.enabled != s.settings.enabled);
        } else if ID_TEX_BASE <= c < ID_TEX_BASE + 4 {
            assert(n.settings.texture != s.settings.texture);
        } else {
            assert(n.settings.intensity != s.settings.intensity);
        }
    } else {
        if c == ID_SNOOZE_5 || c == ID_SNOOZE_15 {
            assert(e[0] == Effect::ApplyVisibility);
            assert(e[1] != Effect::SaveSettings);
            assert(n.settings =~= s.settings);
        } else if c == ID_EXIT {
            assert(e[0] == Effect::DestroyWindow);
        } else if c == ID_TOGGLE {
            assert(e[0] == Effect::SaveSettings);
        } else if c == ID_EXCLUDE {
            if e.len() > 0 {
                assert(e[0] == Effect::SaveSettings);
            }
        } else if ID_TEX_BASE <= c < ID_TEX_BASE + 4 || ID_INT_BASE <= c < ID_INT_BASE + 4 {
            if e.len() > 0 {
                assert(e[0] == Effect::SaveSettings);
            }
        }
    }
}

/// Whenever a command or a poll changes whether the overlays show, its
/// effects include updating them.
pub proof fn lemma_visibility_kept_in_sync(
    s: AppView,
    cmd: u32,
    fg: Option<Seq<char>>,
    own: Option<Seq<char>>,
)
    ensures
        visible_spec(command_spec(s, cmd, fg, own).0) != visible_spec(s) ==> command_spec(
            s,
            cmd,
            fg,
            own,
        ).1.contains(Effect::ApplyVisibility),
        visible_spec(poll_spec(s, fg).0) != visible_spec(s) ==> poll_spec(s, fg).1.contains(
            Effect::ApplyVisibility,
        ),
{
    let (n, e) = command_spec(s, cmd, fg, own);
    let c = cmd as u16;
    if visible_spec(n) != visible_spec(s) {
        if c == ID_TOGGLE {
            assert(e[1] == Effect::ApplyVisibility);
        } else if c == ID_SNOOZE_5 || c == ID_SNOOZE_15 {
            assert(e[0] == Effect::ApplyVisibility);
        } else if ID_TEX_BASE <= c < ID_TEX_BASE + 4 || ID_INT_BASE <= c < ID_INT_BASE + 4 {
            assert(e[2] == Effect::ApplyVisibility);
        }
    }
    if visible_spec(poll_spec(s, fg).0) != visible_spec(s) {
        assert(poll_spec(s, fg).1[0] == Effect::ApplyVisibility);
    }
}

/// An exclusion list without duplicates keeps none: excluding a listed
/// application adds nothing.
pub proof fn lemma_exclusions_stay_distinct(
    s: AppView,
    cmd: u32,
    fg: Option<Seq<char>>,
    own: Option<Seq<char>>,
)
    requires
        s.settings.exclusions.no_duplicates(),
    ensures
        command_spec(s, cmd, fg, own).0.settings.exclusions.no_duplicates(),
{
    let n = command_spec(s, cmd, fg, own).0;
    let c = cmd as u16;
    if c == ID_EXCLUDE && n.settings.exclusions != s.settings.exclusions {
        let name = fg->Some_0;
        let old_e = s.settings.exclusions;
        assert(n.settings.exclusions == old_e.push(name));
        assert forall|i: int, j: int|
            0 <= i < j < old_e.len() + 1 implies old_e.push(name)[i] != old_e.push(name)[j] by {
            if j == old_e.len() {
                assert(old_e.push(name)[i] == old_e[i]);
            }
        }
    }
}

/// After a poll, the exclusion flag says whether the foreground application
/// is listed.
pub proof fn lemma_poll_tracks_foreground(s: AppView, fg: Option<Seq<char>>)
    ensures
        poll_spec(s, fg).0.hidden_by_exclusion == match fg {
            Some(name) => s.settings.exclusions.contains(name),
            None => false,
        },
        poll_spec(s, fg).0.settings == s.settings,
{
}

/// Each menu command changes only what it names.  Choosing preset `i` sets
/// the preset to `KINDS[i]` and keeps the switch, the intensity, the
/// exclusions, the snooze and the exclusion flag; choosing intensity `i`
/// sets it to `INTENSITIES[i]` and keeps everything else; the switch flips
/// only the switch; a snooze of `n` minutes starts a timer of `n * 60_000`
/// milliseconds and touches no setting; excluding adds at most the foreground
/// application's name; quitting changes nothing.
pub proof fn lemma_commands_change_only_what_they_name(
    s: AppView,
    cmd: u32,
    fg: Option<Seq<char>>,
    own: Option<Seq<char>>,
)
    ensures
        ({
            let (n, e) = command_spec(s, cmd, fg, own);
            let c = cmd as u16;
            &&& ID_TEX_BASE <= c < ID_TEX_BASE + 4 ==> {
                &&& n.settings.texture == KINDS[c - ID_TEX_BASE]
                &&& n.settings.enabled == s.settings.enabled
                &&& n.settings.intensity == s.settings.intensity
                &&& n.settings.exclusions == s.settings.exclusions
                &&& n.snoozed == s.snoozed
                &&& n.hidden_by_exclusion == s.hidden_by_exclusion
                &&& e == (if s.settings.texture == KINDS[c - ID_TEX_BASE] {
                    Seq::<Effect>::empty()
                } else {
                    seq![Effect::SaveSettings, Effect::RefreshTextures, Effect::ApplyVisibility]
                })
            }
            &&& ID_INT_BASE <= c < ID_INT_BASE + 4 ==> {
                &&& n.settings.intensity == INTENSITIES[c - ID_INT_BASE]
                &&& n.settings.enabled == s.settings.enabled
                &&& n.settings.texture == s.settings.texture
                &&& n.settings.exclusions == s.settings.exclusions
                &&& n.snoozed == s.snoozed
                &&& n.hidden_by_exclusion == s.hidden_by_exclusion
                &&& e == (if s.settings.intensity == INTENSITIES[c - ID_INT_BASE] {
                    Seq::<Effect>::empty()
                } else {
                    seq![Effect::SaveSettings, Effect::RefreshTextures, Effect::ApplyVisibility]
                })
            }
            &&& c == ID_TOGGLE ==> {
                &&& n.settings.enabled == !s.settings.enabled
                &&& n.settings.texture == s.settings.texture
                &&& n.settings.intensity == s.settings.intensity
                &&& n.settings.exclusions == s.settings.exclusions
                &&& n.snoozed == s.snoozed
                &&& n.hidden_by_exclusion == s.hidden_by_exclusion
            }
            &&& c == ID_SNOOZE_5 ==> n.settings == s.settings && n.snoozed
                && n.hidden_by_exclusion == s.hidden_by_exclusion && e.contains(
                Effect::StartSnoozeTimer((5 * 60_000) as u32),
            ) && !e.contains(Effect::StartSnoozeTimer((15 * 60_000) as u32))
            &&& c == ID_SNOOZE_15 ==> n.settings == s.settings && n.snoozed
                && n.hidden_by_exclusion == s.hidden_by_exclusion && e.contains(
                Effect::StartSnoozeTimer((15 * 60_000) as u32),
            ) && !e.contains(Effect::StartSnoozeTimer((5 * 60_000) as u32))
            &&& c == ID_EXIT ==> n == s && e == seq![Effect::DestroyWindow]
            &&& c == ID_EXCLUDE ==> {
                &&& n.settings.enabled == s.settings.enabled
                &&& n.settings.texture == s.settings.texture
                &&& n.settings.intensity == s.settings.intensity
                &&& n.snoozed == s.snoozed
                &&& n.hidden_by_exclusion == s.hidden_by_exclusion
                &&& n.settings.exclusions == s.settings.exclusions || (fg is Some
                    && n.settings.exclusions == s.settings.exclusions.push(fg->Some_0))
            }
        }),
{
    let (n, e) = command_spec(s, cmd, fg, own);
    let c = cmd as u16;
    if c == ID_SNOOZE_5 {
        assert(e[1] == Effect::StartSnoozeTimer(300_000));
        assert(e.contains(Effect::StartSnoozeTimer((5 * 60_000) as u32)));
    }
    if c == ID_SNOOZE_15 {
        assert(e[1] == Effect::StartSnoozeTimer(900_000));
        assert(e.contains(Effect::StartSnoozeTimer((15 * 60_000) as u32)));
    }
}

} // verus!
