//! The tray menu: what it lists, in which order, with which marks.
//!
//! The menu is built from this description each time it opens; creating the
//! native menu and tracking the click happen outside this crate.

use vstd::prelude::*;
use vstd::string::*;
use crate::control::{
    command_spec, AppView, Effect, ID_EXCLUDE, ID_EXIT, ID_INT_BASE, ID_SNOOZE_15, ID_SNOOZE_5, ID_TEX_BASE, ID_TOGGLE,
    INTENSITIES,
};
use crate::texture::{KINDS, KIND_NAMES};

verus! {

/// Decimal digits of `v`, most significant first, without sign or padding.
pub open spec fn decimal(v: nat) -> Seq<char>
    decreases v,
{
    if v < 10 {
        seq![(('0' as u32) + v) as char]
    } else {
        decimal(v / 10).push((('0' as u32) + v % 10) as char)
    }
}

/// The label of an intensity: its decimal digits and a percent sign.
pub open spec fn percent_label(v: u32) -> Seq<char> {
    decimal(v as nat) + "%"@
}

/// The one-character string of a decimal digit.
fn digit_str(d: u32) -> (s: &'static str)
    requires
        d < 10,
    ensures
        s@ == seq![(('0' as u32) + d) as char],
{
    proof {
        reveal_strlit("0");
        reveal_strlit("1");
        reveal_strlit("2");
        reveal_strlit("3");
        reveal_strlit("4");
        reveal_strlit("5");
        reveal_strlit("6");
        reveal_strlit("7");
        reveal_strlit("8");
        reveal_strlit("9");
    }
    let s = match d {
        0 => "0",
        1 => "1",
        2 => "2",
        3 => "3",
        4 => "4",
        5 => "5",
        6 => "6",
        7 => "7",
        8 => "8",
        _ => "9",
    };
    assert(s@ =~= seq![(('0' as u32) + d) as char]);
    s
}

/// The decimal digits of `v`, as `u32`'s `Display` writes them.
fn format_decimal(v: u32) -> (s: String)
    ensures
        s@ == decimal(v as nat),
    decreases v,
{
    if v < 10 {
        String::from_str(digit_str(v))
    } else {
        let mut s = format_decimal(v / 10);
        s.append(digit_str(v % 10));
        s
    }
}

/// The label of an intensity.
fn percent_text(v: u32) -> (s: String)
    ensures
        s@ == percent_label(v),
{
    let mut s = format_decimal(v);
    s.append("%");
    s
}

/// One clickable menu line.
pub struct MenuItem {
    pub id: u16,
    pub text: String,
    pub checked: bool,
    pub grayed: bool,
}

/// One line of the top-level menu.
pub enum MenuEntry {
    Item(MenuItem),
    Separator,
    /// A labelled submenu and its lines.
    Submenu(String, Vec<MenuItem>),
}

/// The value of a menu line.
pub struct MenuItemView {
    pub id: u16,
    pub text: Seq<char>,
    pub checked: bool,
    pub grayed: bool,
}

/// The value of a top-level line.
pub enum MenuEntryView {
    Item(MenuItemView),
    Separator,
    Submenu(Seq<char>, Seq<MenuItemView>),
}

impl MenuItem {
    pub open spec fn view(&self) -> MenuItemView {
        MenuItemView { id: self.id, text: self.text@, checked: self.checked, grayed: self.grayed }
    }
}

/// The values of a list of lines.
pub open spec fn item_views(items: Seq<MenuItem>) -> Seq<MenuItemView> {
    items.map_values(|i: MenuItem| i.view())
}

impl MenuEntry {
    pub open spec fn view(&self) -> MenuEntryView {
        match self {
            MenuEntry::Item(i) => MenuEntryView::Item(i.view()),
            MenuEntry::Separator => MenuEntryView::Separator,
            MenuEntry::Submenu(label, items) => MenuEntryView::Submenu(label@, item_views(items@)),
        }
    }
}

/// The values of the top-level lines.
pub open spec fn entry_views(entries: Seq<MenuEntry>) -> Seq<MenuEntryView> {
    entries.map_values(|e: MenuEntry| e.view())
}

/// A plain line.
pub open spec fn line(id: u16, text: Seq<char>, checked: bool, grayed: bool) -> MenuItemView {
    MenuItemView { id, text, checked, grayed }
}

/// The label of the switch line, with a check mark while the texture is on.
pub open spec fn toggle_label(enabled: bool) -> Seq<char> {
    if enabled {
        "✔ 启用纸张纹理"@
    } else {
        "　启用纸张纹理"@
    }
}

/// The preset lines: one per preset, the one at `tex_idx` checked.
pub open spec fn texture_lines(tex_idx: int) -> Seq<MenuItemView> {
    Seq::new(4, |i: int| line((ID_TEX_BASE + i) as u16, KIND_NAMES[i]@, i == tex_idx, false))
}

/// The intensity lines: one per offered intensity, the one at `int_idx`
/// checked.
pub open spec fn intensity_lines(int_idx: int) -> Seq<MenuItemView> {
    Seq::new(
        4,
        |i: int| line((ID_INT_BASE + i) as u16, percent_label(INTENSITIES[i]), i == int_idx, false),
    )
}

/// The snooze lines.
pub open spec fn snooze_lines() -> Seq<MenuItemView> {
    seq![line(ID_SNOOZE_5, "暂停 5 分钟"@, false, false), line(ID_SNOOZE_15, "暂停 15 分钟"@, false, false)]
}

/// The exclusion line: it names the foreground application, and is grayed
/// when there is none.
pub open spec fn exclude_line(fg: Option<Seq<char>>) -> MenuItemView {
    match fg {
        Some(name) => line(ID_EXCLUDE, "排除当前应用 ("@ + name + ")"@, false, false),
        None => line(ID_EXCLUDE, "排除当前应用"@, false, true),
    }
}

/// The whole tray menu.
pub open spec fn tray_menu_spec(enabled: bool, tex_idx: int, int_idx: int, fg: Option<Seq<char>>) -> Seq<
    MenuEntryView,
> {
    seq![
        MenuEntryView::Item(line(ID_TOGGLE, toggle_label(enabled), enabled, false)),
        MenuEntryView::Separator,
        MenuEntryView::Submenu("纹理"@, texture_lines(tex_idx)),
        MenuEntryView::Submenu("强度"@, intensity_lines(int_idx)),
        MenuEntryView::Submenu("打盹"@, snooze_lines()),
        MenuEntryView::Separator,
        MenuEntryView::Item(exclude_line(fg)),
        MenuEntryView::Separator,
        MenuEntryView::Item(line(ID_EXIT, "退出"@, false, false)),
    ]
}

fn item(id: u16, text: String, checked: bool, grayed: bool) -> (i: MenuItem)
    ensures
        i.view() == line(id, text@, checked, grayed),
{
    MenuItem { id, text, checked, grayed }
}

/// Describes the tray menu.  `tex_idx` and `int_idx` are the positions of
/// the current preset and intensity; `fg_name` is the foreground application,
/// captured before the menu opened.
pub fn tray_menu(enabled: bool, tex_idx: usize, int_idx: usize, fg_name: Option<&str>) -> (entries:
    Vec<MenuEntry>)
    ensures
        entry_views(entries@) == tray_menu_spec(
            enabled,
            tex_idx as int,
            int_idx as int,
            match fg_name {
                Some(n) => Some(n@),
                None => None,
            },
        ),
{
    let toggle_text = if enabled {
        String::from_str("✔ 启用纸张纹理")
    } else {
        String::from_str("　启用纸张纹理")
    };
    let mut textures: Vec<MenuItem> = Vec::new();
    let mut i: usize = 0;
    while i < 4
        invariant
            i <= 4,
            item_views(textures@) == texture_lines(tex_idx as int).subrange(0, i as int),
        decreases 4 - i,
    {
        let ghost prev = textures@;
        textures.push(item(ID_TEX_BASE + i as u16, String::from_str(KIND_NAMES[i]), i == tex_idx, false));
        assert(item_views(textures@) =~= item_views(prev).push(texture_lines(tex_idx as int)[i as int]));
        i = i + 1;
        assert(item_views(textures@) =~= texture_lines(tex_idx as int).subrange(0, i as int));
    }
    let mut levels: Vec<MenuItem> = Vec::new();
    let mut k: usize = 0;
    while k < 4
        invariant
            k <= 4,
            item_views(levels@) == intensity_lines(int_idx as int).subrange(0, k as int),
        decreases 4 - k,
    {
        let ghost prev = levels@;
        levels.push(item(ID_INT_BASE + k as u16, percent_text(INTENSITIES[k]), k == int_idx, false));
        assert(item_views(levels@) =~= item_views(prev).push(intensity_lines(int_idx as int)[k as int]));
        k = k + 1;
        assert(item_views(levels@) =~= intensity_lines(int_idx as int).subrange(0, k as int));
    }
    let mut snooze: Vec<MenuItem> = Vec::new();
    snooze.push(item(ID_SNOOZE_5, String::from_str("暂停 5 分钟"), false, false));
    snooze.push(item(ID_SNOOZE_15, String::from_str("暂停 15 分钟"), false, false));
    let exclude = match fg_name {
        Some(name) => {
            let mut text = String::from_str("排除当前应用 (");
            text.append(name);
            text.append(")");
            item(ID_EXCLUDE, text, false, false)
        },
        None => item(ID_EXCLUDE, String::from_str("排除当前应用"), false, true),
    };
    let mut entries: Vec<MenuEntry> = Vec::new();
    entries.push(MenuEntry::Item(item(ID_TOGGLE, toggle_text, enabled, false)));
    entries.push(MenuEntry::Separator);
    entries.push(MenuEntry::Submenu(String::from_str("纹理"), textures));
    entries.push(MenuEntry::Submenu(String::from_str("强度"), levels));
    entries.push(MenuEntry::Submenu(String::from_str("打盹"), snooze));
    entries.push(MenuEntry::Separator);
    entries.push(MenuEntry::Item(exclude));
    entries.push(MenuEntry::Separator);
    entries.push(MenuEntry::Item(item(ID_EXIT, String::from_str("退出"), false, false)));
    proof {
        assert(texture_lines(tex_idx as int).subrange(0, 4) =~= texture_lines(tex_idx as int));
        assert(intensity_lines(int_idx as int).subrange(0, 4) =~= intensity_lines(int_idx as int));
        assert(item_views(snooze@) =~= snooze_lines());
        let fgv = match fg_name {
            Some(n) => Some(n@),
            None => None,
        };
        assert(entry_views(entries@) =~= tray_menu_spec(enabled, tex_idx as int, int_idx as int, fgv));
    }
    entries
}

/// Every menu line carries the command its label names: the switch line
/// toggles the switch, the preset line labelled `KIND_NAMES[i]` chooses
/// `KINDS[i]`, the intensity line labelled "v%" chooses intensity `v`, the
/// "5 分钟" snooze line starts a five-minute timer and the "15 分钟" line a
/// fifteen-minute one, the exclusion line excludes, and "退出" quits.
pub proof fn lemma_menu_lines_do_what_they_say(
    enabled: bool,
    tex_idx: int,
    int_idx: int,
    fg: Option<Seq<char>>,
    s: AppView,
    own: Option<Seq<char>>,
)
    ensures
        ({
            let m = tray_menu_spec(enabled, tex_idx, int_idx, fg);
            &&& m.len() == 9
            &&& m[0] matches MenuEntryView::Item(t) && command_spec(s, t.id as u32, fg, own).0.settings.enabled
                == !s.settings.enabled
            &&& m[2] matches MenuEntryView::Submenu(_, items) && items.len() == 4 && forall|i: int|
                0 <= i < 4 ==> (#[trigger] items[i]).text == KIND_NAMES[i]@ && command_spec(
                    s,
                    items[i].id as u32,
                    fg,
                    own,
                ).0.settings.texture == KINDS[i]
            &&& m[3] matches MenuEntryView::Submenu(_, items) && items.len() == 4 && forall|i: int|
                0 <= i < 4 ==> (#[trigger] items[i]).text == decimal(
                    command_spec(s, items[i].id as u32, fg, own).0.settings.intensity as nat,
                ) + "%"@
            &&& m[4] matches MenuEntryView::Submenu(_, items) && items.len() == 2
                && items[0].text == "暂停 5 分钟"@ && command_spec(s, items[0].id as u32, fg, own).1
                == seq![Effect::ApplyVisibility, Effect::StartSnoozeTimer((5 * 60_000) as u32)]
                && items[1].text == "暂停 15 分钟"@ && command_spec(s, items[1].id as u32, fg, own).1
                == seq![Effect::ApplyVisibility, Effect::StartSnoozeTimer((15 * 60_000) as u32)]
            &&& m[6] matches MenuEntryView::Item(x) && x.id == ID_EXCLUDE
            &&& m[8] matches MenuEntryView::Item(q) && q.text == "退出"@ && command_spec(
                s,
                q.id as u32,
                fg,
                own,
            ).1 == seq![Effect::DestroyWindow]
        }),
{
    let m = tray_menu_spec(enabled, tex_idx, int_idx, fg);
    let tl = texture_lines(tex_idx);
    assert forall|i: int| 0 <= i < 4 implies (#[trigger] tl[i]).text == KIND_NAMES[i]@ && command_spec(
        s,
        tl[i].id as u32,
        fg,
        own,
    ).0.settings.texture == KINDS[i] by {
        assert(tl[i].id == ID_TEX_BASE + i);
    }
    let il = intensity_lines(int_idx);
    assert forall|i: int| 0 <= i < 4 implies (#[trigger] il[i]).text == decimal(
        command_spec(s, il[i].id as u32, fg, own).0.settings.intensity as nat,
    ) + "%"@ by {
        assert(il[i].id == ID_INT_BASE + i);
        assert(command_spec(s, il[i].id as u32, fg, own).0.settings.intensity == INTENSITIES[i]);
    }
    let sl = snooze_lines();
    assert(command_spec(s, sl[0].id as u32, fg, own).1 =~= seq![
        Effect::ApplyVisibility,
        Effect::StartSnoozeTimer((5 * 60_000) as u32),
    ]);
    assert(command_spec(s, sl[1].id as u32, fg, own).1 =~= seq![
        Effect::ApplyVisibility,
        Effect::StartSnoozeTimer((15 * 60_000) as u32),
    ]);
}

} // verus!
