use sue_paper::{tray_menu, MenuEntry, MenuItem, ID_EXCLUDE, ID_EXIT, ID_INT_BASE, ID_TEX_BASE, ID_TOGGLE, KIND_NAMES};

fn item(entry: &MenuEntry) -> &MenuItem {
    match entry {
        MenuEntry::Item(i) => i,
        _ => panic!("not an item"),
    }
}

fn submenu(entry: &MenuEntry) -> (&str, &Vec<MenuItem>) {
    match entry {
        MenuEntry::Submenu(label, items) => (label.as_str(), items),
        _ => panic!("not a submenu"),
    }
}

#[test]
fn menu_lists_every_command() {
    let menu = tray_menu(true, 2, 0, Some("game.exe"));
    assert_eq!(menu.len(), 9);
    let toggle = item(&menu[0]);
    assert_eq!(toggle.id, ID_TOGGLE);
    assert_eq!(toggle.text, "✔ 启用纸张纹理");
    assert!(toggle.checked);
    assert!(matches!(menu[1], MenuEntry::Separator));
    let (label, textures) = submenu(&menu[2]);
    assert_eq!(label, "纹理");
    assert_eq!(textures.len(), 4);
    for (i, t) in textures.iter().enumerate() {
        assert_eq!(t.id, ID_TEX_BASE + i as u16);
        assert_eq!(t.text, KIND_NAMES[i]);
        assert_eq!(t.checked, i == 2);
    }
    let (label, levels) = submenu(&menu[3]);
    assert_eq!(label, "强度");
    let texts: Vec<&str> = levels.iter().map(|l| l.text.as_str()).collect();
    assert_eq!(texts, ["15%", "20%", "25%", "30%"]);
    assert!(levels[0].checked && !levels[1].checked);
    assert_eq!(levels[3].id, ID_INT_BASE + 3);
    let (label, snooze) = submenu(&menu[4]);
    assert_eq!(label, "打盹");
    assert_eq!(snooze[0].text, "暂停 5 分钟");
    assert_eq!(snooze[1].text, "暂停 15 分钟");
    let exclude = item(&menu[6]);
    assert_eq!(exclude.id, ID_EXCLUDE);
    assert_eq!(exclude.text, "排除当前应用 (game.exe)");
    assert!(!exclude.grayed);
    let exit = item(&menu[8]);
    assert_eq!(exit.id, ID_EXIT);
    assert_eq!(exit.text, "退出");
}

#[test]
fn exclusion_line_is_grayed_without_foreground_application() {
    let menu = tray_menu(false, 0, 1, None);
    let toggle = item(&menu[0]);
    assert_eq!(toggle.text, "　启用纸张纹理");
    assert!(!toggle.checked);
    let exclude = item(&menu[6]);
    assert_eq!(exclude.text, "排除当前应用");
    assert!(exclude.grayed);
}
