use acl_build::menu::{MenuItemSpec, PredefinedKind, SubmenuBuilder};

#[test]
fn builder_accumulates_items_in_order() {
    let submenu = SubmenuBuilder::new("File")
        .text("open", "Open")
        .check("autosave", "Autosave")
        .separator()
        .copy()
        .cut()
        .paste()
        .build();
    assert!(submenu.id.is_none());
    assert_eq!(submenu.text, "File");
    assert!(submenu.enabled);
    assert_eq!(submenu.items.len(), 6);
    assert!(matches!(&submenu.items[0], MenuItemSpec::Custom { id, text } if id == "open" && text == "Open"));
    assert!(matches!(&submenu.items[1], MenuItemSpec::Check { id, .. } if id == "autosave"));
    assert!(matches!(
        &submenu.items[2],
        MenuItemSpec::Predefined { kind: PredefinedKind::Separator }
    ));
    assert!(matches!(
        &submenu.items[3],
        MenuItemSpec::Predefined { kind: PredefinedKind::ClipboardCopy }
    ));
    assert!(matches!(
        &submenu.items[4],
        MenuItemSpec::Predefined { kind: PredefinedKind::ClipboardCut }
    ));
    assert!(matches!(
        &submenu.items[5],
        MenuItemSpec::Predefined { kind: PredefinedKind::ClipboardPaste }
    ));
}

#[test]
fn builder_sets_id_and_enabled_state() {
    let submenu = SubmenuBuilder::with_id("file-menu", "File")
        .enabled(false)
        .select_all()
        .undo()
        .redo()
        .minimize()
        .maximize()
        .fullscreen()
        .hide_window()
        .hide_others()
        .show_all()
        .close_window()
        .quit()
        .about(Some("demo".to_string()))
        .services()
        .build();
    assert_eq!(submenu.id.as_deref(), Some("file-menu"));
    assert!(!submenu.enabled);
    assert_eq!(submenu.items.len(), 13);
    assert!(matches!(
        &submenu.items[11],
        MenuItemSpec::Predefined { kind: PredefinedKind::About { app_name: Some(n) } } if n == "demo"
    ));
}

#[test]
fn builder_appends_given_items_and_icons() {
    let extra = vec![
        MenuItemSpec::Custom { id: "a".to_string(), text: "A".to_string() },
        MenuItemSpec::Custom { id: "b".to_string(), text: "B".to_string() },
    ];
    let submenu = SubmenuBuilder::new("Edit")
        .id("edit-menu")
        .item(MenuItemSpec::Predefined { kind: PredefinedKind::Separator })
        .items(extra)
        .icon("ic", "Icon", vec![0, 0, 0, 255], 1, 1)
        .native_icon("ni", "Native", "folder")
        .build();
    assert_eq!(submenu.id.as_deref(), Some("edit-menu"));
    assert_eq!(submenu.items.len(), 5);
    assert!(matches!(&submenu.items[1], MenuItemSpec::Custom { id, .. } if id == "a"));
    assert!(matches!(&submenu.items[2], MenuItemSpec::Custom { id, .. } if id == "b"));
    assert!(matches!(
        &submenu.items[3],
        MenuItemSpec::Icon { id, icon_width: 1, icon_height: 1, .. } if id == "ic"
    ));
    assert!(matches!(
        &submenu.items[4],
        MenuItemSpec::NativeIcon { id, icon, .. } if id == "ni" && icon == "folder"
    ));
}
