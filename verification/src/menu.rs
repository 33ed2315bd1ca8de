//! A builder for submenus: it accumulates an ordered list of menu-item
//! descriptors together with the submenu's id, label and enabled state.
//! Realizing the descriptors against a windowing runtime is the caller's
//! concern; the builder itself is pure bookkeeping, verified exactly.

use vstd::prelude::*;
use vstd::string::StringExecFns;

verus! {

/// A ready-made menu item with fixed behaviour.
pub enum PredefinedKind {
    Separator,
    ClipboardCopy,
    ClipboardCut,
    ClipboardPaste,
    SelectAll,
    Undo,
    Redo,
    Minimize,
    Maximize,
    Fullscreen,
    HideWindow,
    HideOthers,
    ShowAll,
    CloseWindow,
    Quit,
    /// The about dialog, with an optional application name.
    About { app_name: Option<String> },
    Services,
}

/// One menu-item descriptor, in the order it will appear.
pub enum MenuItemSpec {
    /// A plain text item.
    Custom { id: String, text: String },
    /// A checkable item, initially checked.
    Check { id: String, text: String },
    /// An item carrying an image, as raw pixels.
    Icon { id: String, text: String, icon_rgba: Vec<u8>, icon_width: u32, icon_height: u32 },
    /// An item carrying a named platform icon.
    NativeIcon { id: String, text: String, icon: String },
    /// A ready-made item.
    Predefined { kind: PredefinedKind },
}

/// A finished submenu description.
pub struct Submenu {
    pub id: Option<String>,
    pub text: String,
    pub enabled: bool,
    pub items: Vec<MenuItemSpec>,
}

/// Accumulates a submenu: id, label, enabled state and items in order.
pub struct SubmenuBuilder {
    pub id: Option<String>,
    pub text: String,
    pub enabled: bool,
    pub items: Vec<MenuItemSpec>,
}

impl SubmenuBuilder {
    /// Starts a builder with the given label; enabled, no id, no items.
    pub fn new(text: &str) -> (r: Self)
        ensures
            r.id is None,
            r.text@ == text@,
            r.enabled == true,
            r.items@.len() == 0,
    {
        SubmenuBuilder { id: None, text: text.to_owned(), enabled: true, items: Vec::new() }
    }

    /// Starts a builder with the given id and label.
    pub fn with_id(id: &str, text: &str) -> (r: Self)
        ensures
            r.id matches Some(i) && i@ == id@,
            r.text@ == text@,
            r.enabled == true,
            r.items@.len() == 0,
    {
        SubmenuBuilder {
            id: Some(id.to_owned()),
            text: text.to_owned(),
            enabled: true,
            items: Vec::new(),
        }
    }

    /// Sets the submenu's id.
    pub fn id(self, id: &str) -> (r: Self)
        ensures
            r.id matches Some(i) && i@ == id@,
            r.text == self.text,
            r.enabled == self.enabled,
            r.items == self.items,
    {
        SubmenuBuilder {
            id: Some(id.to_owned()),
            text: self.text,
            enabled: self.enabled,
            items: self.items,
        }
    }

    /// Sets the submenu's enabled state.
    pub fn enabled(self, enabled: bool) -> (r: Self)
        ensures
            r.enabled == enabled,
            r.id == self.id,
            r.text == self.text,
            r.items == self.items,
    {
        SubmenuBuilder { id: self.id, text: self.text, enabled, items: self.items }
    }

    /// Appends one item descriptor.
    pub fn item(self, item: MenuItemSpec) -> (r: Self)
        ensures
            r.items@ == self.items@.push(item),
            r.id == self.id,
            r.text == self.text,
            r.enabled == self.enabled,
    {
        let mut items = self.items;
        items.push(item);
        SubmenuBuilder { id: self.id, text: self.text, enabled: self.enabled, items }
    }

    /// Appends several item descriptors, keeping their order.
    pub fn items(self, items: Vec<MenuItemSpec>) -> (r: Self)
        ensures
            r.items@ == self.items@ + items@,
            r.id == self.id,
            r.text == self.text,
            r.enabled == self.enabled,
    {
        let ghost gitems = items@;
        let mut acc = self.items;
        let mut rest = items;
        acc.append(&mut rest);
        proof {
            assert(acc@ == self.items@ + gitems);
        }
        SubmenuBuilder { id: self.id, text: self.text, enabled: self.enabled, items: acc }
    }

    /// Appends a plain text item.
    pub fn text(self, id: &str, text: &str) -> (r: Self)
        ensures
            r.items@.len() == self.items@.len() + 1,
            r.items@.drop_last() == self.items@,
            r.items@.last() matches MenuItemSpec::Custom { id: i, text: t } && i@ == id@ && t@
                == text@,
            r.id == self.id,
            r.text == self.text,
            r.enabled == self.enabled,
    {
        let mut items = self.items;
        items.push(MenuItemSpec::Custom { id: id.to_owned(), text: text.to_owned() });
        proof {
            assert(items@.drop_last() =~= self.items@);
        }
        SubmenuBuilder { id: self.id, text: self.text, enabled: self.enabled, items }
    }

    /// Appends a checkable item.
    pub fn check(self, id: &str, text: &str) -> (r: Self)
        ensures
            r.items@.len() == self.items@.len() + 1,
            r.items@.drop_last() == self.items@,
            r.items@.last() matches MenuItemSpec::Check { id: i, text: t } && i@ == id@ && t@
                == text@,
            r.id == self.id,
            r.text == self.text,
            r.enabled == self.enabled,
    {
        let mut items = self.items;
        items.push(MenuItemSpec::Check { id: id.to_owned(), text: text.to_owned() });
        proof {
            assert(items@.drop_last() =~= self.items@);
        }
        SubmenuBuilder { id: self.id, text: self.text, enabled: self.enabled, items }
    }

    /// Appends an item carrying an image.
    pub fn icon(self, id: &str, text: &str, icon_rgba: Vec<u8>, icon_width: u32, icon_height: u32)
        -> (r: Self)
        ensures
            r.items@.len() == self.items@.len() + 1,
            r.items@.drop_last() == self.items@,
            r.items@.last() matches MenuItemSpec::Icon {
                id: i,
                text: t,
                icon_rgba: b,
                icon_width: w,
                icon_height: h,
            } && i@ == id@ && t@ == text@ && b == icon_rgba && w == icon_width && h == icon_height,
            r.id == self.id,
            r.text == self.text,
            r.enabled == self.enabled,
    {
        let mut items = self.items;
        items.push(
            MenuItemSpec::Icon {
                id: id.to_owned(),
                text: text.to_owned(),
                icon_rgba,
                icon_width,
                icon_height,
            },
        );
        proof {
            assert(items@.drop_last() =~= self.items@);
        }
        SubmenuBuilder { id: self.id, text: self.text, enabled: self.enabled, items }
    }

    /// Appends an item carrying a named platform icon.
    pub fn native_icon(self, id: &str, text: &str, icon: &str) -> (r: Self)
        ensures
            r.items@.len() == self.items@.len() + 1,
            r.items@.drop_last() == self.items@,
            r.items@.last() matches MenuItemSpec::NativeIcon { id: i, text: t, icon: c } && i@
                == id@ && t@ == text@ && c@ == icon@,
            r.id == self.id,
            r.text == self.text,
            r.enabled == self.enabled,
    {
        let mut items = self.items;
        items.push(
            MenuItemSpec::NativeIcon {
                id: id.to_owned(),
                text: text.to_owned(),
                icon: icon.to_owned(),
            },
        );
        proof {
            assert(items@.drop_last() =~= self.items@);
        }
        SubmenuBuilder { id: self.id, text: self.text, enabled: self.enabled, items }
    }

    fn predefined(self, kind: PredefinedKind) -> (r: Self)
        ensures
            r.items@ == self.items@.push(MenuItemSpec::Predefined { kind }),
            r.id == self.id,
            r.text == self.text,
            r.enabled == self.enabled,
    {
        let mut items = self.items;
        items.push(MenuItemSpec::Predefined { kind });
        SubmenuBuilder { id: self.id, text: self.text, enabled: self.enabled, items }
    }

    /// Appends a separator.
    pub fn separator(self) -> (r: Self)
        ensures
            r.items@ == self.items@.push(
                MenuItemSpec::Predefined { kind: PredefinedKind::Separator },
            ),
            r.id == self.id,
            r.text == self.text,
            r.enabled == self.enabled,
    {
        self.predefined(PredefinedKind::Separator)
    }

    /// Appends the ready-made copy item.
    pub fn copy(self) -> (r: Self)
        ensures
            r.items@ == self.items@.push(
                MenuItemSpec::Predefined { kind: PredefinedKind::ClipboardCopy },
            ),
            r.id == self.id,
            r.text == self.text,
            r.enabled == self.enabled,
    {
        self.predefined(PredefinedKind::ClipboardCopy)
    }

    /// Appends the ready-made cut item.
    pub fn cut(self) -> (r: Self)
        ensures
            r.items@ == self.items@.push(
                MenuItemSpec::Predefined { kind: PredefinedKind::ClipboardCut },
            ),
            r.id == self.id,
            r.text == self.text,
            r.enabled == self.enabled,
    {
        self.predefined(PredefinedKind::ClipboardCut)
    }

    /// Appends the ready-made paste item.
    pub fn paste(self) -> (r: Self)
        ensures
            r.items@ == self.items@.push(
                MenuItemSpec::Predefined { kind: PredefinedKind::ClipboardPaste },
            ),
            r.id == self.id,
            r.text == self.text,
            r.enabled == self.enabled,
    {
        self.predefined(PredefinedKind::ClipboardPaste)
    }

    /// Appends the ready-made select-all item.
    pub fn select_all(self) -> (r: Self)
        ensures
            r.items@ == self.items@.push(
                MenuItemSpec::Predefined { kind: PredefinedKind::SelectAll },
            ),
            r.id == self.id,
            r.text == self.text,
            r.enabled == self.enabled,
    {
        self.predefined(PredefinedKind::SelectAll)
    }

    /// Appends the ready-made undo item.
    pub fn undo(self) -> (r: Self)
        ensures
            r.items@ == self.items@.push(MenuItemSpec::Predefined { kind: PredefinedKind::Undo }),
            r.id == self.id,
            r.text == self.text,
            r.enabled == self.enabled,
    {
        self.predefined(PredefinedKind::Undo)
    }

    /// Appends the ready-made redo item.
    pub fn redo(self) -> (r: Self)
        ensures
            r.items@ == self.items@.push(MenuItemSpec::Predefined { kind: PredefinedKind::Redo }),
            r.id == self.id,
            r.text == self.text,
            r.enabled == self.enabled,
    {
        self.predefined(PredefinedKind::Redo)
    }

    /// Appends the ready-made minimize item.
    pub fn minimize(self) -> (r: Self)
        ensures
            r.items@ == self.items@.push(
                MenuItemSpec::Predefined { kind: PredefinedKind::Minimize },
            ),
            r.id == self.id,
            r.text == self.text,
            r.enabled == self.enabled,
    {
        self.predefined(PredefinedKind::Minimize)
    }

    /// Appends the ready-made maximize item.
    pub fn maximize(self) -> (r: Self)
        ensures
            r.items@ == self.items@.push(
                MenuItemSpec::Predefined { kind: PredefinedKind::Maximize },
            ),
            r.id == self.id,
            r.text == self.text,
            r.enabled == self.enabled,
    {
        self.predefined(PredefinedKind::Maximize)
    }

    /// Appends the ready-made fullscreen item.
    pub fn fullscreen(self) -> (r: Self)
        ensures
            r.items@ == self.items@.push(
                MenuItemSpec::Predefined { kind: PredefinedKind::Fullscreen },
            ),
            r.id == self.id,
            r.text == self.text,
            r.enabled == self.enabled,
    {
        self.predefined(PredefinedKind::Fullscreen)
    }

    /// Appends the ready-made hide item.
    pub fn hide_window(self) -> (r: Self)
        ensures
            r.items@ == self.items@.push(
                MenuItemSpec::Predefined { kind: PredefinedKind::HideWindow },
            ),
            r.id == self.id,
            r.text == self.text,
            r.enabled == self.enabled,
    {
        self.predefined(PredefinedKind::HideWindow)
    }

    /// Appends the ready-made hide-others item.
    pub fn hide_others(self) -> (r: Self)
        ensures
            r.items@ == self.items@.push(
                MenuItemSpec::Predefined { kind: PredefinedKind::HideOthers },
            ),
            r.id == self.id,
            r.text == self.text,
            r.enabled == self.enabled,
    {
        self.predefined(PredefinedKind::HideOthers)
    }

    /// Appends the ready-made show-all item.
    pub fn show_all(self) -> (r: Self)
        ensures
            r.items@ == self.items@.push(
                MenuItemSpec::Predefined { kind: PredefinedKind::ShowAll },
            ),
            r.id == self.id,
            r.text == self.text,
            r.enabled == self.enabled,
    {
        self.predefined(PredefinedKind::ShowAll)
    }

    /// Appends the ready-made close-window item.
    pub fn close_window(self) -> (r: Self)
        ensures
            r.items@ == self.items@.push(
                MenuItemSpec::Predefined { kind: PredefinedKind::CloseWindow },
            ),
            r.id == self.id,
            r.text == self.text,
            r.enabled == self.enabled,
    {
        self.predefined(PredefinedKind::CloseWindow)
    }

    /// Appends the ready-made quit item.
    pub fn quit(self) -> (r: Self)
        ensures
            r.items@ == self.items@.push(MenuItemSpec::Predefined { kind: PredefinedKind::Quit }),
            r.id == self.id,
            r.text == self.text,
            r.enabled == self.enabled,
    {
        self.predefined(PredefinedKind::Quit)
    }

    /// Appends the ready-made about item, optionally naming the
    /// application.
    pub fn about(self, app_name: Option<String>) -> (r: Self)
        ensures
            r.items@ == self.items@.push(
                MenuItemSpec::Predefined { kind: PredefinedKind::About { app_name } },
            ),
            r.id == self.id,
            r.text == self.text,
            r.enabled == self.enabled,
    {
        self.predefined(PredefinedKind::About { app_name })
    }

    /// Appends the ready-made services item.
    pub fn services(self) -> (r: Self)
        ensures
            r.items@ == self.items@.push(
                MenuItemSpec::Predefined { kind: PredefinedKind::Services },
            ),
            r.id == self.id,
            r.text == self.text,
            r.enabled == self.enabled,
    {
        self.predefined(PredefinedKind::Services)
    }

    /// Finishes the builder: the submenu holds exactly what was set, with
    /// the items in the order they were added.
    pub fn build(self) -> (r: Submenu)
        ensures
            r.id == self.id,
            r.text == self.text,
            r.enabled == self.enabled,
            r.items == self.items,
    {
        Submenu { id: self.id, text: self.text, enabled: self.enabled, items: self.items }
    }
}

} // verus!
