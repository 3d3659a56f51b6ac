//! The tray icon and its menu.

use vstd::prelude::*;
use vstd::string::*;

use crate::text::{distinct_names, same_text};

verus! {

/// The tray icon.
#[derive(Clone, Copy, Debug)]
pub struct TrayIcon;

impl TrayIcon {
    /// The name of the icon.
    pub fn icon_name(&self) -> (r: &'static str)
        ensures
            r@ == "audio-subwoofer-symbolic"@,
    {
        "audio-subwoofer-symbolic"
    }

    /// The category of the icon.
    pub fn category(&self) -> (r: &'static str)
        ensures
            r@ == "SystemServices"@,
    {
        "SystemServices"
    }

    /// The identifier of the app.
    pub fn id(&self) -> (r: &'static str)
        ensures
            r@ == "eink-daemon"@,
    {
        "eink-daemon"
    }

    /// The title of the app.
    pub fn title(&self) -> (r: &'static str)
        ensures
            r@ == "eink-daemon"@,
    {
        "eink-daemon"
    }

    /// The version of the interface.
    pub fn version(&self) -> (r: u32)
        ensures
            r == 3,
    {
        3
    }

    /// The direction of text.
    pub fn text_direction(&self) -> (r: &'static str)
        ensures
            r@ == "ltr"@,
    {
        "ltr"
    }

    /// The status of the icon.
    pub fn status(&self) -> (r: &'static str)
        ensures
            r@ == "normal"@,
    {
        "normal"
    }

    /// The object path of the menu.
    pub fn menu(&self) -> (r: &'static str)
        ensures
            r@ == "/Menu"@,
    {
        "/Menu"
    }

    /// What is told when the icon is clicked, wherever that is.
    pub fn activate(&self, x: i32, y: i32) -> (r: &'static str)
        ensures
            r@ == "Someone clicked the tray icon!"@,
    {
        "Someone clicked the tray icon!"
    }
}

/// The value of a property of a menu item.
#[derive(Debug)]
pub enum MenuValue {
    /// A text.
    Text(String),
    /// A switch.
    Flag(bool),
}

/// An item of the menu.
#[derive(Debug)]
pub struct MenuItem {
    /// The identifier by which events refer to the item.
    pub id: u32,
    /// The properties, by name.
    pub properties: Vec<(String, MenuValue)>,
    /// The items below the item.
    pub children: Vec<MenuItem>,
}

/// The menu.
#[derive(Debug)]
pub struct MenuLayout {
    /// The revision of the layout.
    pub revision: u32,
    /// The identifier of the root.
    pub root_id: i32,
    /// The properties of the root, by name.
    pub root_properties: Vec<(String, MenuValue)>,
    /// The items below the root.
    pub items: Vec<MenuItem>,
}

/// What a [`MenuValue`] stands for.
#[verifier::ext_equal]
pub enum ValueView {
    Text(Seq<char>),
    Flag(bool),
}

/// What a [`MenuItem`] stands for.
#[verifier::ext_equal]
pub struct ItemView {
    pub id: u32,
    pub properties: Seq<(Seq<char>, ValueView)>,
    pub children: Seq<ItemView>,
}

/// What a [`MenuLayout`] stands for.
#[verifier::ext_equal]
pub struct LayoutView {
    pub revision: u32,
    pub root_id: i32,
    pub root_properties: Seq<(Seq<char>, ValueView)>,
    pub items: Seq<ItemView>,
}

impl View for MenuValue {
    type V = ValueView;

    open spec fn view(&self) -> ValueView {
        match self {
            MenuValue::Text(text) => ValueView::Text(text@),
            MenuValue::Flag(flag) => ValueView::Flag(*flag),
        }
    }
}

/// What a list of properties stands for.
pub open spec fn property_views(properties: Seq<(String, MenuValue)>) -> Seq<
    (Seq<char>, ValueView),
> {
    properties.map_values(|p: (String, MenuValue)| (p.0@, p.1@))
}

/// What an item of the menu and the items below it stand for.
pub open spec fn item_view(item: MenuItem) -> ItemView
    decreases item,
{
    ItemView {
        id: item.id,
        properties: property_views(item.properties@),
        children: Seq::new(
            item.children@.len(),
            |i: int|
                if 0 <= i < item.children@.len() {
                    item_view(item.children@[i])
                } else {
                    arbitrary()
                },
        ),
    }
}

impl View for MenuItem {
    type V = ItemView;

    open spec fn view(&self) -> ItemView {
        item_view(*self)
    }
}

impl View for MenuLayout {
    type V = LayoutView;

    open spec fn view(&self) -> LayoutView {
        LayoutView {
            revision: self.revision,
            root_id: self.root_id,
            root_properties: property_views(self.root_properties@),
            items: self.items@.map_values(|item: MenuItem| item@),
        }
    }
}

/// The menu: a disabled caption, a separator and the item that quits. The root has no properties,
/// and no item has items below it.
pub open spec fn menu_layout() -> LayoutView {
    LayoutView {
        revision: 1,
        root_id: 0,
        root_properties: seq![],
        items: seq![
            ItemView {
                id: 1,
                properties: seq![
                    ("label"@, ValueView::Text("eInk Display"@)),
                    ("enabled"@, ValueView::Flag(false)),
                ],
                children: seq![],
            },
            ItemView {
                id: 2,
                properties: seq![("type"@, ValueView::Text("separator"@))],
                children: seq![],
            },
            ItemView {
                id: 3,
                properties: seq![("label"@, ValueView::Text("Quit"@))],
                children: seq![],
            },
        ],
    }
}

/// What an event of the menu leads to.
#[derive(Clone, Copy, Debug, PartialEq, Eq, Structural)]
pub enum MenuAction {
    /// Nothing.
    Ignore,
    /// The daemon ends.
    Quit,
}

/// What an event on an item leads to: a click on the last item ends the daemon.
pub open spec fn menu_action(id: int, event_id: Seq<char>) -> MenuAction {
    if id == 3 && event_id == "clicked"@ {
        MenuAction::Quit
    } else {
        MenuAction::Ignore
    }
}

/// The menu of the tray icon.
#[derive(Clone, Copy, Debug)]
pub struct TrayMenu;

impl TrayMenu {
    /// The layout of the menu, whatever part of it is asked for.
    pub fn get_layout(
        &self,
        parent_id: i32,
        recursion_depth: i32,
        property_names: Vec<String>,
    ) -> (r: MenuLayout)
        ensures
            r@ == menu_layout(),
    {
        let caption = MenuItem {
            id: 1,
            properties: vec![
                ("label".to_owned(), MenuValue::Text("eInk Display".to_owned())),
                ("enabled".to_owned(), MenuValue::Flag(false)),
            ],
            children: Vec::new(),
        };
        let separator = MenuItem {
            id: 2,
            properties: vec![("type".to_owned(), MenuValue::Text("separator".to_owned()))],
            children: Vec::new(),
        };
        let quit = MenuItem {
            id: 3,
            properties: vec![("label".to_owned(), MenuValue::Text("Quit".to_owned()))],
            children: Vec::new(),
        };
        assert(caption@.properties == menu_layout().items[0].properties);
        assert(caption@.children == menu_layout().items[0].children);
        assert(caption@ == menu_layout().items[0]);
        assert(separator@ == menu_layout().items[1]);
        assert(quit@ == menu_layout().items[2]);
        MenuLayout {
            revision: 1,
            root_id: 0,
            root_properties: Vec::new(),
            items: vec![caption, separator, quit],
        }
    }

    /// Decides what an event on an item leads to.
    pub fn event(&self, id: i32, event_id: &str) -> (r: MenuAction)
        ensures
            r == menu_action(id as int, event_id@),
            r == MenuAction::Quit <==> id == 3 && event_id@ == "clicked"@,
    {
        if id == 3 && same_text(event_id, "clicked") {
            MenuAction::Quit
        } else {
            MenuAction::Ignore
        }
    }
}

/// A click ends the daemon exactly if it is on an item of the menu that is labelled `Quit`.
pub proof fn law_quit_item(id: int)
    ensures
        menu_action(id, "clicked"@) == MenuAction::Quit <==> exists|i: int|
            0 <= i < menu_layout().items.len() && (#[trigger] menu_layout().items[i]).id == id
                && menu_layout().items[i].properties.contains(
                ("label"@, ValueView::Text("Quit"@)),
            ),
{
    reveal_strlit("label");
    reveal_strlit("Quit");
    reveal_strlit("eInk Display");
    reveal_strlit("enabled");
    reveal_strlit("type");
    reveal_strlit("separator");
    let quit = ("label"@, ValueView::Text("Quit"@));
    let items = menu_layout().items;
    assert("Quit"@[0] != "eInk Display"@[0]);
    assert("label"@[0] != "enabled"@[0]);
    assert("label"@[0] != "type"@[0]);
    assert(items[2].properties[0] == quit);
    assert(items[2].properties.contains(quit));
    assert(!items[0].properties.contains(quit));
    assert(!items[1].properties.contains(quit));
}

/// No two items of the menu share an identifier.
pub proof fn law_item_ids_distinct(i: int, j: int)
    requires
        0 <= i < j < menu_layout().items.len(),
    ensures
        menu_layout().items[i].id != menu_layout().items[j].id,
{
}

/// No two properties of an item of the menu share a name.
pub proof fn law_property_names_distinct(i: int)
    requires
        0 <= i < menu_layout().items.len(),
    ensures
        distinct_names(menu_layout().items[i].properties),
{
    reveal_strlit("label");
    reveal_strlit("enabled");
    assert("label"@[0] != "enabled"@[0]);
}

/// No event but a click has any effect, and a click has one on the third item only.
pub proof fn law_only_a_click_quits(id: int, event_id: Seq<char>)
    ensures
        menu_action(id, event_id) == MenuAction::Quit <==> id == 3 && event_id == "clicked"@,
        menu_action(id, event_id) == MenuAction::Ignore <==> id != 3 || event_id != "clicked"@,
{
}

} // verus!
