//! The menu-bar tray: Space labels from the persisted names, the menu
//! entries with the check mark on the current Space, what a menu click
//! means, and the tray icon's file.

use vstd::prelude::*;

use crate::config::views;
use crate::text::{
    chars_of, chars_start_with, decimal, lemma_decimal_digits, lemma_parse_decimal, parse_u32,
    parse_u32_chars, push_decimal, same_chars, starts_with, sub_chars, trim, trimmed,
};

verus! {

broadcast use vstd::string::group_string_axioms;

/// How many Spaces the ring and the tray show.
pub const SPACE_COUNT: u32 = 9;

/// One Space in the persisted state: its number (1-9) and its name.
#[derive(Debug)]
pub struct SpaceEntry {
    pub id: u32,
    pub name: String,
}

/// The name a Space has until the user renames it: `Space <id>`.
pub open spec fn default_space_name(id: nat) -> Seq<char> {
    "Space "@ + decimal(id)
}

/// The tray label of a persisted Space: empty while it keeps its default
/// name, else its name.
pub open spec fn entry_label(e: SpaceEntry) -> Seq<char> {
    if trim(e.name@) == default_space_name(e.id as nat) {
        Seq::empty()
    } else {
        e.name@
    }
}

/// The labels of Spaces 1-9 after reading the persisted entries in order:
/// all empty at first, each entry with an id in 1-9 setting its Space's
/// label, later entries winning.
pub open spec fn labels_after(entries: Seq<SpaceEntry>) -> Seq<Seq<char>>
    decreases entries.len(),
{
    if entries.len() == 0 {
        Seq::new(9, |i: int| Seq::<char>::empty())
    } else {
        let prev = labels_after(entries.drop_last());
        let e = entries.last();
        if 1 <= e.id <= 9 {
            prev.update(e.id - 1, entry_label(e))
        } else {
            prev
        }
    }
}

proof fn lemma_labels_len(entries: Seq<SpaceEntry>)
    ensures
        labels_after(entries).len() == 9,
    decreases entries.len(),
{
    if entries.len() > 0 {
        lemma_labels_len(entries.drop_last());
    }
}

/// The tray labels of Spaces 1-9 from the persisted entries.
pub fn space_labels(entries: &Vec<SpaceEntry>) -> (names: Vec<String>)
    ensures
        views(names@) == labels_after(entries@),
{
    let mut names: Vec<String> = Vec::new();
    let mut k: usize = 0;
    while k < 9
        invariant
            k <= 9,
            names@.len() == k,
            forall|j: int| 0 <= j < k ==> (#[trigger] names@[j])@ == Seq::<char>::empty(),
        decreases 9 - k,
    {
        names.push(String::new());
        k += 1;
    }
    assert(views(names@) =~= labels_after(entries@.take(0)));
    let mut i: usize = 0;
    while i < entries.len()
        invariant
            i <= entries.len(),
            views(names@) == labels_after(entries@.take(i as int)),
            names@.len() == 9,
        decreases entries.len() - i,
    {
        proof {
            assert(entries@.take(i + 1).drop_last() =~= entries@.take(i as int));
            assert(entries@.take(i + 1).last() == entries@[i as int]);
            lemma_labels_len(entries@.take(i as int));
        }
        let e = &entries[i];
        if 1 <= e.id && e.id <= 9 {
            let mut default = "Space ".to_string();
            push_decimal(&mut default, e.id as u64);
            let t = trimmed(e.name.as_str());
            let label = if same_chars(&chars_of(t.as_str()), &chars_of(default.as_str())) {
                String::new()
            } else {
                e.name.clone()
            };
            let ghost before = names@;
            names.set((e.id - 1) as usize, label);
            proof {
                assert(views(names@) =~= views(before).update(e.id - 1, label@));
            }
        }
        i += 1;
    }
    assert(entries@.take(entries.len() as int) =~= entries@);
    names
}

/// One entry of the tray menu.
pub enum MenuEntry {
    Item { id: String, label: String },
    Separator,
}

/// The model of a menu entry.
pub enum MenuSpec {
    Item(Seq<char>, Seq<char>),
    Separator,
}

pub open spec fn entry_view(e: MenuEntry) -> MenuSpec {
    match e {
        MenuEntry::Item { id, label } => MenuSpec::Item(id@, label@),
        MenuEntry::Separator => MenuSpec::Separator,
    }
}

/// The menu id of Space `i`: `space-<i>`.
pub open spec fn space_item_id(i: nat) -> Seq<char> {
    "space-"@ + decimal(i)
}

/// The check mark put before the current Space's label.
pub open spec fn check_mark() -> Seq<char> {
    "✓ "@
}

/// The label of Space `i` with name `name`: `<i>` or `<i> <name>`, with a
/// check mark in front when it is the current Space.
pub open spec fn space_item_label(i: nat, name: Seq<char>, current: Option<u32>) -> Seq<char> {
    let base = if trim(name).len() == 0 {
        decimal(i)
    } else {
        decimal(i) + " "@ + name
    };
    if current == Some(i as u32) {
        check_mark() + base
    } else {
        base
    }
}

/// The Space items of the first `n` Spaces, with a separator after every
/// third.
pub open spec fn space_items(names: Seq<Seq<char>>, current: Option<u32>, n: nat) -> Seq<MenuSpec>
    decreases n,
{
    if n == 0 {
        Seq::empty()
    } else {
        let prev = space_items(names, current, (n - 1) as nat);
        let name = if n - 1 < names.len() {
            names[n - 1]
        } else {
            Seq::empty()
        };
        let with_item = prev.push(MenuSpec::Item(space_item_id(n), space_item_label(n, name, current)));
        if n % 3 == 0 {
            with_item.push(MenuSpec::Separator)
        } else {
            with_item
        }
    }
}

/// The whole tray menu: Spaces 1-9, then Show, Settings and Quit.
pub open spec fn tray_menu_spec(names: Seq<Seq<char>>, current: Option<u32>) -> Seq<MenuSpec> {
    space_items(names, current, 9) + seq![
        MenuSpec::Item("show"@, "Show Limen"@),
        MenuSpec::Separator,
        MenuSpec::Item("settings"@, "Settings..."@),
        MenuSpec::Separator,
        MenuSpec::Item("quit"@, "Quit Limen"@),
    ]
}

pub open spec fn entries_view(v: Seq<MenuEntry>) -> Seq<MenuSpec> {
    v.map_values(|e: MenuEntry| entry_view(e))
}

fn push_entry(menu: &mut Vec<MenuEntry>, e: MenuEntry)
    ensures
        entries_view(final(menu)@) == entries_view(old(menu)@).push(entry_view(e)),
{
    let ghost before = menu@;
    menu.push(e);
    assert(entries_view(menu@) =~= entries_view(before).push(entry_view(e)));
}

/// The label of Space `i`.
fn space_label(i: u32, name: &String, current: Option<u32>) -> (r: String)
    ensures
        r@ == space_item_label(i as nat, name@, current),
{
    let mut base = String::new();
    push_decimal(&mut base, i as u64);
    assert(base@ == decimal(i as nat));
    let blank = trimmed(name.as_str()).as_str().is_empty();
    if !blank {
        base.append(" ");
        base.append(name.as_str());
    }
    match current {
        Some(c) => if c == i {
            let mut r = "✓ ".to_string();
            r.append(base.as_str());
            return r;
        },
        None => {},
    }
    base
}

/// The entries of the tray menu, from the Space labels and the current
/// Space.
pub fn tray_menu_items(names: &Vec<String>, current: Option<u32>) -> (menu: Vec<MenuEntry>)
    ensures
        entries_view(menu@) == tray_menu_spec(views(names@), current),
{
    let ghost ns = views(names@);
    let mut menu: Vec<MenuEntry> = Vec::new();
    assert(entries_view(menu@) =~= space_items(ns, current, 0));
    let mut i: u32 = 1;
    while i <= 9
        invariant
            1 <= i <= 10,
            ns == views(names@),
            entries_view(menu@) == space_items(ns, current, (i - 1) as nat),
        decreases 10 - i,
    {
        let empty = String::new();
        let name: &String = if ((i - 1) as usize) < names.len() {
            &names[(i - 1) as usize]
        } else {
            &empty
        };
        assert(name@ == (if i - 1 < ns.len() {
            ns[i - 1]
        } else {
            Seq::<char>::empty()
        }));
        let mut id = "space-".to_string();
        push_decimal(&mut id, i as u64);
        let label = space_label(i, name, current);
        push_entry(&mut menu, MenuEntry::Item { id, label });
        if i % 3 == 0 {
            push_entry(&mut menu, MenuEntry::Separator);
        }
        i += 1;
    }
    push_entry(&mut menu, MenuEntry::Item { id: "show".to_string(), label: "Show Limen".to_string() });
    push_entry(&mut menu, MenuEntry::Separator);
    push_entry(
        &mut menu,
        MenuEntry::Item { id: "settings".to_string(), label: "Settings...".to_string() },
    );
    push_entry(&mut menu, MenuEntry::Separator);
    push_entry(&mut menu, MenuEntry::Item { id: "quit".to_string(), label: "Quit Limen".to_string() });
    assert(entries_view(menu@) =~= tray_menu_spec(ns, current));
    menu
}

/// What a click on a tray menu item asks for.
#[derive(Debug, Clone, Copy, PartialEq, Eq, Structural)]
pub enum MenuCommand {
    SwitchToSpace(u32),
    ShowMain,
    OpenSettings,
    Quit,
    Ignore,
}

/// The command of a menu item id: `space-<n>` switches to Space `n` when
/// `n` parses as a `u32`; `show`, `settings` and `quit` are the actions;
/// anything else is ignored.
pub open spec fn menu_command(id: Seq<char>) -> MenuCommand {
    if starts_with(id, "space-"@) {
        match parse_u32(id.subrange("space-"@.len() as int, id.len() as int)) {
            Some(n) => MenuCommand::SwitchToSpace(n),
            None => MenuCommand::Ignore,
        }
    } else if id == "show"@ {
        MenuCommand::ShowMain
    } else if id == "settings"@ {
        MenuCommand::OpenSettings
    } else if id == "quit"@ {
        MenuCommand::Quit
    } else {
        MenuCommand::Ignore
    }
}

/// The command of a clicked tray menu item.
pub fn parse_menu_id(id: &str) -> (c: MenuCommand)
    ensures
        c == menu_command(id@),
{
    let cs = chars_of(id);
    let prefix = chars_of("space-");
    if chars_start_with(&cs, &prefix) {
        let rest = sub_chars(&cs, prefix.len(), cs.len());
        return match parse_u32_chars(&rest) {
            Some(n) => MenuCommand::SwitchToSpace(n),
            None => MenuCommand::Ignore,
        };
    }
    if same_chars(&cs, &chars_of("show")) {
        MenuCommand::ShowMain
    } else if same_chars(&cs, &chars_of("settings")) {
        MenuCommand::OpenSettings
    } else if same_chars(&cs, &chars_of("quit")) {
        MenuCommand::Quit
    } else {
        MenuCommand::Ignore
    }
}

/// The file of the tray icon: `<d>.png` for Space `d` in 1-9, else
/// `dot.png`.
pub open spec fn tray_icon_file_spec(digit: Option<u32>) -> Seq<char> {
    match digit {
        Some(d) => if 1 <= d <= 9 {
            decimal(d as nat) + ".png"@
        } else {
            "dot.png"@
        },
        None => "dot.png"@,
    }
}

/// The file of the tray icon for the current Space.
pub fn tray_icon_file_name(digit: Option<u32>) -> (r: String)
    ensures
        r@ == tray_icon_file_spec(digit),
{
    match digit {
        Some(d) => if 1 <= d && d <= 9 {
            let mut r = String::new();
            push_decimal(&mut r, d as u64);
            r.append(".png");
            assert(Seq::<char>::empty() + decimal(d as nat) =~= decimal(d as nat));
            return r;
        },
        None => {},
    }
    "dot.png".to_string()
}

/// Clicking the menu item of Space `i` asks to switch to Space `i`: the
/// id the menu is built with parses back to the same index.
pub proof fn law_space_item_id_round_trip(i: u32)
    ensures
        menu_command(space_item_id(i as nat)) == MenuCommand::SwitchToSpace(i),
{
    let id = space_item_id(i as nat);
    let p = "space-"@;
    assert(id.subrange(0, p.len() as int) =~= p);
    assert(id.subrange(p.len() as int, id.len() as int) =~= decimal(i as nat));
    lemma_parse_decimal(i);
}

/// A Space's label carries the check mark exactly when it is the current
/// Space.
pub proof fn law_check_mark_only_on_current(i: nat, name: Seq<char>, current: Option<u32>)
    requires
        1 <= i <= 9,
    ensures
        starts_with(space_item_label(i, name, current), check_mark()) <==> current == Some(
            i as u32,
        ),
{
    reveal_strlit("✓ ");
    lemma_decimal_digits(i);
    let label = space_item_label(i, name, current);
    if current == Some(i as u32) {
        assert(label.subrange(0, check_mark().len() as int) =~= check_mark());
    } else {
        assert(label[0] == decimal(i)[0]);
        if starts_with(label, check_mark()) {
            assert(label.subrange(0, check_mark().len() as int)[0] == check_mark()[0]);
        }
    }
}

/// On Space `d` in 1-9 the tray shows the icon file named by the single
/// digit `d` and `.png`; on an unknown Space, or one outside 1-9, it shows
/// `dot.png`.
pub proof fn law_tray_icon_names_the_digit(d: u32)
    ensures
        1 <= d <= 9 ==> tray_icon_file_spec(Some(d)) == seq![(48 + d) as char, '.', 'p', 'n', 'g'],
        !(1 <= d <= 9) ==> tray_icon_file_spec(Some(d)) == seq!['d', 'o', 't', '.', 'p', 'n', 'g'],
        tray_icon_file_spec(None) == seq!['d', 'o', 't', '.', 'p', 'n', 'g'],
{
    reveal_strlit(".png");
    reveal_strlit("dot.png");
    assert("dot.png"@ =~= seq!['d', 'o', 't', '.', 'p', 'n', 'g']);
    if 1 <= d <= 9 {
        assert(decimal(d as nat) == seq![(48 + d) as char]);
        assert(decimal(d as nat) + ".png"@ =~= seq![(48 + d) as char, '.', 'p', 'n', 'g']);
    }
}

} // verus!
