//! Keyboard shortcuts as a table from modifiers and key to a logical action.

use vstd::prelude::*;

verus! {

/// The keys that take part in shortcuts.
#[derive(Clone, Copy, Debug, PartialEq, Eq, Structural)]
pub enum Key {
    Z,
    S,
    Plus,
    Minus,
    Num0,
    Home,
    Other,
}

#[derive(Clone, Copy, Debug, PartialEq, Eq, Structural)]
pub struct Modifiers {
    pub ctrl: bool,
    pub shift: bool,
    pub alt: bool,
}

/// What a shortcut asks the editor to do.
#[derive(Clone, Copy, Debug, PartialEq, Eq, Structural)]
pub enum EditorAction {
    Undo,
    Redo,
    QuickSave,
    SaveAll,
    OpenExport,
    ZoomIn,
    ZoomOut,
    ResetZoom,
    CenterCanvas,
}

/// One row of a shortcut table: the exact modifiers and key, and the action.
#[derive(Clone, Copy, Debug, PartialEq, Eq, Structural)]
pub struct Binding {
    pub mods: Modifiers,
    pub key: Key,
    pub action: EditorAction,
}

/// The action of the first row of `table` that matches `mods` and `key`.
pub open spec fn first_match(table: Seq<Binding>, mods: Modifiers, key: Key) -> Option<EditorAction>
    decreases table.len(),
{
    if table.len() == 0 {
        None
    } else if table[0].mods == mods && table[0].key == key {
        Some(table[0].action)
    } else {
        first_match(table.drop_first(), mods, key)
    }
}

pub open spec fn ctrl_only() -> Modifiers {
    Modifiers { ctrl: true, shift: false, alt: false }
}

pub open spec fn ctrl_shift() -> Modifiers {
    Modifiers { ctrl: true, shift: true, alt: false }
}

pub open spec fn ctrl_alt() -> Modifiers {
    Modifiers { ctrl: true, shift: false, alt: true }
}

/// The editor's default bindings.
pub open spec fn default_table() -> Seq<Binding> {
    seq![
        Binding { mods: ctrl_shift(), key: Key::Z, action: EditorAction::Redo },
        Binding { mods: ctrl_only(), key: Key::Z, action: EditorAction::Undo },
        Binding { mods: ctrl_only(), key: Key::S, action: EditorAction::QuickSave },
        Binding { mods: ctrl_shift(), key: Key::S, action: EditorAction::SaveAll },
        Binding { mods: ctrl_alt(), key: Key::S, action: EditorAction::OpenExport },
        Binding { mods: ctrl_only(), key: Key::Plus, action: EditorAction::ZoomIn },
        Binding { mods: ctrl_only(), key: Key::Minus, action: EditorAction::ZoomOut },
        Binding { mods: ctrl_only(), key: Key::Num0, action: EditorAction::ResetZoom },
        Binding { mods: ctrl_only(), key: Key::Home, action: EditorAction::CenterCanvas },
    ]
}

pub fn default_bindings() -> (r: Vec<Binding>)
    ensures
        r@ == default_table(),
{
    let c = Modifiers { ctrl: true, shift: false, alt: false };
    let cs = Modifiers { ctrl: true, shift: true, alt: false };
    let ca = Modifiers { ctrl: true, shift: false, alt: true };
    let r = vec![
        Binding { mods: cs, key: Key::Z, action: EditorAction::Redo },
        Binding { mods: c, key: Key::Z, action: EditorAction::Undo },
        Binding { mods: c, key: Key::S, action: EditorAction::QuickSave },
        Binding { mods: cs, key: Key::S, action: EditorAction::SaveAll },
        Binding { mods: ca, key: Key::S, action: EditorAction::OpenExport },
        Binding { mods: c, key: Key::Plus, action: EditorAction::ZoomIn },
        Binding { mods: c, key: Key::Minus, action: EditorAction::ZoomOut },
        Binding { mods: c, key: Key::Num0, action: EditorAction::ResetZoom },
        Binding { mods: c, key: Key::Home, action: EditorAction::CenterCanvas },
    ];
    assert(r@ =~= default_table());
    r
}

/// Looks `mods` and `key` up in `table`.
pub fn lookup(table: &Vec<Binding>, mods: Modifiers, key: Key) -> (r: Option<EditorAction>)
    ensures
        r == first_match(table@, mods, key),
{
    let mut i: usize = 0;
    assert(table@.subrange(0, table@.len() as int) =~= table@);
    while i < table.len()
        invariant
            i <= table@.len(),
            first_match(table@, mods, key) == first_match(
                table@.subrange(i as int, table@.len() as int),
                mods,
                key,
            ),
        decreases table@.len() - i,
    {
        let b = table[i];
        if b.mods == mods && b.key == key {
            return Some(b.action);
        }
        assert(table@.subrange(i as int, table@.len() as int).drop_first() =~= table@.subrange(
            i + 1,
            table@.len() as int,
        ));
        i = i + 1;
    }
    None
}

/// The action the default bindings give `mods` and `key`.
pub fn shortcut(mods: Modifiers, key: Key) -> (r: Option<EditorAction>)
    ensures
        r == first_match(default_table(), mods, key),
{
    let table = default_bindings();
    lookup(&table, mods, key)
}

} // verus!
