//! The actions this application has, and the keys that reach them.
//!
//! Ten of each, and deliberately no more: **every
//! implemented behaviour has a row here**, not every row has an
//! implementation. Anything that has to change without a rebuild -- a rebound
//! key, a row from something loaded -- arrives as a second source and is
//! merged on top; see [`crate::merge`].

use std::borrow::Cow;

use vstd::prelude::*;

use crate::action::{Action, ArgShape, Binding, Channels, union};
use crate::context::{bit, flag_at, lemma_flag_at, spelling};
use crate::clause_proofs::lemma_print_then_parse;
use crate::predicate::{Predicate, eval, parse_clause, render, well_named};
use crate::registry::{Source, distinct_ids, mergeable, rows_of};

verus! {

/// How many actions the built-in table holds.
pub open spec fn catalog_len() -> nat {
    10
}

/// The permanent name of built-in action `i`.
pub open spec fn catalog_id(i: int) -> Seq<char> {
    if i == 0 {
        "app.quit"@
    } else if i == 1 {
        "palette.open"@
    } else if i == 2 {
        "palette.close"@
    } else if i == 3 {
        "palette.confirm"@
    } else if i == 4 {
        "palette.next"@
    } else if i == 5 {
        "palette.prev"@
    } else if i == 6 {
        "term.copy"@
    } else if i == 7 {
        "term.paste"@
    } else if i == 8 {
        "term.select_all"@
    } else {
        "term.clear"@
    }
}

/// The label of built-in action `i`.
pub open spec fn catalog_label(i: int) -> Seq<char> {
    if i == 0 {
        "Quit"@
    } else if i == 1 {
        "Command Palette"@
    } else if i == 2 {
        "Close Palette"@
    } else if i == 3 {
        "Run"@
    } else if i == 4 {
        "Next Result"@
    } else if i == 5 {
        "Previous Result"@
    } else if i == 6 {
        "Copy"@
    } else if i == 7 {
        "Paste"@
    } else if i == 8 {
        "Select All"@
    } else {
        "Clear Screen"@
    }
}

/// The channel bits of built-in action `i`.
pub open spec fn catalog_channels(i: int) -> u8 {
    if i == 0 {
        1
    } else if i == 1 {
        0
    } else if i == 2 {
        0
    } else if i == 3 {
        0
    } else if i == 4 {
        0
    } else if i == 5 {
        0
    } else if i == 6 {
        5
    } else if i == 7 {
        5
    } else if i == 8 {
        0
    } else {
        1
    }
}

/// Whether `rows` is the built-in action table.
pub open spec fn is_catalog(rows: Seq<Action>) -> bool {
    &&& rows.len() == catalog_len()
    &&& forall|i: int|
        0 <= i < catalog_len() ==> (#[trigger] rows[i]).id@ == catalog_id(i) && rows[i].label@
            == catalog_label(i) && rows[i].channels.bits() == catalog_channels(i) && rows[i].arg
            == ArgShape::NoArgument
}

fn act(id: &'static str, label: &'static str, channels: Channels) -> (r: Action)
    ensures
        r.id@ == id@,
        r.label@ == label@,
        r.channels == channels,
        r.arg == ArgShape::NoArgument,
{
    Action { id: Cow::Borrowed(id), label: Cow::Borrowed(label), channels, arg: ArgShape::NoArgument }
}

/// Actions stage 1 can actually perform: quitting, the palette's own
/// operation, and the terminal's clipboard and screen actions.
pub fn actions() -> (r: Vec<Action>)
    ensures
        is_catalog(r@),
{
    let mut v: Vec<Action> = Vec::new();
    assert(1u8 | 4u8 == 5u8) by (bit_vector);
    v.push(act("app.quit", "Quit", Channels::palette()));
    v.push(act("palette.open", "Command Palette", Channels::key_only()));
    v.push(act("palette.close", "Close Palette", Channels::key_only()));
    v.push(act("palette.confirm", "Run", Channels::key_only()));
    v.push(act("palette.next", "Next Result", Channels::key_only()));
    v.push(act("palette.prev", "Previous Result", Channels::key_only()));
    v.push(act("term.copy", "Copy", union(Channels::palette(), Channels::menu())));
    v.push(act("term.paste", "Paste", union(Channels::palette(), Channels::menu())));
    v.push(act("term.select_all", "Select All", Channels::key_only()));
    v.push(act("term.clear", "Clear Screen", Channels::palette()));
    v
}

/// This crate's contribution to the boot-time merge.
pub fn built_in() -> (r: Source)
    ensures
        r.name@ == "baton-action"@,
        is_catalog(r.actions@),
{
    Source { name: Cow::Borrowed("baton-action"), actions: Cow::Owned(actions()) }
}

/// No two built-in actions share a name, so the built-in source merges.
pub proof fn lemma_built_in_mergeable(source: Source)
    requires
        is_catalog(source.actions@),
    ensures
        mergeable(seq![source]),
        rows_of(seq![source]) == source.actions@,
{
    reveal_strlit("app.quit");
    reveal_strlit("palette.open");
    reveal_strlit("palette.close");
    reveal_strlit("palette.confirm");
    reveal_strlit("palette.next");
    reveal_strlit("palette.prev");
    reveal_strlit("term.copy");
    reveal_strlit("term.paste");
    reveal_strlit("term.select_all");
    reveal_strlit("term.clear");
    let rows = source.actions@;
    assert(seq![source].drop_last() =~= Seq::<Source>::empty());
    assert(seq![source].last() == source);
    assert(rows_of(Seq::<Source>::empty()) =~= Seq::<Action>::empty());
    assert(rows_of(seq![source]) =~= rows);
    assert forall|i: int, j: int| 0 <= i < j < rows.len() implies #[trigger] rows[i].id@
        != #[trigger] rows[j].id@ by {
        assert(rows[i].id@ == catalog_id(i));
        assert(rows[j].id@ == catalog_id(j));
        assert(catalog_id(i).len() != catalog_id(j).len() || catalog_id(i)[0] != catalog_id(j)[0]
            || catalog_id(i)[6] != catalog_id(j)[6] || catalog_id(i)[8] != catalog_id(j)[8]
            || catalog_id(i)[5] != catalog_id(j)[5]);
    }
}

/// How many bindings the built-in keymap holds.
pub open spec fn keymap_len() -> nat {
    10
}

/// The action built-in binding `i` reaches.
pub open spec fn keymap_action(i: int) -> Seq<char> {
    if i == 0 {
        "palette.open"@
    } else if i == 1 {
        "palette.close"@
    } else if i == 2 {
        "palette.confirm"@
    } else if i == 3 {
        "palette.next"@
    } else if i == 4 {
        "palette.prev"@
    } else if i == 5 {
        "app.quit"@
    } else if i == 6 {
        "term.copy"@
    } else if i == 7 {
        "term.paste"@
    } else if i == 8 {
        "term.select_all"@
    } else {
        "term.clear"@
    }
}

/// The chord of built-in binding `i`.
pub open spec fn keymap_key(i: int) -> Seq<char> {
    if i == 0 {
        "meta+KeyK"@
    } else if i == 1 {
        "Escape"@
    } else if i == 2 {
        "Enter"@
    } else if i == 3 {
        "ArrowDown"@
    } else if i == 4 {
        "ArrowUp"@
    } else if i == 5 {
        "meta+KeyQ"@
    } else if i == 6 {
        "meta+KeyC"@
    } else if i == 7 {
        "meta+KeyV"@
    } else if i == 8 {
        "meta+KeyA"@
    } else {
        "meta+shift+KeyK"@
    }
}

/// The guard of built-in binding `i`.
pub open spec fn keymap_when(i: int) -> Option<Seq<char>> {
    if i == 0 {
        Some("!palette_open"@)
    } else if i == 1 {
        Some("palette_open"@)
    } else if i == 2 {
        Some("palette_open"@)
    } else if i == 3 {
        Some("palette_open"@)
    } else if i == 4 {
        Some("palette_open"@)
    } else if i == 5 {
        None
    } else if i == 6 {
        Some("pane_focused && has_selection"@)
    } else if i == 7 {
        Some("pane_focused && pane_live"@)
    } else if i == 8 {
        Some("pane_focused"@)
    } else {
        Some("pane_focused && pane_live"@)
    }
}

/// Whether `rows` is the built-in keymap.
pub open spec fn is_default_keymap(rows: Seq<Binding>) -> bool {
    &&& rows.len() == keymap_len()
    &&& forall|i: int|
        0 <= i < keymap_len() ==> (#[trigger] rows[i]).action@ == keymap_action(i) && rows[i].key@
            == keymap_key(i) && match rows[i].when {
            Some(w) => keymap_when(i) == Some(w@),
            None => keymap_when(i) is None,
        }
}

fn bind(action: &'static str, key: &'static str, when: Option<&'static str>) -> (r: Binding)
    ensures
        r.action@ == action@,
        r.key@ == key@,
        match when {
            Some(w) => r.when matches Some(c) && c@ == w@,
            None => r.when is None,
        },
{
    Binding {
        action: Cow::Borrowed(action),
        key: Cow::Borrowed(key),
        when: match when {
            Some(w) => Some(Cow::Borrowed(w)),
            None => None,
        },
    }
}

/// The built-in keymap.
///
/// **Every unmodified key here is guarded.** A key not in this table reaches
/// the terminal, so this table *is* the interception set. And **no terminal
/// action fires without the pane focused**: a guard on the pane's state
/// alone (its connection, its selection) stays true while somebody types in
/// the palette, so each terminal binding also asks where the keyboard is.
pub fn default_keymap() -> (r: Vec<Binding>)
    ensures
        is_default_keymap(r@),
{
    let mut v: Vec<Binding> = Vec::new();
    v.push(bind("palette.open", "meta+KeyK", Some("!palette_open")));
    v.push(bind("palette.close", "Escape", Some("palette_open")));
    v.push(bind("palette.confirm", "Enter", Some("palette_open")));
    v.push(bind("palette.next", "ArrowDown", Some("palette_open")));
    v.push(bind("palette.prev", "ArrowUp", Some("palette_open")));
    v.push(bind("app.quit", "meta+KeyQ", None));
    v.push(bind("term.copy", "meta+KeyC", Some("pane_focused && has_selection")));
    v.push(bind("term.paste", "meta+KeyV", Some("pane_focused && pane_live")));
    v.push(bind("term.select_all", "meta+KeyA", Some("pane_focused")));
    v.push(bind("term.clear", "meta+shift+KeyK", Some("pane_focused && pane_live")));
    v
}


/// **No binding in the built-in keymap dangles**: each names an action the
/// built-in table registers, so no key there silently does nothing.
pub proof fn lemma_every_binding_names_a_built_in_action(i: int)
    requires
        0 <= i < keymap_len(),
    ensures
        exists|j: int| 0 <= j < catalog_len() && #[trigger] catalog_id(j) == keymap_action(i),
{
    let j: int = if i == 0 {
        1
    } else if i == 1 {
        2
    } else if i == 2 {
        3
    } else if i == 3 {
        4
    } else if i == 4 {
        5
    } else if i == 5 {
        0
    } else {
        i
    };
    assert(catalog_id(j) == keymap_action(i));
}

/// **Every built-in action is reachable by some key**: the built-in table
/// registers nothing that neither a key nor a channel would make usable.
pub proof fn lemma_every_built_in_action_is_bound(j: int)
    requires
        0 <= j < catalog_len(),
    ensures
        exists|i: int| 0 <= i < keymap_len() && #[trigger] keymap_action(i) == catalog_id(j),
{
    let i: int = if j == 0 {
        5
    } else if j <= 5 {
        j - 1
    } else {
        j
    };
    assert(keymap_action(i) == catalog_id(j));
}

/// **The only unguarded binding is a modified chord**: every bare key in the
/// built-in keymap carries a guard, so none of them stops reaching the
/// terminal unconditionally.
pub proof fn lemma_every_unguarded_binding_is_modified(i: int)
    requires
        0 <= i < keymap_len(),
        keymap_when(i) is None,
    ensures
        keymap_key(i).contains('+'),
{
    reveal_strlit("meta+KeyQ");
    assert(keymap_key(i)[4] == '+');
}


/// The clause a built-in terminal binding's guard spells: pane focus, and
/// for copy, paste and clear, the pane state the action needs.
spec fn terminal_guard(i: int) -> Predicate {
    let focused = Predicate::Flag(flag_at(0));
    if i == 6 {
        Predicate::And(Box::new(focused), Box::new(Predicate::Flag(flag_at(3))))
    } else if i == 8 {
        focused
    } else {
        Predicate::And(Box::new(focused), Box::new(Predicate::Flag(flag_at(1))))
    }
}

/// The built-in terminal actions are the last four bindings.
proof fn lemma_terminal_bindings(i: int)
    requires
        0 <= i < keymap_len(),
        "term."@.is_prefix_of(keymap_action(i)),
    ensures
        6 <= i,
{
    reveal_strlit("term.");
    let a = keymap_action(i);
    assert(a.subrange(0, 5) =~= "term."@);
    assert(a[0] == a.subrange(0, 5)[0]);
    assert(a[0] == 't');
    if i == 5 {
        reveal_strlit("app.quit");
        assert(a[0] == 'a');
    } else if i < 5 {
        reveal_strlit("palette.open");
        reveal_strlit("palette.close");
        reveal_strlit("palette.confirm");
        reveal_strlit("palette.next");
        reveal_strlit("palette.prev");
        assert(a[0] == 'p');
    }
}

/// A terminal binding's guard text is the canonical spelling of its clause.
proof fn lemma_terminal_guard_spelled(i: int)
    requires
        6 <= i < keymap_len(),
    ensures
        keymap_when(i) == Some(render(terminal_guard(i))),
        well_named(terminal_guard(i)),
{
    lemma_flag_at(0);
    lemma_flag_at(1);
    lemma_flag_at(3);
    reveal_strlit("pane_focused");
    let focused = Predicate::Flag(flag_at(0));
    let live = Predicate::Flag(flag_at(1));
    let selection = Predicate::Flag(flag_at(3));
    assert(render(focused) == "pane_focused"@);
    assert(render(live) == spelling(1));
    assert(render(selection) == spelling(3));
    assert(well_named(focused) && well_named(live) && well_named(selection));
    if i == 8 {
        assert(render(terminal_guard(i)) =~= "pane_focused"@);
    } else if i == 6 {
        reveal_strlit("has_selection");
        reveal_strlit(" && ");
        reveal_strlit("pane_focused && has_selection");
        assert(render(terminal_guard(i)) =~= "pane_focused && has_selection"@);
    } else {
        reveal_strlit("pane_live");
        reveal_strlit(" && ");
        reveal_strlit("pane_focused && pane_live");
        assert(render(terminal_guard(i)) =~= "pane_focused && pane_live"@);
    }
}

/// **No terminal action fires without the pane focused.** Every built-in
/// binding on a terminal action has a guard that parses, and that guard is
/// false in any context where no pane has focus, whatever else holds: a
/// guard on the pane's own state alone would stay true while somebody types
/// in the palette.
pub proof fn lemma_no_terminal_binding_fires_without_focus(i: int, ctx: u32)
    requires
        0 <= i < keymap_len(),
        "term."@.is_prefix_of(keymap_action(i)),
        ctx & bit(0) != bit(0),
    ensures
        keymap_when(i) matches Some(w) && parse_clause(w) matches Ok(p) && !eval(p, ctx),
{
    lemma_terminal_bindings(i);
    lemma_terminal_guard_spelled(i);
    lemma_flag_at(0);
    let p = terminal_guard(i);
    lemma_print_then_parse(p);
    assert(!eval(Predicate::Flag(flag_at(0)), ctx));
    assert(!eval(p, ctx));
}


/// No built-in key spelling has an `l` in it.
proof fn lemma_keys_have_no_l(i: int, k: int)
    requires
        0 <= i < keymap_len(),
        0 <= k < keymap_key(i).len(),
    ensures
        keymap_key(i)[k] != 'l',
{
    if i == 0 {
        reveal_strlit("meta+KeyK");
    } else if i == 1 {
        reveal_strlit("Escape");
    } else if i == 2 {
        reveal_strlit("Enter");
    } else if i == 3 {
        reveal_strlit("ArrowDown");
    } else if i == 4 {
        reveal_strlit("ArrowUp");
    } else if i == 5 {
        reveal_strlit("meta+KeyQ");
    } else if i == 6 {
        reveal_strlit("meta+KeyC");
    } else if i == 7 {
        reveal_strlit("meta+KeyV");
    } else if i == 8 {
        reveal_strlit("meta+KeyA");
    } else {
        reveal_strlit("meta+shift+KeyK");
    }
}

/// **`control` is never intercepted**: no built-in key holds it, so every
/// control chord a shell or an editor wants goes straight through.
pub proof fn lemma_control_is_never_intercepted(i: int, p: int)
    requires
        0 <= i < keymap_len(),
        0 <= p,
        p + 8 <= keymap_key(i).len(),
    ensures
        keymap_key(i).subrange(p, p + 8) != "control+"@,
{
    reveal_strlit("control+");
    lemma_keys_have_no_l(i, p + 6);
    assert(keymap_key(i).subrange(p, p + 8)[6] == keymap_key(i)[p + 6]);
}

} // verus!
