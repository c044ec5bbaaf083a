//! What the library promises across calls: assembly's errors, lookup's
//! order, the conflict search's witness, routing's recipients and the
//! messages a person reads.

use std::borrow::Cow;
use std::str::FromStr;

use baton::{
    Action, ArgShape, Binding, BindingProblem, Channels, Flags, Keystroke, MergeError, PaneId,
    Predicate, Source, TargetSet, assemble, built_in, combine, holds, merge, rank, recipients,
    satisfiable_together, shell_from_env, try_assemble, try_merge,
};
use keyboard_types::Modifiers;

fn bind(action: &'static str, key: &'static str, when: Option<&'static str>) -> Binding {
    Binding { action: Cow::Borrowed(action), key: Cow::Borrowed(key), when: when.map(Cow::Borrowed) }
}

fn chord(s: &str) -> Keystroke {
    Keystroke::from_str(s).unwrap()
}

fn row(id: &'static str) -> Action {
    Action {
        id: Cow::Borrowed(id),
        label: Cow::Borrowed("Label"),
        channels: Channels::palette(),
        arg: ArgShape::NoArgument,
    }
}

#[test]
fn a_missing_action_is_named_with_its_key() {
    let registry = merge(&[built_in()]);
    let err = try_assemble(&[bind("app.quit", "meta+KeyQ", None), bind("nope.missing", "meta+KeyZ", None)], &registry)
        .map(|_| ())
        .expect_err("an unregistered action must not assemble");
    assert_eq!(err.problem, BindingProblem::NotRegistered);
    assert_eq!(
        err.to_string(),
        "invalid binding action \"nope.missing\", key \"meta+KeyZ\": action is not registered"
    );
}

#[test]
fn an_unparseable_chord_carries_the_keystroke_error() {
    let registry = merge(&[built_in()]);
    let err = try_assemble(&[bind("app.quit", "cmd+Q", None)], &registry)
        .map(|_| ())
        .expect_err("cmd is not a modifier");
    assert_eq!(
        err.to_string(),
        "invalid binding action \"app.quit\", key \"cmd+Q\": invalid chord: unknown modifier \"cmd\""
    );
}

#[test]
fn an_unparseable_guard_is_quoted_with_its_error() {
    let registry = merge(&[built_in()]);
    let err = try_assemble(&[bind("app.quit", "meta+KeyQ", Some("pane_focussed"))], &registry)
        .map(|_| ())
        .expect_err("a misspelt flag must not assemble");
    assert_eq!(
        err.to_string(),
        "invalid binding action \"app.quit\", key \"meta+KeyQ\": invalid when \"pane_focussed\": \
         unknown context flag \"pane_focussed\""
    );
}

/// The first faulty binding is the one reported, in the order checked.
#[test]
fn the_first_faulty_binding_is_reported() {
    let registry = merge(&[built_in()]);
    let err = try_assemble(
        &[bind("app.quit", "meta+KeyQ", Some("(")), bind("nope.missing", "meta+KeyZ", None)],
        &registry,
    )
    .map(|_| ())
    .expect_err("both rows are wrong");
    assert_eq!(err.action, "app.quit");
    assert!(matches!(err.problem, BindingProblem::InvalidWhen { .. }));
}

/// Of two bindings on one chord, the first whose guard holds fires.
#[test]
fn the_first_firing_binding_wins() {
    let registry = merge(&[built_in()]);
    let keymap = assemble(
        &[
            bind("term.copy", "meta+KeyD", Some("pane_focused")),
            bind("term.paste", "meta+KeyD", None),
        ],
        &registry,
    );
    let copy = registry.resolve("term.copy").unwrap();
    let paste = registry.resolve("term.paste").unwrap();
    assert_eq!(keymap.lookup(chord("meta+KeyD"), Flags::pane_focused()), Some(copy));
    assert_eq!(keymap.lookup(chord("meta+KeyD"), Flags::none()), Some(paste));
    assert_eq!(keymap.conflicts().len(), 1);
}

/// A keymap whose check comes back clean fires one action per keystroke in
/// every context: here, both guards on one chord split by negation.
#[test]
fn a_clean_keymap_fires_one_action_per_keystroke() {
    let registry = merge(&[built_in()]);
    let keymap = assemble(
        &[
            bind("term.copy", "meta+KeyD", Some("palette_open")),
            bind("term.paste", "meta+KeyD", Some("!palette_open")),
        ],
        &registry,
    );
    assert!(keymap.conflicts().is_empty());
    for ctx in [Flags::none(), Flags::palette_open(), combine(Flags::palette_open(), Flags::pane_live())] {
        assert!(keymap.lookup(chord("meta+KeyD"), ctx).is_some());
    }
}

/// The witness is the least assignment in which both clauses hold.
#[test]
fn the_joint_witness_is_the_least_context() {
    let a = Predicate::from_str("pane_live || has_selection").unwrap();
    let b = Predicate::from_str("has_selection").unwrap();
    assert_eq!(satisfiable_together(&a, &b, &[]), Some(Flags::has_selection()));
    let never = Predicate::from_str("pane_live && !pane_live").unwrap();
    assert_eq!(satisfiable_together(&never, &b, &[]), None);
}

/// The same scores rank the same way, call after call.
#[test]
fn ranking_is_deterministic() {
    let labels = ["Copy", "Copy", "Cop", "Paste Copy"];
    assert_eq!(rank("cop", &labels), rank("cop", &labels));
}

#[test]
fn a_duplicate_inside_one_source_is_told_apart() {
    let twice = Source {
        name: Cow::Borrowed("self-colliding"),
        actions: Cow::Owned(vec![row("app.quit"), row("app.quit")]),
    };
    let err = try_merge(&[twice]).map(|_| ()).expect_err("one id twice");
    assert_eq!(
        err.to_string(),
        "duplicate action id \"app.quit\": source 0 (self-colliding) index 0 collides with \
         source 0 (self-colliding) index 1"
    );
}

#[test]
fn more_actions_than_an_id_can_address_are_refused() {
    let many: Vec<Action> = (0..65_537)
        .map(|n| Action {
            id: Cow::Owned(format!("bulk.row{n}")),
            label: Cow::Borrowed("Row"),
            channels: Channels::key_only(),
            arg: ArgShape::NoArgument,
        })
        .collect();
    let source = Source { name: Cow::Borrowed("bulk"), actions: Cow::Owned(many) };
    let err = try_merge(&[source]).map(|_| ()).expect_err("65537 rows do not fit");
    assert_eq!(err, MergeError::TooMany { count: 65_537 });
    assert_eq!(
        err.to_string(),
        "cannot register 65537 actions: an ActionId is a u16, so 65536 is the ceiling"
    );
}

/// Merging keeps contribution order: a later source's rows come after.
#[test]
fn merge_keeps_contribution_order() {
    let later = Source { name: Cow::Borrowed("later"), actions: Cow::Owned(vec![row("plugin.one")]) };
    let r = merge(&[built_in(), later]);
    let last = r.iter().last().map(|(_, a)| a.id.to_string());
    assert_eq!(last.as_deref(), Some("plugin.one"));
}

/// The recipients are the live targeted panes, in target order.
#[test]
fn recipients_are_the_live_targets_in_order() {
    let (a, b, c) = (PaneId::new(1), PaneId::new(2), PaneId::new(3));
    let live = [c, a];
    let got = recipients(&TargetSet::Listed(vec![a, b, c]), Some(b), &|id| live.contains(&id));
    assert_eq!(got, vec![a, c]);
    let focused = recipients(&TargetSet::Focused, Some(b), &|id| live.contains(&id));
    assert!(focused.is_empty());
}

/// A shell from the environment is taken only when it is an absolute path.
#[test]
fn the_shell_is_an_absolute_path() {
    assert_eq!(shell_from_env(Some("/usr/bin/fish".to_owned()), "/bin/sh"), "/usr/bin/fish");
    assert_eq!(shell_from_env(Some("fish".to_owned()), "/bin/sh"), "/bin/sh");
    assert_eq!(shell_from_env(Some(String::new()), "/bin/sh"), "/bin/sh");
    assert_eq!(shell_from_env(None, "/bin/zsh"), "/bin/zsh");
}

/// The modifier bits are keyboard-types' own.
#[test]
fn modifier_bits_are_keyboard_types_bits() {
    assert_eq!(chord("meta+shift+alt+control+KeyA").modifiers(),
        (Modifiers::META | Modifiers::SHIFT | Modifiers::ALT | Modifiers::CONTROL).bits());
}

/// The key's name is checked against keyboard-types' own list of codes.
#[test]
fn a_key_name_is_checked_against_the_code_list() {
    assert!(Keystroke::from_str("meta+IntlYen").is_ok());
    assert!(Keystroke::from_str("meta+NotAKey").is_err());
}

/// A flag printed in a clause is the flag's own spelling.
#[test]
fn a_printed_clause_spells_its_flags() {
    let p = Predicate::from_str("!(dialog_hostkey_changed || sidebar_hosts) == has_jump").unwrap();
    assert_eq!(p.to_string(), "!(dialog_hostkey_changed || sidebar_hosts) == has_jump");
    assert!(holds(combine(Flags::has_jump(), Flags::none()), Flags::has_jump()));
}

/// A key event reads through the keystroke syntax: modifiers in canonical
/// order, then the code name.
#[test]
fn a_key_event_becomes_its_keystroke() {
    let k = baton::keystroke_from_event(true, true, false, false, "KeyK").unwrap();
    assert_eq!(k.to_string(), "meta+shift+KeyK");
    assert_eq!(k, chord("meta+shift+KeyK"));
    assert!(baton::keystroke_from_event(false, false, false, true, "Lang1").is_some());
    assert!(baton::keystroke_from_event(true, false, false, false, "NotAKey").is_none());
}

/// Palette rows mark the selection, tag recents only at rest and carry the
/// reason a row cannot run.
#[test]
fn palette_rows_mark_selection_recents_and_reasons() {
    let registry = merge(&[built_in()]);
    let results = baton::palette_results(&registry, "");
    let recents = vec!["term.paste".to_owned()];
    let rows = baton::palette_rows(&results, 1, "", &recents);
    assert_eq!(rows.len(), results.len());
    assert_eq!(rows[1].label, "Copy");
    assert!(rows[1].selected && !rows[0].selected);
    assert!(rows[2].recent && !rows[1].recent);
    assert_eq!(rows[0].reason, None);
    assert_eq!(rows[1].reason, Some("Waits for the action-wiring ticket"));

    let searching = baton::palette_results(&registry, "paste");
    let rows = baton::palette_rows(&searching, 0, "paste", &recents);
    assert!(rows.iter().all(|r| !r.recent), "a search does not tag recents");
}

/// A clause error says what was found and where, in bytes.
#[test]
fn clause_errors_say_what_and_where() {
    let err = Predicate::from_str("&& palette_open").map(|_| ()).unwrap_err();
    assert_eq!(err.to_string(), "unexpected \"&\" at byte 0");
    let err = Predicate::from_str("palette_open)").map(|_| ()).unwrap_err();
    assert_eq!(err.to_string(), "trailing \")\" after the clause at byte 12");
    let err = Predicate::from_str("(palette_open").map(|_| ()).unwrap_err();
    assert_eq!(err.to_string(), "unclosed parenthesis at byte 13");
    let err = Predicate::from_str("").map(|_| ()).unwrap_err();
    assert_eq!(err.to_string(), "the clause is empty");
}

/// Whatever the environment holds, the answer is an absolute path: the one
/// property every caller relies on.
#[test]
fn the_default_shell_is_an_absolute_path() {
    for value in [None, Some(String::new()), Some("zsh".to_owned()), Some("/bin/bash".to_owned())] {
        assert!(shell_from_env(value, "/bin/sh").starts_with('/'));
    }
}

/// Panes are equal and ordered by the numbers they were minted with.
#[test]
fn panes_order_by_their_numbers() {
    assert_eq!(PaneId::new(4), PaneId::new(4));
    assert_ne!(PaneId::new(4), PaneId::new(5));
    assert!(PaneId::new(4) < PaneId::new(5));
    assert!(PaneId::new(9) > PaneId::new(5));
}

/// A write reaches a pane only from the live terminal shown in it.
#[test]
fn a_write_reaches_only_the_pane_its_live_terminal_is_in() {
    let (a, b) = (PaneId::new(0), PaneId::new(1));
    assert!(baton::write_reaches(Some(7), 7, Some(a), a));
    assert!(!baton::write_reaches(Some(7), 7, Some(a), b));
    assert!(!baton::write_reaches(Some(8), 7, Some(a), a));
    assert!(!baton::write_reaches(None, 7, Some(a), a));
    assert!(!baton::write_reaches(Some(7), 7, None, a));
}

/// A row shows its label, the recent tag when recent, and its reason only
/// while selected.
#[test]
fn a_row_shows_its_reason_only_while_selected() {
    let row = baton::PaletteRow { label: "Copy", selected: false, recent: true, reason: Some("Not yet") };
    assert_eq!(baton::row_texts(&row, "recent"), ["Copy", "recent"]);
    let selected = baton::PaletteRow { selected: true, ..row.clone() };
    assert_eq!(baton::row_texts(&selected, "recent"), ["Copy", "recent", "Not yet"]);
}

/// Every id the registry hands out resolves back from its row's name.
#[test]
fn every_issued_id_resolves_from_its_name() {
    let r = merge(&[built_in()]);
    for (id, action) in r.iter() {
        assert_eq!(r.resolve(&action.id), Some(id));
        assert_eq!(r.get(id), Some(action));
    }
}
