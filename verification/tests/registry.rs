//! The action table, and the merge that assembles it.
//!
//! What these pin, and why each one exists:
//!
//! - The stage-1 inventory is **exactly** ten named ids. "About ten" was
//!   unverifiable and let any count claim completion.
//! - Ids obey the rules that can actually be checked. A verb in the middle
//!   segment is naming guidance and is not checked -- see
//!   `id_grammar_is_only_what_can_be_checked`.
//! - A duplicate names **both** sources and positions, which is the whole reason
//!   a source carries a name.
//! - **A runtime table is the same kind of thing as the built-in one**, which is
//!   what makes a rebind or a loaded row possible without a redesign.

use std::borrow::Cow;
use std::collections::HashSet;

use baton::{
    Action, ArgShape, Channels, Source, actions, built_in, merge, reachable_from, try_merge,
};

/// The ten ids stage 1 implements. Written out rather than derived from
/// the catalog, because a test that reads the value it is checking asserts nothing.
const STAGE1_IDS: [&str; 10] = [
    "app.quit",
    "palette.open",
    "palette.close",
    "palette.confirm",
    "palette.next",
    "palette.prev",
    "term.copy",
    "term.paste",
    "term.select_all",
    "term.clear",
];

/// Every domain an action id may start with.
const DOMAINS: [&str; 16] = [
    "app",
    "palette",
    "sidebar",
    "host",
    "group",
    "workspace",
    "tab",
    "pane",
    "term",
    "snippet",
    "conn",
    "hostkey",
    "key",
    "dialog",
    "help",
    "restore",
];

#[test]
fn stage_one_registers_exactly_ten_actions() {
    let table = actions();
    let got: Vec<&str> = table.iter().map(|a| a.id.as_ref()).collect();
    assert_eq!(
        got, STAGE1_IDS,
        "the stage-1 inventory is fixed at ten ids in a fixed order. Adding one \
         means it is implemented and reachable -- an action nothing executes is \
         a palette entry that does nothing"
    );
}

#[test]
fn every_action_has_a_label_and_stage_one_takes_no_arguments() {
    for a in actions() {
        assert!(!a.label.is_empty(), "{} has no label", a.id);
        assert_eq!(
            a.arg,
            ArgShape::NoArgument,
            "{} takes an argument, but nothing in stage 1 can supply one",
            a.id
        );
    }
}

/// `reachable` is the palette, and what it hands back is dispatchable.
///
/// The id matters as much as the row. A palette entry has to turn into a message,
/// and the index accessor is private, so an iterator yielding `&Action` alone
/// would force a caller to `resolve` the id string it had just read.
#[test]
fn reachable_carries_ids_a_caller_can_dispatch() {
    let r = merge(&[built_in()]);
    let table = actions();

    let by_hand: Vec<&str> = table
        .iter()
        .filter(|a| reachable_from(a.channels, Channels::palette()))
        .map(|a| a.id.as_ref())
        .collect();
    let by_registry: Vec<&str> =
        r.reachable(Channels::palette()).into_iter().map(|(_, a)| a.id.as_ref()).collect();
    assert_eq!(by_registry, by_hand, "reachable() is not the same filter");
    assert!(!by_hand.is_empty(), "the fixture would prove nothing");

    // Every id it yields addresses the row it came with.
    for (id, action) in r.reachable(Channels::palette()) {
        assert_eq!(r.get(id), Some(action), "{} yielded a stale id", action.id);
        assert_eq!(r.resolve(&action.id), Some(id));
    }
}

/// `iter` walks every action once, in contribution order, ids included.
#[test]
fn iter_is_the_whole_table_in_order() {
    let r = merge(&[built_in()]);
    let table = actions();
    assert_eq!(r.iter().len(), table.len());
    for ((id, action), expected) in r.iter().into_iter().zip(table.iter()) {
        assert_eq!(action, expected);
        assert_eq!(r.get(id), Some(expected));
    }
}

/// The palette shows what carries `PALETTE`. If every action carried it, or none
/// did, the field would be decoration.
#[test]
fn channels_distinguish_registry_membership_from_palette_visibility() {
    let table = actions();
    let visible = table
        .iter()
        .filter(|a| reachable_from(a.channels, Channels::palette()))
        .count();
    assert!(
        visible > 0 && visible < table.len(),
        "{visible} of {} actions are palette-visible; all or none would mean \
         Channels carries no information",
        table.len()
    );
    // The action that opens the palette must never be palette-visible: reaching
    // it from the palette would need the palette already open.
    let open = table.iter().find(|a| a.id == "palette.open").unwrap();
    assert!(!reachable_from(open.channels, Channels::palette()));
}

/// A verb in the middle segment **cannot be checked**: `sidebar.mode.hosts`
/// has no verb at all, `term.font.increase` puts a noun in the middle, and
/// `term.scroll.line.up` has four segments. That stays naming guidance; these
/// are the parts that are true.
#[test]
fn id_grammar_is_only_what_can_be_checked() {
    let domains: HashSet<&str> = DOMAINS.into_iter().collect();
    let mut seen = HashSet::new();

    let table = actions();
    for a in table.iter() {
        let segments: Vec<&str> = a.id.split('.').collect();
        assert!(
            (2..=4).contains(&segments.len()),
            "{}: ids have two to four segments, got {}",
            a.id,
            segments.len()
        );
        assert!(
            domains.contains(segments[0]),
            "{}: unknown domain {:?}. A new domain is a decision, not a typo",
            a.id,
            segments[0]
        );
        for s in &segments {
            assert!(
                !s.is_empty()
                    && s.starts_with(|c: char| c.is_ascii_lowercase())
                    && s.chars().all(|c| c.is_ascii_lowercase() || c == '_'),
                "{}: segment {:?} must match [a-z][a-z_]*",
                a.id,
                s
            );
        }
        assert!(seen.insert(a.id.as_ref()), "{} is registered twice", a.id);
    }
}

#[test]
fn the_built_in_source_registers_and_indexes_every_row() {
    let r = merge(&[built_in()]);
    let table = actions();
    assert_eq!(r.count(), table.len());
    assert!(r.count() > 0);

    // Ids are handed out in contribution order. Asserting that through the
    // public surface rather than through the integer: the id a name resolves to
    // has to address the row at that name's position, and the ten names are
    // distinct, so nothing but a dense in-order assignment satisfies it.
    for (position, row) in table.iter().enumerate() {
        let id = r
            .resolve(&row.id)
            .unwrap_or_else(|| panic!("{} did not resolve", row.id));
        assert_eq!(r.get(id).unwrap(), row);
        assert_eq!(r.iter().into_iter().nth(position).map(|(_, a)| a), Some(row));
    }
    assert!(r.resolve("nope.missing").is_none());
}

/// A table that arrives at runtime is the same kind of thing as the built-in
/// one. This is the property the whole `Cow` arrangement exists for: if it
/// needed a leak, an intern or a second type, then "a loaded table is more rows
/// in the same table" would be false.
#[test]
fn a_runtime_table_merges_beside_the_built_in_one() {
    let loaded = Source {
        name: Cow::Owned(String::from("keymap.toml")),
        actions: Cow::Owned(vec![
            Action {
                id: Cow::Owned(String::from("plugin.greet")),
                label: Cow::Owned(String::from("Say Hello")),
                channels: Channels::palette(),
                arg: ArgShape::NoArgument,
            },
            Action {
                id: Cow::Owned(String::from("host.edit")),
                label: Cow::Owned(String::from("Edit Host…")),
                channels: Channels::palette(),
                arg: ArgShape::HostTab,
            },
        ]),
    };

    let r = merge(&[built_in(), loaded]);
    let table = actions();
    assert_eq!(r.count(), table.len() + 2);

    // Built-in rows keep their positions, so an index issued before the loaded
    // table existed still means the same thing.
    assert_eq!(r.iter()[0].1.id, table[0].id);

    let greet = r.resolve("plugin.greet").expect("the loaded row resolves");
    assert_eq!(r.get(greet).unwrap().label, "Say Hello");
    let edit = r.resolve("host.edit").unwrap();
    assert_eq!(r.get(edit).unwrap().arg, ArgShape::HostTab);
}

/// **Merging adds; it never redefines.** A loaded table cannot take over a
/// built-in name -- if it could, a file would silently change what an action
/// does while the palette still showed the built-in label.
#[test]
#[should_panic(expected = "duplicate action id \"term.copy\"")]
fn a_runtime_table_cannot_redefine_a_built_in_action() {
    let hostile = Source {
        name: Cow::Owned(String::from("keymap.toml")),
        actions: Cow::Owned(vec![Action {
            id: Cow::Borrowed("term.copy"),
            label: Cow::Owned(String::from("Copy, but different")),
            channels: Channels::palette(),
            arg: ArgShape::NoArgument,
        }]),
    };
    merge(&[built_in(), hostile]);
}

#[test]
fn a_duplicate_names_both_sources_and_both_positions() {
    // `term.copy` is at index 6 of the built-in table; put it at index 1 of a
    // colliding source so the positions differ and cannot be confused.
    let other = Source {
        name: Cow::Borrowed("other-crate"),
        actions: Cow::Owned(vec![
            Action {
                id: Cow::Borrowed("pane.close"),
                label: Cow::Borrowed("Close Pane"),
                channels: Channels::palette(),
                arg: ArgShape::Pane,
            },
            Action {
                id: Cow::Borrowed("term.copy"),
                label: Cow::Borrowed("Copy (again)"),
                channels: Channels::palette(),
                arg: ArgShape::NoArgument,
            },
        ]),
    };

    // The message is the whole diagnostic, and it is what `Source::name` exists
    // for: it has to name both claimants and both positions, or someone reading
    // a crash has nowhere to go.
    let text = try_merge(&[built_in(), other])
        .map(|_| ())
        .expect_err("a duplicate must not merge")
        .to_string();
    for needle in [
        "term.copy",
        "source 0 (baton-action) index 6",
        "source 1 (other-crate) index 1",
    ] {
        assert!(text.contains(needle), "message omits {needle:?}: {text}");
    }
}

/// A source's name is a label, not a key, so two of them may be identical. The
/// message has to stay readable when they are -- otherwise a collision between
/// two files both called `keymap.toml` reads exactly like one file colliding
/// with itself.
#[test]
fn two_sources_sharing_a_name_are_still_told_apart() {
    let one = Source {
        name: Cow::Borrowed("keymap.toml"),
        actions: Cow::Owned(vec![Action {
            id: Cow::Borrowed("plugin.greet"),
            label: Cow::Borrowed("Greet"),
            channels: Channels::palette(),
            arg: ArgShape::NoArgument,
        }]),
    };
    let two = Source {
        name: Cow::Borrowed("keymap.toml"),
        actions: Cow::Owned(vec![Action {
            id: Cow::Borrowed("plugin.greet"),
            label: Cow::Borrowed("Greet, again"),
            channels: Channels::palette(),
            arg: ArgShape::NoArgument,
        }]),
    };

    let text = try_merge(&[one, two])
        .map(|_| ())
        .expect_err("two sources claiming one id must not merge")
        .to_string();
    assert!(
        text.contains("source 0 (keymap.toml) index 0")
            && text.contains("source 1 (keymap.toml) index 0"),
        "the two sources are indistinguishable: {text}"
    );
}

/// A duplicate **within one source** is the same failure and the likelier one:
/// a copy-pasted row in a growing table.
#[test]
#[should_panic(expected = "source 0 (self-colliding) index 0 collides with \
                           source 0 (self-colliding) index 1")]
fn a_duplicate_inside_one_source_is_also_rejected() {
    let twice = Source {
        name: Cow::Borrowed("self-colliding"),
        actions: Cow::Owned(vec![
            Action {
                id: Cow::Borrowed("app.quit"),
                label: Cow::Borrowed("Quit"),
                channels: Channels::palette(),
                arg: ArgShape::NoArgument,
            },
            Action {
                id: Cow::Borrowed("app.quit"),
                label: Cow::Borrowed("Quit, pasted"),
                channels: Channels::palette(),
                arg: ArgShape::NoArgument,
            },
        ]),
    };
    merge(&[twice]);
}

#[test]
fn an_empty_source_list_produces_an_empty_registry() {
    let r = merge(&[]);
    assert!(r.count() == 0);
    assert!(r.resolve("anything").is_none());
}

/// A containment test against `Channels::key_only()` answers `true` for everything,
/// `PALETTE` included, because it is the empty set.
///
/// Pinned so the obvious "fix" is not made: special-casing the empty set inside
/// `reachable_from` would make it something other than containment.
#[test]
fn the_empty_channel_set_is_a_value_and_not_a_query() {
    let table = actions();
    let key_only = table
        .iter()
        .find(|a| a.id == "palette.open")
        .expect("palette.open is registered");
    let in_palette = table
        .iter()
        .find(|a| a.id == "term.copy")
        .expect("term.copy is registered");

    assert_eq!(key_only.channels, Channels::key_only());
    assert!(!reachable_from(key_only.channels, Channels::palette()));

    // Both answer `true`, which is why the question has to be asked with `==`.
    assert!(reachable_from(key_only.channels, Channels::key_only()));
    assert!(reachable_from(in_palette.channels, Channels::key_only()));
    assert_ne!(in_palette.channels, Channels::key_only());
}
