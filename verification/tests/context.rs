//! The closed vocabulary a `when` clause names, and the set that answers it.

use std::str::FromStr;

use baton::{Flag, Flags, UnknownFlag, combine, holds};

/// Every flag with its canonical spelling, in declaration order.
fn every_flag() -> Vec<(Flags, &'static str)> {
    vec![
        (Flags::pane_focused(), "pane_focused"),
        (Flags::pane_live(), "pane_live"),
        (Flags::pane_disconnected(), "pane_disconnected"),
        (Flags::has_selection(), "has_selection"),
        (Flags::search_open(), "search_open"),
        (Flags::palette_open(), "palette_open"),
        (Flags::dialog_open(), "dialog_open"),
        (Flags::editing_text(), "editing_text"),
        (Flags::sidebar_hosts(), "sidebar_hosts"),
        (Flags::sidebar_workspaces(), "sidebar_workspaces"),
        (Flags::host_selected(), "host_selected"),
        (Flags::scratch_active(), "scratch_active"),
        (Flags::workspace_active(), "workspace_active"),
        (Flags::has_jump(), "has_jump"),
        (Flags::has_queued_input(), "has_queued_input"),
        (Flags::dialog_hostkey_new(), "dialog_hostkey_new"),
        (Flags::dialog_hostkey_changed(), "dialog_hostkey_changed"),
    ]
}

#[test]
fn every_name_parses_to_itself_and_prints_back() {
    for (flag, spelling) in every_flag() {
        let parsed = Flag::from_str(spelling)
            .unwrap_or_else(|e| panic!("{spelling} did not parse: {}", e.to_string()));
        let set: Flags = parsed.into();
        assert_eq!(set, flag, "{spelling} parsed to the wrong flag");
        assert_eq!(parsed.to_string(), spelling, "{spelling} printed back wrongly");
    }
}

/// A name outside the vocabulary is rejected, and the error says which.
#[test]
fn an_unknown_name_is_rejected_and_named() {
    for name in [
        "pane_focussed",
        "paneFocused",
        "PANE_FOCUSED",
        "pane_focused ",
        "",
        "true",
        "editing",
    ] {
        let err = Flag::from_str(name).expect_err("must not parse");
        assert_eq!(err, UnknownFlag { name: name.to_owned() });
        assert!(
            err.to_string().contains(name),
            "the error does not say what was written: {}",
            err.to_string()
        );
    }
}

#[test]
fn a_parsed_name_holds_exactly_one_flag() {
    let every = every_flag();
    for (flag, spelling) in every.iter().copied() {
        let others = every
            .iter()
            .filter(|(f, _)| *f != flag)
            .fold(Flags::none(), |set, (f, _)| combine(set, *f));
        assert!(!holds(others, flag), "{spelling} shares a bit with another flag");
    }
}

#[test]
fn a_leaf_holds_exactly_the_one_condition_it_names() {
    let every = every_flag();
    for (flag, spelling) in every.iter().copied() {
        let leaf: Flag = spelling
            .parse()
            .unwrap_or_else(|e: UnknownFlag| panic!("{spelling} did not parse: {}", e.to_string()));
        let set: Flags = leaf.into();
        assert!(holds(set, flag), "{spelling} lost its own bit");
        for (other, other_spelling) in every.iter().copied() {
            if other == flag {
                continue;
            }
            assert!(!holds(set, other), "{spelling} also holds {other_spelling}");
        }
    }
}

#[test]
fn each_flag_occupies_its_own_bit() {
    let every = every_flag();
    for (i, (flag, spelling)) in every.iter().enumerate() {
        let only = combine(Flags::none(), *flag);
        assert!(holds(only, *flag), "{spelling} does not hold itself");
        for (j, (other, other_spelling)) in every.iter().enumerate() {
            if i == j {
                continue;
            }
            assert!(
                !holds(only, *other),
                "a set holding only {spelling} also reports {other_spelling}"
            );
        }
    }
}

#[test]
fn the_empty_set_holds_nothing_and_accumulates() {
    for (flag, spelling) in every_flag() {
        assert!(!holds(Flags::none(), flag), "the empty set reports {spelling}");
    }
    let full = every_flag()
        .iter()
        .fold(Flags::none(), |set, (f, _)| combine(set, *f));
    for (flag, spelling) in every_flag() {
        assert!(holds(full, flag), "a full set lost {spelling}");
    }
}

/// `combine` returns a value and does not mutate its input.
#[test]
fn combine_is_a_value_and_leaves_its_input_alone() {
    let base: Flags = combine(Flags::none(), Flags::palette_open());
    let both: Flags = combine(base, Flags::editing_text());

    assert!(holds(base, Flags::palette_open()));
    assert!(!holds(base, Flags::editing_text()), "combine mutated its input");
    assert!(holds(both, Flags::palette_open()) && holds(both, Flags::editing_text()));

    // Adding a flag twice is the same value: this is a set, not a counter.
    assert_eq!(combine(both, Flags::editing_text()), both);
}

/// The empty set is a value to build a set from, never one to ask about.
#[test]
fn the_empty_set_is_a_value_and_not_a_query() {
    let busy = combine(combine(Flags::none(), Flags::palette_open()), Flags::editing_text());

    assert!(holds(busy, Flags::none()), "every set contains the empty set");
    assert!(holds(Flags::none(), Flags::none()));
    assert_ne!(busy, Flags::none(), "and containment is not the way to ask");
    assert_eq!(Flags::none(), Flags::none());
}

#[test]
fn the_default_is_the_named_empty_set() {
    assert_eq!(Flags::default(), Flags::none());
}

/// `holds` asks about every flag in its second argument.
#[test]
fn holds_asks_about_all_of_what_it_is_given() {
    let typing = combine(Flags::palette_open(), Flags::editing_text());
    let both = combine(Flags::palette_open(), Flags::editing_text());

    assert!(holds(typing, both));
    assert!(!holds(combine(Flags::none(), Flags::palette_open()), both), "one of two is not both");
}

/// The declared exclusive groups, bit for bit.
#[test]
fn the_exclusive_groups_are_the_four_declared_pairs() {
    let groups = Flags::exclusive();
    assert_eq!(
        groups,
        vec![
            combine(Flags::sidebar_hosts(), Flags::sidebar_workspaces()),
            combine(Flags::pane_live(), Flags::pane_disconnected()),
            combine(Flags::scratch_active(), Flags::workspace_active()),
            combine(Flags::dialog_hostkey_new(), Flags::dialog_hostkey_changed()),
        ]
    );
}
