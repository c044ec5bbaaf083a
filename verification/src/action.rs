//! The two tables: what an action is, and how one is reached.
//!
//! [`Action`] is permanent and identical under every keymap; [`Binding`] is
//! replaceable and there may be several or none. The condition belongs to the
//! binding, not the action, because what it decides is whether a keystroke
//! becomes an action at all.

use std::borrow::Cow;

use vstd::prelude::*;

verus! {

/// Where an action can be invoked from, other than by a key.
///
/// **Key reachability is deliberately absent**: an action is reachable by key
/// exactly when some binding names it. The empty set is
/// [`Channels::key_only`], a value to build a row with and never one to ask
/// about, since every set contains it.
#[derive(Clone, Copy, Debug, Eq, Hash, PartialEq, Structural)]
pub struct Channels(u8);

impl Channels {
    /// The bits of the set.
    pub closed spec fn bits(self) -> u8 {
        self.0
    }

    /// No non-key surface.
    pub fn key_only() -> (r: Channels)
        ensures
            r.bits() == 0,
    {
        Channels(0)
    }

    /// The command palette.
    pub fn palette() -> (r: Channels)
        ensures
            r.bits() == 1,
    {
        Channels(1)
    }

    /// A direct click on something.
    pub fn click() -> (r: Channels)
        ensures
            r.bits() == 2,
    {
        Channels(2)
    }

    /// A context or overflow menu.
    pub fn menu() -> (r: Channels)
        ensures
            r.bits() == 4,
    {
        Channels(4)
    }

    /// A drag gesture.
    pub fn drag() -> (r: Channels)
        ensures
            r.bits() == 8,
    {
        Channels(8)
    }
}

/// Whether `set` includes every member of `wanted`.
///
/// The empty set is included by every set, so this answers `true` for
/// [`Channels::key_only`] whatever `set` holds; equality is how to ask.
pub fn reachable_from(set: Channels, wanted: Channels) -> (r: bool)
    ensures
        r == (set.bits() & wanted.bits() == wanted.bits()),
{
    set.0 & wanted.0 == wanted.0
}

/// Both sets together.
pub fn union(set: Channels, extra: Channels) -> (r: Channels)
    ensures
        r.bits() == set.bits() | extra.bits(),
{
    Channels(set.0 | extra.0)
}

/// The shape of the argument an action expects.
///
/// A shape and not a type: the value travels beside the id when the action
/// is issued; the table only says what to expect.
#[derive(Clone, Copy, Debug, Default, Eq, Hash, PartialEq, Structural)]
pub enum ArgShape {
    /// Takes no argument.
    #[default]
    NoArgument,
    /// A host.
    Host,
    /// A pane.
    Pane,
    /// A tab position.
    TabIndex,
    /// A snippet.
    Snippet,
    /// A group.
    Group,
    /// A workspace.
    Workspace,
    /// A help topic.
    Topic,
    /// A host **and an optional tab**.
    HostTab,
}

/// One thing the app can do.
///
/// Strings are `Cow` so one table has two origins: the built-in rows borrow
/// literals, a row loaded at runtime owns its strings.
#[derive(Debug, Eq, PartialEq)]
pub struct Action {
    /// The permanent name, `<domain>.<verb>[.<variant>]` as in `host.connect`.
    pub id: Cow<'static, str>,
    /// The canonical user-visible text.
    pub label: Cow<'static, str>,
    /// Which non-key surfaces can invoke this.
    pub channels: Channels,
    /// The argument shape this expects.
    pub arg: ArgShape,
}

impl View for Action {
    type V = Action;

    open spec fn view(&self) -> Action {
        *self
    }
}

/// A copy of a borrowed-or-owned string that is the same value.
pub fn copy_cow(text: &Cow<'static, str>) -> (r: Cow<'static, str>)
    ensures
        r == *text,
{
    match text {
        Cow::Borrowed(s) => Cow::Borrowed(*s),
        Cow::Owned(s) => Cow::Owned(s.clone()),
    }
}

/// The characters of a borrowed-or-owned string.
pub fn cow_str<'a>(text: &'a Cow<'static, str>) -> (r: &'a str)
    ensures
        r@ == text@,
{
    match text {
        Cow::Borrowed(s) => *s,
        Cow::Owned(s) => s.as_str(),
    }
}

impl Clone for Action {
    /// A row equal to this one, field for field.
    fn clone(&self) -> (r: Action)
        ensures
            r == *self,
    {
        Action {
            id: copy_cow(&self.id),
            label: copy_cow(&self.label),
            channels: self.channels,
            arg: self.arg,
        }
    }
}

/// One way to reach one action: a chord, and optionally a condition.
///
/// Both tables join on the action's permanent name. The condition is opaque
/// here; [`assemble`](crate::assemble) parses it.
#[derive(Debug, Eq, Hash, PartialEq)]
pub struct Binding {
    /// The permanent name of the action this reaches.
    pub action: Cow<'static, str>,
    /// The chord, in [`Keystroke`](crate::Keystroke) syntax.
    pub key: Cow<'static, str>,
    /// The `when` clause, in [`Predicate`](crate::Predicate) syntax.
    pub when: Option<Cow<'static, str>>,
}

impl Clone for Binding {
    /// A binding equal to this one, field for field.
    fn clone(&self) -> (r: Binding)
        ensures
            r == *self,
    {
        Binding {
            action: copy_cow(&self.action),
            key: copy_cow(&self.key),
            when: match &self.when {
                Some(w) => Some(copy_cow(w)),
                None => None,
            },
        }
    }
}


/// **The empty channel set is a value, not a query**: every set includes
/// it, so [`Channels::key_only`] is reached from anywhere and cannot tell a
/// palette row from any other.
pub proof fn lemma_every_set_reaches_key_only(set: Channels)
    ensures
        set.bits() & 0u8 == 0u8,
{
    let s = set.bits();
    assert(s & 0u8 == 0u8) by (bit_vector);
}

} // verus!
