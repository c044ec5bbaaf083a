//! The closed vocabulary of conditions a `when` clause can name.
//!
//! [`Flags`] is a set of conditions; [`Flag`] is exactly one of them, and is
//! what a clause's leaf names. The vocabulary is closed, so a misspelling is
//! refused rather than becoming a clause that is quietly false.

use vstd::prelude::*;

use crate::text::{debug_quoted, debug_str, str_eq};

verus! {

/// How many conditions the vocabulary names.
pub const FLAG_COUNT: usize = 17;

/// The bit that condition number `i` occupies.
pub open spec fn bit(i: nat) -> u32 {
    1u32 << (i as u32)
}

/// The spelling of condition number `i`, in bit order.
pub open spec fn spelling(i: nat) -> Seq<char> {
    if i == 0 { "pane_focused"@ }
    else if i == 1 { "pane_live"@ }
    else if i == 2 { "pane_disconnected"@ }
    else if i == 3 { "has_selection"@ }
    else if i == 4 { "search_open"@ }
    else if i == 5 { "palette_open"@ }
    else if i == 6 { "dialog_open"@ }
    else if i == 7 { "editing_text"@ }
    else if i == 8 { "sidebar_hosts"@ }
    else if i == 9 { "sidebar_workspaces"@ }
    else if i == 10 { "host_selected"@ }
    else if i == 11 { "scratch_active"@ }
    else if i == 12 { "workspace_active"@ }
    else if i == 13 { "has_jump"@ }
    else if i == 14 { "has_queued_input"@ }
    else if i == 15 { "dialog_hostkey_new"@ }
    else { "dialog_hostkey_changed"@ }
}

/// Whether `name` is the spelling of some condition.
pub open spec fn is_flag_name(name: Seq<char>) -> bool {
    exists|i: nat| i < FLAG_COUNT && spelling(i) == name
}

/// The number of one bits in `x`.
pub open spec fn popcount(x: u32) -> nat
    decreases x,
{
    if x == 0 {
        0
    } else {
        (x % 2) as nat + popcount(x / 2)
    }
}

/// Which conditions hold, and equally a single condition: a set either way.
///
/// **A set can hold anything.** The empty set is contained by every set, so
/// `holds(anything, Flags::none())` is `true`, which makes it a value to build
/// a set from and never one to ask about; `==` is how to ask.
#[derive(Clone, Copy, Debug, Eq, Hash, PartialEq, Structural)]
pub struct Flags(u32);

impl Flags {
    /// The bits of the set.
    pub closed spec fn bits(self) -> u32 {
        self.0
    }

    /// The set with exactly these bits.
    pub(crate) fn from_bits(b: u32) -> (r: Flags)
        ensures
            r.bits() == b,
    {
        Flags(b)
    }

    /// Nothing holds. A value to start a set from, never one to ask about.
    pub fn none() -> (r: Flags)
        ensures
            r.bits() == 0,
    {
        Flags(0)
    }

    /// A terminal pane has focus.
    pub fn pane_focused() -> (r: Flags)
        ensures
            r.bits() == bit(0),
    {
        Flags(1u32 << 0u32)
    }

    /// That pane is in the `live` state.
    pub fn pane_live() -> (r: Flags)
        ensures
            r.bits() == bit(1),
    {
        Flags(1u32 << 1u32)
    }

    /// That pane is in the `failed` or `reconnecting` state.
    pub fn pane_disconnected() -> (r: Flags)
        ensures
            r.bits() == bit(2),
    {
        Flags(1u32 << 2u32)
    }

    /// The terminal has a selection.
    pub fn has_selection() -> (r: Flags)
        ensures
            r.bits() == bit(3),
    {
        Flags(1u32 << 3u32)
    }

    /// The terminal's search bar is open.
    pub fn search_open() -> (r: Flags)
        ensures
            r.bits() == bit(4),
    {
        Flags(1u32 << 4u32)
    }

    /// The command palette is open.
    pub fn palette_open() -> (r: Flags)
        ensures
            r.bits() == bit(5),
    {
        Flags(1u32 << 5u32)
    }

    /// A modal is open, such as host editing or a confirmation.
    pub fn dialog_open() -> (r: Flags)
        ensures
            r.bits() == bit(6),
    {
        Flags(1u32 << 6u32)
    }

    /// A text input has focus: a dialog field, the palette's query, renaming.
    pub fn editing_text() -> (r: Flags)
        ensures
            r.bits() == bit(7),
    {
        Flags(1u32 << 7u32)
    }

    /// The sidebar is in hosts mode.
    pub fn sidebar_hosts() -> (r: Flags)
        ensures
            r.bits() == bit(8),
    {
        Flags(1u32 << 8u32)
    }

    /// The sidebar is in workspaces mode.
    pub fn sidebar_workspaces() -> (r: Flags)
        ensures
            r.bits() == bit(9),
    {
        Flags(1u32 << 9u32)
    }

    /// A host card is selected in the sidebar.
    pub fn host_selected() -> (r: Flags)
        ensures
            r.bits() == bit(10),
    {
        Flags(1u32 << 10u32)
    }

    /// What is on screen is a scratch.
    pub fn scratch_active() -> (r: Flags)
        ensures
            r.bits() == bit(11),
    {
        Flags(1u32 << 11u32)
    }

    /// What is on screen is a named workspace.
    pub fn workspace_active() -> (r: Flags)
        ensures
            r.bits() == bit(12),
    {
        Flags(1u32 << 12u32)
    }

    /// That host has a jump path configured.
    pub fn has_jump() -> (r: Flags)
        ensures
            r.bits() == bit(13),
    {
        Flags(1u32 << 13u32)
    }

    /// Keys typed while the connection was down are still queued.
    pub fn has_queued_input() -> (r: Flags)
        ensures
            r.bits() == bit(14),
    {
        Flags(1u32 << 14u32)
    }

    /// The modal confirming a host key seen for the first time is open.
    pub fn dialog_hostkey_new() -> (r: Flags)
        ensures
            r.bits() == bit(15),
    {
        Flags(1u32 << 15u32)
    }

    /// The modal confirming a **changed** host key is open.
    pub fn dialog_hostkey_changed() -> (r: Flags)
        ensures
            r.bits() == bit(16),
    {
        Flags(1u32 << 16u32)
    }

    /// Groups of conditions of which **at most one** can hold at a time: the
    /// sidebar's two modes, a pane's two states, what is on screen, and the
    /// two host-key modals.
    ///
    /// The conflict search trusts these blindly, so a group belongs here
    /// only when the domain promises it.
    pub fn exclusive() -> (r: Vec<Flags>)
        ensures
            r@ == exclusive_groups(),
            r@.len() == 4,
            forall|i: int| 0 <= i < 4 ==> #[trigger] r@[i].bits() == exclusive_group(i),
    {
        let mut v: Vec<Flags> = Vec::new();
        v.push(combine(Flags::sidebar_hosts(), Flags::sidebar_workspaces()));
        v.push(combine(Flags::pane_live(), Flags::pane_disconnected()));
        v.push(combine(Flags::scratch_active(), Flags::workspace_active()));
        v.push(combine(Flags::dialog_hostkey_new(), Flags::dialog_hostkey_changed()));
        v
    }
}

/// The groups [`Flags::exclusive`] declares.
pub closed spec fn exclusive_groups() -> Seq<Flags> {
    seq![
        Flags(exclusive_group(0)),
        Flags(exclusive_group(1)),
        Flags(exclusive_group(2)),
        Flags(exclusive_group(3)),
    ]
}

/// The groups [`Flags::exclusive`] declares, as bits.
pub open spec fn exclusive_group(i: int) -> u32 {
    if i == 0 {
        bit(8) | bit(9)
    } else if i == 1 {
        bit(1) | bit(2)
    } else if i == 2 {
        bit(11) | bit(12)
    } else {
        bit(15) | bit(16)
    }
}

impl Default for Flags {
    /// The named empty set, [`Flags::none`].
    fn default() -> (r: Flags)
        ensures
            r.bits() == 0,
    {
        Flags::none()
    }
}

/// Whether `set` includes every member of `wanted`.
///
/// The empty set is included by every set, so this answers `true` for it
/// whatever `set` holds.
pub fn holds(set: Flags, wanted: Flags) -> (r: bool)
    ensures
        r == (set.bits() & wanted.bits() == wanted.bits()),
{
    set.0 & wanted.0 == wanted.0
}

/// Both sets together.
pub fn combine(set: Flags, extra: Flags) -> (r: Flags)
    ensures
        r.bits() == set.bits() | extra.bits(),
{
    Flags(set.0 | extra.0)
}

/// Whether `ctx` holds two or more members of one of `groups`.
pub open spec fn spec_excludes(ctx: u32, groups: Seq<Flags>) -> bool {
    exists|i: int| 0 <= i < groups.len() && popcount(ctx & #[trigger] groups[i].bits()) >= 2
}

/// How many bits of `x` are set, as `u32::count_ones` counts them.
pub(crate) fn count_ones(x: u32) -> (r: u32)
    ensures
        r == popcount(x),
{
    proof {
        lemma_popcount_le(x);
    }
    let mut y = x;
    let mut n: u32 = 0;
    while y != 0
        invariant
            n + popcount(y) == popcount(x),
            popcount(x) <= x,
        decreases y,
    {
        n = n + y % 2;
        y = y / 2;
    }
    n
}

proof fn lemma_popcount_le(x: u32)
    ensures
        popcount(x) <= x,
    decreases x,
{
    if x != 0 {
        lemma_popcount_le(x / 2);
    }
}

/// Whether a character may appear in a condition's spelling.
pub open spec fn is_name_char(c: char) -> bool {
    ('a' <= c && c <= 'z') || c == '_'
}

/// Every spelling is non-empty and made of lowercase letters and `_`, and no
/// two conditions share one.
pub proof fn lemma_spellings()
    ensures
        forall|i: nat| i < FLAG_COUNT ==> #[trigger] spelling(i).len() > 0,
        forall|i: nat, k: int|
            i < FLAG_COUNT && 0 <= k < spelling(i).len() ==> is_name_char(#[trigger] spelling(i)[k]),
        forall|i: nat, j: nat|
            i < FLAG_COUNT && j < FLAG_COUNT && #[trigger] spelling(i) == #[trigger] spelling(j)
                ==> i == j,
{
        reveal_strlit("pane_focused");
        reveal_strlit("pane_live");
        reveal_strlit("pane_disconnected");
        reveal_strlit("has_selection");
        reveal_strlit("search_open");
        reveal_strlit("palette_open");
        reveal_strlit("dialog_open");
        reveal_strlit("editing_text");
        reveal_strlit("sidebar_hosts");
        reveal_strlit("sidebar_workspaces");
        reveal_strlit("host_selected");
        reveal_strlit("scratch_active");
        reveal_strlit("workspace_active");
        reveal_strlit("has_jump");
        reveal_strlit("has_queued_input");
        reveal_strlit("dialog_hostkey_new");
        reveal_strlit("dialog_hostkey_changed");
    assert forall|i: nat, j: nat|
        i < FLAG_COUNT && j < FLAG_COUNT && #[trigger] spelling(i) == #[trigger] spelling(j)
            implies i == j by {
        if i != j {
            assert(spelling(i).len() != spelling(j).len() || spelling(i)[0] != spelling(j)[0]
                || spelling(i)[1] != spelling(j)[1] || spelling(i)[2] != spelling(j)[2]);
        }
    }
}

/// The spelling of condition number `i`, executably.
fn spelling_str(i: usize) -> (s: &'static str)
    requires
        i < FLAG_COUNT,
    ensures
        s@ == spelling(i as nat),
{
    match i {
        0 => "pane_focused",
        1 => "pane_live",
        2 => "pane_disconnected",
        3 => "has_selection",
        4 => "search_open",
        5 => "palette_open",
        6 => "dialog_open",
        7 => "editing_text",
        8 => "sidebar_hosts",
        9 => "sidebar_workspaces",
        10 => "host_selected",
        11 => "scratch_active",
        12 => "workspace_active",
        13 => "has_jump",
        14 => "has_queued_input",
        15 => "dialog_hostkey_new",
        _ => "dialog_hostkey_changed",
    }
}

/// Exactly one condition: what a clause's leaf names.
///
/// Parsing a name is the only way to build one and its field is private, so
/// the value is one condition by construction rather than by a check.
#[derive(Clone, Copy, Debug, Eq, Hash, PartialEq, Structural)]
pub struct Flag(u8);

impl Flag {
    #[verifier::type_invariant]
    spec fn inv(self) -> bool {
        self.0 < FLAG_COUNT
    }

    /// Which condition this is: its position in bit order.
    pub closed spec fn index(self) -> nat {
        self.0 as nat
    }

    /// Reads one condition's spelling.
    ///
    /// **Closed on purpose:** a misspelling fails rather than becoming a
    /// clause that is quietly false.
    pub fn parse(name: &str) -> (r: Result<Flag, UnknownFlag>)
        ensures
            r is Ok <==> is_flag_name(name@),
            r matches Ok(f) ==> f.index() < FLAG_COUNT && spelling(f.index()) == name@,
            r matches Ok(f) ==> f == flag_named(name@),
            r matches Err(e) ==> e.name@ == name@,
    {
        proof {
            lemma_spellings();
        }
        let mut index: usize = 0;
        while index < FLAG_COUNT
            invariant
                index <= FLAG_COUNT,
                forall|j: nat| j < index ==> spelling(j) != name@,
            decreases FLAG_COUNT - index,
        {
            let spelled = spelling_str(index);
            if str_eq(spelled, name) {
                proof {
                    lemma_spellings();
                    let w = index as nat;
                    assert(w < FLAG_COUNT && spelling(w) == name@);
                    assert(is_flag_name(name@));
                    let k = choose|k: nat| k < FLAG_COUNT && spelling(k) == name@;
                    assert(spelling(k) == spelling(w));
                    assert(k == w);
                }
                return Ok(Flag(index as u8));
            }
            index = index + 1;
        }
        Err(UnknownFlag { name: name.to_owned() })
    }

    /// The condition as a set of one, which is what [`holds`] asks with.
    pub fn flags(self) -> (r: Flags)
        ensures
            r.bits() == bit(self.index()),
    {
        proof {
            use_type_invariant(&self);
        }
        Flags(1u32 << (self.0 as u32))
    }

    /// The one name, always.
    pub fn to_string(&self) -> (r: String)
        ensures
            r@ == spelling(self.index()),
    {
        proof {
            use_type_invariant(self);
        }
        spelling_str(self.0 as usize).to_owned()
    }
}

/// Condition number `i`, as a value.
pub closed spec fn flag_at(i: nat) -> Flag {
    Flag(i as u8)
}

/// Condition number `i` is the condition at position `i`.
pub proof fn lemma_flag_at(i: nat)
    requires
        i < FLAG_COUNT,
    ensures
        flag_at(i).index() == i,
{
}

/// The condition whose spelling is `name`, when there is one.
pub closed spec fn flag_named(name: Seq<char>) -> Flag {
    Flag((choose|k: nat| k < FLAG_COUNT && spelling(k) == name) as u8)
}

/// A condition is the one its own spelling names.
pub proof fn lemma_flag_named(f: Flag)
    requires
        f.index() < FLAG_COUNT,
    ensures
        flag_named(spelling(f.index())) == f,
        is_flag_name(spelling(f.index())),
{
    lemma_spellings();
    let name = spelling(f.index());
    assert(is_flag_name(name));
    let k = choose|k: nat| k < FLAG_COUNT && spelling(k) == name;
    assert(k == f.index());
}

impl std::str::FromStr for Flag {
    type Err = UnknownFlag;

    /// [`Flag::parse`].
    fn from_str(name: &str) -> (r: Result<Flag, UnknownFlag>)
        ensures
            r is Ok <==> is_flag_name(name@),
            r matches Ok(f) ==> f.index() < FLAG_COUNT && spelling(f.index()) == name@,
            r matches Ok(f) ==> f == flag_named(name@),
            r matches Err(e) ==> e.name@ == name@,
    {
        Flag::parse(name)
    }
}

impl From<Flag> for Flags {
    /// One condition widened to a set of one.
    fn from(flag: Flag) -> (r: Flags) {
        flag.flags()
    }
}

impl vstd::std_specs::convert::FromSpecImpl<Flag> for Flags {
    open spec fn obeys_from_spec() -> bool {
        true
    }

    closed spec fn from_spec(flag: Flag) -> Flags {
        Flags(bit(flag.index()))
    }
}

/// A name that is not in the closed vocabulary.
#[derive(Clone, Debug, Eq, PartialEq)]
pub struct UnknownFlag {
    /// What was written.
    pub name: String,
}

impl UnknownFlag {
    /// The message, naming what was written.
    pub fn to_string(&self) -> (r: String)
        ensures
            r@ == "unknown context flag "@ + debug_quoted(self.name@),
    {
        let mut s = "unknown context flag ".to_owned();
        let quoted = debug_str(self.name.as_str());
        s.append(quoted.as_str());
        s
    }
}

/// Whether `ctx` holds two or more members of any of `groups`.
pub(crate) fn excludes(ctx: Flags, groups: &[Flags]) -> (r: bool)
    ensures
        r == spec_excludes(ctx.bits(), groups@),
{
    let mut i: usize = 0;
    while i < groups.len()
        invariant
            i <= groups@.len(),
            forall|j: int| 0 <= j < i ==> popcount(ctx.bits() & #[trigger] groups@[j].bits()) < 2,
        decreases groups@.len() - i,
    {
        if count_ones(ctx.0 & groups[i].0) >= 2 {
            assert(popcount(ctx.bits() & groups@[i as int].bits()) >= 2);
            return true;
        }
        i = i + 1;
    }
    false
}


/// **The empty set is a value, not a query**: every set includes it, so
/// asking [`holds`] about it answers yes whatever the set holds.
pub proof fn lemma_every_set_holds_none(set: Flags)
    ensures
        set.bits() & 0u32 == 0u32,
{
    let s = set.bits();
    assert(s & 0u32 == 0u32) by (bit_vector);
}

/// **`holds` asks about all of what it is given**: a set holds a union
/// exactly when it holds each part.
pub proof fn lemma_holds_a_union(set: Flags, a: Flags, b: Flags)
    ensures
        (set.bits() & (a.bits() | b.bits()) == (a.bits() | b.bits())) <==> (set.bits() & a.bits()
            == a.bits() && set.bits() & b.bits() == b.bits()),
{
    let (s, x, y) = (set.bits(), a.bits(), b.bits());
    assert((s & (x | y) == (x | y)) <==> (s & x == x && s & y == y)) by (bit_vector);
}

/// **`combine` accumulates**: the union holds both of what went into it.
pub proof fn lemma_combine_holds_both(set: Flags, extra: Flags)
    ensures
        (set.bits() | extra.bits()) & set.bits() == set.bits(),
        (set.bits() | extra.bits()) & extra.bits() == extra.bits(),
{
    let (s, x) = (set.bits(), extra.bits());
    assert((s | x) & s == s && (s | x) & x == x) by (bit_vector);
}

} // verus!
