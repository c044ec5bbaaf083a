//! The assembled keymap and the one place where bindings are looked up.

use std::borrow::Cow;

use vstd::prelude::*;

use crate::action::{Action, Binding, cow_str};
use vstd::hash_map::StringHashMap;

use crate::context::{Flags, bit, exclusive_groups, holds, popcount, spec_excludes};
use crate::keystroke::{Chord, KeyFault, Keystroke, KeystrokeError, keystroke_error_text, parse_keystroke};
use crate::predicate::{
    ClauseFault, Predicate, PredicateError, assignment_count, error_text, eval, evaluate, fault_of,
    in_bytes, joint_witness, parse_clause, satisfiable_together,
};
use crate::registry::{ActionId, Registry};
use crate::text::{debug_quoted, debug_str, str_eq};

verus! {

/// How many keys a focused text field consumes.
pub const CONSUMED_COUNT: usize = 78;

/// The `i`th key a focused text field consumes: what inserts a character,
/// what deletes one, and what moves the caret along the line.
pub open spec fn consumed_key(i: int) -> Seq<char> {
    if i == 0 {
        "ArrowLeft"@
    } else if i == 1 {
        "ArrowRight"@
    } else if i == 2 {
        "Backspace"@
    } else if i == 3 {
        "Delete"@
    } else if i == 4 {
        "End"@
    } else if i == 5 {
        "Home"@
    } else if i == 6 {
        "Backquote"@
    } else if i == 7 {
        "Backslash"@
    } else if i == 8 {
        "BracketLeft"@
    } else if i == 9 {
        "BracketRight"@
    } else if i == 10 {
        "Comma"@
    } else if i == 11 {
        "Digit0"@
    } else if i == 12 {
        "Digit1"@
    } else if i == 13 {
        "Digit2"@
    } else if i == 14 {
        "Digit3"@
    } else if i == 15 {
        "Digit4"@
    } else if i == 16 {
        "Digit5"@
    } else if i == 17 {
        "Digit6"@
    } else if i == 18 {
        "Digit7"@
    } else if i == 19 {
        "Digit8"@
    } else if i == 20 {
        "Digit9"@
    } else if i == 21 {
        "Equal"@
    } else if i == 22 {
        "IntlBackslash"@
    } else if i == 23 {
        "IntlRo"@
    } else if i == 24 {
        "IntlYen"@
    } else if i == 25 {
        "KeyA"@
    } else if i == 26 {
        "KeyB"@
    } else if i == 27 {
        "KeyC"@
    } else if i == 28 {
        "KeyD"@
    } else if i == 29 {
        "KeyE"@
    } else if i == 30 {
        "KeyF"@
    } else if i == 31 {
        "KeyG"@
    } else if i == 32 {
        "KeyH"@
    } else if i == 33 {
        "KeyI"@
    } else if i == 34 {
        "KeyJ"@
    } else if i == 35 {
        "KeyK"@
    } else if i == 36 {
        "KeyL"@
    } else if i == 37 {
        "KeyM"@
    } else if i == 38 {
        "KeyN"@
    } else if i == 39 {
        "KeyO"@
    } else if i == 40 {
        "KeyP"@
    } else if i == 41 {
        "KeyQ"@
    } else if i == 42 {
        "KeyR"@
    } else if i == 43 {
        "KeyS"@
    } else if i == 44 {
        "KeyT"@
    } else if i == 45 {
        "KeyU"@
    } else if i == 46 {
        "KeyV"@
    } else if i == 47 {
        "KeyW"@
    } else if i == 48 {
        "KeyX"@
    } else if i == 49 {
        "KeyY"@
    } else if i == 50 {
        "KeyZ"@
    } else if i == 51 {
        "Minus"@
    } else if i == 52 {
        "Period"@
    } else if i == 53 {
        "Quote"@
    } else if i == 54 {
        "Semicolon"@
    } else if i == 55 {
        "Slash"@
    } else if i == 56 {
        "Space"@
    } else if i == 57 {
        "Numpad0"@
    } else if i == 58 {
        "Numpad1"@
    } else if i == 59 {
        "Numpad2"@
    } else if i == 60 {
        "Numpad3"@
    } else if i == 61 {
        "Numpad4"@
    } else if i == 62 {
        "Numpad5"@
    } else if i == 63 {
        "Numpad6"@
    } else if i == 64 {
        "Numpad7"@
    } else if i == 65 {
        "Numpad8"@
    } else if i == 66 {
        "Numpad9"@
    } else if i == 67 {
        "NumpadAdd"@
    } else if i == 68 {
        "NumpadComma"@
    } else if i == 69 {
        "NumpadDecimal"@
    } else if i == 70 {
        "NumpadDivide"@
    } else if i == 71 {
        "NumpadEqual"@
    } else if i == 72 {
        "NumpadHash"@
    } else if i == 73 {
        "NumpadMultiply"@
    } else if i == 74 {
        "NumpadParenLeft"@
    } else if i == 75 {
        "NumpadParenRight"@
    } else if i == 76 {
        "NumpadStar"@
    } else {
        "NumpadSubtract"@
    }
}

/// Whether a focused text field consumes the key named `code`.
///
/// Narrower than "every bare key" on purpose: the palette's own search field
/// sets `editing_text` while `Escape` closes the palette, `Enter` runs the
/// selection and the up and down arrows move through it. Left and right are
/// here and up and down are not, because a single-line field uses one pair
/// and not the other.
pub open spec fn consumed(code: Seq<char>) -> bool {
    exists|i: int| 0 <= i < CONSUMED_COUNT && consumed_key(i) == code
}

fn consumed_key_str(i: usize) -> (r: &'static str)
    requires
        i < CONSUMED_COUNT,
    ensures
        r@ == consumed_key(i as int),
{
    match i {
        0 => "ArrowLeft",
        1 => "ArrowRight",
        2 => "Backspace",
        3 => "Delete",
        4 => "End",
        5 => "Home",
        6 => "Backquote",
        7 => "Backslash",
        8 => "BracketLeft",
        9 => "BracketRight",
        10 => "Comma",
        11 => "Digit0",
        12 => "Digit1",
        13 => "Digit2",
        14 => "Digit3",
        15 => "Digit4",
        16 => "Digit5",
        17 => "Digit6",
        18 => "Digit7",
        19 => "Digit8",
        20 => "Digit9",
        21 => "Equal",
        22 => "IntlBackslash",
        23 => "IntlRo",
        24 => "IntlYen",
        25 => "KeyA",
        26 => "KeyB",
        27 => "KeyC",
        28 => "KeyD",
        29 => "KeyE",
        30 => "KeyF",
        31 => "KeyG",
        32 => "KeyH",
        33 => "KeyI",
        34 => "KeyJ",
        35 => "KeyK",
        36 => "KeyL",
        37 => "KeyM",
        38 => "KeyN",
        39 => "KeyO",
        40 => "KeyP",
        41 => "KeyQ",
        42 => "KeyR",
        43 => "KeyS",
        44 => "KeyT",
        45 => "KeyU",
        46 => "KeyV",
        47 => "KeyW",
        48 => "KeyX",
        49 => "KeyY",
        50 => "KeyZ",
        51 => "Minus",
        52 => "Period",
        53 => "Quote",
        54 => "Semicolon",
        55 => "Slash",
        56 => "Space",
        57 => "Numpad0",
        58 => "Numpad1",
        59 => "Numpad2",
        60 => "Numpad3",
        61 => "Numpad4",
        62 => "Numpad5",
        63 => "Numpad6",
        64 => "Numpad7",
        65 => "Numpad8",
        66 => "Numpad9",
        67 => "NumpadAdd",
        68 => "NumpadComma",
        69 => "NumpadDecimal",
        70 => "NumpadDivide",
        71 => "NumpadEqual",
        72 => "NumpadHash",
        73 => "NumpadMultiply",
        74 => "NumpadParenLeft",
        75 => "NumpadParenRight",
        76 => "NumpadStar",
        _ => "NumpadSubtract",
    }
}

/// Whether a focused text field consumes the key named `code`, executably.
fn consumed_by_a_text_field(code: &str) -> (r: bool)
    ensures
        r == consumed(code@),
{
    let mut i: usize = 0;
    while i < CONSUMED_COUNT
        invariant
            i <= CONSUMED_COUNT,
            forall|j: int| 0 <= j < i ==> consumed_key(j) != code@,
        decreases CONSUMED_COUNT - i,
    {
        if str_eq(consumed_key_str(i), code) {
            return true;
        }
        i = i + 1;
    }
    false
}

/// Whether the global text-editing rule suppresses this chord: while a text
/// input has focus, a bare key that the input consumes is the input's.
pub open spec fn suppressed(chord: Chord, ctx: u32) -> bool {
    &&& ctx & bit(7) == bit(7)
    &&& chord.modifiers == 0
    &&& consumed(chord.code)
}

/// Whether the text-editing rule suppresses this chord, executably.
fn suppressed_while_editing(chord: &Keystroke, ctx: Flags) -> (r: bool)
    ensures
        r == suppressed(chord@, ctx.bits()),
{
    holds(ctx, Flags::editing_text()) && chord.modifiers() == 0 && consumed_by_a_text_field(
        chord.code(),
    )
}


/// One assembled binding, as plain values: the chord it is stored under, the
/// action it publishes, and its parsed guard.
pub ghost struct Entry {
    pub chord: Chord,
    pub action: ActionId,
    pub when: Option<Predicate>,
}

/// Whether a guard lets its binding fire in `ctx`: no guard always does.
pub open spec fn guard_holds(when: Option<Predicate>, ctx: u32) -> bool {
    match when {
        None => true,
        Some(p) => eval(p, ctx),
    }
}

/// The action of the first of `entries[..n]` stored under `chord` whose guard
/// holds in `ctx`.
pub open spec fn first_firing(entries: Seq<Entry>, chord: Chord, ctx: u32, n: int) -> Option<
    ActionId,
>
    decreases n,
{
    if n <= 0 {
        None
    } else {
        match first_firing(entries, chord, ctx, n - 1) {
            Some(a) => Some(a),
            None => if entries[n - 1].chord == chord && guard_holds(entries[n - 1].when, ctx) {
                Some(entries[n - 1].action)
            } else {
                None
            },
        }
    }
}

/// What a keystroke resolves to in a keymap whose entries are `entries`:
/// nothing while the text-editing rule suppresses it, else the first binding
/// on that chord whose guard holds.
pub open spec fn resolves_to(entries: Seq<Entry>, chord: Chord, ctx: u32) -> Option<ActionId> {
    if suppressed(chord, ctx) {
        None
    } else {
        first_firing(entries, chord, ctx, entries.len() as int)
    }
}

/// Once a binding fires, later ones are not asked.
proof fn lemma_first_firing_settles(entries: Seq<Entry>, chord: Chord, ctx: u32, m: int, n: int)
    requires
        0 <= m <= n,
        first_firing(entries, chord, ctx, m) is Some,
    ensures
        first_firing(entries, chord, ctx, n) == first_firing(entries, chord, ctx, m),
    decreases n - m,
{
    if n > m {
        lemma_first_firing_settles(entries, chord, ctx, m, n - 1);
    }
}

/// One binding, parsed: its chord, the action it resolved to, and its guard.
struct Bound {
    chord: Keystroke,
    action: ActionId,
    when: Option<Predicate>,
}

impl View for Bound {
    type V = Entry;

    closed spec fn view(&self) -> Entry {
        Entry { chord: self.chord@, action: self.action, when: self.when }
    }
}

/// Whether `l` lists positions in strictly ascending order.
pub open spec fn ascending(l: Seq<usize>) -> bool {
    forall|a: int, b: int| 0 <= a < b < l.len() ==> l[a] < l[b]
}

/// Whether position `i` is in the list `l`.
pub open spec fn listed(l: Seq<usize>, i: int) -> bool {
    exists|q: int| 0 <= q < l.len() && l[q] == i
}

/// Whether `by_code` files every entry under its key's code name: each list
/// ascends and holds exactly the positions of the entries on that key.
pub open spec fn files(entries: Seq<Entry>, by_code: Map<Seq<char>, Vec<usize>>) -> bool {
    &&& forall|k: Seq<char>|
        #[trigger] by_code.contains_key(k) ==> ascending(by_code[k]@) && forall|q: int|
            0 <= q < by_code[k]@.len() ==> by_code[k]@[q] < entries.len() && entries[by_code[k]@[q] as int].chord.code
                == k
    &&& forall|i: int|
        0 <= i < entries.len() ==> by_code.contains_key(#[trigger] entries[i].chord.code) && listed(
            by_code[entries[i].chord.code]@,
            i,
        )
}

/// A keymap whose entries all resolve in the registry used to assemble it.
///
/// The entries stay in the order their bindings were written, and are
/// filed by their key's code name, so a keypress is a hash and a walk over
/// the few bindings on that key, never a scan of the table. A chord may
/// repeat when the conditions are disjoint, and the guard picks among them;
/// what must never reach here is two whose conditions can hold together,
/// since order would then decide. [`Keymap::conflicts`] finds those.
pub struct Keymap {
    bound: Vec<Bound>,
    by_code: StringHashMap<Vec<usize>>,
}

impl Keymap {
    #[verifier::type_invariant]
    spec fn filed(self) -> bool {
        files(self.entries(), self.by_code@)
    }

    /// The assembled entries, in binding order.
    pub closed spec fn entries(self) -> Seq<Entry> {
        self.bound@.map_values(|b: Bound| b@)
    }

    /// The action a keystroke publishes, or `None` meaning **the keystroke
    /// is not ours** and the caller sends it on to the PTY.
    ///
    /// Suppression is asked once, because it is a property of the chord and
    /// not of any one binding on it.
    pub fn lookup(&self, chord: Keystroke, ctx: Flags) -> (r: Option<ActionId>)
        ensures
            r == resolves_to(self.entries(), chord@, ctx.bits()),
    {
        proof {
            use_type_invariant(self);
        }
        if suppressed_while_editing(&chord, ctx) {
            return None;
        }
        let ghost entries = self.entries();
        let ghost n = entries.len() as int;
        match self.by_code.get(chord.code()) {
            None => {
                proof {
                    assert forall|j: int| 0 <= j < n implies !fires(
                        #[trigger] entries[j],
                        chord@,
                        ctx.bits(),
                    ) by {
                        assert(self.by_code@.contains_key(entries[j].chord.code));
                    }
                    lemma_none_fires(entries, chord@, ctx.bits(), n);
                }
                None
            },
            Some(list) => {
                let ghost key = chord@.code;
                proof {
                    assert(self.by_code@.contains_key(key));
                }
                let mut q: usize = 0;
                while q < list.len()
                    invariant
                        self.by_code@.contains_key(key),
                        list@ == self.by_code@[key]@,
                        key == chord@.code,
                        !suppressed(chord@, ctx.bits()),
                        files(entries, self.by_code@),
                        entries == self.entries(),
                        entries.len() == self.bound@.len(),
                        n == entries.len(),
                        q <= list@.len(),
                        forall|p: int| 0 <= p < q ==> !fires(#[trigger] entries[list@[p] as int], chord@, ctx.bits()),
                    decreases list@.len() - q,
                {
                    let i = list[q];
                    proof {
                        assert(i < entries.len());
                    }
                    let b = &self.bound[i];
                    proof {
                        assert(entries[i as int] == b@);
                    }
                    if same_chord(&b.chord, &chord) && guard_allows(&b.when, ctx) {
                        proof {
                            assert forall|j: int| 0 <= j < i implies !fires(
                                #[trigger] entries[j],
                                chord@,
                                ctx.bits(),
                            ) by {
                                if entries[j].chord.code == key {
                                    assert(self.by_code@.contains_key(entries[j].chord.code));
                                    let p = choose|p: int| 0 <= p < list@.len() && list@[p] == j;
                                    if p >= q {
                                        if p > q {
                                            assert(list@[q as int] < list@[p]);
                                        }
                                    }
                                    assert(p < q);
                                }
                            }
                            lemma_first_firing_at(entries, chord@, ctx.bits(), i as int, n);
                        }
                        return Some(b.action);
                    }
                    q = q + 1;
                }
                proof {
                    assert forall|j: int| 0 <= j < n implies !fires(
                        #[trigger] entries[j],
                        chord@,
                        ctx.bits(),
                    ) by {
                        if entries[j].chord.code == key {
                            assert(self.by_code@.contains_key(entries[j].chord.code));
                            let p = choose|p: int| 0 <= p < list@.len() && list@[p] == j;
                            assert(!fires(entries[list@[p] as int], chord@, ctx.bits()));
                        }
                    }
                    lemma_none_fires(entries, chord@, ctx.bits(), n);
                }
                None
            },
        }
    }
}

/// When no entry fires, nothing is found.
proof fn lemma_none_fires(entries: Seq<Entry>, chord: Chord, ctx: u32, n: int)
    requires
        0 <= n <= entries.len(),
        forall|j: int| 0 <= j < n ==> !fires(#[trigger] entries[j], chord, ctx),
    ensures
        first_firing(entries, chord, ctx, n) is None,
    decreases n,
{
    if n > 0 {
        lemma_none_fires(entries, chord, ctx, n - 1);
    }
}

/// The first entry that fires is the one found.
proof fn lemma_first_firing_at(entries: Seq<Entry>, chord: Chord, ctx: u32, i: int, n: int)
    requires
        0 <= i < n <= entries.len(),
        fires(entries[i], chord, ctx),
        forall|j: int| 0 <= j < i ==> !fires(#[trigger] entries[j], chord, ctx),
    ensures
        first_firing(entries, chord, ctx, n) == Some(entries[i].action),
    decreases n,
{
    if n > i + 1 {
        lemma_first_firing_at(entries, chord, ctx, i, n - 1);
    } else {
        lemma_none_fires(entries, chord, ctx, i);
    }
}

/// Files position `i`, the next entry, under `code`.
fn file_under(by_code: &mut StringHashMap<Vec<usize>>, code: String, i: usize, Ghost(entries): Ghost<Seq<Entry>>)
    requires
        files(entries, old(by_code)@),
        i == entries.len(),
    ensures
        forall|e: Entry| e.chord.code == code@ ==> files(#[trigger] entries.push(e), final(by_code)@),
{
    let mut list: Vec<usize> = Vec::new();
    let ghost before = by_code@;
    match by_code.get(code.as_str()) {
        Some(old) => {
            let mut q: usize = 0;
            while q < old.len()
                invariant
                    q <= old@.len(),
                    list@ == old@.take(q as int),
                decreases old@.len() - q,
            {
                list.push(old[q]);
                q = q + 1;
            }
            proof {
                assert(old@.take(old@.len() as int) =~= old@);
            }
        },
        None => {},
    }
    let ghost prior = list@;
    proof {
        if before.contains_key(code@) {
            assert(prior == before[code@]@);
        } else {
            assert(prior.len() == 0);
        }
    }
    list.push(i);
    let ghost filed = list@;
    by_code.insert(code, list);
    proof {
        let after = by_code@;
        assert forall|e: Entry| e.chord.code == code@ implies files(#[trigger] entries.push(e), after) by {
            let grown = entries.push(e);
            assert forall|k: Seq<char>| #[trigger] after.contains_key(k) implies ascending(after[k]@)
                && forall|q: int|
                0 <= q < after[k]@.len() ==> after[k]@[q] < grown.len() && grown[after[k]@[q] as int].chord.code
                    == k by {
                if k == code@ {
                    assert(after[k]@ == filed);
                    assert(filed == prior.push(i));
                    assert forall|q: int| 0 <= q < prior.len() implies prior[q] < i && grown[prior[q] as int].chord.code == k by {
                        assert(before.contains_key(k));
                    }
                } else {
                    assert(after[k] == before[k]);
                    assert(before.contains_key(k));
                }
            }
            assert forall|j: int| 0 <= j < grown.len() implies after.contains_key(
                #[trigger] grown[j].chord.code,
            ) && listed(after[grown[j].chord.code]@, j) by {
                if j == i {
                    assert(after[code@]@[prior.len() as int] == i);
                } else {
                    assert(grown[j] == entries[j]);
                    let k = entries[j].chord.code;
                    assert(before.contains_key(k) && listed(before[k]@, j));
                    if k == code@ {
                        let p = choose|p: int| 0 <= p < before[k]@.len() && before[k]@[p] == j;
                        assert(after[k]@[p] == j);
                    } else {
                        assert(after[k] == before[k]);
                    }
                }
            }
        }
    }
}

impl Default for Keymap {
    /// A keymap with no bindings: every keystroke falls through.
    fn default() -> (r: Keymap)
        ensures
            r.entries().len() == 0,
    {
        Keymap { bound: Vec::new(), by_code: StringHashMap::new() }
    }
}

/// Whether two keystrokes are the same chord.
pub fn same_chord(a: &Keystroke, b: &Keystroke) -> (r: bool)
    ensures
        r == (a@ == b@),
{
    a.modifiers() == b.modifiers() && str_eq(a.code(), b.code())
}

/// Whether a guard lets its binding fire in `ctx`.
fn guard_allows(when: &Option<Predicate>, ctx: Flags) -> (r: bool)
    ensures
        r == guard_holds(*when, ctx.bits()),
{
    match when {
        None => true,
        Some(p) => evaluate(p, ctx),
    }
}


// ---------------------------------------------------------------------------
// Assembly
// ---------------------------------------------------------------------------

/// Why one binding cannot be assembled, as plain values.
pub ghost enum BindingFault {
    NotRegistered,
    InvalidChord(KeyFault),
    InvalidWhen(Seq<char>, ClauseFault),
}

/// Whether some row of `rows` has the permanent name `name`.
pub open spec fn registered(rows: Seq<Action>, name: Seq<char>) -> bool {
    exists|i: int| 0 <= i < rows.len() && #[trigger] rows[i].id@ == name
}

/// What is wrong with a binding against the rows of a registry, checked in
/// the order assembly checks it: the action, then the chord, then the guard.
pub open spec fn binding_fault(b: Binding, rows: Seq<Action>) -> Option<BindingFault> {
    if !registered(rows, b.action@) {
        Some(BindingFault::NotRegistered)
    } else {
        match parse_keystroke(b.key@) {
            Err(f) => Some(BindingFault::InvalidChord(f)),
            Ok(_) => match b.when {
                None => None,
                Some(w) => match parse_clause(w@) {
                    Err(f) => Some(BindingFault::InvalidWhen(w@, in_bytes(w@, f))),
                    Ok(_) => None,
                },
            },
        }
    }
}

/// Whether every binding resolves, parses and has a guard that parses.
pub open spec fn assemblable(bindings: Seq<Binding>, rows: Seq<Action>) -> bool {
    forall|i: int| 0 <= i < bindings.len() ==> binding_fault(#[trigger] bindings[i], rows) is None
}

/// The guard a binding's `when` text parses to.
pub open spec fn parsed_guard(when: Option<Cow<'static, str>>) -> Option<Predicate> {
    match when {
        None => None,
        Some(w) => Some(parse_clause(w@)->Ok_0),
    }
}

/// Whether `e` is what assembling `b` against `rows` gives: the one row named
/// by the binding, its parsed chord and its parsed guard.
pub open spec fn assembled_from(e: Entry, b: Binding, rows: Seq<Action>) -> bool {
    &&& e.action.index() < rows.len()
    &&& rows[e.action.index() as int].id@ == b.action@
    &&& forall|j: int| 0 <= j < rows.len() && #[trigger] rows[j].id@ == b.action@ ==> j == e.action.index()
    &&& parse_keystroke(b.key@) == Ok::<Chord, KeyFault>(e.chord)
    &&& e.when == parsed_guard(b.when)
}

/// What went wrong with one binding.
#[derive(Debug, Eq, PartialEq)]
pub enum BindingProblem {
    /// No registered action has the binding's name.
    NotRegistered,
    /// The key is not a keystroke.
    InvalidChord(KeystrokeError),
    /// The `when` clause is not a predicate.
    InvalidWhen {
        /// The clause as written.
        when: String,
        /// Why it does not parse.
        error: PredicateError,
    },
}

impl BindingProblem {
    /// The problem as plain values.
    pub open spec fn fault(self) -> BindingFault {
        match self {
            BindingProblem::NotRegistered => BindingFault::NotRegistered,
            BindingProblem::InvalidChord(e) => BindingFault::InvalidChord(e@),
            BindingProblem::InvalidWhen { when, error } => BindingFault::InvalidWhen(
                when@,
                fault_of(error),
            ),
        }
    }
}

/// A binding that cannot be assembled: which one, and why.
#[derive(Debug, Eq, PartialEq)]
pub struct BindingError {
    /// The action name the binding was written with.
    pub action: String,
    /// The key the binding was written with.
    pub key: String,
    /// What is wrong with it.
    pub problem: BindingProblem,
}

/// The message for a binding that cannot be assembled.
pub open spec fn binding_error_text(e: BindingError) -> Seq<char> {
    "invalid binding action "@ + debug_quoted(e.action@) + ", key "@ + debug_quoted(e.key@) + ": "@
        + match e.problem {
        BindingProblem::NotRegistered => "action is not registered"@,
        BindingProblem::InvalidChord(k) => "invalid chord: "@ + keystroke_error_text(k@),
        BindingProblem::InvalidWhen { when, error } => "invalid when "@ + debug_quoted(when@)
            + ": "@ + error_text(error),
    }
}

impl BindingError {
    /// The message: both the action and the key as written, then the fault.
    pub fn to_string(&self) -> (r: String)
        ensures
            r@ == binding_error_text(*self),
    {
        let mut out = "invalid binding action ".to_owned();
        out.append(debug_str(self.action.as_str()).as_str());
        out.append(", key ");
        out.append(debug_str(self.key.as_str()).as_str());
        out.append(": ");
        match &self.problem {
            BindingProblem::NotRegistered => {
                out.append("action is not registered");
            },
            BindingProblem::InvalidChord(k) => {
                out.append("invalid chord: ");
                out.append(k.to_string().as_str());
            },
            BindingProblem::InvalidWhen { when, error } => {
                out.append("invalid when ");
                out.append(debug_str(when.as_str()).as_str());
                out.append(": ");
                out.append(error.to_string().as_str());
            },
        }
        out
    }
}

/// The error for binding `b`, with `problem`.
fn refusal(b: &Binding, problem: BindingProblem) -> (r: BindingError)
    ensures
        r.action@ == b.action@,
        r.key@ == b.key@,
        r.problem == problem,
{
    BindingError {
        action: cow_str(&b.action).to_owned(),
        key: cow_str(&b.key).to_owned(),
        problem,
    }
}

/// Parses and resolves one binding.
fn assemble_one(b: &Binding, registry: &Registry) -> (r: Result<Bound, BindingError>)
    ensures
        r is Ok <==> binding_fault(*b, registry.rows()) is None,
        r matches Ok(bound) ==> assembled_from(bound@, *b, registry.rows()),
        r matches Err(e) ==> e.action@ == b.action@ && e.key@ == b.key@ && binding_fault(
            *b,
            registry.rows(),
        ) == Some(e.problem.fault()),
{
    let action = match registry.resolve(cow_str(&b.action)) {
        Some(id) => id,
        None => {
            return Err(refusal(b, BindingProblem::NotRegistered));
        },
    };
    let chord = match Keystroke::parse(cow_str(&b.key)) {
        Ok(k) => k,
        Err(e) => {
            return Err(refusal(b, BindingProblem::InvalidChord(e)));
        },
    };
    let when = match &b.when {
        None => None,
        Some(w) => match Predicate::parse(cow_str(w)) {
            Ok(p) => Some(p),
            Err(error) => {
                let when = cow_str(w).to_owned();
                return Err(refusal(b, BindingProblem::InvalidWhen { when, error }));
            },
        },
    };
    Ok(Bound { chord, action, when })
}

/// Parses and resolves every binding into a lookup-ready keymap, or says
/// which binding is the first that cannot be, and why.
pub fn try_assemble(bindings: &[Binding], registry: &Registry) -> (r: Result<Keymap, BindingError>)
    ensures
        r is Ok <==> assemblable(bindings@, registry.rows()),
        r matches Ok(k) ==> k.entries().len() == bindings@.len() && forall|i: int|
            0 <= i < bindings@.len() ==> assembled_from(
                #[trigger] k.entries()[i],
                bindings@[i],
                registry.rows(),
            ),
        r matches Err(e) ==> exists|i: int|
            0 <= i < bindings@.len() && (forall|j: int|
                0 <= j < i ==> binding_fault(#[trigger] bindings@[j], registry.rows()) is None)
                && binding_fault(bindings@[i], registry.rows()) == Some(e.problem.fault())
                && e.action@ == bindings@[i].action@ && e.key@ == bindings@[i].key@,
{
    let mut bound: Vec<Bound> = Vec::new();
    let mut by_code: StringHashMap<Vec<usize>> = StringHashMap::new();
    let mut i: usize = 0;
    while i < bindings.len()
        invariant
            i <= bindings@.len(),
            bound@.len() == i,
            files(bound@.map_values(|b: Bound| b@), by_code@),
            forall|j: int| 0 <= j < i ==> binding_fault(#[trigger] bindings@[j], registry.rows()) is None,
            forall|j: int|
                0 <= j < i ==> assembled_from(#[trigger] bound@[j]@, bindings@[j], registry.rows()),
        decreases bindings@.len() - i,
    {
        match assemble_one(&bindings[i], registry) {
            Ok(b) => {
                let ghost entries = bound@.map_values(|b: Bound| b@);
                file_under(&mut by_code, b.chord.code().to_owned(), i, Ghost(entries));
                let ghost e = b@;
                bound.push(b);
                proof {
                    assert(bound@.map_values(|b: Bound| b@) =~= entries.push(e));
                }
            },
            Err(e) => {
                return Err(e);
            },
        }
        i = i + 1;
    }
    let keymap = Keymap { bound, by_code };
    proof {
        assert forall|j: int| 0 <= j < bindings@.len() implies assembled_from(
            #[trigger] keymap.entries()[j],
            bindings@[j],
            registry.rows(),
        ) by {
            assert(keymap.entries()[j] == keymap.bound@[j]@);
        }
    }
    Ok(keymap)
}

/// Parses and resolves every binding into a lookup-ready keymap.
///
/// Every binding must resolve, parse and carry a guard that parses: a bad
/// row is a wrong table, and [`try_assemble`] is how a caller that cannot
/// promise that finds out which row. A caller outside verified code that
/// breaks the promise stops here, with the binding's action, key and fault.
pub fn assemble(bindings: &[Binding], registry: &Registry) -> (r: Keymap)
    requires
        assemblable(bindings@, registry.rows()),
    ensures
        r.entries().len() == bindings@.len(),
        forall|i: int|
            0 <= i < bindings@.len() ==> assembled_from(
                #[trigger] r.entries()[i],
                bindings@[i],
                registry.rows(),
            ),
{
    match try_assemble(bindings, registry) {
        Ok(keymap) => keymap,
        Err(e) => {
            let refused: Option<Keymap> = None;
            refused.expect(e.to_string().as_str())
        },
    }
}


// ---------------------------------------------------------------------------
// Conflicts
// ---------------------------------------------------------------------------

/// Whether both guards fire in `ctx`, and `ctx` holds at most one member of
/// each declared exclusive group.
pub open spec fn both_fire(a: Option<Predicate>, b: Option<Predicate>, ctx: u32) -> bool {
    !spec_excludes(ctx, exclusive_groups()) && guard_holds(a, ctx) && guard_holds(b, ctx)
}

/// The least assignment of the conditions in which both guards fire, if
/// there is one.
pub open spec fn first_joint(a: Option<Predicate>, b: Option<Predicate>) -> Option<u32> {
    if exists|c: u32| c < assignment_count() && both_fire(a, b, c) {
        Some(
            choose|c: u32|
                c < assignment_count() && both_fire(a, b, c) && forall|d: u32|
                    d < c ==> !both_fire(a, b, d),
        )
    } else {
        None
    }
}

/// Two actions that one keystroke can fire, as plain values.
pub ghost struct Clash {
    pub chord: Chord,
    pub first: ActionId,
    pub second: ActionId,
    pub context: u32,
}

/// The clashes of entry `j` with the entries before position `k`, in order.
pub open spec fn clashes_with(entries: Seq<Entry>, j: int, k: int) -> Seq<Clash>
    decreases k,
{
    if k <= 0 {
        Seq::empty()
    } else {
        let earlier = clashes_with(entries, j, k - 1);
        let i = k - 1;
        if entries[i].chord == entries[j].chord && first_joint(entries[i].when, entries[j].when) is Some {
            earlier.push(
                Clash {
                    chord: entries[j].chord,
                    first: entries[i].action,
                    second: entries[j].action,
                    context: first_joint(entries[i].when, entries[j].when)->Some_0,
                },
            )
        } else {
            earlier
        }
    }
}

/// Every clash among the first `n` entries: each pair on one chord whose
/// guards can hold together, in the order of the later entry and then of
/// the earlier one.
pub open spec fn clashes(entries: Seq<Entry>, n: int) -> Seq<Clash>
    decreases n,
{
    if n <= 0 {
        Seq::empty()
    } else {
        clashes(entries, n - 1) + clashes_with(entries, n - 1, n - 1)
    }
}

/// Two bindings that one keystroke can fire: the chord, both actions in
/// binding order, and the least context in which both guards hold.
#[derive(Debug)]
pub struct Conflict {
    /// The chord both are bound to.
    pub chord: Keystroke,
    /// The action of the binding written first.
    pub first: ActionId,
    /// The action of the binding written second.
    pub second: ActionId,
    /// The least assignment in which both fire.
    pub context: Flags,
}

impl View for Conflict {
    type V = Clash;

    open spec fn view(&self) -> Clash {
        Clash {
            chord: self.chord@,
            first: self.first,
            second: self.second,
            context: self.context.bits(),
        }
    }
}

/// A minimal witness is the least one.
proof fn lemma_first_joint(a: Option<Predicate>, b: Option<Predicate>, c: u32)
    requires
        c < assignment_count(),
        both_fire(a, b, c),
        forall|d: u32| d < c ==> !both_fire(a, b, d),
    ensures
        first_joint(a, b) == Some(c),
{
    let w = choose|x: u32|
        x < assignment_count() && both_fire(a, b, x) && forall|d: u32| d < x ==> !both_fire(a, b, d);
    assert(c < assignment_count() && both_fire(a, b, c));
    if w < c {
        assert(!both_fire(a, b, w));
    }
    if c < w {
        assert(!both_fire(a, b, c));
    }
}

/// The empty assignment holds no member of any group.
proof fn lemma_empty_allowed()
    ensures
        !spec_excludes(0, exclusive_groups()),
        0 < assignment_count(),
{
    assert(0u32 < (1u32 << 17u32)) by (bit_vector);
    assert forall|i: int| 0 <= i < exclusive_groups().len() implies popcount(
        0u32 & #[trigger] exclusive_groups()[i].bits(),
    ) < 2 by {
        let g = exclusive_groups()[i].bits();
        assert(0u32 & g == 0u32) by (bit_vector);
        assert(popcount(0u32) == 0);
    }
}

/// The least context in which both guards fire, if any.
fn joint_context(a: &Option<Predicate>, b: &Option<Predicate>, exclusive: &Vec<Flags>) -> (r:
    Option<Flags>)
    requires
        exclusive@ == exclusive_groups(),
    ensures
        r matches Some(c) ==> first_joint(*a, *b) == Some(c.bits()),
        r is None ==> first_joint(*a, *b) is None,
{
    let found = match (a, b) {
        (None, None) => {
            proof {
                lemma_empty_allowed();
                lemma_first_joint(*a, *b, 0);
            }
            return Some(Flags::none());
        },
        (Some(p), None) => satisfiable_together(p, p, exclusive.as_slice()),
        (None, Some(q)) => satisfiable_together(q, q, exclusive.as_slice()),
        (Some(p), Some(q)) => satisfiable_together(p, q, exclusive.as_slice()),
    };
    proof {
        assert(forall|c: u32| #[trigger] both_fire(*a, *b, c) == joint_witness(
            match *a { Some(p) => p, None => b->Some_0 },
            match *b { Some(q) => q, None => a->Some_0 },
            exclusive@,
            c,
        ));
        if let Some(c) = found {
            lemma_first_joint(*a, *b, c.bits());
        }
    }
    found
}

impl Keymap {
    /// Every pair of bindings on one chord whose guards can hold together,
    /// with the least context in which they do, honouring the exclusive
    /// groups [`Flags::exclusive`] declares.
    ///
    /// A guard that cannot hold at all conflicts with nothing: that is a
    /// defect in the binding, not a collision.
    pub fn conflicts(&self) -> (r: Vec<Conflict>)
        ensures
            r@.map_values(|c: Conflict| c@) == clashes(self.entries(), self.entries().len() as int),
    {
        let exclusive = Flags::exclusive();
        let mut out: Vec<Conflict> = Vec::new();
        let mut j: usize = 0;
        while j < self.bound.len()
            invariant
                j <= self.bound@.len(),
                self.entries().len() == self.bound@.len(),
                exclusive@ == exclusive_groups(),
                out@.map_values(|c: Conflict| c@) == clashes(self.entries(), j as int),
            decreases self.bound@.len() - j,
        {
            let later = &self.bound[j];
            let mut i: usize = 0;
            while i < j
                invariant
                    i <= j < self.bound@.len(),
                    self.entries().len() == self.bound@.len(),
                    later == &self.bound@[j as int],
                    exclusive@ == exclusive_groups(),
                    out@.map_values(|c: Conflict| c@) == clashes(self.entries(), j as int)
                        + clashes_with(self.entries(), j as int, i as int),
                decreases j - i,
            {
                let earlier = &self.bound[i];
                let ghost before = out@.map_values(|c: Conflict| c@);
                proof {
                    assert(self.entries()[i as int] == earlier@);
                    assert(self.entries()[j as int] == later@);
                }
                if same_chord(&earlier.chord, &later.chord) {
                    match joint_context(&earlier.when, &later.when, &exclusive) {
                        Some(context) => {
                            out.push(
                                Conflict {
                                    chord: later.chord.clone(),
                                    first: earlier.action,
                                    second: later.action,
                                    context,
                                },
                            );
                            proof {
                                assert(out@.map_values(|c: Conflict| c@) =~= before.push(
                                    out@.last()@,
                                ));
                            }
                        },
                        None => {},
                    }
                }
                i = i + 1;
            }
            proof {
                assert(clashes(self.entries(), j as int + 1) == clashes(self.entries(), j as int)
                    + clashes_with(self.entries(), j as int, j as int));
            }
            j = j + 1;
        }
        out
    }
}


// ---------------------------------------------------------------------------
// Laws
// ---------------------------------------------------------------------------

/// Whether entry `e` fires for `chord` in `ctx`.
pub open spec fn fires(e: Entry, chord: Chord, ctx: u32) -> bool {
    e.chord == chord && guard_holds(e.when, ctx)
}

/// What [`first_firing`] says, entry by entry.
proof fn lemma_first_firing(entries: Seq<Entry>, chord: Chord, ctx: u32, n: int)
    requires
        0 <= n <= entries.len(),
    ensures
        first_firing(entries, chord, ctx, n) matches Some(a) ==> exists|i: int|
            0 <= i < n && fires(entries[i], chord, ctx) && entries[i].action == a && forall|j: int|
                0 <= j < i ==> !fires(#[trigger] entries[j], chord, ctx),
        first_firing(entries, chord, ctx, n) is None ==> forall|i: int|
            0 <= i < n ==> !fires(#[trigger] entries[i], chord, ctx),
    decreases n,
{
    if n > 0 {
        lemma_first_firing(entries, chord, ctx, n - 1);
    }
}

/// **A keystroke resolves to the first binding on its chord whose guard
/// holds, and to nothing when none does.** A chord nobody bound, or whose
/// guards all fail, is not ours: it goes to the terminal. The text-editing
/// rule overrides both.
pub proof fn lemma_lookup_is_the_first_firing_binding(entries: Seq<Entry>, chord: Chord, ctx: u32)
    ensures
        resolves_to(entries, chord, ctx) matches Some(a) ==> !suppressed(chord, ctx) && exists|i: int|
            0 <= i < entries.len() && fires(entries[i], chord, ctx) && entries[i].action == a
                && forall|j: int| 0 <= j < i ==> !fires(#[trigger] entries[j], chord, ctx),
        resolves_to(entries, chord, ctx) is None ==> suppressed(chord, ctx) || forall|i: int|
            0 <= i < entries.len() ==> !fires(#[trigger] entries[i], chord, ctx),
{
    lemma_first_firing(entries, chord, ctx, entries.len() as int);
}

/// **A modifier takes a key out of the text-editing rule's reach**: only a
/// bare key can be one a text field consumes.
pub proof fn lemma_a_modifier_exempts_a_key(chord: Chord, ctx: u32)
    requires
        chord.modifiers != 0,
    ensures
        !suppressed(chord, ctx),
{
}

/// **Without a focused text field nothing is suppressed**: when the
/// `editing_text` condition is off, every keystroke resolves by its bindings
/// alone.
pub proof fn lemma_only_a_field_suppresses(entries: Seq<Entry>, chord: Chord, ctx: u32)
    requires
        ctx & bit(7) != bit(7),
    ensures
        !suppressed(chord, ctx),
        resolves_to(entries, chord, ctx) == first_firing(entries, chord, ctx, entries.len() as int),
{
}

/// The keys a text input uses, named one by one by what they do there: the
/// caret keys, then the typewriter keys (every letter and digit among them),
/// then the keypad's.
pub open spec fn typed_into_a_field(code: Seq<char>) -> bool {
    ||| code == "ArrowLeft"@
    ||| code == "ArrowRight"@
    ||| code == "Backspace"@
    ||| code == "Delete"@
    ||| code == "End"@
    ||| code == "Home"@
    ||| code == "Backquote"@
    ||| code == "Backslash"@
    ||| code == "BracketLeft"@
    ||| code == "BracketRight"@
    ||| code == "Comma"@
    ||| code == "Digit0"@
    ||| code == "Digit1"@
    ||| code == "Digit2"@
    ||| code == "Digit3"@
    ||| code == "Digit4"@
    ||| code == "Digit5"@
    ||| code == "Digit6"@
    ||| code == "Digit7"@
    ||| code == "Digit8"@
    ||| code == "Digit9"@
    ||| code == "Equal"@
    ||| code == "IntlBackslash"@
    ||| code == "IntlRo"@
    ||| code == "IntlYen"@
    ||| code == "KeyA"@
    ||| code == "KeyB"@
    ||| code == "KeyC"@
    ||| code == "KeyD"@
    ||| code == "KeyE"@
    ||| code == "KeyF"@
    ||| code == "KeyG"@
    ||| code == "KeyH"@
    ||| code == "KeyI"@
    ||| code == "KeyJ"@
    ||| code == "KeyK"@
    ||| code == "KeyL"@
    ||| code == "KeyM"@
    ||| code == "KeyN"@
    ||| code == "KeyO"@
    ||| code == "KeyP"@
    ||| code == "KeyQ"@
    ||| code == "KeyR"@
    ||| code == "KeyS"@
    ||| code == "KeyT"@
    ||| code == "KeyU"@
    ||| code == "KeyV"@
    ||| code == "KeyW"@
    ||| code == "KeyX"@
    ||| code == "KeyY"@
    ||| code == "KeyZ"@
    ||| code == "Minus"@
    ||| code == "Period"@
    ||| code == "Quote"@
    ||| code == "Semicolon"@
    ||| code == "Slash"@
    ||| code == "Space"@
    ||| code == "Numpad0"@
    ||| code == "Numpad1"@
    ||| code == "Numpad2"@
    ||| code == "Numpad3"@
    ||| code == "Numpad4"@
    ||| code == "Numpad5"@
    ||| code == "Numpad6"@
    ||| code == "Numpad7"@
    ||| code == "Numpad8"@
    ||| code == "Numpad9"@
    ||| code == "NumpadAdd"@
    ||| code == "NumpadComma"@
    ||| code == "NumpadDecimal"@
    ||| code == "NumpadDivide"@
    ||| code == "NumpadEqual"@
    ||| code == "NumpadHash"@
    ||| code == "NumpadMultiply"@
    ||| code == "NumpadParenLeft"@
    ||| code == "NumpadParenRight"@
    ||| code == "NumpadStar"@
    ||| code == "NumpadSubtract"@
}

/// **A focused text field keeps every key it types, deletes or moves the
/// caret with**: the rule suppresses exactly the keys named in
/// [`typed_into_a_field`], so while a text input has focus a bare letter,
/// digit, punctuation key, Space, Backspace, Delete, Home, End, left or right
/// arrow, or keypad key resolves to nothing, whatever is bound to it, and
/// goes to the field.
pub proof fn lemma_a_field_keeps_its_keys(code: Seq<char>, entries: Seq<Entry>, ctx: u32)
    ensures
        consumed(code) <==> typed_into_a_field(code),
        ctx & bit(7) == bit(7) && typed_into_a_field(code) ==> resolves_to(
            entries,
            Chord { modifiers: 0, code },
            ctx,
        ) is None,
{
    if code == "ArrowLeft"@ {
        assert(consumed_key(0) == code);
    } else if code == "ArrowRight"@ {
        assert(consumed_key(1) == code);
    } else if code == "Backspace"@ {
        assert(consumed_key(2) == code);
    } else if code == "Delete"@ {
        assert(consumed_key(3) == code);
    } else if code == "End"@ {
        assert(consumed_key(4) == code);
    } else if code == "Home"@ {
        assert(consumed_key(5) == code);
    } else if code == "Backquote"@ {
        assert(consumed_key(6) == code);
    } else if code == "Backslash"@ {
        assert(consumed_key(7) == code);
    } else if code == "BracketLeft"@ {
        assert(consumed_key(8) == code);
    } else if code == "BracketRight"@ {
        assert(consumed_key(9) == code);
    } else if code == "Comma"@ {
        assert(consumed_key(10) == code);
    } else if code == "Digit0"@ {
        assert(consumed_key(11) == code);
    } else if code == "Digit1"@ {
        assert(consumed_key(12) == code);
    } else if code == "Digit2"@ {
        assert(consumed_key(13) == code);
    } else if code == "Digit3"@ {
        assert(consumed_key(14) == code);
    } else if code == "Digit4"@ {
        assert(consumed_key(15) == code);
    } else if code == "Digit5"@ {
        assert(consumed_key(16) == code);
    } else if code == "Digit6"@ {
        assert(consumed_key(17) == code);
    } else if code == "Digit7"@ {
        assert(consumed_key(18) == code);
    } else if code == "Digit8"@ {
        assert(consumed_key(19) == code);
    } else if code == "Digit9"@ {
        assert(consumed_key(20) == code);
    } else if code == "Equal"@ {
        assert(consumed_key(21) == code);
    } else if code == "IntlBackslash"@ {
        assert(consumed_key(22) == code);
    } else if code == "IntlRo"@ {
        assert(consumed_key(23) == code);
    } else if code == "IntlYen"@ {
        assert(consumed_key(24) == code);
    } else if code == "KeyA"@ {
        assert(consumed_key(25) == code);
    } else if code == "KeyB"@ {
        assert(consumed_key(26) == code);
    } else if code == "KeyC"@ {
        assert(consumed_key(27) == code);
    } else if code == "KeyD"@ {
        assert(consumed_key(28) == code);
    } else if code == "KeyE"@ {
        assert(consumed_key(29) == code);
    } else if code == "KeyF"@ {
        assert(consumed_key(30) == code);
    } else if code == "KeyG"@ {
        assert(consumed_key(31) == code);
    } else if code == "KeyH"@ {
        assert(consumed_key(32) == code);
    } else if code == "KeyI"@ {
        assert(consumed_key(33) == code);
    } else if code == "KeyJ"@ {
        assert(consumed_key(34) == code);
    } else if code == "KeyK"@ {
        assert(consumed_key(35) == code);
    } else if code == "KeyL"@ {
        assert(consumed_key(36) == code);
    } else if code == "KeyM"@ {
        assert(consumed_key(37) == code);
    } else if code == "KeyN"@ {
        assert(consumed_key(38) == code);
    } else if code == "KeyO"@ {
        assert(consumed_key(39) == code);
    } else if code == "KeyP"@ {
        assert(consumed_key(40) == code);
    } else if code == "KeyQ"@ {
        assert(consumed_key(41) == code);
    } else if code == "KeyR"@ {
        assert(consumed_key(42) == code);
    } else if code == "KeyS"@ {
        assert(consumed_key(43) == code);
    } else if code == "KeyT"@ {
        assert(consumed_key(44) == code);
    } else if code == "KeyU"@ {
        assert(consumed_key(45) == code);
    } else if code == "KeyV"@ {
        assert(consumed_key(46) == code);
    } else if code == "KeyW"@ {
        assert(consumed_key(47) == code);
    } else if code == "KeyX"@ {
        assert(consumed_key(48) == code);
    } else if code == "KeyY"@ {
        assert(consumed_key(49) == code);
    } else if code == "KeyZ"@ {
        assert(consumed_key(50) == code);
    } else if code == "Minus"@ {
        assert(consumed_key(51) == code);
    } else if code == "Period"@ {
        assert(consumed_key(52) == code);
    } else if code == "Quote"@ {
        assert(consumed_key(53) == code);
    } else if code == "Semicolon"@ {
        assert(consumed_key(54) == code);
    } else if code == "Slash"@ {
        assert(consumed_key(55) == code);
    } else if code == "Space"@ {
        assert(consumed_key(56) == code);
    } else if code == "Numpad0"@ {
        assert(consumed_key(57) == code);
    } else if code == "Numpad1"@ {
        assert(consumed_key(58) == code);
    } else if code == "Numpad2"@ {
        assert(consumed_key(59) == code);
    } else if code == "Numpad3"@ {
        assert(consumed_key(60) == code);
    } else if code == "Numpad4"@ {
        assert(consumed_key(61) == code);
    } else if code == "Numpad5"@ {
        assert(consumed_key(62) == code);
    } else if code == "Numpad6"@ {
        assert(consumed_key(63) == code);
    } else if code == "Numpad7"@ {
        assert(consumed_key(64) == code);
    } else if code == "Numpad8"@ {
        assert(consumed_key(65) == code);
    } else if code == "Numpad9"@ {
        assert(consumed_key(66) == code);
    } else if code == "NumpadAdd"@ {
        assert(consumed_key(67) == code);
    } else if code == "NumpadComma"@ {
        assert(consumed_key(68) == code);
    } else if code == "NumpadDecimal"@ {
        assert(consumed_key(69) == code);
    } else if code == "NumpadDivide"@ {
        assert(consumed_key(70) == code);
    } else if code == "NumpadEqual"@ {
        assert(consumed_key(71) == code);
    } else if code == "NumpadHash"@ {
        assert(consumed_key(72) == code);
    } else if code == "NumpadMultiply"@ {
        assert(consumed_key(73) == code);
    } else if code == "NumpadParenLeft"@ {
        assert(consumed_key(74) == code);
    } else if code == "NumpadParenRight"@ {
        assert(consumed_key(75) == code);
    } else if code == "NumpadStar"@ {
        assert(consumed_key(76) == code);
    } else if code == "NumpadSubtract"@ {
        assert(consumed_key(77) == code);
    }
    if consumed(code) {
        let i = choose|i: int| 0 <= i < CONSUMED_COUNT && consumed_key(i) == code;
        assert(typed_into_a_field(consumed_key(i)));
    }
}

/// Clashes found among fewer entries are still found among more.
proof fn lemma_clashes_grow(entries: Seq<Entry>, j: int, k: int, m: int)
    requires
        0 <= k <= m,
    ensures
        clashes_with(entries, j, k).len() <= clashes_with(entries, j, m).len(),
    decreases m - k,
{
    if k < m {
        lemma_clashes_grow(entries, j, k, m - 1);
    }
}

/// As [`lemma_clashes_grow`], over whole prefixes of the keymap.
proof fn lemma_all_clashes_grow(entries: Seq<Entry>, n: int, m: int)
    requires
        0 <= n <= m,
    ensures
        clashes(entries, n).len() <= clashes(entries, m).len(),
    decreases m - n,
{
    if n < m {
        lemma_all_clashes_grow(entries, n, m - 1);
    }
}

/// **A keymap with no conflicts never fires two actions on one keystroke.**
/// In every context the exclusive groups allow, at most one binding on a
/// chord has a guard that holds, so which one is written first never
/// decides.
pub proof fn lemma_no_conflicts_means_one_action(entries: Seq<Entry>, i: int, j: int, ctx: u32)
    requires
        clashes(entries, entries.len() as int).len() == 0,
        0 <= i < j < entries.len(),
        ctx < assignment_count(),
        !spec_excludes(ctx, exclusive_groups()),
        entries[i].chord == entries[j].chord,
    ensures
        !(guard_holds(entries[i].when, ctx) && guard_holds(entries[j].when, ctx)),
{
    if guard_holds(entries[i].when, ctx) && guard_holds(entries[j].when, ctx) {
        lemma_clash_found(entries, i, j, ctx);
        lemma_clashes_grow(entries, j, i + 1, j);
        assert(clashes(entries, j + 1) == clashes(entries, j) + clashes_with(entries, j, j));
        lemma_all_clashes_grow(entries, j + 1, entries.len() as int);
    }
}

/// Two entries on one chord whose guards both hold somewhere clash.
proof fn lemma_clash_found(entries: Seq<Entry>, i: int, j: int, ctx: u32)
    requires
        0 <= i < j < entries.len(),
        ctx < assignment_count(),
        both_fire(entries[i].when, entries[j].when, ctx),
        entries[i].chord == entries[j].chord,
    ensures
        clashes_with(entries, j, i + 1).len() > 0,
{
    assert(exists|c: u32| c < assignment_count() && both_fire(entries[i].when, entries[j].when, c));
    assert(first_joint(entries[i].when, entries[j].when) is Some);
}

} // verus!
