//! One keystroke, and the one syntax that writes it down.
//!
//! **Matching is on the physical key, never the character it produces.** With
//! a non-Latin input source active, the physical `A` key still arrives as
//! `KeyA` while the character it produces changes; bindings name positions so
//! they keep working while someone types in another script.
//!
//! The key vocabulary is [`keyboard_types`]: the W3C UI Events code names and
//! its modifier bits. A keystroke holds both as plain values: the modifier
//! bits, and the code's name.

use std::str::FromStr;

use keyboard_types::{Code, Modifiers};
use vstd::prelude::*;

use crate::text::{char_string, chars_of, debug_quoted, debug_str, str_eq, substring};

verus! {

/// The canonical W3C name of the [`keyboard_types::Code`] that `name`
/// spells, or `None` when `Code` does not recognise it. A few codes have a
/// second, older name (`OSLeft` for `MetaLeft`); the canonical name is the
/// one `Code`'s `Display` writes.
pub uninterp spec fn w3c_canonical(name: Seq<char>) -> Option<Seq<char>>;

/// Whether `name` is one of the W3C code names [`keyboard_types::Code`]
/// recognises.
pub open spec fn w3c_code(name: Seq<char>) -> bool {
    w3c_canonical(name) is Some
}

/// Whether a character is an ASCII letter or digit.
pub open spec fn is_alnum(c: char) -> bool {
    ('a' <= c && c <= 'z') || ('A' <= c && c <= 'Z') || ('0' <= c && c <= '9')
}

/// The canonical name of the code `name` spells: `Code::from_str(name)`,
/// then `Code`'s `Display`.
///
/// Beyond naming the answer, this states what the crate's own tables show:
/// every name `from_str` accepts (aliases included) is at least two
/// characters, starts with an ASCII capital and holds ASCII letters and
/// digits only; and what `Display` writes is accepted again and names the
/// same code.
#[verifier::external_body]
fn canonical_code(name: &str) -> (r: Option<String>)
    ensures
        match r {
            Some(c) => w3c_canonical(name@) == Some(c@),
            None => w3c_canonical(name@) is None,
        },
        r matches Some(c) ==> code_shape(name@) && code_shape(c@) && w3c_canonical(c@) == Some(
            c@,
        ),
{
    Code::from_str(name).ok().map(|code| code.to_string())
}

/// The bits of `keyboard_types::Modifiers::META`, read with `bits()`: the
/// contract claims the constant the crate's bitflags table defines, 0x40.
#[verifier::external_body]
fn meta_bits() -> (r: u32)
    ensures
        r == 0x40,
{
    Modifiers::META.bits()
}

/// The bits of `keyboard_types::Modifiers::SHIFT`, read with `bits()`: the
/// contract claims the constant the crate's bitflags table defines, 0x200.
#[verifier::external_body]
fn shift_bits() -> (r: u32)
    ensures
        r == 0x200,
{
    Modifiers::SHIFT.bits()
}

/// The bits of `keyboard_types::Modifiers::ALT`, read with `bits()`: the
/// contract claims the constant the crate's bitflags table defines, 0x01.
#[verifier::external_body]
fn alt_bits() -> (r: u32)
    ensures
        r == 0x01,
{
    Modifiers::ALT.bits()
}

/// The bits of `keyboard_types::Modifiers::CONTROL`, read with `bits()`: the
/// contract claims the constant the crate's bitflags table defines, 0x08.
#[verifier::external_body]
fn control_bits() -> (r: u32)
    ensures
        r == 0x08,
{
    Modifiers::CONTROL.bits()
}

/// The four modifiers this syntax names, in canonical order: `meta`,
/// `shift`, `alt`, `control`.
///
/// **Not `cmd`**: the syntax names no platform. `meta` is Command on macOS
/// and the Windows key elsewhere.
pub open spec fn modifier_name(rank: nat) -> Seq<char> {
    if rank == 0 {
        "meta"@
    } else if rank == 1 {
        "shift"@
    } else if rank == 2 {
        "alt"@
    } else {
        "control"@
    }
}

/// The modifier bit of the modifier at `rank`.
pub open spec fn modifier_flag(rank: nat) -> u32 {
    if rank == 0 {
        0x40
    } else if rank == 1 {
        0x200
    } else if rank == 2 {
        0x01
    } else {
        0x08
    }
}

/// The rank of the modifier spelled `name`, if it is one.
pub open spec fn modifier_rank(name: Seq<char>) -> Option<nat> {
    if name == modifier_name(0) {
        Some(0)
    } else if name == modifier_name(1) {
        Some(1)
    } else if name == modifier_name(2) {
        Some(2)
    } else if name == modifier_name(3) {
        Some(3)
    } else {
        None
    }
}

/// A modifier set plus one physical key.
///
/// The modifiers are [`keyboard_types::Modifiers`] bits and the key is the
/// canonical W3C name of a [`keyboard_types::Code`], which the type keeps
/// as its invariant. One physical keystroke is exactly one value, which
/// conflict detection relies on: an older alias is stored under its
/// canonical name. The syntax names four modifiers; a value carrying
/// another bit prints without it.
#[derive(Debug, Eq, Hash, PartialEq)]
pub struct Keystroke {
    modifiers: u32,
    code: String,
}

/// A keystroke as plain values: its modifier bits and its code's name.
pub ghost struct Chord {
    pub modifiers: u32,
    pub code: Seq<char>,
}

impl View for Keystroke {
    type V = Chord;

    closed spec fn view(&self) -> Chord {
        Chord { modifiers: self.modifiers, code: self.code@ }
    }
}

/// Whether `code` is a canonical W3C code name.
pub open spec fn canonical(code: Seq<char>) -> bool {
    w3c_canonical(code) == Some(code) && code_shape(code)
}

impl Keystroke {
    #[verifier::type_invariant]
    spec fn names_a_key(self) -> bool {
        canonical(self.code@)
    }

    /// The keystroke holding `modifiers` on the key `code` names, under the
    /// key's canonical name; `None` when `code` names no key.
    pub fn new(modifiers: u32, code: &str) -> (r: Option<Keystroke>)
        ensures
            r is Some <==> w3c_code(code@),
            r matches Some(k) ==> k@.modifiers == modifiers && Some(k@.code)
                == w3c_canonical(code@),
    {
        match canonical_code(code) {
            Some(c) => Some(Keystroke { modifiers, code: c }),
            None => None,
        }
    }

    /// The modifiers held down, as `keyboard_types::Modifiers` bits.
    pub fn modifiers(&self) -> (r: u32)
        ensures
            r == self@.modifiers,
    {
        self.modifiers
    }

    /// The key's canonical W3C code name, such as `KeyA` or `BracketRight`.
    pub fn code(&self) -> (r: &str)
        ensures
            r@ == self@.code,
            canonical(r@),
    {
        proof {
            use_type_invariant(self);
        }
        self.code.as_str()
    }
}

impl Clone for Keystroke {
    /// The same keystroke.
    fn clone(&self) -> (r: Keystroke)
        ensures
            r@ == self@,
    {
        proof {
            use_type_invariant(self);
        }
        Keystroke { modifiers: self.modifiers, code: self.code.clone() }
    }
}

/// Why a keystroke string is not valid.
#[derive(Clone, Debug, Eq, PartialEq)]
pub enum KeystrokeError {
    /// The string is empty, or ends in `+`, or names only modifiers.
    MissingKey,
    /// A `+`-separated component before the key is empty.
    EmptyComponent,
    /// A component contains a non-ASCII character. Keys are named by physical
    /// position, and those names are ASCII.
    NonAscii,
    /// A component before the key is not one of the four modifiers.
    UnknownModifier {
        /// What was written.
        name: String,
    },
    /// A modifier appears more than once.
    RepeatedModifier {
        /// What was written.
        name: String,
    },
    /// Modifiers are not in `meta`, `shift`, `alt`, `control` order.
    ModifierOutOfOrder {
        /// The modifier that should have come later.
        previous: String,
        /// The modifier that should have come earlier.
        current: String,
    },
    /// The final component is not a physical key name.
    UnknownKey {
        /// What was written.
        name: String,
    },
}

/// A keystroke parse failure, as plain values.
pub ghost enum KeyFault {
    MissingKey,
    EmptyComponent,
    NonAscii,
    UnknownModifier(Seq<char>),
    RepeatedModifier(Seq<char>),
    ModifierOutOfOrder(Seq<char>, Seq<char>),
    UnknownKey(Seq<char>),
}

impl View for KeystrokeError {
    type V = KeyFault;

    open spec fn view(&self) -> KeyFault {
        match self {
            KeystrokeError::MissingKey => KeyFault::MissingKey,
            KeystrokeError::EmptyComponent => KeyFault::EmptyComponent,
            KeystrokeError::NonAscii => KeyFault::NonAscii,
            KeystrokeError::UnknownModifier { name } => KeyFault::UnknownModifier(name@),
            KeystrokeError::RepeatedModifier { name } => KeyFault::RepeatedModifier(name@),
            KeystrokeError::ModifierOutOfOrder { previous, current } => KeyFault::ModifierOutOfOrder(
                previous@,
                current@,
            ),
            KeystrokeError::UnknownKey { name } => KeyFault::UnknownKey(name@),
        }
    }
}

// ---------------------------------------------------------------------------
// The syntax
// ---------------------------------------------------------------------------

/// The first `+` at or after `i`, or the end.
pub open spec fn next_plus(s: Seq<char>, i: int) -> int
    decreases s.len() - i,
{
    if 0 <= i < s.len() && s[i] != '+' {
        next_plus(s, i + 1)
    } else {
        i
    }
}

/// Where the last component starts: just after the last `+` before `j`, or 0.
pub open spec fn key_start(s: Seq<char>, j: int) -> int
    decreases j,
{
    if j <= 0 {
        0
    } else if s[j - 1] == '+' {
        j
    } else {
        key_start(s, j - 1)
    }
}

/// Whether a modifier of `rank` after `prev` breaks the canonical order.
pub open spec fn out_of_order(prev: Option<(Seq<char>, nat)>, rank: nat) -> bool {
    match prev {
        Some((_, earlier)) => rank < earlier,
        None => false,
    }
}

/// The spelling of the modifier read before.
pub open spec fn previous_name(prev: Option<(Seq<char>, nat)>) -> Seq<char> {
    match prev {
        Some((name, _)) => name,
        None => Seq::empty(),
    }
}

/// Reads the modifier components from `i` up to the key: each must be one
/// of the four names, not yet held, and not before one already read.
/// Returns the modifier bits.
pub open spec fn scan_modifiers(
    s: Seq<char>,
    i: int,
    mods: u32,
    prev: Option<(Seq<char>, nat)>,
) -> Result<u32, KeyFault>
    decreases s.len() - i,
{
    let j = next_plus(s, i);
    if !(0 <= i && i <= j < s.len()) {
        Ok(mods)
    } else {
        let name = s.subrange(i, j);
        if name.len() == 0 {
            Err(KeyFault::EmptyComponent)
        } else {
            match modifier_rank(name) {
                None => Err(KeyFault::UnknownModifier(name)),
                Some(rank) => if mods & modifier_flag(rank) == modifier_flag(rank) {
                    Err(KeyFault::RepeatedModifier(name))
                } else if out_of_order(prev, rank) {
                    Err(KeyFault::ModifierOutOfOrder(previous_name(prev), name))
                } else {
                    scan_modifiers(s, j + 1, mods | modifier_flag(rank), Some((name, rank)))
                },
            }
        }
    }
}

/// What a key name stands for: a single lowercase letter or digit is
/// shorthand for `Key…` or `Digit…`; anything else is a W3C code name.
pub open spec fn expand_key(name: Seq<char>) -> Seq<char> {
    if name.len() == 1 && 'a' <= name[0] && name[0] <= 'z' {
        "Key"@ + seq![((name[0] as u32) - 32) as char]
    } else if name.len() == 1 && '0' <= name[0] && name[0] <= '9' {
        "Digit"@ + seq![name[0]]
    } else {
        name
    }
}

/// What a keystroke string parses to.
///
/// Modifiers come first, in the canonical order `meta`, `shift`, `alt`,
/// `control`. Out-of-order spellings are **rejected rather than
/// normalised**, so no second spelling can hash differently.
pub open spec fn parse_keystroke(s: Seq<char>) -> Result<Chord, KeyFault> {
    if s.len() == 0 {
        Err(KeyFault::MissingKey)
    } else if !vstd::utf8::is_ascii_chars(s) {
        Err(KeyFault::NonAscii)
    } else {
        let k = key_start(s, s.len() as int);
        let key = s.subrange(k, s.len() as int);
        if key.len() == 0 {
            Err(KeyFault::MissingKey)
        } else {
            match scan_modifiers(s, 0, 0, None) {
                Err(e) => Err(e),
                Ok(mods) => if modifier_rank(key) is Some {
                    Err(KeyFault::MissingKey)
                } else if w3c_code(expand_key(key)) {
                    Ok(Chord { modifiers: mods, code: w3c_canonical(expand_key(key))->Some_0 })
                } else {
                    Err(KeyFault::UnknownKey(key))
                },
            }
        }
    }
}

/// The spelled modifiers from `rank` on, each followed by `+`.
pub open spec fn modifier_prefix(mods: u32, rank: nat) -> Seq<char>
    decreases 4 - rank,
{
    if rank >= 4 {
        Seq::empty()
    } else if mods & modifier_flag(rank) == modifier_flag(rank) {
        modifier_name(rank) + "+"@ + modifier_prefix(mods, rank + 1)
    } else {
        modifier_prefix(mods, rank + 1)
    }
}

/// The canonical spelling of a keystroke.
pub open spec fn render_keystroke(k: Chord) -> Seq<char> {
    modifier_prefix(k.modifiers, 0) + k.code
}

/// The first `+` at or after `i`, or the end, executably.
fn find_plus(s: &Vec<char>, i: usize) -> (r: usize)
    requires
        i <= s@.len(),
    ensures
        r == next_plus(s@, i as int),
        i <= r <= s@.len(),
{
    let mut j = i;
    while j < s.len() && s[j] != '+'
        invariant
            i <= j <= s@.len(),
            next_plus(s@, j as int) == next_plus(s@, i as int),
        decreases s@.len() - j,
    {
        j = j + 1;
    }
    j
}

/// Where the last component starts, executably.
fn last_component(s: &Vec<char>) -> (r: usize)
    ensures
        r == key_start(s@, s@.len() as int),
        r <= s@.len(),
{
    let mut j = s.len();
    while j > 0 && s[j - 1] != '+'
        invariant
            j <= s@.len(),
            key_start(s@, j as int) == key_start(s@, s@.len() as int),
        decreases j,
    {
        j = j - 1;
    }
    j
}

/// The rank of the modifier spelled `name`, executably.
fn rank_of(name: &str) -> (r: Option<u8>)
    ensures
        r matches Some(k) ==> modifier_rank(name@) == Some(k as nat),
        r is None ==> modifier_rank(name@) is None,
{
    if str_eq(name, "meta") {
        Some(0)
    } else if str_eq(name, "shift") {
        Some(1)
    } else if str_eq(name, "alt") {
        Some(2)
    } else if str_eq(name, "control") {
        Some(3)
    } else {
        None
    }
}

/// The modifier bit of the modifier at `rank`, read from `keyboard_types`.
fn flag_of(rank: u8) -> (r: u32)
    requires
        rank < 4,
    ensures
        r == modifier_flag(rank as nat),
{
    if rank == 0 {
        meta_bits()
    } else if rank == 1 {
        shift_bits()
    } else if rank == 2 {
        alt_bits()
    } else {
        control_bits()
    }
}

/// What a key name stands for, executably.
fn expand(s: &Vec<char>, k: usize) -> (r: String)
    requires
        k <= s@.len(),
    ensures
        r@ == expand_key(s@.subrange(k as int, s@.len() as int)),
{
    let ghost key = s@.subrange(k as int, s@.len() as int);
    if s.len() - k == 1 {
        let c = s[k];
        assert(key[0] == c);
        if 'a' <= c && c <= 'z' {
            let upper: u8 = (c as u8) - 32;
            let mut out = "Key".to_owned();
            out.append(char_string(upper as char).as_str());
            assert((upper as char) == (((c as u32) - 32) as char));
            return out;
        } else if '0' <= c && c <= '9' {
            let mut out = "Digit".to_owned();
            out.append(char_string(c).as_str());
            return out;
        }
    }
    substring(s, k, s.len())
}

impl Keystroke {
    /// Parses `meta+shift+KeyK`, `meta+k`, `Escape`, `F2`, `PageUp`.
    ///
    /// The result is [`parse_keystroke`] of the string's characters.
    pub fn parse(input: &str) -> (r: Result<Keystroke, KeystrokeError>)
        ensures
            match parse_keystroke(input@) {
                Ok(c) => r matches Ok(k) && k@ == c,
                Err(f) => r matches Err(e) && e@ == f,
            },
            r matches Ok(k) ==> writable(k@),
    {
        let s = chars_of(input);
        if s.len() == 0 {
            return Err(KeystrokeError::MissingKey);
        }
        if !input.is_ascii() {
            return Err(KeystrokeError::NonAscii);
        }
        let k = last_component(&s);
        if k == s.len() {
            return Err(KeystrokeError::MissingKey);
        }
        let mut mods: u32 = 0;
        assert(0u32 & !0x249u32 == 0) by (bit_vector);
        let mut prev: Option<(usize, usize, u8)> = None;
        let mut i: usize = 0;
        let ghost whole = scan_modifiers(s@, 0, 0, None);
        loop
            invariant
                i <= s@.len(),
                s@ == input@,
                s@.len() > 0,
                vstd::utf8::is_ascii_chars(s@),
                k == key_start(s@, s@.len() as int),
                k < s@.len(),
                whole == scan_modifiers(s@, 0, 0, None),
                scan_modifiers(s@, i as int, mods, prev_view(s@, prev)) == whole,
                prev matches Some((ps, pe, pr)) ==> ps <= pe <= s@.len() && pr < 4,
                mods & !named_modifier_bits() == 0,
            ensures
                mods & !named_modifier_bits() == 0,
                whole == Ok::<u32, KeyFault>(mods),
            decreases s@.len() - i,
        {
            let j = find_plus(&s, i);
            if j >= s.len() {
                assert(scan_modifiers(s@, i as int, mods, prev_view(s@, prev)) == Ok::<u32, KeyFault>(mods));
                break;
            }
            if j == i {
                return Err(KeystrokeError::EmptyComponent);
            }
            let name = substring(&s, i, j);
            let rank = match rank_of(name.as_str()) {
                None => return Err(KeystrokeError::UnknownModifier { name }),
                Some(rank) => rank,
            };
            let flag = flag_of(rank);
            if mods & flag == flag {
                return Err(KeystrokeError::RepeatedModifier { name });
            }
            if let Some((ps, pe, pr)) = prev {
                if rank < pr {
                    return Err(
                        KeystrokeError::ModifierOutOfOrder {
                            previous: substring(&s, ps, pe),
                            current: name,
                        },
                    );
                }
            }
            prev = Some((i, j, rank));
            proof {
                lemma_add_named(mods, flag);
            }
            mods = mods | flag;
            i = j + 1;
        }
        assert(whole == Ok::<u32, KeyFault>(mods));
        let key = substring(&s, k, s.len());
        if rank_of(key.as_str()).is_some() {
            return Err(KeystrokeError::MissingKey);
        }
        let code = expand(&s, k);
        match canonical_code(code.as_str()) {
            Some(c) => Ok(Keystroke { modifiers: mods, code: c }),
            None => Err(KeystrokeError::UnknownKey { name: key }),
        }
    }
}

/// The modifier read before, as plain values: its name and its rank.
pub open spec fn prev_view(s: Seq<char>, prev: Option<(usize, usize, u8)>) -> Option<(Seq<char>, nat)> {
    match prev {
        Some((ps, pe, pr)) => Some((s.subrange(ps as int, pe as int), pr as nat)),
        None => None,
    }
}

/// The spelling of the modifier at `rank`, executably.
fn name_of(rank: u8) -> (r: &'static str)
    requires
        rank < 4,
    ensures
        r@ == modifier_name(rank as nat),
{
    if rank == 0 {
        "meta"
    } else if rank == 1 {
        "shift"
    } else if rank == 2 {
        "alt"
    } else {
        "control"
    }
}

impl Keystroke {
    /// The canonical spelling. **It parses back to this keystroke** whenever
    /// the keystroke holds only the four modifiers the syntax names, so one
    /// keystroke has exactly one spelling.
    pub fn to_string(&self) -> (r: String)
        ensures
            r@ == render_keystroke(self@),
            self@.modifiers & !named_modifier_bits() == 0 ==> parse_keystroke(r@) == Ok::<
                Chord,
                KeyFault,
            >(self@),
    {
        proof {
            use_type_invariant(self);
            if self@.modifiers & !named_modifier_bits() == 0 {
                lemma_keystroke_round_trip(self@);
            }
        }
        let mut out = String::new();
        let mut rank: u8 = 0;
        while rank < 4
            invariant
                rank <= 4,
                modifier_prefix(self.modifiers, 0) == out@ + modifier_prefix(
                    self.modifiers,
                    rank as nat,
                ),
            decreases 4 - rank,
        {
            let flag = flag_of(rank);
            if self.modifiers & flag == flag {
                proof {
                    reveal_strlit("+");
                }
                let ghost before = out@;
                out.append(name_of(rank));
                out.append("+");
                assert(before + modifier_prefix(self.modifiers, rank as nat) =~= out@
                    + modifier_prefix(self.modifiers, (rank + 1) as nat));
            }
            rank = rank + 1;
        }
        assert(modifier_prefix(self.modifiers, 4) =~= Seq::<char>::empty());
        assert(out@ =~= modifier_prefix(self.modifiers, 0));
        out.append(self.code.as_str());
        out
    }
}

impl FromStr for Keystroke {
    type Err = KeystrokeError;

    /// [`Keystroke::parse`]; a keymap file reaches a value through `parse`.
    fn from_str(input: &str) -> (r: Result<Keystroke, KeystrokeError>)
        ensures
            match parse_keystroke(input@) {
                Ok(c) => r matches Ok(k) && k@ == c,
                Err(f) => r matches Err(e) && e@ == f,
            },
            r matches Ok(k) ==> writable(k@),
    {
        Keystroke::parse(input)
    }
}

/// The message for a keystroke parse failure.
pub open spec fn keystroke_error_text(e: KeyFault) -> Seq<char> {
    match e {
        KeyFault::MissingKey => "keystroke names no key"@,
        KeyFault::EmptyComponent => "keystroke has an empty component"@,
        KeyFault::NonAscii => "keystroke must be ASCII: keys are named by physical position, not by the character they produce"@,
        KeyFault::UnknownModifier(name) => "unknown modifier "@ + debug_quoted(name),
        KeyFault::RepeatedModifier(name) => "modifier "@ + debug_quoted(name) + " is repeated"@,
        KeyFault::ModifierOutOfOrder(previous, current) =>
            "modifiers must read meta+shift+alt+control; "@ + debug_quoted(current)
                + " follows "@ + debug_quoted(previous),
        KeyFault::UnknownKey(name) => "unknown key "@ + debug_quoted(name)
            + ": use a W3C code name such as \"BracketRight\", or a single letter or digit"@,
    }
}

impl KeystrokeError {
    /// The message: what is wrong with the keystroke.
    pub fn to_string(&self) -> (r: String)
        ensures
            r@ == keystroke_error_text(self@),
    {
        match self {
            KeystrokeError::MissingKey => "keystroke names no key".to_owned(),
            KeystrokeError::EmptyComponent => "keystroke has an empty component".to_owned(),
            KeystrokeError::NonAscii => "keystroke must be ASCII: keys are named by physical position, not by the character they produce".to_owned(),
            KeystrokeError::UnknownModifier { name } => {
                let mut out = "unknown modifier ".to_owned();
                out.append(debug_str(name.as_str()).as_str());
                out
            },
            KeystrokeError::RepeatedModifier { name } => {
                let mut out = "modifier ".to_owned();
                out.append(debug_str(name.as_str()).as_str());
                out.append(" is repeated");
                out
            },
            KeystrokeError::ModifierOutOfOrder { previous, current } => {
                let mut out = "modifiers must read meta+shift+alt+control; ".to_owned();
                out.append(debug_str(current.as_str()).as_str());
                out.append(" follows ");
                out.append(debug_str(previous.as_str()).as_str());
                out
            },
            KeystrokeError::UnknownKey { name } => {
                let mut out = "unknown key ".to_owned();
                out.append(debug_str(name.as_str()).as_str());
                out.append(
                    ": use a W3C code name such as \"BracketRight\", or a single letter or digit",
                );
                out
            },
        }
    }
}

// ---------------------------------------------------------------------------
// Round trip
// ---------------------------------------------------------------------------

/// What [`canonical_code`] states of every name `keyboard_types` accepts.
pub open spec fn code_shape(code: Seq<char>) -> bool {
    &&& code.len() >= 2
    &&& 'A' <= code[0] && code[0] <= 'Z'
    &&& forall|k: int| 0 <= k < code.len() ==> is_alnum(#[trigger] code[k])
}

/// The bits of the four modifiers the syntax names.
pub open spec fn named_modifier_bits() -> u32 {
    0x249
}

/// A keystroke the syntax can write: a W3C code, and only the four named
/// modifiers.
pub open spec fn writable(c: Chord) -> bool {
    &&& canonical(c.code)
    &&& c.modifiers & !named_modifier_bits() == 0
}

/// The named modifiers of `m` from `rank` on.
pub open spec fn modifiers_from(m: u32, rank: nat) -> u32
    decreases 4 - rank,
{
    if rank >= 4 {
        0
    } else {
        (if m & modifier_flag(rank) == modifier_flag(rank) {
            modifier_flag(rank)
        } else {
            0
        }) | modifiers_from(m, rank + 1)
    }
}

proof fn lemma_add_named(x: u32, f: u32)
    by (bit_vector)
    requires
        x & !0x249u32 == 0,
        f == 0x40u32 || f == 0x200u32 || f == 0x01u32 || f == 0x08u32,
    ensures
        (x | f) & !0x249u32 == 0,
{
}

proof fn lemma_or_assoc(x: u32, y: u32, z: u32)
    by (bit_vector)
    ensures
        (x | y) | z == x | (y | z),
        0u32 | z == z,
        x | 0u32 == x,
{
}

proof fn lemma_or_keeps_clear(x: u32, f: u32, g: u32)
    by (bit_vector)
    requires
        x & g == 0,
        f & g == 0,
    ensures
        (x | f) & g == 0,
{
}

proof fn lemma_flags_apart()
    by (bit_vector)
    ensures
        0x40u32 & 0x200u32 == 0,
        0x40u32 & 0x01u32 == 0,
        0x40u32 & 0x08u32 == 0,
        0x200u32 & 0x01u32 == 0,
        0x200u32 & 0x08u32 == 0,
        0x01u32 & 0x08u32 == 0,
        0u32 & 0x40u32 == 0,
        0u32 & 0x200u32 == 0,
        0u32 & 0x01u32 == 0,
        0u32 & 0x08u32 == 0,
{
}

proof fn lemma_named_bits(m: u32)
    by (bit_vector)
    requires
        m & !0x249u32 == 0,
    ensures
        m == (if m & 0x40u32 == 0x40u32 { 0x40u32 } else { 0u32 }) | ((if m & 0x200u32
            == 0x200u32 { 0x200u32 } else { 0u32 }) | ((if m & 0x01u32 == 0x01u32 {
            0x01u32
        } else {
            0u32
        }) | ((if m & 0x08u32 == 0x08u32 { 0x08u32 } else { 0u32 }) | 0u32))),
{
}

proof fn lemma_modifier_names()
    ensures
        forall|r: nat| r < 4 ==> #[trigger] modifier_name(r).len() >= 3,
        forall|r: nat, k: int|
            r < 4 && 0 <= k < modifier_name(r).len() ==> 'a' <= #[trigger] modifier_name(r)[k]
                && modifier_name(r)[k] <= 'z',
        forall|r: nat| r < 4 ==> #[trigger] modifier_rank(modifier_name(r)) == Some(r),
{
    reveal_strlit("meta");
    reveal_strlit("shift");
    reveal_strlit("alt");
    reveal_strlit("control");
    assert(modifier_name(0).len() == 4);
    assert(modifier_name(1).len() == 5);
    assert(modifier_name(2).len() == 3);
    assert(modifier_name(3).len() == 7);
}

proof fn lemma_next_plus(s: Seq<char>, i: int, e: int)
    requires
        0 <= i <= e <= s.len(),
        forall|k: int| i <= k < e ==> #[trigger] s[k] != '+',
        e == s.len() || s[e] == '+',
    ensures
        next_plus(s, i) == e,
    decreases e - i,
{
    if i < e {
        lemma_next_plus(s, i + 1, e);
    }
}

proof fn lemma_key_start(s: Seq<char>, b: int, j: int)
    requires
        0 <= b <= j <= s.len(),
        forall|k: int| b <= k < j ==> #[trigger] s[k] != '+',
        b == 0 || s[b - 1] == '+',
    ensures
        key_start(s, j) == b,
    decreases j - b,
{
    if b < j {
        lemma_key_start(s, b, j - 1);
    }
}

/// Reading the written modifiers from `rank` on collects exactly them.
proof fn lemma_scan(
    s: Seq<char>,
    i: int,
    acc: u32,
    prev: Option<(Seq<char>, nat)>,
    m: u32,
    rank: nat,
    code: Seq<char>,
)
    requires
        rank <= 4,
        0 <= i <= s.len(),
        s.subrange(i, s.len() as int) == modifier_prefix(m, rank) + code,
        code_shape(code),
        prev matches Some((_, pr)) ==> pr < rank,
        forall|r: nat| rank <= r < 4 ==> #[trigger] (acc & modifier_flag(r)) == 0,
    ensures
        scan_modifiers(s, i, acc, prev) == Ok::<u32, KeyFault>(acc | modifiers_from(m, rank)),
    decreases 4 - rank,
{
    lemma_modifier_names();
    lemma_or_assoc(acc, 0, 0);
    let rest = s.subrange(i, s.len() as int);
    if rank >= 4 {
        assert(rest == code);
        assert forall|k: int| i <= k < s.len() implies #[trigger] s[k] != '+' by {
            assert(rest[k - i] == s[k]);
            assert(is_alnum(code[k - i]));
        }
        lemma_next_plus(s, i, s.len() as int);
    } else if m & modifier_flag(rank) == modifier_flag(rank) {
        reveal_strlit("+");
        let name = modifier_name(rank);
        let tail = modifier_prefix(m, rank + 1) + code;
        assert(rest =~= name + ("+"@ + tail));
        let j = i + name.len();
        assert forall|k: int| i <= k < j implies #[trigger] s[k] != '+' by {
            assert(rest[k - i] == s[k]);
            assert('a' <= name[k - i]);
        }
        assert(s[j] == '+') by {
            assert(rest[name.len() as int] == s[j]);
        }
        lemma_next_plus(s, i, j);
        assert(s.subrange(i, j) =~= name) by {
            assert forall|k: int| 0 <= k < name.len() implies s.subrange(i, j)[k] == name[k] by {
                assert(rest[k] == s[i + k]);
            }
        }
        assert(s.subrange(j + 1, s.len() as int) =~= tail) by {
            assert forall|k: int| 0 <= k < tail.len() implies s.subrange(
                j + 1,
                s.len() as int,
            )[k] == tail[k] by {
                assert(rest[name.len() + 1 + k] == s[j + 1 + k]);
            }
        }
        lemma_flags_apart();
        assert forall|r: nat| rank + 1 <= r < 4 implies #[trigger] ((acc | modifier_flag(rank))
            & modifier_flag(r)) == 0 by {
            assert(acc & modifier_flag(r) == 0);
            lemma_or_keeps_clear(acc, modifier_flag(rank), modifier_flag(r));
        }
        assert(acc & modifier_flag(rank) == 0);
        lemma_scan(
            s,
            j + 1,
            acc | modifier_flag(rank),
            Some((name, rank)),
            m,
            rank + 1,
            code,
        );
        lemma_or_assoc(acc, modifier_flag(rank), modifiers_from(m, rank + 1));
    } else {
        lemma_scan(s, i, acc, prev, m, rank + 1, code);
        lemma_or_assoc(acc, 0, modifiers_from(m, rank + 1));
    }
}

/// What the modifiers `m` written in canonical order before the key name
/// `code` parse to: exactly those modifiers on the key `code` names.
proof fn lemma_spelled_keystroke(m: u32, code: Seq<char>)
    requires
        m & !named_modifier_bits() == 0,
        code_shape(code),
        w3c_code(code),
    ensures
        parse_keystroke(modifier_prefix(m, 0) + code) == Ok::<Chord, KeyFault>(
            Chord { modifiers: m, code: w3c_canonical(code)->Some_0 },
        ),
{
    lemma_modifier_names();
    reveal_strlit("+");
    let p = modifier_prefix(m, 0);
    let s = p + code;
    lemma_prefix_shape(m, 0);
    assert(s.len() > 0);
    assert(vstd::utf8::is_ascii_chars(s)) by {
        assert forall|k: int| 0 <= k < s.len() implies '\0' <= #[trigger] s[k] <= '\u{7f}' by {
            if k < p.len() {
                assert(s[k] == p[k]);
            } else {
                assert(s[k] == code[k - p.len()]);
                assert(is_alnum(code[k - p.len()]));
            }
        }
    }
    assert forall|k: int| p.len() <= k < s.len() implies #[trigger] s[k] != '+' by {
        assert(s[k] == code[k - p.len()]);
        assert(is_alnum(code[k - p.len()]));
    }
    lemma_key_start(s, p.len() as int, s.len() as int);
    assert(s.subrange(p.len() as int, s.len() as int) =~= code);
    assert(s.subrange(0, s.len() as int) =~= s);
    lemma_flags_apart();
    lemma_scan(s, 0, 0, None, m, 0, code);
    reveal_with_fuel(modifiers_from, 5);
    lemma_named_bits(m);
    lemma_or_assoc(0, 0, modifiers_from(m, 0));
    assert(modifiers_from(m, 0) == m);
    assert(scan_modifiers(s, 0, 0, None) == Ok::<u32, KeyFault>(m));
    assert(key_start(s, s.len() as int) == p.len());
    assert(expand_key(code) == code);
    assert(modifier_rank(code) is None) by {
        assert('A' <= code[0] <= 'Z');
        assert('a' <= modifier_name(0)[0]);
        assert('a' <= modifier_name(1)[0]);
        assert('a' <= modifier_name(2)[0]);
        assert('a' <= modifier_name(3)[0]);
    }
}

/// **A keystroke round-trips through its own spelling**: parsing what the
/// printer writes for a keystroke the syntax can express gives that
/// keystroke back.
pub proof fn lemma_keystroke_round_trip(c: Chord)
    requires
        writable(c),
    ensures
        parse_keystroke(render_keystroke(c)) == Ok::<Chord, KeyFault>(c),
{
    lemma_spelled_keystroke(c.modifiers, c.code);
}

/// The written modifiers are ASCII and `+`-terminated.
proof fn lemma_prefix_shape(m: u32, rank: nat)
    ensures
        forall|k: int|
            0 <= k < modifier_prefix(m, rank).len() ==> '\0' <= #[trigger] modifier_prefix(
                m,
                rank,
            )[k] <= '\u{7f}',
        modifier_prefix(m, rank).len() > 0 ==> modifier_prefix(m, rank)[modifier_prefix(
            m,
            rank,
        ).len() - 1] == '+',
    decreases 4 - rank,
{
    lemma_modifier_names();
    reveal_strlit("+");
    if rank < 4 {
        lemma_prefix_shape(m, rank + 1);
        if m & modifier_flag(rank) == modifier_flag(rank) {
            let name = modifier_name(rank);
            let rest = modifier_prefix(m, rank + 1);
            let whole = name + "+"@ + rest;
            assert forall|k: int| 0 <= k < whole.len() implies '\0' <= #[trigger] whole[k]
                <= '\u{7f}' by {
                if k < name.len() {
                    assert(whole[k] == name[k]);
                } else if k == name.len() {
                    assert(whole[k] == '+');
                } else {
                    assert(whole[k] == rest[k - name.len() - 1]);
                }
            }
        }
    }
}


/// The spelling of a key event: the modifiers held, in canonical order, then
/// the key's code name.
pub open spec fn event_spelling(meta: bool, shift: bool, alt: bool, control: bool, code: Seq<char>) -> Seq<char> {
    (if meta { "meta+"@ } else { Seq::empty() }) + (if shift { "shift+"@ } else { Seq::empty() })
        + (if alt { "alt+"@ } else { Seq::empty() }) + (if control { "control+"@ } else { Seq::empty() })
        + code
}

/// The keystroke a key event is: the held modifiers and the physical key's
/// W3C code name, read through the keystroke syntax. `None` for a key the
/// syntax cannot name, which is an exotic key rather than an error.
pub fn keystroke_from_event(meta: bool, shift: bool, alt: bool, control: bool, code: &str) -> (r:
    Option<Keystroke>)
    ensures
        match parse_keystroke(event_spelling(meta, shift, alt, control, code@)) {
            Ok(c) => r matches Some(k) && k@ == c,
            Err(_) => r is None,
        },
        w3c_code(code@) && code_shape(code@) ==> (r matches Some(k) && k@ == (Chord {
            modifiers: held_modifiers(meta, shift, alt, control),
            code: w3c_canonical(code@)->Some_0,
        })),
{
    let mut spelling = String::new();
    if meta {
        spelling.append("meta+");
    }
    if shift {
        spelling.append("shift+");
    }
    if alt {
        spelling.append("alt+");
    }
    if control {
        spelling.append("control+");
    }
    spelling.append(code);
    proof {
        assert(spelling@ =~= event_spelling(meta, shift, alt, control, code@));
        if w3c_code(code@) && code_shape(code@) {
            lemma_event_is_its_modifiers(meta, shift, alt, control, code@);
        }
    }
    match Keystroke::parse(spelling.as_str()) {
        Ok(k) => Some(k),
        Err(_) => None,
    }
}


/// The modifier bits of the keys held down: `meta` 0x40, `shift` 0x200,
/// `alt` 0x01 and `control` 0x08, together.
pub open spec fn held_modifiers(meta: bool, shift: bool, alt: bool, control: bool) -> u32 {
    (if meta { 0x40u32 } else { 0u32 }) | (if shift { 0x200u32 } else { 0u32 }) | (if alt {
        0x01u32
    } else {
        0u32
    }) | (if control { 0x08u32 } else { 0u32 })
}

/// Each held key sets its own modifier's bit, and nothing else is set.
proof fn lemma_held_bits(meta: bool, shift: bool, alt: bool, control: bool, m: u32)
    by (bit_vector)
    requires
        m == (if meta { 0x40u32 } else { 0u32 }) | (if shift { 0x200u32 } else { 0u32 }) | (if alt {
            0x01u32
        } else {
            0u32
        }) | (if control { 0x08u32 } else { 0u32 }),
    ensures
        (m & 0x40u32 == 0x40u32) == meta,
        (m & 0x200u32 == 0x200u32) == shift,
        (m & 0x01u32 == 0x01u32) == alt,
        (m & 0x08u32 == 0x08u32) == control,
        m & !0x249u32 == 0,
{
}

/// **A key event is its held modifiers on its physical key**: whichever of
/// `meta`, `shift`, `alt` and `control` are down, in any combination, the
/// event reads as the keystroke with exactly their bits on the key its W3C
/// code name names.
pub proof fn lemma_event_is_its_modifiers(
    meta: bool,
    shift: bool,
    alt: bool,
    control: bool,
    code: Seq<char>,
)
    requires
        w3c_code(code),
        code_shape(code),
    ensures
        parse_keystroke(event_spelling(meta, shift, alt, control, code)) == Ok::<Chord, KeyFault>(
            Chord {
                modifiers: held_modifiers(meta, shift, alt, control),
                code: w3c_canonical(code)->Some_0,
            },
        ),
{
    let m = held_modifiers(meta, shift, alt, control);
    lemma_held_bits(meta, shift, alt, control, m);
    reveal_strlit("meta+");
    reveal_strlit("shift+");
    reveal_strlit("alt+");
    reveal_strlit("control+");
    reveal_strlit("meta");
    reveal_strlit("shift");
    reveal_strlit("alt");
    reveal_strlit("control");
    reveal_strlit("+");
    let none = Seq::<char>::empty();
    assert(modifier_prefix(m, 4) == none);
    assert(modifier_prefix(m, 3) =~= (if control { "control+"@ } else { none }));
    assert(modifier_prefix(m, 2) =~= (if alt { "alt+"@ } else { none }) + modifier_prefix(m, 3));
    assert(modifier_prefix(m, 1) =~= (if shift { "shift+"@ } else { none }) + modifier_prefix(
        m,
        2,
    ));
    assert(modifier_prefix(m, 0) =~= (if meta { "meta+"@ } else { none }) + modifier_prefix(m, 1));
    assert(event_spelling(meta, shift, alt, control, code) =~= modifier_prefix(m, 0) + code);
    lemma_spelled_keystroke(m, code);
}

/// The long form a one-character key name abbreviates: `a` is `KeyA` and
/// `1` is `Digit1`.
pub open spec fn long_form(c: char) -> Seq<char> {
    if 'a' <= c && c <= 'z' {
        "Key"@ + seq![((c as u32) - 32) as char]
    } else {
        "Digit"@ + seq![c]
    }
}

/// Whether `prefix` can stand before a key: nothing, or components that end
/// in `+`.
pub open spec fn before_key(prefix: Seq<char>) -> bool {
    prefix.len() == 0 || prefix.last() == '+'
}

/// Whether `s` holds no `+`.
pub open spec fn plus_free(s: Seq<char>) -> bool {
    forall|k: int| 0 <= k < s.len() ==> #[trigger] s[k] != '+'
}

/// Where [`next_plus`] stops: the first `+` at or after `i`, or the end.
proof fn lemma_next_plus_stops(s: Seq<char>, i: int)
    requires
        0 <= i <= s.len(),
    ensures
        i <= next_plus(s, i) <= s.len(),
        forall|k: int| i <= k < next_plus(s, i) ==> #[trigger] s[k] != '+',
        next_plus(s, i) == s.len() || s[next_plus(s, i)] == '+',
    decreases s.len() - i,
{
    if i < s.len() && s[i] != '+' {
        lemma_next_plus_stops(s, i + 1);
    }
}

/// The modifier components are read the same whatever key follows them.
proof fn lemma_scan_before_key(
    m: Seq<char>,
    k1: Seq<char>,
    k2: Seq<char>,
    i: int,
    mods: u32,
    prev: Option<(Seq<char>, nat)>,
)
    requires
        before_key(m),
        plus_free(k1),
        plus_free(k2),
        0 <= i <= m.len(),
    ensures
        scan_modifiers(m + k1, i, mods, prev) == scan_modifiers(m + k2, i, mods, prev),
    decreases m.len() - i,
{
    let s1 = m + k1;
    let s2 = m + k2;
    if i == m.len() {
        assert forall|k: int| i <= k < s1.len() implies #[trigger] s1[k] != '+' by {
            assert(s1[k] == k1[k - m.len()]);
        }
        assert forall|k: int| i <= k < s2.len() implies #[trigger] s2[k] != '+' by {
            assert(s2[k] == k2[k - m.len()]);
        }
        lemma_next_plus(s1, i, s1.len() as int);
        lemma_next_plus(s2, i, s2.len() as int);
    } else {
        lemma_next_plus_stops(m, i);
        let e = next_plus(m, i);
        assert(e < m.len());
        assert forall|k: int| i <= k < e implies #[trigger] s1[k] != '+' by {
            assert(s1[k] == m[k]);
        }
        assert forall|k: int| i <= k < e implies #[trigger] s2[k] != '+' by {
            assert(s2[k] == m[k]);
        }
        assert(s1[e] == m[e] && s2[e] == m[e]);
        lemma_next_plus(s1, i, e);
        lemma_next_plus(s2, i, e);
        assert(s1.subrange(i, e) =~= s2.subrange(i, e));
        let name = s1.subrange(i, e);
        if name.len() > 0 {
            match modifier_rank(name) {
                Some(rank) => {
                    lemma_scan_before_key(
                        m,
                        k1,
                        k2,
                        e + 1,
                        mods | modifier_flag(rank),
                        Some((name, rank)),
                    );
                },
                None => {},
            }
        }
    }
}

/// The parse of a key written after `m` sees `m` as the modifiers and the
/// rest as the key.
proof fn lemma_key_after(m: Seq<char>, k: Seq<char>)
    requires
        before_key(m),
        plus_free(k),
        k.len() > 0,
    ensures
        key_start(m + k, (m + k).len() as int) == m.len(),
        (m + k).subrange(m.len() as int, (m + k).len() as int) == k,
{
    let s = m + k;
    assert forall|j: int| m.len() <= j < s.len() implies #[trigger] s[j] != '+' by {
        assert(s[j] == k[j - m.len()]);
    }
    if m.len() > 0 {
        assert(s[m.len() - 1] == m.last());
    }
    lemma_key_start(s, m.len() as int, s.len() as int);
    assert(s.subrange(m.len() as int, s.len() as int) =~= k);
}

/// **The shorthand is an abbreviation, not a second key**: a single letter
/// or digit after any modifiers parses exactly when its long form does, and
/// to the same keystroke.
pub proof fn lemma_shorthand_is_the_long_form(m: Seq<char>, c: char)
    requires
        before_key(m),
        ('a' <= c && c <= 'z') || ('0' <= c && c <= '9'),
    ensures
        (parse_keystroke(m + seq![c]) is Ok) == (parse_keystroke(m + long_form(c)) is Ok),
        parse_keystroke(m + seq![c]) is Ok ==> parse_keystroke(m + seq![c]) == parse_keystroke(
            m + long_form(c),
        ),
{
    reveal_strlit("Key");
    reveal_strlit("Digit");
    reveal_strlit("meta");
    reveal_strlit("shift");
    reveal_strlit("alt");
    reveal_strlit("control");
    let short = seq![c];
    let long = long_form(c);
    assert(plus_free(short));
    assert(plus_free(long));
    let s1 = m + short;
    let s2 = m + long;
    lemma_key_after(m, short);
    lemma_key_after(m, long);
    lemma_scan_before_key(m, short, long, 0, 0, None);
    assert(expand_key(short) == long);
    assert(expand_key(long) == long);
    assert(modifier_rank(short) is None);
    assert(long.len() != 3 && long.len() != 5 && long.len() != 7);
    assert(long[0] != 'm');
    assert(modifier_rank(long) is None);
    assert(vstd::utf8::is_ascii_chars(s1) == vstd::utf8::is_ascii_chars(s2)) by {
        if vstd::utf8::is_ascii_chars(s1) {
            assert forall|k: int| 0 <= k < s2.len() implies '\0' <= #[trigger] s2[k] <= '\u{7f}' by {
                if k < m.len() {
                    assert(s2[k] == s1[k]);
                }
            }
        }
        if vstd::utf8::is_ascii_chars(s2) {
            assert forall|k: int| 0 <= k < s1.len() implies '\0' <= #[trigger] s1[k] <= '\u{7f}' by {
                if k < m.len() {
                    assert(s1[k] == s2[k]);
                }
            }
        }
    }
}

} // verus!
