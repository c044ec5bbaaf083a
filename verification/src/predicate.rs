//! The condition language a keymap binding's `when` clause is written in.
//!
//! Deliberately small: five node kinds and four operators. It decides whether
//! a keystroke is ours at all, so every operator it gains becomes availability
//! that somebody has to debug.
//!
//! `!` binds tightest, then `==`, then `&&`, then `||`. `&&` and `||`
//! associate to the left; `==` does not associate at all.

use vstd::prelude::*;
use vstd::string::StringSliceAdditionalSpecFns;
use vstd::utf8::*;

use crate::context::{
    Flag, Flags, UnknownFlag, flag_named, is_flag_name, spelling, bit, holds,
};
use crate::text::{char_string, debug_quoted, debug_str, decimal, decimal_string};

verus! {

/// A parsed `when` clause.
#[derive(Debug, Eq, PartialEq)]
pub enum Predicate {
    /// A context condition is true.
    Flag(Flag),
    /// The negation of a predicate.
    Not(Box<Predicate>),
    /// Both sides are true.
    And(Box<Predicate>, Box<Predicate>),
    /// Either side is true.
    Or(Box<Predicate>, Box<Predicate>),
    /// Both sides have the same truth value.
    Eq(Box<Predicate>, Box<Predicate>),
}

impl Clone for Predicate {
    /// The same clause, node for node.
    fn clone(&self) -> (r: Predicate)
        ensures
            r == *self,
        decreases self,
    {
        match self {
            Predicate::Flag(f) => Predicate::Flag(*f),
            Predicate::Not(inner) => Predicate::Not(Box::new((**inner).clone())),
            Predicate::And(l, r) => Predicate::And(Box::new((**l).clone()), Box::new((**r).clone())),
            Predicate::Or(l, r) => Predicate::Or(Box::new((**l).clone()), Box::new((**r).clone())),
            Predicate::Eq(l, r) => Predicate::Eq(Box::new((**l).clone()), Box::new((**r).clone())),
        }
    }
}

/// Whether `p` holds in the context whose bits are `ctx`.
pub open spec fn eval(p: Predicate, ctx: u32) -> bool
    decreases p,
{
    match p {
        Predicate::Flag(f) => ctx & bit(f.index()) == bit(f.index()),
        Predicate::Not(inner) => !eval(*inner, ctx),
        Predicate::And(l, r) => eval(*l, ctx) && eval(*r, ctx),
        Predicate::Or(l, r) => eval(*l, ctx) || eval(*r, ctx),
        Predicate::Eq(l, r) => eval(*l, ctx) == eval(*r, ctx),
    }
}

/// Every leaf names one of the vocabulary's conditions.
pub open spec fn well_named(p: Predicate) -> bool
    decreases p,
{
    match p {
        Predicate::Flag(f) => f.index() < crate::context::FLAG_COUNT,
        Predicate::Not(inner) => well_named(*inner),
        Predicate::And(l, r) => well_named(*l) && well_named(*r),
        Predicate::Or(l, r) => well_named(*l) && well_named(*r),
        Predicate::Eq(l, r) => well_named(*l) && well_named(*r),
    }
}

/// Whether `predicate` holds in `ctx`.
pub fn evaluate(predicate: &Predicate, ctx: Flags) -> (r: bool)
    ensures
        r == eval(*predicate, ctx.bits()),
        *predicate matches Predicate::Flag(f) ==> (r <==> ctx.bits() & bit(f.index()) == bit(
            f.index(),
        )),
        *predicate matches Predicate::Not(p) ==> (r <==> !eval(*p, ctx.bits())),
        *predicate matches Predicate::And(a, b) ==> (r <==> (eval(*a, ctx.bits()) && eval(
            *b,
            ctx.bits(),
        ))),
        *predicate matches Predicate::Or(a, b) ==> (r <==> (eval(*a, ctx.bits()) || eval(
            *b,
            ctx.bits(),
        ))),
        *predicate matches Predicate::Eq(a, b) ==> (r <==> (eval(*a, ctx.bits()) == eval(
            *b,
            ctx.bits(),
        ))),
    decreases predicate,
{
    match predicate {
        Predicate::Flag(flag) => holds(ctx, flag.flags()),
        Predicate::Not(inner) => !evaluate(inner, ctx),
        Predicate::And(left, right) => evaluate(left, ctx) && evaluate(right, ctx),
        Predicate::Or(left, right) => evaluate(left, ctx) || evaluate(right, ctx),
        Predicate::Eq(left, right) => evaluate(left, ctx) == evaluate(right, ctx),
    }
}

/// **Each node means what its operator says**: a flag holds when its bit is
/// set, `!` flips, `&&` needs both sides, `||` needs either side (both
/// included), and `==` asks that the sides agree.
pub proof fn lemma_operator_meanings(f: Flag, l: Predicate, r: Predicate, ctx: u32)
    ensures
        eval(Predicate::Flag(f), ctx) <==> ctx & bit(f.index()) == bit(f.index()),
        eval(Predicate::Not(Box::new(l)), ctx) <==> !eval(l, ctx),
        eval(Predicate::And(Box::new(l), Box::new(r)), ctx) <==> (eval(l, ctx) && eval(r, ctx)),
        eval(Predicate::Or(Box::new(l), Box::new(r)), ctx) <==> (eval(l, ctx) || eval(r, ctx)),
        eval(Predicate::Eq(Box::new(l), Box::new(r)), ctx) <==> (eval(l, ctx) == eval(r, ctx)),
        eval(l, ctx) && eval(r, ctx) ==> eval(Predicate::Or(Box::new(l), Box::new(r)), ctx),
        !eval(l, ctx) && !eval(r, ctx) ==> !eval(Predicate::Or(Box::new(l), Box::new(r)), ctx),
{
}

// ---------------------------------------------------------------------------
// Printing
// ---------------------------------------------------------------------------

/// How tightly a node binds. Higher wins, and matches the grammar's order.
pub open spec fn level(p: Predicate) -> nat {
    match p {
        Predicate::Or(..) => 1,
        Predicate::And(..) => 2,
        Predicate::Eq(..) => 3,
        Predicate::Not(..) => 4,
        Predicate::Flag(..) => 5,
    }
}

/// `text` in parentheses when `wrap` says so.
pub open spec fn parens(text: Seq<char>, wrap: bool) -> Seq<char> {
    if wrap {
        seq!['('] + text + seq![')']
    } else {
        text
    }
}

/// The canonical spelling of a clause. Parentheses appear exactly where
/// precedence would otherwise change the meaning: a position accepts
/// unparenthesised what binds at least as tightly as `least`; the right side
/// of a left-associative operator demands one step tighter, and `==` demands
/// it on both sides because it does not associate.
pub open spec fn render(p: Predicate) -> Seq<char>
    decreases p,
{
    match p {
        Predicate::Flag(f) => spelling(f.index()),
        Predicate::Not(inner) => seq!['!'] + parens(render(*inner), level(*inner) < 4),
        Predicate::And(l, r) => parens(render(*l), level(*l) < 2) + " && "@ + parens(
            render(*r),
            level(*r) < 3,
        ),
        Predicate::Or(l, r) => parens(render(*l), level(*l) < 1) + " || "@ + parens(
            render(*r),
            level(*r) < 2,
        ),
        Predicate::Eq(l, r) => parens(render(*l), level(*l) < 4) + " == "@ + parens(
            render(*r),
            level(*r) < 4,
        ),
    }
}

/// How tightly a node binds, executably.
fn binding(predicate: &Predicate) -> (r: u8)
    ensures
        r == level(*predicate),
{
    match predicate {
        Predicate::Or(..) => 1,
        Predicate::And(..) => 2,
        Predicate::Eq(..) => 3,
        Predicate::Not(..) => 4,
        Predicate::Flag(..) => 5,
    }
}

/// Appends `child`'s spelling to `out`, in parentheses when it binds less
/// tightly than `least`.
fn write_side(out: &mut String, child: &Predicate, least: u8)
    ensures
        final(out)@ == old(out)@ + parens(render(*child), level(*child) < least),
    decreases child, 1nat,
{
    if binding(child) < least {
        proof {
            reveal_strlit("(");
            reveal_strlit(")");
        }
        let ghost before = out@;
        out.append("(");
        write_clause(out, child);
        out.append(")");
        assert(out@ =~= before + (seq!['('] + render(*child) + seq![')']));
    } else {
        write_clause(out, child);
    }
}

/// Appends the canonical spelling of `predicate` to `out`.
fn write_clause(out: &mut String, predicate: &Predicate)
    ensures
        final(out)@ == old(out)@ + render(*predicate),
    decreases predicate, 0nat,
{
    proof {
        reveal_strlit(" && ");
        reveal_strlit(" || ");
        reveal_strlit(" == ");
        reveal_strlit("!");
        reveal_strlit("(");
        reveal_strlit(")");
    }
    match predicate {
        Predicate::Flag(flag) => {
            let name = flag.to_string();
            out.append(name.as_str());
        },
        Predicate::Not(inner) => {
            out.append("!");
            write_side(out, inner, 4);
        },
        Predicate::And(l, r) => {
            write_side(out, l, 2);
            out.append(" && ");
            write_side(out, r, 3);
        },
        Predicate::Or(l, r) => {
            write_side(out, l, 1);
            out.append(" || ");
            write_side(out, r, 2);
        },
        Predicate::Eq(l, r) => {
            write_side(out, l, 4);
            out.append(" == ");
            write_side(out, r, 4);
        },
    }
}

impl Predicate {
    /// The canonical spelling, so parsing what this prints yields an equal
    /// value.
    pub fn to_string(&self) -> (r: String)
        ensures
            r@ == render(*self),
    {
        let mut out = String::new();
        write_clause(&mut out, self);
        out
    }
}


// ---------------------------------------------------------------------------
// Parsing
// ---------------------------------------------------------------------------

/// Why a `when` clause could not be parsed.
///
/// Every variant carries enough to fix the clause. Offsets are bytes into
/// the clause.
#[derive(Clone, Debug, Eq, PartialEq)]
pub enum PredicateError {
    /// The clause is empty or only whitespace.
    Empty,
    /// A name that is not a context flag. Carries which.
    UnknownFlag(UnknownFlag),
    /// Something appeared where a predicate had to start.
    Unexpected {
        /// What was written there.
        found: String,
        /// Byte offset into the clause.
        at: usize,
    },
    /// A `(` with no `)`.
    Unclosed {
        /// Byte offset where the `)` was expected.
        at: usize,
    },
    /// `a == b == c`, which is rejected rather than given a meaning.
    ChainedEq {
        /// Byte offset of the second `==`.
        at: usize,
    },
    /// A complete predicate, then more text.
    Trailing {
        /// What was left over.
        found: String,
        /// Byte offset into the clause.
        at: usize,
    },
}

/// A parse failure, with positions counted in characters.
pub ghost enum ClauseFault {
    Empty,
    Unknown(Seq<char>),
    Unexpected(Seq<char>, int),
    Unclosed(int),
    ChainedEq(int),
    Trailing(Seq<char>, int),
}

/// The failure an error value reports.
pub open spec fn fault_of(e: PredicateError) -> ClauseFault {
    match e {
        PredicateError::Empty => ClauseFault::Empty,
        PredicateError::UnknownFlag(u) => ClauseFault::Unknown(u.name@),
        PredicateError::Unexpected { found, at } => ClauseFault::Unexpected(found@, at as int),
        PredicateError::Unclosed { at } => ClauseFault::Unclosed(at as int),
        PredicateError::ChainedEq { at } => ClauseFault::ChainedEq(at as int),
        PredicateError::Trailing { found, at } => ClauseFault::Trailing(found@, at as int),
    }
}

/// Whether `c` has the Unicode `White_Space` property, which is what
/// `char::is_whitespace` answers.
pub open spec fn is_ws(c: char) -> bool {
    let u = c as u32;
    ||| 0x9 <= u <= 0xd
    ||| u == 0x20
    ||| u == 0x85
    ||| u == 0xa0
    ||| u == 0x1680
    ||| 0x2000 <= u <= 0x200a
    ||| u == 0x2028
    ||| u == 0x2029
    ||| u == 0x202f
    ||| u == 0x205f
    ||| u == 0x3000
}

/// Characters that end an identifier: the operator characters, the
/// parentheses and ASCII blanks. Everything else is part of a name, so an
/// unknown one is reported by [`Flag`] rather than by a second list here.
pub open spec fn is_break(c: char) -> bool {
    ||| c == '!'
    ||| c == '&'
    ||| c == '|'
    ||| c == '='
    ||| c == '('
    ||| c == ')'
    ||| c == ' '
    ||| c == '\t'
    ||| c == '\r'
    ||| c == '\n'
}

/// The first position at or after `i` that is not whitespace.
pub open spec fn skip_ws(s: Seq<char>, i: int) -> int
    decreases s.len() - i,
{
    if 0 <= i < s.len() && is_ws(s[i]) {
        skip_ws(s, i + 1)
    } else {
        i
    }
}

/// The first position at or after `i` that ends an identifier.
pub open spec fn ident_end(s: Seq<char>, i: int) -> int
    decreases s.len() - i,
{
    if 0 <= i < s.len() && !is_break(s[i]) {
        ident_end(s, i + 1)
    } else {
        i
    }
}

/// Whether `op` is written at position `i`.
pub open spec fn at_op(s: Seq<char>, i: int, op: Seq<char>) -> bool {
    0 <= i && i + op.len() <= s.len() && s.subrange(i, i + op.len()) == op
}

/// Skips whitespace and consumes `op` if it is next: whether it was, and
/// where the cursor ends up either way.
pub open spec fn take(s: Seq<char>, op: Seq<char>, i: int) -> (bool, int) {
    let j = skip_ws(s, i);
    if at_op(s, j, op) {
        (true, j + op.len())
    } else {
        (false, j)
    }
}

/// What sits at position `i`, for an error message: the next identifier, or
/// the single character if it is one that ends identifiers.
pub open spec fn word(s: Seq<char>, i: int) -> Seq<char> {
    if !(0 <= i < s.len()) {
        "end of input"@
    } else if is_break(s[i]) {
        seq![s[i]]
    } else {
        s.subrange(i, ident_end(s, i))
    }
}

/// Two of the same operator character, as `||`, `&&` and `==` are written.
pub open spec fn doubled(c: char) -> Seq<char> {
    seq![c, c]
}

/// The result of parsing one grammar level from a position.
pub type Step = Result<(Predicate, int), ClauseFault>;

/// `||`-separated conjunctions, associating to the left.
pub open spec fn parse_or(s: Seq<char>, i: int) -> Step
    decreases s.len() - i, 9nat,
{
    match parse_and(s, i) {
        Err(e) => Err(e),
        Ok((l, j)) => if i <= j <= s.len() {
            or_tail(s, l, j)
        } else {
            Err(ClauseFault::Empty)
        },
    }
}

/// The rest of a disjunction whose left side `l` ends at `j`.
pub open spec fn or_tail(s: Seq<char>, l: Predicate, j: int) -> Step
    decreases s.len() - j, 8nat,
{
    let (hit, k) = take(s, doubled('|'), j);
    if !hit {
        Ok((l, k))
    } else if !(j < k <= s.len()) {
        Err(ClauseFault::Empty)
    } else {
        match parse_and(s, k) {
            Err(e) => Err(e),
            Ok((r, m)) => if k <= m <= s.len() {
                or_tail(s, Predicate::Or(Box::new(l), Box::new(r)), m)
            } else {
                Err(ClauseFault::Empty)
            },
        }
    }
}

/// `&&`-separated comparisons, associating to the left.
pub open spec fn parse_and(s: Seq<char>, i: int) -> Step
    decreases s.len() - i, 7nat,
{
    match parse_eq(s, i) {
        Err(e) => Err(e),
        Ok((l, j)) => if i <= j <= s.len() {
            and_tail(s, l, j)
        } else {
            Err(ClauseFault::Empty)
        },
    }
}

/// The rest of a conjunction whose left side `l` ends at `j`.
pub open spec fn and_tail(s: Seq<char>, l: Predicate, j: int) -> Step
    decreases s.len() - j, 6nat,
{
    let (hit, k) = take(s, doubled('&'), j);
    if !hit {
        Ok((l, k))
    } else if !(j < k <= s.len()) {
        Err(ClauseFault::Empty)
    } else {
        match parse_eq(s, k) {
            Err(e) => Err(e),
            Ok((r, m)) => if k <= m <= s.len() {
                and_tail(s, Predicate::And(Box::new(l), Box::new(r)), m)
            } else {
                Err(ClauseFault::Empty)
            },
        }
    }
}

/// A unary term, optionally compared with `==` to one more. A second `==`
/// is refused rather than given a meaning.
pub open spec fn parse_eq(s: Seq<char>, i: int) -> Step
    decreases s.len() - i, 5nat,
{
    match parse_unary(s, i) {
        Err(e) => Err(e),
        Ok((l, j)) => if !(i <= j <= s.len()) {
            Err(ClauseFault::Empty)
        } else {
            let (hit, k) = take(s, doubled('='), j);
            if !hit {
                Ok((l, k))
            } else if !(j < k <= s.len()) {
                Err(ClauseFault::Empty)
            } else {
                match parse_unary(s, k) {
                    Err(e) => Err(e),
                    Ok((r, m)) => {
                        let m2 = skip_ws(s, m);
                        if at_op(s, m2, doubled('=')) {
                            Err(ClauseFault::ChainedEq(m2))
                        } else {
                            Ok((Predicate::Eq(Box::new(l), Box::new(r)), m2))
                        }
                    },
                }
            }
        },
    }
}

/// Any number of `!`, then an atom.
pub open spec fn parse_unary(s: Seq<char>, i: int) -> Step
    decreases s.len() - i, 4nat,
{
    let (hit, k) = take(s, seq!['!'], i);
    if hit {
        if !(i < k <= s.len()) {
            Err(ClauseFault::Empty)
        } else {
            match parse_unary(s, k) {
                Err(e) => Err(e),
                Ok((x, m)) => Ok((Predicate::Not(Box::new(x)), m)),
            }
        }
    } else if !(k == i || (i < k && k <= s.len())) {
        Err(ClauseFault::Empty)
    } else {
        parse_atom(s, k)
    }
}

/// A parenthesised clause, or a condition's name.
pub open spec fn parse_atom(s: Seq<char>, i: int) -> Step
    decreases s.len() - i, 3nat,
{
    let (hit, k) = take(s, seq!['('], i);
    if hit {
        if !(i < k <= s.len()) {
            Err(ClauseFault::Empty)
        } else {
            match parse_or(s, k) {
                Err(e) => Err(e),
                Ok((inner, m)) => {
                    let (closed, n) = take(s, seq![')'], m);
                    if closed {
                        Ok((inner, n))
                    } else {
                        Err(ClauseFault::Unclosed(n))
                    }
                },
            }
        }
    } else {
        let e = ident_end(s, k);
        if e == k {
            Err(ClauseFault::Unexpected(word(s, k), k))
        } else if is_flag_name(s.subrange(k, e)) {
            Ok((Predicate::Flag(flag_named(s.subrange(k, e))), e))
        } else {
            Err(ClauseFault::Unknown(s.subrange(k, e)))
        }
    }
}

/// Whether every character is whitespace, so that trimming leaves nothing.
pub open spec fn all_ws(s: Seq<char>) -> bool {
    forall|k: int| 0 <= k < s.len() ==> is_ws(#[trigger] s[k])
}

/// What a whole clause parses to, with positions counted in characters.
pub open spec fn parse_clause(s: Seq<char>) -> Result<Predicate, ClauseFault> {
    if all_ws(s) {
        Err(ClauseFault::Empty)
    } else {
        match parse_or(s, 0) {
            Err(e) => Err(e),
            Ok((p, j)) => {
                let j2 = skip_ws(s, j);
                if j2 < s.len() {
                    Err(ClauseFault::Trailing(word(s, j2), j2))
                } else {
                    Ok(p)
                }
            },
        }
    }
}

/// How many bytes the first `i` characters of `s` take in UTF-8.
pub open spec fn byte_offset(s: Seq<char>, i: int) -> int {
    encode_utf8(s.take(i)).len() as int
}

/// A failure with its character positions turned into byte offsets.
pub open spec fn in_bytes(s: Seq<char>, f: ClauseFault) -> ClauseFault {
    match f {
        ClauseFault::Unexpected(w, at) => ClauseFault::Unexpected(w, byte_offset(s, at)),
        ClauseFault::Unclosed(at) => ClauseFault::Unclosed(byte_offset(s, at)),
        ClauseFault::ChainedEq(at) => ClauseFault::ChainedEq(byte_offset(s, at)),
        ClauseFault::Trailing(w, at) => ClauseFault::Trailing(w, byte_offset(s, at)),
        other => other,
    }
}

/// Whether an executable step result is the specified one.
pub open spec fn agrees(r: Result<(Predicate, usize), PredicateError>, q: Step) -> bool {
    match (r, q) {
        (Ok((p, j)), Ok((p2, j2))) => p == p2 && j as int == j2,
        (Err(e), Err(f)) => fault_of(e) == f,
        _ => false,
    }
}

/// Whether `c` is whitespace, as `char::is_whitespace` answers.
fn is_whitespace(c: char) -> (r: bool)
    ensures
        r == is_ws(c),
{
    let u = c as u32;
    (0x9 <= u && u <= 0xd) || u == 0x20 || u == 0x85 || u == 0xa0 || u == 0x1680 || (0x2000 <= u
        && u <= 0x200a) || u == 0x2028 || u == 0x2029 || u == 0x202f || u == 0x205f || u
        == 0x3000
}

/// Whether `c` ends an identifier.
fn breaks(c: char) -> (r: bool)
    ensures
        r == is_break(c),
{
    c == '!' || c == '&' || c == '|' || c == '=' || c == '(' || c == ')' || c == ' ' || c == '\t'
        || c == '\r' || c == '\n'
}

/// How many bytes `c` takes in UTF-8.
fn utf8_width(c: char) -> (r: usize)
    ensures
        r == encode_scalar(c as u32).len(),
{
    let u = c as u32;
    proof {
        char_is_scalar(c);
    }
    if u <= 0x7f {
        1
    } else if u <= 0x7ff {
        2
    } else if u <= 0xffff {
        3
    } else {
        4
    }
}

/// UTF-8 encodes a concatenation piece by piece.
proof fn lemma_encode_concat(a: Seq<char>, b: Seq<char>)
    ensures
        encode_utf8(a + b) == encode_utf8(a) + encode_utf8(b),
    decreases a.len(),
{
    if a.len() == 0 {
        assert(a + b =~= b);
        assert(encode_utf8(a) =~= Seq::<u8>::empty());
        assert(encode_utf8(a) + encode_utf8(b) =~= encode_utf8(b));
    } else {
        assert((a + b).drop_first() =~= a.drop_first() + b);
        assert((a + b)[0] == a[0]);
        lemma_encode_concat(a.drop_first(), b);
        assert(encode_utf8(a + b) =~= encode_scalar(a[0] as u32) + encode_utf8(a.drop_first() + b));
    }
}

/// Counting bytes one character further.
proof fn lemma_byte_offset_step(s: Seq<char>, k: int)
    requires
        0 <= k < s.len(),
    ensures
        byte_offset(s, k + 1) == byte_offset(s, k) + encode_scalar(s[k] as u32).len(),
        byte_offset(s, k + 1) <= encode_utf8(s).len(),
{
    assert(s.take(k + 1) =~= s.take(k) + seq![s[k]]);
    lemma_encode_concat(s.take(k), seq![s[k]]);
    assert(seq![s[k]].drop_first() =~= Seq::<char>::empty());
    assert(encode_utf8(seq![s[k]]) =~= encode_scalar(s[k] as u32) + encode_utf8(
        Seq::<char>::empty(),
    ));
    assert(encode_utf8(Seq::<char>::empty()) =~= Seq::<u8>::empty());
    assert(s =~= s.take(k + 1) + s.skip(k + 1));
    lemma_encode_concat(s.take(k + 1), s.skip(k + 1));
}

/// The characters of one clause, and the cursor operations over them.
struct Parser {
    s: Vec<char>,
}

impl Parser {
    /// The first position at or after `i` that is not whitespace.
    fn skip_ws(&self, i: usize) -> (r: usize)
        requires
            i <= self.s@.len(),
        ensures
            r == skip_ws(self.s@, i as int),
            i <= r <= self.s@.len(),
    {
        let mut j = i;
        while j < self.s.len() && is_whitespace(self.s[j])
            invariant
                i <= j <= self.s@.len(),
                skip_ws(self.s@, j as int) == skip_ws(self.s@, i as int),
            decreases self.s@.len() - j,
        {
            j = j + 1;
        }
        j
    }

    /// The first position at or after `i` that ends an identifier.
    fn ident_end(&self, i: usize) -> (r: usize)
        requires
            i <= self.s@.len(),
        ensures
            r == ident_end(self.s@, i as int),
            i <= r <= self.s@.len(),
    {
        let mut j = i;
        while j < self.s.len() && !breaks(self.s[j])
            invariant
                i <= j <= self.s@.len(),
                ident_end(self.s@, j as int) == ident_end(self.s@, i as int),
            decreases self.s@.len() - j,
        {
            j = j + 1;
        }
        j
    }

    /// Skips whitespace and consumes the one-character operator `c`.
    fn take1(&self, c: char, i: usize) -> (r: (bool, usize))
        requires
            i <= self.s@.len(),
        ensures
            r.0 == take(self.s@, seq![c], i as int).0,
            r.1 as int == take(self.s@, seq![c], i as int).1,
            i <= r.1 <= self.s@.len(),
            r.0 ==> i < r.1,
    {
        let j = self.skip_ws(i);
        if j < self.s.len() && self.s[j] == c {
            assert(self.s@.subrange(j as int, j + 1) =~= seq![c]);
            (true, j + 1)
        } else {
            proof {
                if at_op(self.s@, j as int, seq![c]) {
                    assert(self.s@.subrange(j as int, j + 1)[0] == self.s@[j as int]);
                }
            }
            (false, j)
        }
    }

    /// Skips whitespace and consumes the two-character operator `cc`.
    fn take2(&self, c: char, i: usize) -> (r: (bool, usize))
        requires
            i <= self.s@.len(),
        ensures
            r.0 == take(self.s@, doubled(c), i as int).0,
            r.1 as int == take(self.s@, doubled(c), i as int).1,
            i <= r.1 <= self.s@.len(),
            r.0 ==> i < r.1,
    {
        let j = self.skip_ws(i);
        let found = self.at2(c, j);
        if found {
            (true, j + 2)
        } else {
            (false, j)
        }
    }

    /// Whether `cc` is written at position `j`.
    fn at2(&self, c: char, j: usize) -> (r: bool)
        requires
            j <= self.s@.len(),
        ensures
            r == at_op(self.s@, j as int, doubled(c)),
            r ==> j + 2 <= self.s.len(),
    {
        if j < self.s.len() && self.s.len() - j >= 2 && self.s[j] == c && self.s[j + 1] == c {
            assert(self.s@.subrange(j as int, j + 2) =~= doubled(c));
            true
        } else {
            proof {
                if at_op(self.s@, j as int, doubled(c)) {
                    assert(self.s@.subrange(j as int, j + 2)[0] == self.s@[j as int]);
                    assert(self.s@.subrange(j as int, j + 2)[1] == self.s@[j + 1]);
                }
            }
            false
        }
    }

    /// The characters from `from` to `to`, as a string.
    fn text(&self, from: usize, to: usize) -> (r: String)
        requires
            from <= to <= self.s@.len(),
        ensures
            r@ == self.s@.subrange(from as int, to as int),
    {
        let mut out = String::new();
        let mut k = from;
        while k < to
            invariant
                from <= k <= to <= self.s@.len(),
                out@ == self.s@.subrange(from as int, k as int),
            decreases to - k,
        {
            let one = char_string(self.s[k]);
            out.append(one.as_str());
            assert(out@ =~= self.s@.subrange(from as int, k + 1));
            k = k + 1;
        }
        out
    }

    /// What sits at position `i`, for an error message.
    fn word(&self, i: usize) -> (r: String)
        requires
            i <= self.s@.len(),
        ensures
            r@ == word(self.s@, i as int),
    {
        if i >= self.s.len() {
            "end of input".to_owned()
        } else if breaks(self.s[i]) {
            char_string(self.s[i])
        } else {
            let e = self.ident_end(i);
            self.text(i, e)
        }
    }

    fn or(&self, i: usize) -> (r: Result<(Predicate, usize), PredicateError>)
        requires
            i <= self.s@.len(),
        ensures
            r matches Err(e) ==> !(e is Empty),
            r matches Ok((p, _)) ==> well_named(p),
            agrees(r, parse_or(self.s@, i as int)),
            r matches Ok((_, j)) ==> i <= j <= self.s@.len(),
            r matches Err(e) ==> fault_in_range(fault_of(e), self.s@.len() as int),
        decreases self.s@.len() - i, 9nat,
    {
        match self.and(i) {
            Err(e) => Err(e),
            Ok((l, j)) => self.or_tail(l, j),
        }
    }

    fn or_tail(&self, l: Predicate, j: usize) -> (r: Result<(Predicate, usize), PredicateError>)
        requires
            j <= self.s@.len(),
            well_named(l),
        ensures
            r matches Err(e) ==> !(e is Empty),
            r matches Ok((p, _)) ==> well_named(p),
            agrees(r, or_tail(self.s@, l, j as int)),
            r matches Ok((_, m)) ==> j <= m <= self.s@.len(),
            r matches Err(e) ==> fault_in_range(fault_of(e), self.s@.len() as int),
        decreases self.s@.len() - j, 8nat,
    {
        let (hit, k) = self.take2('|', j);
        if !hit {
            return Ok((l, k));
        }
        match self.and(k) {
            Err(e) => Err(e),
            Ok((r, m)) => self.or_tail(Predicate::Or(Box::new(l), Box::new(r)), m),
        }
    }

    fn and(&self, i: usize) -> (r: Result<(Predicate, usize), PredicateError>)
        requires
            i <= self.s@.len(),
        ensures
            r matches Err(e) ==> !(e is Empty),
            r matches Ok((p, _)) ==> well_named(p),
            agrees(r, parse_and(self.s@, i as int)),
            r matches Ok((_, j)) ==> i <= j <= self.s@.len(),
            r matches Err(e) ==> fault_in_range(fault_of(e), self.s@.len() as int),
        decreases self.s@.len() - i, 7nat,
    {
        match self.eq(i) {
            Err(e) => Err(e),
            Ok((l, j)) => self.and_tail(l, j),
        }
    }

    fn and_tail(&self, l: Predicate, j: usize) -> (r: Result<(Predicate, usize), PredicateError>)
        requires
            j <= self.s@.len(),
            well_named(l),
        ensures
            r matches Err(e) ==> !(e is Empty),
            r matches Ok((p, _)) ==> well_named(p),
            agrees(r, and_tail(self.s@, l, j as int)),
            r matches Ok((_, m)) ==> j <= m <= self.s@.len(),
            r matches Err(e) ==> fault_in_range(fault_of(e), self.s@.len() as int),
        decreases self.s@.len() - j, 6nat,
    {
        let (hit, k) = self.take2('&', j);
        if !hit {
            return Ok((l, k));
        }
        match self.eq(k) {
            Err(e) => Err(e),
            Ok((r, m)) => self.and_tail(Predicate::And(Box::new(l), Box::new(r)), m),
        }
    }

    fn eq(&self, i: usize) -> (r: Result<(Predicate, usize), PredicateError>)
        requires
            i <= self.s@.len(),
        ensures
            r matches Err(e) ==> !(e is Empty),
            r matches Ok((p, _)) ==> well_named(p),
            agrees(r, parse_eq(self.s@, i as int)),
            r matches Ok((_, j)) ==> i <= j <= self.s@.len(),
            r matches Err(e) ==> fault_in_range(fault_of(e), self.s@.len() as int),
        decreases self.s@.len() - i, 5nat,
    {
        let (l, j) = match self.unary(i) {
            Err(e) => return Err(e),
            Ok(x) => x,
        };
        let (hit, k) = self.take2('=', j);
        if !hit {
            return Ok((l, k));
        }
        let (r, m) = match self.unary(k) {
            Err(e) => return Err(e),
            Ok(x) => x,
        };
        let m2 = self.skip_ws(m);
        if self.at2('=', m2) {
            return Err(PredicateError::ChainedEq { at: m2 });
        }
        Ok((Predicate::Eq(Box::new(l), Box::new(r)), m2))
    }

    fn unary(&self, i: usize) -> (r: Result<(Predicate, usize), PredicateError>)
        requires
            i <= self.s@.len(),
        ensures
            r matches Err(e) ==> !(e is Empty),
            r matches Ok((p, _)) ==> well_named(p),
            agrees(r, parse_unary(self.s@, i as int)),
            r matches Ok((_, j)) ==> i <= j <= self.s@.len(),
            r matches Err(e) ==> fault_in_range(fault_of(e), self.s@.len() as int),
        decreases self.s@.len() - i, 4nat,
    {
        let (hit, k) = self.take1('!', i);
        if hit {
            match self.unary(k) {
                Err(e) => Err(e),
                Ok((x, m)) => Ok((Predicate::Not(Box::new(x)), m)),
            }
        } else {
            self.atom(k)
        }
    }

    fn atom(&self, i: usize) -> (r: Result<(Predicate, usize), PredicateError>)
        requires
            i <= self.s@.len(),
        ensures
            r matches Err(e) ==> !(e is Empty),
            r matches Ok((p, _)) ==> well_named(p),
            agrees(r, parse_atom(self.s@, i as int)),
            r matches Ok((_, j)) ==> i <= j <= self.s@.len(),
            r matches Err(e) ==> fault_in_range(fault_of(e), self.s@.len() as int),
        decreases self.s@.len() - i, 3nat,
    {
        let (hit, k) = self.take1('(', i);
        if hit {
            let (inner, m) = match self.or(k) {
                Err(e) => return Err(e),
                Ok(x) => x,
            };
            let (closed, n) = self.take1(')', m);
            if closed {
                return Ok((inner, n));
            }
            return Err(PredicateError::Unclosed { at: n });
        }
        let e = self.ident_end(k);
        if e == k {
            return Err(PredicateError::Unexpected { found: self.word(k), at: k });
        }
        let name = self.text(k, e);
        match Flag::parse(name.as_str()) {
            Ok(flag) => Ok((Predicate::Flag(flag), e)),
            Err(unknown) => Err(PredicateError::UnknownFlag(unknown)),
        }
    }

    /// How many bytes the first `i` characters take.
    fn byte_offset(&self, i: usize, total: usize) -> (r: usize)
        requires
            i <= self.s@.len(),
            total == encode_utf8(self.s@).len(),
        ensures
            r == byte_offset(self.s@, i as int),
    {
        let mut k: usize = 0;
        let mut n: usize = 0;
        assert(self.s@.take(0) =~= Seq::<char>::empty());
        assert(encode_utf8(Seq::<char>::empty()) =~= Seq::<u8>::empty());
        while k < i
            invariant
                k <= i <= self.s@.len(),
                total == encode_utf8(self.s@).len(),
                n == byte_offset(self.s@, k as int),
            decreases i - k,
        {
            proof {
                lemma_byte_offset_step(self.s@, k as int);
            }
            n = n + utf8_width(self.s[k]);
            k = k + 1;
        }
        n
    }

    /// The same failure with its position counted in bytes.
    fn in_bytes(&self, e: PredicateError, total: usize) -> (r: PredicateError)
        requires
            total == encode_utf8(self.s@).len(),
            fault_in_range(fault_of(e), self.s@.len() as int),
        ensures
            fault_of(r) == in_bytes(self.s@, fault_of(e)),
    {
        match e {
            PredicateError::Unexpected { found, at } => PredicateError::Unexpected {
                found,
                at: self.byte_offset(at, total),
            },
            PredicateError::Unclosed { at } => PredicateError::Unclosed {
                at: self.byte_offset(at, total),
            },
            PredicateError::ChainedEq { at } => PredicateError::ChainedEq {
                at: self.byte_offset(at, total),
            },
            PredicateError::Trailing { found, at } => PredicateError::Trailing {
                found,
                at: self.byte_offset(at, total),
            },
            other => other,
        }
    }
}

/// Every position a failure carries lies within a clause of `len`
/// characters.
pub open spec fn fault_in_range(f: ClauseFault, len: int) -> bool {
    match f {
        ClauseFault::Unexpected(_, at) => 0 <= at <= len,
        ClauseFault::Unclosed(at) => 0 <= at <= len,
        ClauseFault::ChainedEq(at) => 0 <= at <= len,
        ClauseFault::Trailing(_, at) => 0 <= at <= len,
        _ => true,
    }
}

impl Parser {
    /// Whether every character is whitespace.
    fn blank(&self) -> (r: bool)
        ensures
            r == all_ws(self.s@),
    {
        let mut k: usize = 0;
        while k < self.s.len()
            invariant
                k <= self.s@.len(),
                forall|j: int| 0 <= j < k ==> is_ws(#[trigger] self.s@[j]),
            decreases self.s@.len() - k,
        {
            if !is_whitespace(self.s[k]) {
                return false;
            }
            k = k + 1;
        }
        true
    }
}

impl Predicate {
    /// Parses `palette_open`, `!palette_open`, `pane_live && has_selection`,
    /// `(a || b) && c`, `a == b`.
    ///
    /// The result is [`parse_clause`] of the clause's characters, with every
    /// position in an error counted in bytes.
    pub fn parse(input: &str) -> (r: Result<Predicate, PredicateError>)
        ensures
            (r matches Err(e) && e is Empty) <==> all_ws(input@),
            r matches Ok(p) ==> well_named(p),
            match parse_clause(input@) {
                Ok(p) => r == Ok::<Predicate, PredicateError>(p),
                Err(f) => r is Err && fault_of(r->Err_0) == in_bytes(input@, f),
            },
    {
        let total = input.as_bytes().len();
        let parser = Parser { s: crate::text::chars_of(input) };
        if parser.blank() {
            return Err(PredicateError::Empty);
        }
        match parser.or(0) {
            Err(e) => Err(parser.in_bytes(e, total)),
            Ok((p, j)) => {
                let j2 = parser.skip_ws(j);
                if j2 < parser.s.len() {
                    let e = PredicateError::Trailing { found: parser.word(j2), at: j2 };
                    Err(parser.in_bytes(e, total))
                } else {
                    Ok(p)
                }
            },
        }
    }
}

impl std::str::FromStr for Predicate {
    type Err = PredicateError;

    /// [`Predicate::parse`].
    fn from_str(input: &str) -> (r: Result<Predicate, PredicateError>)
        ensures
            (r matches Err(e) && e is Empty) <==> all_ws(input@),
            r matches Ok(p) ==> well_named(p),
            match parse_clause(input@) {
                Ok(p) => r == Ok::<Predicate, PredicateError>(p),
                Err(f) => r is Err && fault_of(r->Err_0) == in_bytes(input@, f),
            },
    {
        Predicate::parse(input)
    }
}

/// The message for a parse failure.
pub open spec fn error_text(e: PredicateError) -> Seq<char> {
    match e {
        PredicateError::Empty => "the clause is empty"@,
        PredicateError::UnknownFlag(u) => "unknown context flag "@ + debug_quoted(u.name@),
        PredicateError::Unexpected { found, at } => "unexpected "@ + debug_quoted(found@)
            + " at byte "@ + decimal(at as nat),
        PredicateError::Unclosed { at } => "unclosed parenthesis at byte "@ + decimal(at as nat),
        PredicateError::ChainedEq { at } => "`==` does not chain; parenthesise one side (byte "@
            + decimal(at as nat) + ")"@,
        PredicateError::Trailing { found, at } => "trailing "@ + debug_quoted(found@)
            + " after the clause at byte "@ + decimal(at as nat),
    }
}

impl PredicateError {
    /// The message: what went wrong, and where.
    pub fn to_string(&self) -> (r: String)
        ensures
            r@ == error_text(*self),
    {
        match self {
            PredicateError::Empty => "the clause is empty".to_owned(),
            PredicateError::UnknownFlag(u) => u.to_string(),
            PredicateError::Unexpected { found, at } => {
                let mut out = "unexpected ".to_owned();
                out.append(debug_str(found.as_str()).as_str());
                out.append(" at byte ");
                out.append(decimal_string(*at).as_str());
                out
            },
            PredicateError::Unclosed { at } => {
                let mut out = "unclosed parenthesis at byte ".to_owned();
                out.append(decimal_string(*at).as_str());
                out
            },
            PredicateError::ChainedEq { at } => {
                let mut out = "`==` does not chain; parenthesise one side (byte ".to_owned();
                out.append(decimal_string(*at).as_str());
                out.append(")");
                out
            },
            PredicateError::Trailing { found, at } => {
                let mut out = "trailing ".to_owned();
                out.append(debug_str(found.as_str()).as_str());
                out.append(" after the clause at byte ");
                out.append(decimal_string(*at).as_str());
                out
            },
        }
    }
}

/// How many assignments of the conditions there are: one per subset.
pub open spec fn assignment_count() -> u32 {
    1u32 << 17u32
}

/// Whether the assignment `ctx` is allowed by `exclusive` and satisfies both
/// clauses.
pub open spec fn joint_witness(a: Predicate, b: Predicate, exclusive: Seq<Flags>, ctx: u32) -> bool {
    !crate::context::spec_excludes(ctx, exclusive) && eval(a, ctx) && eval(b, ctx)
}

/// A context in which both predicates hold, if any exists.
///
/// Sweeps every assignment of the conditions in ascending order, skipping
/// those that hold two members of one `exclusive` group ("at most one of
/// these holds"), and returns the first one in which both clauses hold.
/// Exhaustive on purpose: the sweep is the option that is easy to trust.
pub fn satisfiable_together(a: &Predicate, b: &Predicate, exclusive: &[Flags]) -> (r: Option<
    Flags,
>)
    ensures
        r matches Some(ctx) ==> ctx.bits() < assignment_count() && joint_witness(
            *a,
            *b,
            exclusive@,
            ctx.bits(),
        ) && forall|c: u32| c < ctx.bits() ==> !joint_witness(*a, *b, exclusive@, c),
        r is None ==> forall|c: u32| c < assignment_count() ==> !joint_witness(*a, *b, exclusive@, c),
{
    let end: u32 = 1u32 << 17u32;
    let mut c: u32 = 0;
    while c < end
        invariant
            c <= end,
            end == assignment_count(),
            forall|d: u32| d < c ==> !joint_witness(*a, *b, exclusive@, d),
        decreases end - c,
    {
        let ctx = Flags::from_bits(c);
        if !crate::context::excludes(ctx, exclusive) && evaluate(a, ctx) && evaluate(b, ctx) {
            return Some(ctx);
        }
        c = c + 1;
    }
    None
}

} // verus!
