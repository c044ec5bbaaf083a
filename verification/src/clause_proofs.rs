//! Why printing a clause and parsing it back gives the same clause.
//!
//! The printer puts parentheses exactly where the grammar needs them, so each
//! parser level, started on what the printer wrote for that level, stops at
//! its end with the tree it was printed from.

use vstd::prelude::*;

use crate::context::{is_name_char, lemma_flag_named, lemma_spellings, spelling, FLAG_COUNT};
use crate::predicate::{
    Predicate, and_tail, at_op, doubled, ident_end, is_break, is_ws, level, or_tail, parens,
    parse_and, parse_atom, parse_clause, parse_eq, parse_or, parse_unary, render, skip_ws, take,
    well_named, all_ws, ClauseFault,
};

verus! {

/// What the printer writes where a position demands binding at least as
/// tightly as `least`.
pub open spec fn side(c: Predicate, least: nat) -> Seq<char> {
    parens(render(c), level(c) < least)
}

/// A character a printed clause may start with.
pub open spec fn opens_clause(ch: char) -> bool {
    ch == '!' || ch == '(' || is_name_char(ch)
}

/// `text` is written at `[a, e)` of `s`, reached from `i` by skipping
/// whitespace, and what follows it ends an identifier.
pub open spec fn placed(s: Seq<char>, i: int, a: int, e: int, text: Seq<char>) -> bool {
    &&& 0 <= i <= a <= e <= s.len()
    &&& skip_ws(s, i) == a
    &&& s.subrange(a, e) == text
    &&& (e == s.len() || is_break(s[e]))
}

proof fn lemma_opener(ch: char)
    requires
        opens_clause(ch),
    ensures
        !is_ws(ch),
{
}

proof fn lemma_skip_ws(s: Seq<char>, i: int)
    requires
        0 <= i <= s.len(),
    ensures
        i <= skip_ws(s, i) <= s.len(),
        skip_ws(s, skip_ws(s, i)) == skip_ws(s, i),
        skip_ws(s, i) < s.len() ==> !is_ws(s[skip_ws(s, i)]),
    decreases s.len() - i,
{
    if i < s.len() && is_ws(s[i]) {
        lemma_skip_ws(s, i + 1);
    }
}

proof fn lemma_take(s: Seq<char>, op: Seq<char>, j: int)
    requires
        0 <= j <= s.len(),
        op.len() >= 1,
    ensures
        take(s, op, j) == take(s, op, skip_ws(s, j)),
        take(s, op, j).0 ==> skip_ws(s, j) < take(s, op, j).1 <= s.len(),
        !take(s, op, j).0 ==> take(s, op, j).1 == skip_ws(s, j),
{
    lemma_skip_ws(s, j);
}

/// A tail loop reads its operator after skipping whitespace, so starting it
/// before or after that whitespace is the same.
proof fn lemma_tails_skip(s: Seq<char>, l: Predicate, j: int)
    requires
        0 <= j <= s.len(),
    ensures
        or_tail(s, l, j) == or_tail(s, l, skip_ws(s, j)),
        and_tail(s, l, j) == and_tail(s, l, skip_ws(s, j)),
{
    lemma_skip_ws(s, j);
    lemma_take(s, doubled('|'), j);
    lemma_take(s, doubled('&'), j);
    lemma_take(s, doubled('|'), skip_ws(s, j));
    lemma_take(s, doubled('&'), skip_ws(s, j));
}

/// An identifier that runs up to a break ends there.
proof fn lemma_ident_end(s: Seq<char>, a: int, e: int)
    requires
        0 <= a <= e <= s.len(),
        forall|k: int| a <= k < e ==> !is_break(#[trigger] s[k]),
        e == s.len() || is_break(s[e]),
    ensures
        ident_end(s, a) == e,
    decreases e - a,
{
    if a < e {
        lemma_ident_end(s, a + 1, e);
    }
}

/// A printed clause is not empty and starts with `!`, `(` or a name.
proof fn lemma_opens(c: Predicate, least: nat)
    requires
        well_named(c),
    ensures
        render(c).len() > 0,
        opens_clause(render(c)[0]),
        side(c, least).len() > 0,
        opens_clause(side(c, least)[0]),
    decreases c,
{
    lemma_spellings();
    match c {
        Predicate::Flag(f) => {
            assert(is_name_char(spelling(f.index())[0]));
        },
        Predicate::Not(x) => {},
        Predicate::And(l, r) => {
            lemma_opens(*l, 2);
            assert(render(c)[0] == side(*l, 2)[0]);
        },
        Predicate::Or(l, r) => {
            lemma_opens(*l, 1);
            assert(render(c)[0] == side(*l, 1)[0]);
        },
        Predicate::Eq(l, r) => {
            lemma_opens(*l, 4);
            assert(render(c)[0] == side(*l, 4)[0]);
        },
    }
}

/// Where the pieces of a three-part text sit.
proof fn lemma_split3(s: Seq<char>, a: int, e: int, x: Seq<char>, y: Seq<char>, z: Seq<char>)
    requires
        0 <= a <= e <= s.len(),
        s.subrange(a, e) == x + y + z,
    ensures
        e == a + x.len() + y.len() + z.len(),
        s.subrange(a, a + x.len()) == x,
        s.subrange(a + x.len(), a + x.len() + y.len()) == y,
        s.subrange(a + x.len() + y.len(), e) == z,
        forall|k: int| 0 <= k < y.len() ==> s[a + x.len() + k] == #[trigger] y[k],
{
    let w = x + y + z;
    assert(w.len() == e - a);
    assert forall|k: int| 0 <= k < x.len() implies s.subrange(a, a + x.len())[k] == x[k] by {
        assert(s.subrange(a, e)[k] == w[k]);
    }
    assert(s.subrange(a, a + x.len()) =~= x);
    assert forall|k: int| 0 <= k < y.len() implies s[a + x.len() + k] == y[k] by {
        assert(s.subrange(a, e)[x.len() + k] == w[x.len() + k]);
    }
    assert(s.subrange(a + x.len(), a + x.len() + y.len()) =~= y);
    assert forall|k: int| 0 <= k < z.len() implies s.subrange(
        a + x.len() + y.len(),
        e,
    )[k] == z[k] by {
        assert(s.subrange(a, e)[x.len() + y.len() + k] == w[x.len() + y.len() + k]);
    }
    assert(s.subrange(a + x.len() + y.len(), e) =~= z);
}

/// The order the four level lemmas may call each other in on one clause:
/// `which` is 0 for unary, 1 for `==`, 2 for `&&`, 3 for `||`.
pub open spec fn rank(which: nat, lv: nat) -> nat {
    if lv == 1 {
        if which == 0 { 1 } else if which == 1 { 2 } else if which == 2 { 3 } else { 0 }
    } else if lv == 2 {
        if which == 0 { 2 } else if which == 1 { 3 } else if which == 2 { 0 } else { 1 }
    } else if lv == 3 {
        if which == 0 { 3 } else if which == 1 { 0 } else if which == 2 { 1 } else { 2 }
    } else {
        which
    }
}

/// One character written at `j` that is not the start of `op`.
proof fn lemma_not_at(s: Seq<char>, j: int, op: Seq<char>)
    requires
        0 <= j < s.len(),
        op.len() >= 1,
        s[j] != op[0],
    ensures
        !at_op(s, j, op),
{
    if at_op(s, j, op) {
        assert(s.subrange(j, j + op.len())[0] == s[j]);
    }
}

/// The single character `ch` written at `j`.
proof fn lemma_at1(s: Seq<char>, j: int, ch: char)
    requires
        0 <= j < s.len(),
        s[j] == ch,
    ensures
        at_op(s, j, seq![ch]),
{
    assert(s.subrange(j, j + 1) =~= seq![ch]);
}

/// An operator written as ` op ` after position `e`: skipping the blank
/// reaches it, and it is there.
proof fn lemma_spaced_op(s: Seq<char>, e: int, op: Seq<char>)
    requires
        0 <= e,
        e + 3 < s.len(),
        op.len() == 2,
        s[e] == ' ',
        s[e + 1] == op[0],
        s[e + 2] == op[1],
        !is_ws(op[0]),
        s[e + 3] == ' ',
    ensures
        skip_ws(s, e) == e + 1,
        at_op(s, e + 1, op),
        take(s, op, e) == (true, e + 3),
{
    assert(is_ws(s[e]));
    assert(skip_ws(s, e + 1) == e + 1);
    assert(s.subrange(e + 1, e + 3) =~= op);
}

/// The unary level reads back what the printer wrote for it.
#[verifier::spinoff_prover]
#[verifier::rlimit(40)]
proof fn lemma_unary(s: Seq<char>, i: int, a: int, e: int, c: Predicate)
    requires
        well_named(c),
        placed(s, i, a, e, side(c, 4)),
    ensures
        parse_unary(s, i) == Ok::<(Predicate, int), ClauseFault>((c, e)),
    decreases c, rank(0, level(c)),
{
    let t = side(c, 4);
    lemma_opens(c, 4);
    assert(s[a] == t[0]) by {
        assert(s.subrange(a, e)[0] == s[a]);
    }
    assert(!is_ws(s[a]));
    match c {
        Predicate::Flag(f) => {
            lemma_spellings();
            lemma_flag_named(f);
            lemma_not_at(s, a, seq!['!']);
            lemma_not_at(s, a, seq!['(']);
            assert forall|k: int| a <= k < e implies !is_break(#[trigger] s[k]) by {
                assert(s.subrange(a, e)[k - a] == s[k]);
                assert(is_name_char(spelling(f.index())[k - a]));
            }
            lemma_ident_end(s, a, e);
            assert(skip_ws(s, a) == a);
            assert(take(s, seq!['!'], i) == (false, a));
            assert(take(s, seq!['('], a) == (false, a));
            assert(s.subrange(a, e) == spelling(f.index()));
            assert(parse_atom(s, a) == Ok::<(Predicate, int), ClauseFault>((c, e)));
        },
        Predicate::Not(x) => {
            assert(t == seq!['!'] + side(*x, 4));
            lemma_at1(s, a, '!');
            lemma_opens(*x, 4);
            assert(s.subrange(a + 1, e) =~= side(*x, 4)) by {
                assert forall|k: int| 0 <= k < e - (a + 1) implies s.subrange(a + 1, e)[k]
                    == side(*x, 4)[k] by {
                    assert(s.subrange(a, e)[k + 1] == t[k + 1]);
                }
            }
            assert(s[a + 1] == side(*x, 4)[0]) by {
                assert(s.subrange(a + 1, e)[0] == s[a + 1]);
            }
            assert(skip_ws(s, a + 1) == a + 1);
            lemma_unary(s, a + 1, a + 1, e, *x);
        },
        _ => {
            assert(level(c) < 4);
            assert(t == seq!['('] + render(c) + seq![')']);
            lemma_split3(s, a, e, seq!['('], render(c), seq![')']);
            lemma_not_at(s, a, seq!['!']);
            lemma_at1(s, a, '(');
            lemma_opens(c, 1);
            assert(s[a + 1] == render(c)[0]);
            assert(skip_ws(s, a + 1) == a + 1);
            assert(s[e - 1] == ')') by {
                assert(s.subrange(a + 1 + render(c).len(), e)[0] == s[e - 1]);
            }
            assert(skip_ws(s, e - 1) == e - 1);
            lemma_not_at(s, e - 1, doubled('='));
            lemma_not_at(s, e - 1, doubled('&'));
            lemma_not_at(s, e - 1, doubled('|'));
            assert(side(c, 1) == render(c));
            lemma_or(s, a + 1, a + 1, e - 1, c);
            lemma_at1(s, e - 1, ')');
        },
    }
}

/// The `==` level reads back what the printer wrote for it, and stops after
/// the whitespace that follows.
#[verifier::spinoff_prover]
#[verifier::rlimit(40)]
proof fn lemma_eq(s: Seq<char>, i: int, a: int, e: int, c: Predicate)
    requires
        well_named(c),
        placed(s, i, a, e, side(c, 3)),
        !at_op(s, skip_ws(s, e), doubled('=')),
    ensures
        parse_eq(s, i) == Ok::<(Predicate, int), ClauseFault>((c, skip_ws(s, e))),
    decreases c, rank(1, level(c)),
{
    lemma_skip_ws(s, e);
    match c {
        Predicate::Eq(l, r) => {
            reveal_strlit(" == ");
            assert(" == "@[0] == ' ' && " == "@[1] == '=' && " == "@[2] == '='
                && " == "@[3] == ' ');
            let x = side(*l, 4);
            let y = side(*r, 4);
            assert(side(c, 3) == x + " == "@ + y);
            lemma_split3(s, a, e, x, " == "@, y);
            let el = a + x.len();
            lemma_opens(*r, 4);
            assert(s[el + 4] == y[0]) by {
                assert(s.subrange(el + 4, e)[0] == s[el + 4]);
            }
            lemma_spaced_op(s, el, doubled('='));
            lemma_unary(s, i, a, el, *l);
            assert(skip_ws(s, el + 3) == el + 4) by {
                assert(is_ws(s[el + 3]));
                lemma_opener(y[0]);
                assert(skip_ws(s, el + 4) == el + 4);
            }
            lemma_unary(s, el + 3, el + 4, e, *r);
        },
        _ => {
            assert(side(c, 3) == side(c, 4));
            lemma_unary(s, i, a, e, c);
            lemma_take(s, doubled('='), e);
        },
    }
}

/// The `&&` level, started on what the printer wrote for it, carries on
/// exactly as the conjunction loop would from the end of that text.
#[verifier::spinoff_prover]
#[verifier::rlimit(40)]
proof fn lemma_and(s: Seq<char>, i: int, a: int, e: int, c: Predicate)
    requires
        well_named(c),
        placed(s, i, a, e, side(c, 2)),
        !at_op(s, skip_ws(s, e), doubled('=')),
    ensures
        parse_and(s, i) == and_tail(s, c, e),
    decreases c, rank(2, level(c)),
{
    lemma_skip_ws(s, e);
    match c {
        Predicate::And(l, r) => {
            reveal_strlit(" && ");
            assert(" && "@[0] == ' ' && " && "@[1] == '&' && " && "@[2] == '&'
                && " && "@[3] == ' ');
            let x = side(*l, 2);
            let y = side(*r, 3);
            assert(side(c, 2) == x + " && "@ + y);
            lemma_split3(s, a, e, x, " && "@, y);
            let el = a + x.len();
            lemma_opens(*r, 3);
            assert(s[el + 4] == y[0]) by {
                assert(s.subrange(el + 4, e)[0] == s[el + 4]);
            }
            lemma_spaced_op(s, el, doubled('&'));
            lemma_not_at(s, el + 1, doubled('='));
            lemma_and(s, i, a, el, *l);
            assert(skip_ws(s, el + 3) == el + 4) by {
                assert(is_ws(s[el + 3]));
                lemma_opener(y[0]);
                assert(skip_ws(s, el + 4) == el + 4);
            }
            lemma_eq(s, el + 3, el + 4, e, *r);
            lemma_tails_skip(s, c, e);
        },
        _ => {
            assert(side(c, 2) == side(c, 3));
            lemma_eq(s, i, a, e, c);
            lemma_tails_skip(s, c, e);
        },
    }
}

/// The `||` level, started on what the printer wrote for it, carries on
/// exactly as the disjunction loop would from the end of that text.
#[verifier::spinoff_prover]
#[verifier::rlimit(40)]
proof fn lemma_or(s: Seq<char>, i: int, a: int, e: int, c: Predicate)
    requires
        well_named(c),
        placed(s, i, a, e, side(c, 1)),
        !at_op(s, skip_ws(s, e), doubled('=')),
        !at_op(s, skip_ws(s, e), doubled('&')),
    ensures
        parse_or(s, i) == or_tail(s, c, e),
    decreases c, rank(3, level(c)),
{
    lemma_skip_ws(s, e);
    match c {
        Predicate::Or(l, r) => {
            reveal_strlit(" || ");
            assert(" || "@[0] == ' ' && " || "@[1] == '|' && " || "@[2] == '|'
                && " || "@[3] == ' ');
            let x = side(*l, 1);
            let y = side(*r, 2);
            assert(side(c, 1) == x + " || "@ + y);
            lemma_split3(s, a, e, x, " || "@, y);
            let el = a + x.len();
            lemma_opens(*r, 2);
            assert(s[el + 4] == y[0]) by {
                assert(s.subrange(el + 4, e)[0] == s[el + 4]);
            }
            lemma_spaced_op(s, el, doubled('|'));
            lemma_not_at(s, el + 1, doubled('='));
            lemma_not_at(s, el + 1, doubled('&'));
            lemma_or(s, i, a, el, *l);
            assert(skip_ws(s, el + 3) == el + 4) by {
                assert(is_ws(s[el + 3]));
                lemma_opener(y[0]);
                assert(skip_ws(s, el + 4) == el + 4);
            }
            lemma_and(s, el + 3, el + 4, e, *r);
            lemma_take(s, doubled('&'), e);
            lemma_tails_skip(s, c, e);
        },
        _ => {
            assert(side(c, 1) == side(c, 2));
            lemma_and(s, i, a, e, c);
            lemma_take(s, doubled('&'), e);
            lemma_tails_skip(s, c, e);
        },
    }
}

/// **Printing and parsing are inverses**: the canonical spelling of any
/// clause parses back to that clause.
pub proof fn lemma_print_then_parse(p: Predicate)
    requires
        well_named(p),
    ensures
        parse_clause(render(p)) == Ok::<Predicate, ClauseFault>(p),
{
    let s = render(p);
    let n = s.len() as int;
    lemma_opens(p, 1);
    assert(!is_ws(s[0]));
    assert(!all_ws(s));
    assert(skip_ws(s, 0) == 0);
    assert(s.subrange(0, n) =~= s);
    assert(skip_ws(s, n) == n);
    assert(side(p, 1) == s);
    lemma_or(s, 0, 0, n, p);
    lemma_take(s, doubled('|'), n);
}


/// Whether `w` is a run of the ASCII blanks that end an identifier: spaces,
/// tabs, carriage returns and line feeds, in any number, none included.
pub open spec fn ascii_blanks(w: Seq<char>) -> bool {
    forall|k: int|
        0 <= k < w.len() ==> (#[trigger] w[k] == ' ' || w[k] == '\t' || w[k] == '\r' || w[k]
            == '\n')
}

/// Skipping whitespace from `i` stops at the first character that is not.
proof fn lemma_skip_run(s: Seq<char>, i: int, j: int)
    requires
        0 <= i <= j <= s.len(),
        forall|k: int| i <= k < j ==> is_ws(#[trigger] s[k]),
        j == s.len() || !is_ws(s[j]),
    ensures
        skip_ws(s, i) == j,
    decreases j - i,
{
    if i < j {
        lemma_skip_run(s, i + 1, j);
    }
}

/// Where the pieces of `x w1 op w2 y` sit, `w1` and `w2` being runs of
/// ASCII blanks.
proof fn lemma_blank_layout(
    x: Seq<char>,
    w1: Seq<char>,
    op: Seq<char>,
    w2: Seq<char>,
    y: Seq<char>,
)
    requires
        x.len() > 0,
        y.len() > 0,
        opens_clause(x[0]),
        opens_clause(y[0]),
        op.len() == 2,
        is_break(op[0]),
        !is_ws(op[0]),
        ascii_blanks(w1),
        ascii_blanks(w2),
    ensures
        ({
            let s = x + w1 + op + w2 + y;
            let el = x.len() as int;
            let o = el + w1.len();
            let b = o + 2 + w2.len();
            let n = s.len() as int;
            &&& b < n
            &&& skip_ws(s, 0) == 0
            &&& s.subrange(0, el) == x
            &&& is_break(s[el])
            &&& s[o] == op[0]
            &&& skip_ws(s, el) == o
            &&& at_op(s, o, op)
            &&& skip_ws(s, o + 2) == b
            &&& s.subrange(b, n) == y
            &&& skip_ws(s, n) == n
            &&& !all_ws(s)
        }),
{
    let s = x + w1 + op + w2 + y;
    let el = x.len() as int;
    let o = el + w1.len();
    let b = o + 2 + w2.len();
    let n = s.len() as int;
    lemma_opener(x[0]);
    lemma_opener(y[0]);
    assert(s[0] == x[0]);
    assert(s[o] == op[0]);
    assert(s[b] == y[0]);
    assert forall|k: int| el <= k < o implies is_ws(#[trigger] s[k]) && is_break(s[k]) by {
        assert(s[k] == w1[k - el]);
    }
    assert forall|k: int| o + 2 <= k < b implies is_ws(#[trigger] s[k]) by {
        assert(s[k] == w2[k - o - 2]);
    }
    lemma_skip_run(s, el, o);
    lemma_skip_run(s, o + 2, b);
    assert(s.subrange(0, el) =~= x);
    assert(s.subrange(o, o + 2) =~= op);
    assert(s.subrange(b, n) =~= y);
    assert(!is_ws(s[0]));
}

/// The `||` level reads a disjunction with blanks of any run around its
/// operator to its end.
#[verifier::spinoff_prover]
#[verifier::rlimit(40)]
proof fn lemma_blank_or_level(l: Predicate, r: Predicate, w1: Seq<char>, w2: Seq<char>)
    requires
        well_named(l),
        well_named(r),
        ascii_blanks(w1),
        ascii_blanks(w2),
    ensures
        ({
            let s = side(l, 1) + w1 + doubled('|') + w2 + side(r, 2);
            parse_or(s, 0) == Ok::<(Predicate, int), ClauseFault>(
                (Predicate::Or(Box::new(l), Box::new(r)), s.len() as int),
            ) && !all_ws(s)
        }),
{
    let x = side(l, 1);
    let y = side(r, 2);
    let c = Predicate::Or(Box::new(l), Box::new(r));
    lemma_opens(l, 1);
    lemma_opens(r, 2);
    lemma_blank_layout(x, w1, doubled('|'), w2, y);
    let s = x + w1 + doubled('|') + w2 + y;
    let el = x.len() as int;
    let o = el + w1.len();
    let b = o + 2 + w2.len();
    let n = s.len() as int;
    lemma_not_at(s, o, doubled('='));
    lemma_not_at(s, o, doubled('&'));
    lemma_or(s, 0, 0, el, l);
    lemma_and(s, o + 2, b, n, r);
    assert(take(s, doubled('|'), el) == (true, o + 2));
    lemma_take(s, doubled('&'), n);
    lemma_take(s, doubled('|'), n);
    assert(and_tail(s, r, n) == Ok::<(Predicate, int), ClauseFault>((r, n)));
    assert(or_tail(s, c, n) == Ok::<(Predicate, int), ClauseFault>((c, n)));
}

/// The `&&` level reads a conjunction with blanks of any run around its
/// operator to its end.
#[verifier::spinoff_prover]
#[verifier::rlimit(40)]
proof fn lemma_blank_and_level(l: Predicate, r: Predicate, w1: Seq<char>, w2: Seq<char>)
    requires
        well_named(l),
        well_named(r),
        ascii_blanks(w1),
        ascii_blanks(w2),
    ensures
        ({
            let s = side(l, 2) + w1 + doubled('&') + w2 + side(r, 3);
            parse_and(s, 0) == Ok::<(Predicate, int), ClauseFault>(
                (Predicate::And(Box::new(l), Box::new(r)), s.len() as int),
            ) && !all_ws(s)
        }),
{
    let x = side(l, 2);
    let y = side(r, 3);
    let c = Predicate::And(Box::new(l), Box::new(r));
    lemma_opens(l, 2);
    lemma_opens(r, 3);
    lemma_blank_layout(x, w1, doubled('&'), w2, y);
    let s = x + w1 + doubled('&') + w2 + y;
    let el = x.len() as int;
    let o = el + w1.len();
    let b = o + 2 + w2.len();
    let n = s.len() as int;
    lemma_not_at(s, o, doubled('='));
    lemma_and(s, 0, 0, el, l);
    lemma_eq(s, o + 2, b, n, r);
    assert(take(s, doubled('&'), el) == (true, o + 2));
    lemma_take(s, doubled('&'), n);
    assert(and_tail(s, c, n) == Ok::<(Predicate, int), ClauseFault>((c, n)));
}

/// A top level that ends where the `&&` level ended reads no further.
proof fn lemma_or_over(s: Seq<char>, c: Predicate)
    requires
        parse_and(s, 0) == Ok::<(Predicate, int), ClauseFault>((c, s.len() as int)),
    ensures
        parse_or(s, 0) == Ok::<(Predicate, int), ClauseFault>((c, s.len() as int)),
{
    lemma_take(s, doubled('|'), s.len() as int);
}

/// The `==` level, and the levels above it, read a comparison with blanks of
/// any run around its operator to its end.
#[verifier::spinoff_prover]
#[verifier::rlimit(40)]
proof fn lemma_blank_eq_level(l: Predicate, r: Predicate, w1: Seq<char>, w2: Seq<char>)
    requires
        well_named(l),
        well_named(r),
        ascii_blanks(w1),
        ascii_blanks(w2),
    ensures
        ({
            let s = side(l, 4) + w1 + doubled('=') + w2 + side(r, 4);
            parse_or(s, 0) == Ok::<(Predicate, int), ClauseFault>(
                (Predicate::Eq(Box::new(l), Box::new(r)), s.len() as int),
            ) && !all_ws(s)
        }),
{
    let x = side(l, 4);
    let y = side(r, 4);
    let c = Predicate::Eq(Box::new(l), Box::new(r));
    lemma_opens(l, 4);
    lemma_opens(r, 4);
    lemma_blank_layout(x, w1, doubled('='), w2, y);
    let s = x + w1 + doubled('=') + w2 + y;
    let el = x.len() as int;
    let o = el + w1.len();
    let b = o + 2 + w2.len();
    let n = s.len() as int;
    lemma_unary(s, 0, 0, el, l);
    lemma_unary(s, o + 2, b, n, r);
    assert(take(s, doubled('='), el) == (true, o + 2));
    assert(!at_op(s, n, doubled('=')));
    assert(parse_eq(s, 0) == Ok::<(Predicate, int), ClauseFault>((c, n)));
    lemma_take(s, doubled('&'), n);
    lemma_take(s, doubled('|'), n);
    assert(and_tail(s, c, n) == Ok::<(Predicate, int), ClauseFault>((c, n)));
    assert(parse_and(s, 0) == Ok::<(Predicate, int), ClauseFault>((c, n)));
    assert(or_tail(s, c, n) == Ok::<(Predicate, int), ClauseFault>((c, n)));
}

/// A clause whose top level reads to the end of the text is that clause.
proof fn lemma_whole_clause(s: Seq<char>, c: Predicate)
    requires
        !all_ws(s),
        parse_or(s, 0) == Ok::<(Predicate, int), ClauseFault>((c, s.len() as int)),
    ensures
        parse_clause(s) == Ok::<Predicate, ClauseFault>(c),
{
}

/// **Blanks around `||` are insignificant**: a disjunction parses to the
/// same tree whatever run of spaces, tabs, carriage returns and line feeds
/// stands on either side of its operator, none included, for any two
/// clauses on either side.
#[verifier::spinoff_prover]
pub proof fn lemma_blanks_around_or(l: Predicate, r: Predicate, w1: Seq<char>, w2: Seq<char>)
    requires
        well_named(l),
        well_named(r),
        ascii_blanks(w1),
        ascii_blanks(w2),
    ensures
        parse_clause(side(l, 1) + w1 + "||"@ + w2 + side(r, 2)) == Ok::<Predicate, ClauseFault>(
            Predicate::Or(Box::new(l), Box::new(r)),
        ),
        parse_clause(side(l, 1) + w1 + "||"@ + w2 + side(r, 2)) == parse_clause(
            render(Predicate::Or(Box::new(l), Box::new(r))),
        ),
{
    reveal_strlit("||");
    assert("||"@ =~= doubled('|'));
    lemma_blank_or_level(l, r, w1, w2);
    lemma_whole_clause(
        side(l, 1) + w1 + doubled('|') + w2 + side(r, 2),
        Predicate::Or(Box::new(l), Box::new(r)),
    );
    lemma_print_then_parse(Predicate::Or(Box::new(l), Box::new(r)));
}

/// **Blanks around `&&` are insignificant**: a conjunction parses to the
/// same tree whatever run of spaces, tabs, carriage returns and line feeds
/// stands on either side of its operator, none included, for any two
/// clauses on either side.
#[verifier::spinoff_prover]
pub proof fn lemma_blanks_around_and(l: Predicate, r: Predicate, w1: Seq<char>, w2: Seq<char>)
    requires
        well_named(l),
        well_named(r),
        ascii_blanks(w1),
        ascii_blanks(w2),
    ensures
        parse_clause(side(l, 2) + w1 + "&&"@ + w2 + side(r, 3)) == Ok::<Predicate, ClauseFault>(
            Predicate::And(Box::new(l), Box::new(r)),
        ),
        parse_clause(side(l, 2) + w1 + "&&"@ + w2 + side(r, 3)) == parse_clause(
            render(Predicate::And(Box::new(l), Box::new(r))),
        ),
{
    reveal_strlit("&&");
    assert("&&"@ =~= doubled('&'));
    lemma_blank_and_level(l, r, w1, w2);
    lemma_or_over(
        side(l, 2) + w1 + doubled('&') + w2 + side(r, 3),
        Predicate::And(Box::new(l), Box::new(r)),
    );
    lemma_whole_clause(
        side(l, 2) + w1 + doubled('&') + w2 + side(r, 3),
        Predicate::And(Box::new(l), Box::new(r)),
    );
    lemma_print_then_parse(Predicate::And(Box::new(l), Box::new(r)));
}

/// **Blanks around `==` are insignificant**: a comparison parses to the
/// same tree whatever run of spaces, tabs, carriage returns and line feeds
/// stands on either side of its operator, none included, for any two
/// clauses on either side.
#[verifier::spinoff_prover]
pub proof fn lemma_blanks_around_eq(l: Predicate, r: Predicate, w1: Seq<char>, w2: Seq<char>)
    requires
        well_named(l),
        well_named(r),
        ascii_blanks(w1),
        ascii_blanks(w2),
    ensures
        parse_clause(side(l, 4) + w1 + "=="@ + w2 + side(r, 4)) == Ok::<Predicate, ClauseFault>(
            Predicate::Eq(Box::new(l), Box::new(r)),
        ),
        parse_clause(side(l, 4) + w1 + "=="@ + w2 + side(r, 4)) == parse_clause(
            render(Predicate::Eq(Box::new(l), Box::new(r))),
        ),
{
    reveal_strlit("==");
    assert("=="@ =~= doubled('='));
    lemma_blank_eq_level(l, r, w1, w2);
    lemma_whole_clause(
        side(l, 4) + w1 + doubled('=') + w2 + side(r, 4),
        Predicate::Eq(Box::new(l), Box::new(r)),
    );
    lemma_print_then_parse(Predicate::Eq(Box::new(l), Box::new(r)));
}

/// **Spacing around `||` is insignificant**: `l||r` written with no blanks
/// parses to the same tree as the spaced `l || r`.
pub proof fn lemma_tight_or_parses(l: Predicate, r: Predicate)
    requires
        well_named(l),
        well_named(r),
    ensures
        parse_clause(side(l, 1) + "||"@ + side(r, 2)) == Ok::<Predicate, ClauseFault>(
            Predicate::Or(Box::new(l), Box::new(r)),
        ),
        parse_clause(side(l, 1) + "||"@ + side(r, 2)) == parse_clause(
            side(l, 1) + " || "@ + side(r, 2),
        ),
{
    let none = Seq::<char>::empty();
    lemma_blanks_around_or(l, r, none, none);
    assert(side(l, 1) + none + "||"@ + none + side(r, 2) =~= side(l, 1) + "||"@ + side(r, 2));
    assert(render(Predicate::Or(Box::new(l), Box::new(r))) == side(l, 1) + " || "@ + side(r, 2));
}

/// **Spacing around `&&` is insignificant**: `l&&r` written with no blanks
/// parses to the same tree as the spaced `l && r`.
pub proof fn lemma_tight_and_parses(l: Predicate, r: Predicate)
    requires
        well_named(l),
        well_named(r),
    ensures
        parse_clause(side(l, 2) + "&&"@ + side(r, 3)) == Ok::<Predicate, ClauseFault>(
            Predicate::And(Box::new(l), Box::new(r)),
        ),
        parse_clause(side(l, 2) + "&&"@ + side(r, 3)) == parse_clause(
            side(l, 2) + " && "@ + side(r, 3),
        ),
{
    let none = Seq::<char>::empty();
    lemma_blanks_around_and(l, r, none, none);
    assert(side(l, 2) + none + "&&"@ + none + side(r, 3) =~= side(l, 2) + "&&"@ + side(r, 3));
    assert(render(Predicate::And(Box::new(l), Box::new(r))) == side(l, 2) + " && "@ + side(r, 3));
}

/// **Spacing around `==` is insignificant**: `l==r` written with no blanks
/// parses to the same tree as the spaced `l == r`.
pub proof fn lemma_tight_eq_parses(l: Predicate, r: Predicate)
    requires
        well_named(l),
        well_named(r),
    ensures
        parse_clause(side(l, 4) + "=="@ + side(r, 4)) == Ok::<Predicate, ClauseFault>(
            Predicate::Eq(Box::new(l), Box::new(r)),
        ),
        parse_clause(side(l, 4) + "=="@ + side(r, 4)) == parse_clause(
            side(l, 4) + " == "@ + side(r, 4),
        ),
{
    let none = Seq::<char>::empty();
    lemma_blanks_around_eq(l, r, none, none);
    assert(side(l, 4) + none + "=="@ + none + side(r, 4) =~= side(l, 4) + "=="@ + side(r, 4));
    assert(render(Predicate::Eq(Box::new(l), Box::new(r))) == side(l, 4) + " == "@ + side(r, 4));
}

} // verus!
