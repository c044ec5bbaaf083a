//! Routes every byte heading for a terminal through one dispatch point:
//! keystrokes, paste, snippet execution and palette sends.
//!
//! No pane owns its input: a path from a pane's key handler straight to its
//! terminal must never exist, because broadcast cannot be added past it.
//! Routing decides *which* panes receive *exactly which* bytes and hands
//! each decision to a caller-supplied `deliver`. Nothing here holds a pane
//! map, a session or a file descriptor, and nothing appends or strips a
//! byte: a command can be prefilled while the user stays responsible for
//! pressing Enter.

use std::cmp::Ordering;

use vstd::prelude::*;

verus! {

/// Identifies one pane on screen.
///
/// The shell mints these. A pane is a place input can be routed to and a
/// session can be shown in; it is **not** a session, and a pane outlives
/// reconnects that replace its session.
#[derive(Clone, Copy, Debug, Eq, Hash, Ord, PartialEq, Structural)]
pub struct PaneId(u64);

impl PaneId {
    /// The number the shell minted this pane with.
    pub closed spec fn number(self) -> u64 {
        self.0
    }

    /// **A pane is its number**: two ids are the same exactly when they
    /// were minted with the same number.
    pub proof fn lemma_number_identifies(a: PaneId, b: PaneId)
        ensures
            a.number() == b.number() <==> a == b,
    {
    }

    /// Creates an identifier for one pane on screen.
    pub fn new(n: u64) -> (r: PaneId)
        ensures
            r.number() == n,
    {
        PaneId(n)
    }
}

impl PartialOrd for PaneId {
    /// Panes order by the numbers they were minted with.
    fn partial_cmp(&self, other: &PaneId) -> (r: Option<Ordering>) {
        if self.0 < other.0 {
            Some(Ordering::Less)
        } else if self.0 == other.0 {
            Some(Ordering::Equal)
        } else {
            Some(Ordering::Greater)
        }
    }
}

impl vstd::std_specs::cmp::PartialOrdSpecImpl for PaneId {
    open spec fn obeys_partial_cmp_spec() -> bool {
        true
    }

    open spec fn partial_cmp_spec(&self, other: &PaneId) -> Option<Ordering> {
        if self.number() < other.number() {
            Some(Ordering::Less)
        } else if self.number() == other.number() {
            Some(Ordering::Equal)
        } else {
            Some(Ordering::Greater)
        }
    }
}

/// Selects the pane or panes that receive dispatched input.
#[derive(Debug, Eq, PartialEq)]
pub enum TargetSet {
    /// Input goes to the focused pane, when there is one and it is live.
    Focused,
    /// Input goes to each listed pane that is still live, in list order.
    Listed(Vec<PaneId>),
}

/// The panes a dispatch is aimed at, before liveness is asked: the focused
/// one if there is one, or the listed ones in order.
pub open spec fn targeted(targets: TargetSet, focused: Option<PaneId>) -> Seq<PaneId> {
    match targets {
        TargetSet::Focused => match focused {
            Some(id) => seq![id],
            None => Seq::empty(),
        },
        TargetSet::Listed(ids) => ids@,
    }
}

/// The members of `ids` whose answer in `live` is yes, in order.
pub open spec fn kept(ids: Seq<PaneId>, live: Seq<bool>) -> Seq<PaneId>
    decreases ids.len(),
{
    if ids.len() == 0 {
        Seq::empty()
    } else {
        let earlier = kept(ids.drop_last(), live);
        if live[ids.len() - 1] {
            earlier.push(ids.last())
        } else {
            earlier
        }
    }
}

/// The targeted panes that are live, in target order, as the liveness
/// check answered for each.
///
/// `is_live` is asked once per targeted pane, in order. What it answered is
/// all that decides: a pane that closed between targeting and dispatch is
/// left out quietly.
pub fn recipients<L: Fn(PaneId) -> bool>(
    targets: &TargetSet,
    focused: Option<PaneId>,
    is_live: &L,
) -> (r: Vec<PaneId>)
    requires
        forall|id: PaneId| #[trigger] is_live.requires((id,)),
    ensures
        exists|answers: Seq<bool>|
            {
                &&& answers.len() == targeted(*targets, focused).len()
                &&& forall|k: int|
                    0 <= k < answers.len() ==> is_live.ensures(
                        (targeted(*targets, focused)[k],),
                        #[trigger] answers[k],
                    )
                &&& r@ == kept(targeted(*targets, focused), answers)
            },
{
    let ghost ids = targeted(*targets, focused);
    let mut out: Vec<PaneId> = Vec::new();
    let ghost mut answers: Seq<bool> = Seq::empty();
    match targets {
        TargetSet::Focused => {
            if let Some(id) = focused {
                let live = is_live(id);
                proof {
                    answers = seq![live];
                    assert(ids.drop_last() =~= Seq::<PaneId>::empty());
                    assert(kept(ids.drop_last(), answers) =~= Seq::<PaneId>::empty());
                }
                if live {
                    out.push(id);
                }
                proof {
                    assert(out@ =~= kept(ids, answers));
                }
            } else {
                proof {
                    assert(out@ =~= kept(ids, answers));
                }
            }
        },
        TargetSet::Listed(list) => {
            let mut i: usize = 0;
            while i < list.len()
                invariant
                    ids == list@,
                    i <= list@.len(),
                    answers.len() == i,
                    ids == targeted(*targets, focused),
                    forall|id: PaneId| #[trigger] is_live.requires((id,)),
                    forall|k: int| 0 <= k < i ==> is_live.ensures((ids[k],), #[trigger] answers[k]),
                    out@ == kept(ids.take(i as int), answers),
                decreases list@.len() - i,
            {
                let id = list[i];
                let live = is_live(id);
                proof {
                    let before = answers;
                    answers = answers.push(live);
                    assert(ids.take(i as int + 1).drop_last() =~= ids.take(i as int));
                    assert(kept(ids.take(i as int), answers) == kept(ids.take(i as int), before))
                        by {
                        lemma_kept_extend(ids.take(i as int), before, answers);
                    }
                }
                if live {
                    out.push(id);
                }
                i = i + 1;
            }
            proof {
                assert(ids.take(ids.len() as int) =~= ids);
            }
        },
    }
    proof {
        assert(answers.len() == ids.len());
        assert(forall|k: int|
            0 <= k < answers.len() ==> is_live.ensures((ids[k],), #[trigger] answers[k]));
        assert(out@ == kept(ids, answers));
    }
    out
}

/// Answers beyond the panes asked about change nothing.
proof fn lemma_kept_extend(ids: Seq<PaneId>, live: Seq<bool>, more: Seq<bool>)
    requires
        live.len() >= ids.len(),
        more.len() >= live.len(),
        forall|k: int| 0 <= k < live.len() ==> more[k] == live[k],
    ensures
        kept(ids, more) == kept(ids, live),
    decreases ids.len(),
{
    if ids.len() > 0 {
        lemma_kept_extend(ids.drop_last(), live, more);
    }
}

/// Sends `bytes`, exactly as given, to every targeted pane that is still
/// live; a pane that closed between targeting and dispatch is skipped
/// quietly, never panicked on.
///
/// `is_live` answers whether a pane can still receive input: the caller
/// asks its own pane table. `deliver` performs one delivery. The panes are
/// [`recipients`]' answer, each handed the same untouched slice, and
/// `deliver` may be asked for nothing else: the caller need only accept the
/// targeted panes that answered live, with exactly `bytes`. How many times
/// `deliver` runs for one pane is left unsaid: a contract sees a closure's
/// captured state as unchanged by its calls, so a count of them is not
/// something it can state.
pub fn dispatch<L: Fn(PaneId) -> bool, D: FnMut(PaneId, &[u8])>(
    targets: &TargetSet,
    focused: Option<PaneId>,
    is_live: L,
    bytes: &[u8],
    deliver: D,
)
    requires
        forall|id: PaneId| #[trigger] is_live.requires((id,)),
        forall|d: D, id: PaneId|
            targeted(*targets, focused).contains(id) && is_live.ensures((id,), true)
                ==> #[trigger] d.requires((id, bytes)),
    ensures
        exists|answers: Seq<bool>|
            #![trigger kept(targeted(*targets, focused), answers)]
            {
                &&& answers.len() == targeted(*targets, focused).len()
                &&& forall|k: int|
                    0 <= k < answers.len() ==> is_live.ensures(
                        (targeted(*targets, focused)[k],),
                        #[trigger] answers[k],
                    )
                &&& forall|k: int|
                    0 <= k < kept(targeted(*targets, focused), answers).len() ==> deliver.ensures(
                        (#[trigger] kept(targeted(*targets, focused), answers)[k], bytes),
                        (),
                    )
            },
{
    let ghost ids = targeted(*targets, focused);
    let ghost first = deliver;
    let ghost mut answers: Seq<bool> = Seq::empty();
    let mut deliver = deliver;
    match targets {
        TargetSet::Focused => {
            if let Some(id) = focused {
                let live = is_live(id);
                proof {
                    answers = seq![live];
                    assert(ids.drop_last() =~= Seq::<PaneId>::empty());
                    assert(kept(ids.drop_last(), answers) =~= Seq::<PaneId>::empty());
                }
                if live {
                    proof {
                        assert(ids[0] == id);
                    }
                    deliver(id, bytes);
                    proof {
                        assert(kept(ids, answers) =~= seq![id]);
                    }
                } else {
                    proof {
                        assert(kept(ids, answers) =~= Seq::<PaneId>::empty());
                    }
                }
            } else {
                proof {
                    assert(kept(ids, answers) =~= Seq::<PaneId>::empty());
                }
            }
        },
        TargetSet::Listed(list) => {
            let mut i: usize = 0;
            while i < list.len()
                invariant
                    ids == list@,
                    ids == targeted(*targets, focused),
                    i <= list@.len(),
                    answers.len() == i,
                    deliver == first,
                    forall|id: PaneId| #[trigger] is_live.requires((id,)),
                    forall|d: D, id: PaneId|
                        ids.contains(id) && is_live.ensures((id,), true)
                            ==> #[trigger] d.requires((id, bytes)),
                    forall|k: int| 0 <= k < i ==> is_live.ensures((ids[k],), #[trigger] answers[k]),
                    forall|k: int|
                        0 <= k < kept(ids.take(i as int), answers).len() ==> first.ensures(
                            (#[trigger] kept(ids.take(i as int), answers)[k], bytes),
                            (),
                        ),
                decreases list@.len() - i,
            {
                let id = list[i];
                let live = is_live(id);
                let ghost before = answers;
                proof {
                    answers = answers.push(live);
                    assert(ids.take(i as int + 1).drop_last() =~= ids.take(i as int));
                    lemma_kept_extend(ids.take(i as int), before, answers);
                }
                if live {
                    deliver(id, bytes);
                }
                proof {
                    let now = kept(ids.take(i as int + 1), answers);
                    let was = kept(ids.take(i as int), before);
                    if live {
                        assert(now == was.push(id));
                    } else {
                        assert(now == was);
                    }
                }
                i = i + 1;
            }
            proof {
                assert(ids.take(ids.len() as int) =~= ids);
            }
        },
    }
    proof {
        assert(answers.len() == ids.len());
        assert(forall|k: int|
            0 <= k < answers.len() ==> is_live.ensures((ids[k],), #[trigger] answers[k]));
        let _ = kept(ids, answers);
    }
}


/// Whether a write from terminal `term_id` may reach `pane`: the terminal is
/// still the live one, and `pane` is the pane it is shown in. A write from a
/// terminal that is gone, or aimed at another pane, is dropped quietly.
pub fn write_reaches(live_terminal: Option<u64>, term_id: u64, shown_in: Option<PaneId>, pane: PaneId) -> (r:
    bool)
    ensures
        r == (live_terminal == Some(term_id) && shown_in == Some(pane)),
{
    let live = match live_terminal {
        Some(id) => id == term_id,
        None => false,
    };
    let here = match shown_in {
        Some(p) => p == pane,
        None => false,
    };
    live && here
}

} // verus!
