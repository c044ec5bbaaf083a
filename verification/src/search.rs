//! The palette is a search over the registry. Nucleo does the matching;
//! this module never implements a fuzzy matcher. What it owns is the order
//! the matches are shown in, and what each row says about itself.

use nucleo_matcher::pattern::{CaseMatching, Normalization, Pattern};
use nucleo_matcher::{Config, Matcher, Utf32Str};
use vstd::prelude::*;

use crate::action::{Action, Channels, cow_str};
use crate::registry::{ActionId, Registry, reaching};
use crate::text::chars_of;


verus! {

/// The score nucleo gives `label` against the query `query`: the query
/// parsed as a pattern with case ignored and smart normalisation, matched
/// under the default configuration. `None` when the label does not match.
pub uninterp spec fn fuzzy_score(query: Seq<char>, label: Seq<char>) -> Option<u32>;

/// Scores one label against a query with
/// `nucleo_matcher::pattern::Pattern::score`.
///
/// The pattern comes from `Pattern::parse(query, CaseMatching::Ignore,
/// Normalization::Smart)` and the matcher from `Matcher::new(Config::DEFAULT)`;
/// the contract claims only that the result is [`fuzzy_score`] of the two
/// texts, which holds because the score depends on nothing else.
#[verifier::external_body]
fn score(query: &str, label: &str) -> (r: Option<u32>)
    ensures
        r == fuzzy_score(query@, label@),
{
    let pattern = Pattern::parse(query, CaseMatching::Ignore, Normalization::Smart);
    let mut matcher = Matcher::new(Config::DEFAULT);
    let mut buffer = Vec::new();
    pattern.score(Utf32Str::new(label, &mut buffer), &mut matcher)
}

/// A palette result: the position of its label and its score.
#[derive(Clone, Copy, Debug, Eq, PartialEq, Structural)]
pub struct Hit {
    /// Where the label stood in the list that was ranked.
    pub index: usize,
    /// How well it matched; higher is better.
    pub score: u32,
}

/// Whether `a` is shown above `b`: a better score first, and registry order
/// among equal scores.
pub open spec fn shown_before(a: Hit, b: Hit) -> bool {
    a.score > b.score || (a.score == b.score && a.index < b.index)
}

/// Whether `hits` is the ranking of `scores`: one hit for each label that
/// matched, carrying its score, best first and ties in registry order.
pub open spec fn is_ranking(scores: Seq<Option<u32>>, hits: Seq<Hit>) -> bool {
    &&& forall|k: int|
        0 <= k < hits.len() ==> (#[trigger] hits[k]).index < scores.len() && scores[hits[k].index as int]
            == Some(hits[k].score)
    &&& forall|i: int|
        0 <= i < scores.len() && (#[trigger] scores[i]) is Some ==> exists|k: int|
            0 <= k < hits.len() && hits[k].index == i
    &&& forall|k1: int, k2: int|
        0 <= k1 < k2 < hits.len() ==> shown_before(#[trigger] hits[k1], #[trigger] hits[k2])
}

/// What each label scores against `query`. An empty query is the palette at
/// rest: every label, all equal.
pub open spec fn scores_for(query: Seq<char>, labels: Seq<Seq<char>>) -> Seq<Option<u32>> {
    labels.map_values(
        |label: Seq<char>|
            if query.len() == 0 {
                Some(0u32)
            } else {
                fuzzy_score(query, label)
            },
    )
}

/// Orders scored labels: every label that matched, best first, ties in the
/// order the labels came in.
pub fn rank_scored(scores: &[Option<u32>]) -> (r: Vec<Hit>)
    ensures
        is_ranking(scores@, r@),
{
    let mut out: Vec<Hit> = Vec::new();
    let mut i: usize = 0;
    while i < scores.len()
        invariant
            i <= scores@.len(),
            forall|k: int|
                0 <= k < out@.len() ==> (#[trigger] out@[k]).index < i && scores@[out@[k].index as int]
                    == Some(out@[k].score),
            forall|j: int|
                0 <= j < i && (#[trigger] scores@[j]) is Some ==> exists|k: int|
                    0 <= k < out@.len() && out@[k].index == j,
            forall|k1: int, k2: int|
                0 <= k1 < k2 < out@.len() ==> shown_before(#[trigger] out@[k1], #[trigger] out@[k2]),
        decreases scores@.len() - i,
    {
        if let Some(s) = scores[i] {
            let mut p: usize = 0;
            while p < out.len() && out[p].score >= s
                invariant
                    p <= out@.len(),
                    forall|q: int| 0 <= q < p ==> (#[trigger] out@[q]).score >= s,
                decreases out@.len() - p,
            {
                p = p + 1;
            }
            let hit = Hit { index: i, score: s };
            let ghost old_out = out@;
            proof {
                assert forall|q: int| p <= q < old_out.len() implies (#[trigger] old_out[q]).score
                    < s by {
                    if q > p {
                        assert(shown_before(old_out[p as int], old_out[q]));
                    }
                }
            }
            out.insert(p, hit);
            proof {
                assert(out@ == old_out.insert(p as int, hit));
                assert forall|k1: int, k2: int|
                    0 <= k1 < k2 < out@.len() implies shown_before(
                    #[trigger] out@[k1],
                    #[trigger] out@[k2],
                ) by {
                    if k2 < p {
                        assert(out@[k1] == old_out[k1] && out@[k2] == old_out[k2]);
                    } else if k2 == p {
                        assert(out@[k1] == old_out[k1]);
                    } else if k1 < p {
                        assert(out@[k1] == old_out[k1] && out@[k2] == old_out[k2 - 1]);
                    } else if k1 == p {
                        assert(out@[k2] == old_out[k2 - 1]);
                    } else {
                        assert(out@[k1] == old_out[k1 - 1] && out@[k2] == old_out[k2 - 1]);
                    }
                }
                assert forall|j: int|
                    0 <= j < i + 1 && (#[trigger] scores@[j]) is Some implies exists|k: int|
                    0 <= k < out@.len() && out@[k].index == j by {
                    if j == i {
                        assert(out@[p as int].index == j);
                    } else {
                        let k = choose|k: int| 0 <= k < old_out.len() && old_out[k].index == j;
                        if k < p {
                            assert(out@[k].index == j);
                        } else {
                            assert(out@[k + 1].index == j);
                        }
                    }
                }
                assert forall|k: int| 0 <= k < out@.len() implies (#[trigger] out@[k]).index < i + 1
                    && scores@[out@[k].index as int] == Some(out@[k].score) by {
                    if k < p {
                        assert(out@[k] == old_out[k]);
                    } else if k > p {
                        assert(out@[k] == old_out[k - 1]);
                    }
                }
            }
        }
        i = i + 1;
    }
    out
}

/// Ranks labels against a query: every label nucleo matches, best score
/// first, ties in the order the labels came in. An empty query lists every
/// label in order.
pub fn rank(query: &str, labels: &[&str]) -> (r: Vec<Hit>)
    ensures
        is_ranking(scores_for(query@, labels@.map_values(|l: &str| l@)), r@),
{
    let ghost texts = labels@.map_values(|l: &str| l@);
    let mut scores: Vec<Option<u32>> = Vec::new();
    let mut i: usize = 0;
    while i < labels.len()
        invariant
            i <= labels@.len(),
            texts == labels@.map_values(|l: &str| l@),
            scores@ =~= scores_for(query@, texts).take(i as int),
        decreases labels@.len() - i,
    {
        let s = if query.is_empty() {
            Some(0u32)
        } else {
            score(query, labels[i])
        };
        scores.push(s);
        i = i + 1;
    }
    proof {
        assert(scores_for(query@, texts).take(labels@.len() as int) =~= scores_for(query@, texts));
    }
    rank_scored(scores.as_slice())
}


/// **A ranking is determined by its scores.** Two rankings of the same
/// scores are the same sequence, so the palette shows one order run to run:
/// ties cannot be broken two ways.
pub proof fn lemma_ranking_unique(scores: Seq<Option<u32>>, a: Seq<Hit>, b: Seq<Hit>)
    requires
        is_ranking(scores, a),
        is_ranking(scores, b),
    ensures
        a == b,
    decreases a.len(),
{
    if a.len() == 0 {
        if b.len() > 0 {
            let i = b[0].index as int;
            assert(scores[i] is Some);
        }
        assert(a =~= b);
    } else if b.len() == 0 {
        let i = a[0].index as int;
        assert(scores[i] is Some);
    } else {
        let x = a[0];
        let y = b[0];
        assert(scores[x.index as int] is Some);
        assert(scores[y.index as int] is Some);
        let k = choose|k: int| 0 <= k < b.len() && b[k].index == x.index;
        let m = choose|m: int| 0 <= m < a.len() && a[m].index == y.index;
        assert(b[k] == x);
        assert(a[m] == y);
        if x != y {
            assert(k > 0 && m > 0);
            assert(shown_before(b[0], b[k]));
            assert(shown_before(a[0], a[m]));
        }
        let rest = scores.update(x.index as int, None);
        assert forall|q: int| 0 < q < a.len() implies (#[trigger] a[q]).index != x.index by {
            assert(shown_before(a[0], a[q]));
        }
        assert forall|q: int| 0 < q < b.len() implies (#[trigger] b[q]).index != x.index by {
            assert(shown_before(b[0], b[q]));
        }
        let a2 = a.drop_first();
        let b2 = b.drop_first();
        assert(is_ranking(rest, a2)) by {
            assert forall|i: int|
                0 <= i < rest.len() && (#[trigger] rest[i]) is Some implies exists|q: int|
                0 <= q < a2.len() && a2[q].index == i by {
                assert(scores[i] is Some);
                let q = choose|q: int| 0 <= q < a.len() && a[q].index == i;
                assert(a2[q - 1].index == i);
            }
            assert forall|k1: int, k2: int| 0 <= k1 < k2 < a2.len() implies shown_before(
                #[trigger] a2[k1],
                #[trigger] a2[k2],
            ) by {
                assert(shown_before(a[k1 + 1], a[k2 + 1]));
            }
        }
        assert(is_ranking(rest, b2)) by {
            assert forall|i: int|
                0 <= i < rest.len() && (#[trigger] rest[i]) is Some implies exists|q: int|
                0 <= q < b2.len() && b2[q].index == i by {
                assert(scores[i] is Some);
                let q = choose|q: int| 0 <= q < b.len() && b[q].index == i;
                assert(b2[q - 1].index == i);
            }
            assert forall|k1: int, k2: int| 0 <= k1 < k2 < b2.len() implies shown_before(
                #[trigger] b2[k1],
                #[trigger] b2[k2],
            ) by {
                assert(shown_before(b[k1 + 1], b[k2 + 1]));
            }
        }
        lemma_ranking_unique(rest, a2, b2);
        assert(a =~= b) by {
            assert forall|q: int| 0 <= q < a.len() implies a[q] == b[q] by {
                if q > 0 {
                    assert(a[q] == a2[q - 1]);
                    assert(b[q] == b2[q - 1]);
                }
            }
        }
    }
}


/// Whether a palette result can run in the current stage.
#[derive(Clone, Copy, Debug, Eq, PartialEq)]
pub enum Availability {
    /// The action is wired for execution.
    Ready,
    /// The action is registered but its execution is not wired yet; the
    /// text says why.
    Unavailable(&'static str),
}

/// The registry data a palette row needs to render and dispatch.
#[derive(Debug, Eq, PartialEq)]
pub struct PaletteResult<'a> {
    /// The action's permanent name.
    pub id: &'a str,
    /// What the row shows.
    pub label: &'a str,
    /// Whether it can run.
    pub availability: Availability,
}

/// The positions of the registry rows the palette can reach, in registry
/// order.
pub open spec fn palette_positions(rows: Seq<Action>) -> Seq<nat> {
    reaching(rows, 1u8, rows.len() as int)
}

/// The labels of the rows the palette can reach, in registry order.
pub open spec fn palette_labels(rows: Seq<Action>) -> Seq<Seq<char>> {
    palette_positions(rows).map_values(|i: nat| rows[i as int].label@)
}

/// Whether an action with this permanent name runs yet: the terminal's
/// actions wait for their wiring.
pub open spec fn wired(id: Seq<char>) -> bool {
    !"term."@.is_prefix_of(id)
}

/// Whether `r` is the palette row for the registry row `row`.
pub open spec fn describes(r: PaletteResult, row: Action) -> bool {
    &&& r.id@ == row.id@
    &&& r.label@ == row.label@
    &&& (r.availability is Ready <==> wired(row.id@))
    &&& (r.availability matches Availability::Unavailable(why) ==> why@
        == "Waits for the action-wiring ticket"@)
}

/// Whether `prefix` begins `s`.
fn has_prefix(s: &str, prefix: &str) -> (r: bool)
    ensures
        r == prefix@.is_prefix_of(s@),
{
    let a = chars_of(s);
    let b = chars_of(prefix);
    if b.len() > a.len() {
        return false;
    }
    let mut i: usize = 0;
    while i < b.len()
        invariant
            b@.len() <= a@.len(),
            a@ == s@,
            b@ == prefix@,
            i <= b@.len(),
            forall|j: int| 0 <= j < i ==> a@[j] == b@[j],
        decreases b@.len() - i,
    {
        if a[i] != b[i] {
            return false;
        }
        i = i + 1;
    }
    proof {
        assert(s@.subrange(0, prefix@.len() as int) =~= prefix@);
    }
    true
}

/// Ranks every action the palette can reach against `query` and says
/// whether each can run yet.
///
/// Only what the palette surface reaches: a key-only action (the palette's
/// own navigation, select-all) is not a palette entry.
pub fn palette_results<'a>(registry: &'a Registry, query: &str) -> (r: Vec<PaletteResult<'a>>)
    ensures
        exists|hits: Seq<Hit>|
            {
                &&& is_ranking(scores_for(query@, palette_labels(registry.rows())), hits)
                &&& r@.len() == hits.len()
                &&& forall|k: int|
                    0 <= k < r@.len() ==> describes(
                        #[trigger] r@[k],
                        registry.rows()[palette_positions(registry.rows())[hits[k].index as int] as int],
                    )
            },
{
    let rows = registry.reachable(Channels::palette());
    let ghost positions = palette_positions(registry.rows());
    let mut labels: Vec<&str> = Vec::new();
    let mut k: usize = 0;
    while k < rows.len()
        invariant
            k <= rows@.len(),
            rows@.len() == positions.len(),
            forall|q: int|
                0 <= q < rows@.len() ==> (#[trigger] rows@[q]).0.index() == positions[q]
                    && *rows@[q].1 == registry.rows()[positions[q] as int],
            labels@.len() == k,
            forall|q: int| 0 <= q < k ==> (#[trigger] labels@[q])@ == rows@[q].1.label@,
        decreases rows@.len() - k,
    {
        labels.push(cow_str(&rows[k].1.label));
        k = k + 1;
    }
    proof {
        assert(labels@.map_values(|l: &str| l@) =~= palette_labels(registry.rows()));
    }
    let hits = rank(query, labels.as_slice());
    let ghost scores = scores_for(query@, palette_labels(registry.rows()));
    let mut out: Vec<PaletteResult<'a>> = Vec::new();
    let mut h: usize = 0;
    while h < hits.len()
        invariant
            h <= hits@.len(),
            is_ranking(scores, hits@),
            scores.len() == rows@.len(),
            rows@.len() == positions.len(),
            positions == palette_positions(registry.rows()),
            forall|q: int|
                0 <= q < rows@.len() ==> (#[trigger] rows@[q]).0.index() == positions[q]
                    && *rows@[q].1 == registry.rows()[positions[q] as int],
            out@.len() == h,
            forall|q: int|
                0 <= q < h ==> describes(
                    #[trigger] out@[q],
                    registry.rows()[positions[hits@[q].index as int] as int],
                ),
        decreases hits@.len() - h,
    {
        let hit = hits[h];
        assert(hit.index < scores.len());
        let action: &Action = rows[hit.index].1;
        let id = cow_str(&action.id);
        let availability = if has_prefix(id, "term.") {
            Availability::Unavailable("Waits for the action-wiring ticket")
        } else {
            Availability::Ready
        };
        out.push(PaletteResult { id, label: cow_str(&action.label), availability });
        h = h + 1;
    }
    out
}


/// One palette row as the overlay shows it.
#[derive(Clone, Debug, Eq, PartialEq)]
pub struct PaletteRow<'a> {
    /// What the row shows.
    pub label: &'a str,
    /// Whether the selection is on this row.
    pub selected: bool,
    /// Whether the row is tagged as recently run.
    pub recent: bool,
    /// Why the row cannot run, when it cannot.
    pub reason: Option<&'static str>,
}

/// Whether `id` is among the recently run names.
pub open spec fn among(recents: Seq<String>, id: Seq<char>) -> bool {
    exists|j: int| 0 <= j < recents.len() && #[trigger] recents[j]@ == id
}

/// Whether a name is among the recently run ones.
fn is_recent(recents: &[String], id: &str) -> (r: bool)
    ensures
        r == among(recents@, id@),
{
    let mut j: usize = 0;
    while j < recents.len()
        invariant
            j <= recents@.len(),
            forall|q: int| 0 <= q < j ==> (#[trigger] recents@[q])@ != id@,
        decreases recents@.len() - j,
    {
        if crate::text::str_eq(recents[j].as_str(), id) {
            return true;
        }
        j = j + 1;
    }
    false
}

/// The rows the palette overlay shows for `results`: each labelled, the one
/// at `selected` marked, tagged recent only while the query is empty (a
/// search ranks; it does not remind), and carrying the reason an unwired
/// row cannot run.
pub fn palette_rows<'a>(
    results: &[PaletteResult<'a>],
    selected: usize,
    query: &str,
    recents: &[String],
) -> (r: Vec<PaletteRow<'a>>)
    ensures
        r@.len() == results@.len(),
        forall|k: int|
            0 <= k < r@.len() ==> {
                &&& (#[trigger] r@[k]).label == results@[k].label
                &&& r@[k].selected == (k == selected)
                &&& r@[k].recent == (query@.len() == 0 && among(recents@, results@[k].id@))
                &&& r@[k].reason == match results@[k].availability {
                    Availability::Ready => None,
                    Availability::Unavailable(why) => Some(why),
                }
            },
{
    let at_rest = query.is_empty();
    let mut rows: Vec<PaletteRow<'a>> = Vec::new();
    let mut k: usize = 0;
    while k < results.len()
        invariant
            k <= results@.len(),
            at_rest == (query@.len() == 0),
            rows@.len() == k,
            forall|q: int|
                0 <= q < k ==> {
                    &&& (#[trigger] rows@[q]).label == results@[q].label
                    &&& rows@[q].selected == (q == selected)
                    &&& rows@[q].recent == (query@.len() == 0 && among(recents@, results@[q].id@))
                    &&& rows@[q].reason == match results@[q].availability {
                        Availability::Ready => None,
                        Availability::Unavailable(why) => Some(why),
                    }
                },
        decreases results@.len() - k,
    {
        let result = &results[k];
        let recent = at_rest && is_recent(recents, result.id);
        let reason = match result.availability {
            Availability::Ready => None,
            Availability::Unavailable(why) => Some(why),
        };
        rows.push(PaletteRow { label: result.label, selected: k == selected, recent, reason });
        k = k + 1;
    }
    rows
}


/// The texts a palette row shows, in order: its label, the recent tag when
/// it is recent, and why it cannot run, but only on the selected row.
pub open spec fn shown(row: PaletteRow, recent_tag: Seq<char>) -> Seq<Seq<char>> {
    seq![row.label@] + (if row.recent { seq![recent_tag] } else { Seq::empty() }) + (
    if row.selected && row.reason is Some {
        seq![row.reason->Some_0@]
    } else {
        Seq::empty()
    })
}

/// The texts a palette row shows, in the order they are laid out.
pub fn row_texts<'a>(row: &PaletteRow<'a>, recent_tag: &'a str) -> (r: Vec<&'a str>)
    ensures
        r@.map_values(|t: &str| t@) == shown(*row, recent_tag@),
{
    let mut out: Vec<&'a str> = Vec::new();
    out.push(row.label);
    if row.recent {
        out.push(recent_tag);
    }
    if row.selected {
        if let Some(reason) = row.reason {
            out.push(reason);
        }
    }
    proof {
        assert(out@.map_values(|t: &str| t@) =~= shown(*row, recent_tag@));
    }
    out
}

} // verus!
