//! Merging action tables into one, and refusing duplicate names.

use std::borrow::Cow;

use vstd::hash_map::StringHashMap;
use vstd::prelude::*;

use crate::action::{Action, Channels, cow_str, reachable_from};
use crate::text::{debug_quoted, debug_str, decimal, decimal_string};

verus! {

/// A registry-issued index.
///
/// **Not an id.** A name is a string that crosses process boundaries; this is
/// a position handed out at boot, so resolving it is a bounds check rather
/// than a lookup. **It means nothing outside the [`Registry`] that issued
/// it**: two registries hand out overlapping indices. The field is private:
/// a caller holding the integer is a caller that can compute one the
/// registry never issued.
#[derive(Clone, Copy, Debug, Eq, Hash, Ord, PartialEq, PartialOrd, Structural)]
pub struct ActionId(u16);

impl ActionId {
    /// The position this id stands for.
    pub closed spec fn index(self) -> nat {
        self.0 as nat
    }

    /// **An id is its index**: two ids are the same exactly when they stand
    /// for the same position, and every index is below the ceiling.
    pub proof fn lemma_index_identifies(a: ActionId, b: ActionId)
        ensures
            a.index() == b.index() <==> a == b,
            a.index() < ceiling(),
    {
    }
}

/// One contribution to the action table, with a name.
///
/// `actions` is a `Cow`, which is what lets a table that arrives at runtime
/// be the same kind of thing as the built-in one. The name is used in
/// diagnostics, so a duplicate can say which two sources collided.
#[derive(Debug, Eq, PartialEq)]
pub struct Source {
    /// Usually a crate name, or the file a table came from.
    pub name: Cow<'static, str>,
    /// What this source contributes.
    pub actions: Cow<'static, [Action]>,
}

/// Every row of `sources`, in contribution order.
pub open spec fn rows_of(sources: Seq<Source>) -> Seq<Action>
    decreases sources.len(),
{
    if sources.len() == 0 {
        Seq::empty()
    } else {
        rows_of(sources.drop_last()) + sources.last().actions@
    }
}

/// No two rows share a permanent name.
pub open spec fn distinct_ids(rows: Seq<Action>) -> bool {
    forall|i: int, j: int| 0 <= i < j < rows.len() ==> rows[i].id@ != rows[j].id@
}

/// How many actions an [`ActionId`] can address: every `u16` is an index.
pub open spec fn ceiling() -> nat {
    65536
}

/// Whether `sources` can be merged: no name is claimed twice, and every row
/// gets an index.
pub open spec fn mergeable(sources: Seq<Source>) -> bool {
    distinct_ids(rows_of(sources)) && rows_of(sources).len() <= ceiling()
}

/// Whether the name index `by_id` agrees with the rows: each row's name maps
/// to its own position, and every name in the index is some row's.
pub open spec fn indexes(rows: Seq<Action>, by_id: Map<Seq<char>, ActionId>) -> bool {
    &&& forall|i: int|
        0 <= i < rows.len() ==> #[trigger] by_id.contains_key(rows[i].id@) && by_id[rows[i].id@].index()
            == i
    &&& forall|k: Seq<char>|
        #[trigger] by_id.contains_key(k) ==> by_id[k].index() < rows.len() && rows[by_id[k].index() as int].id@
            == k
}

/// The merged actions in contribution order, plus a name index.
///
/// They stay contiguous so iteration is a walk and an [`ActionId`] is an
/// index. The map and the slice agree, which is the invariant this type owns.
pub struct Registry {
    actions: Vec<Action>,
    by_id: StringHashMap<ActionId>,
}

impl Registry {
    #[verifier::type_invariant]
    spec fn agrees(self) -> bool {
        &&& self.actions@.len() <= ceiling()
        &&& indexes(self.actions@, self.by_id@)
    }

    /// The registered actions, in contribution order.
    pub closed spec fn rows(self) -> Seq<Action> {
        self.actions@
    }

    /// The action an issued index stands for. A bounds check.
    pub fn get(&self, id: ActionId) -> (r: Option<&Action>)
        ensures
            id.index() < self.rows().len() ==> r == Some(&self.rows()[id.index() as int]),
            id.index() >= self.rows().len() ==> r is None,
    {
        let i = id.0 as usize;
        if i < self.actions.len() {
            Some(&self.actions[i])
        } else {
            None
        }
    }

    /// Resolves a permanent name to an issued index. **Not a scan.**
    pub fn resolve(&self, name: &str) -> (r: Option<ActionId>)
        ensures
            r matches Some(id) ==> id.index() < self.rows().len() && self.rows()[id.index() as int].id@
                == name@,
            r matches Some(id) ==> forall|i: int|
                0 <= i < self.rows().len() && #[trigger] self.rows()[i].id@ == name@ ==> i
                    == id.index(),
            r is None ==> forall|i: int|
                0 <= i < self.rows().len() ==> #[trigger] self.rows()[i].id@ != name@,
    {
        let found = self.by_id.get(name);
        proof {
            use_type_invariant(self);
        }
        match found {
            Some(id) => Some(*id),
            None => None,
        }
    }

    /// How many actions are registered.
    pub fn count(&self) -> (r: usize)
        ensures
            r == self.rows().len(),
    {
        self.actions.len()
    }

    /// Every action in contribution order, each with the id it was issued.
    ///
    /// **The id comes with it, and that is the point**: handing out the rows
    /// alone would leave a caller holding an [`Action`] and no way to name it.
    pub fn iter(&self) -> (r: Vec<(ActionId, &Action)>)
        ensures
            r@.len() == self.rows().len(),
            forall|k: int|
                0 <= k < r@.len() ==> (#[trigger] r@[k]).0.index() == k && *r@[k].1 == self.rows()[k],
    {
        proof {
            use_type_invariant(self);
        }
        let mut out: Vec<(ActionId, &Action)> = Vec::new();
        let mut i: usize = 0;
        while i < self.actions.len()
            invariant
                i <= self.actions@.len() <= ceiling(),
                out@.len() == i,
                forall|k: int|
                    0 <= k < i ==> (#[trigger] out@[k]).0.index() == k && *out@[k].1
                        == self.actions@[k],
            decreases self.actions@.len() - i,
        {
            out.push((ActionId(i as u16), &self.actions[i]));
            i = i + 1;
        }
        out
    }

    /// The actions a surface can invoke, each with its id, in contribution
    /// order.
    ///
    /// What a palette is: this filter over the registry. The empty channel
    /// set is contained by everything, so [`Channels::key_only`] reaches
    /// every row.
    pub fn reachable(&self, surface: Channels) -> (r: Vec<(ActionId, &Action)>)
        ensures
            r@.len() == reaching(self.rows(), surface.bits(), self.rows().len() as int).len(),
            forall|k: int|
                0 <= k < r@.len() ==> (#[trigger] r@[k]).0.index() == reaching(
                    self.rows(),
                    surface.bits(),
                    self.rows().len() as int,
                )[k] && *r@[k].1 == self.rows()[r@[k].0.index() as int],
    {
        proof {
            use_type_invariant(self);
        }
        let mut out: Vec<(ActionId, &Action)> = Vec::new();
        let mut i: usize = 0;
        while i < self.actions.len()
            invariant
                i <= self.actions@.len() <= ceiling(),
                out@.len() == reaching(self.actions@, surface.bits(), i as int).len(),
                forall|k: int|
                    0 <= k < out@.len() ==> (#[trigger] out@[k]).0.index() == reaching(
                        self.actions@,
                        surface.bits(),
                        i as int,
                    )[k] && *out@[k].1 == self.actions@[out@[k].0.index() as int],
            decreases self.actions@.len() - i,
        {
            let row = &self.actions[i];
            if reachable_from(row.channels, surface) {
                out.push((ActionId(i as u16), row));
            }
            i = i + 1;
        }
        out
    }
}

/// The positions below `n` whose row a surface can invoke, ascending.
pub open spec fn reaching(rows: Seq<Action>, surface: u8, n: int) -> Seq<nat>
    decreases n,
{
    if n <= 0 {
        Seq::empty()
    } else if rows[n - 1].channels.bits() & surface == surface {
        reaching(rows, surface, n - 1).push((n - 1) as nat)
    } else {
        reaching(rows, surface, n - 1)
    }
}

/// **What [`Registry::reachable`] hands out is the filter**: the positions
/// below `n` whose channels include `surface`, each once, in registry order.
pub proof fn lemma_reaching_is_the_filter(rows: Seq<Action>, surface: u8, n: int)
    requires
        0 <= n <= rows.len(),
    ensures
        forall|k: int|
            0 <= k < reaching(rows, surface, n).len() ==> #[trigger] reaching(rows, surface, n)[k] < n
                && rows[reaching(rows, surface, n)[k] as int].channels.bits() & surface == surface,
        forall|a: int, b: int|
            0 <= a < b < reaching(rows, surface, n).len() ==> #[trigger] reaching(rows, surface, n)[a]
                < #[trigger] reaching(rows, surface, n)[b],
        forall|p: int|
            0 <= p < n && #[trigger] rows[p].channels.bits() & surface == surface ==> exists|k: int|
                0 <= k < reaching(rows, surface, n).len() && reaching(rows, surface, n)[k] == p,
    decreases n,
{
    if n > 0 {
        lemma_reaching_is_the_filter(rows, surface, n - 1);
        let before = reaching(rows, surface, n - 1);
        assert forall|p: int|
            0 <= p < n && #[trigger] rows[p].channels.bits() & surface == surface implies exists|k: int|
            0 <= k < reaching(rows, surface, n).len() && reaching(rows, surface, n)[k] == p by {
            if p < n - 1 {
                let k = choose|k: int| 0 <= k < before.len() && before[k] == p;
                assert(reaching(rows, surface, n)[k] == p);
            } else {
                assert(reaching(rows, surface, n)[before.len() as int] == p);
            }
        }
    }
}

/// **The empty channel set reaches every row**: asking for
/// [`Channels::key_only`] is the whole table, in order.
pub proof fn lemma_key_only_reaches_every_row(rows: Seq<Action>, n: int)
    requires
        0 <= n <= rows.len(),
    ensures
        reaching(rows, 0u8, n) == Seq::new(n as nat, |i: int| i as nat),
    decreases n,
{
    if n > 0 {
        lemma_key_only_reaches_every_row(rows, n - 1);
        let b = rows[n - 1].channels.bits();
        assert(b & 0u8 == 0u8) by (bit_vector);
        assert(reaching(rows, 0u8, n) =~= Seq::new(n as nat, |i: int| i as nat));
    } else {
        assert(reaching(rows, 0u8, n) =~= Seq::new(n as nat, |i: int| i as nat));
    }
}

/// The rows a source contributes.
fn rows(source: &Source) -> (r: &[Action])
    ensures
        r@ == source.actions@,
{
    match &source.actions {
        Cow::Borrowed(rows) => *rows,
        Cow::Owned(rows) => rows.as_slice(),
    }
}

proof fn lemma_rows_step(sources: Seq<Source>, k: int)
    requires
        0 <= k < sources.len(),
    ensures
        rows_of(sources.take(k + 1)) == rows_of(sources.take(k)) + sources[k].actions@,
{
    assert(sources.take(k + 1).drop_last() =~= sources.take(k));
}

/// The rows of the first `k` sources come first among all the rows.
proof fn lemma_rows_prefix(sources: Seq<Source>, k: int)
    requires
        0 <= k <= sources.len(),
    ensures
        rows_of(sources.take(k)).len() <= rows_of(sources).len(),
        forall|i: int|
            0 <= i < rows_of(sources.take(k)).len() ==> #[trigger] rows_of(sources.take(k))[i]
                == rows_of(sources)[i],
    decreases sources.len() - k,
{
    if k == sources.len() {
        assert(sources.take(k) =~= sources);
    } else {
        lemma_rows_prefix(sources, k + 1);
        lemma_rows_step(sources, k);
        let a = rows_of(sources.take(k));
        let b = rows_of(sources.take(k + 1));
        assert forall|i: int| 0 <= i < a.len() implies #[trigger] a[i] == rows_of(sources)[i] by {
            assert(b[i] == a[i]);
        }
    }
}

/// Merges sources into one registry, in the order given.
///
/// **An id is unique**, so a duplicate is a wrong table rather than a
/// runtime condition, and **there is no last-one-wins**: a later source adds
/// actions; it never redefines one. Callers owe [`mergeable`];
/// [`try_merge`] is how one that cannot promise it finds out which two rows
/// collide. A caller outside verified code that breaks the promise stops
/// here with that message.
pub fn merge(sources: &[Source]) -> (r: Registry)
    requires
        mergeable(sources@),
    ensures
        r.rows() == rows_of(sources@),
{
    match check_sources(sources) {
        Ok(()) => build(sources),
        Err(e) => {
            let refused: Option<Registry> = None;
            refused.expect(e.to_string().as_str())
        },
    }
}

/// The registry of mergeable sources: their rows in order, and the index.
fn build(sources: &[Source]) -> (r: Registry)
    requires
        mergeable(sources@),
    ensures
        r.rows() == rows_of(sources@),
{
    let mut actions: Vec<Action> = Vec::new();
    let mut by_id: StringHashMap<ActionId> = StringHashMap::new();
    let mut si: usize = 0;
    while si < sources.len()
        invariant
            si <= sources@.len(),
            mergeable(sources@),
            actions@ == rows_of(sources@.take(si as int)),
            indexes(actions@, by_id@),
        decreases sources@.len() - si,
    {
        let contributed = rows(&sources[si]);
        let ghost before = actions@;
        proof {
            lemma_rows_step(sources@, si as int);
            lemma_rows_prefix(sources@, si as int + 1);
        }
        let mut pi: usize = 0;
        while pi < contributed.len()
            invariant
                si < sources@.len(),
                mergeable(sources@),
                pi <= contributed@.len(),
                contributed@ == sources@[si as int].actions@,
                before == rows_of(sources@.take(si as int)),
                rows_of(sources@.take(si as int + 1)) == before + contributed@,
                rows_of(sources@.take(si as int + 1)).len() <= rows_of(sources@).len(),
                forall|i: int|
                    0 <= i < rows_of(sources@.take(si as int + 1)).len() ==> #[trigger] rows_of(
                        sources@.take(si as int + 1),
                    )[i] == rows_of(sources@)[i],
                actions@ == before + contributed@.take(pi as int),
                indexes(actions@, by_id@),
            decreases contributed@.len() - pi,
        {
            let row = &contributed[pi];
            let ghost all = rows_of(sources@);
            let ghost n = actions@.len();
            proof {
                assert(rows_of(sources@.take(si as int + 1))[n as int] == row);
                assert forall|i: int| 0 <= i < n implies actions@[i].id@ != row.id@ by {
                    assert(rows_of(sources@.take(si as int + 1))[i] == actions@[i]);
                }
                if by_id@.contains_key(row.id@) {
                    let j = by_id@[row.id@].index() as int;
                    assert(actions@[j].id@ == row.id@);
                }
            }
            let id = ActionId(actions.len() as u16);
            by_id.insert(cow_str(&row.id).to_owned(), id);
            actions.push(row.clone());
            proof {
                assert(actions@ =~= before + contributed@.take(pi as int + 1));
                assert forall|i: int| 0 <= i < actions@.len() implies #[trigger] by_id@.contains_key(
                    actions@[i].id@,
                ) && by_id@[actions@[i].id@].index() == i by {
                    if i < n {
                        assert(actions@[i].id@ != row.id@);
                    } else {
                        assert(actions@[i].id@ == row.id@);
                        assert(by_id@[row.id@] == id);
                        assert(id.index() == n);
                    }
                }
            }
            pi = pi + 1;
        }
        proof {
            assert(contributed@.take(contributed@.len() as int) =~= contributed@);
        }
        si = si + 1;
    }
    proof {
        assert(sources@.take(sources@.len() as int) =~= sources@);
    }
    Registry { actions, by_id }
}

/// Why sources cannot be merged.
#[derive(Clone, Debug, Eq, PartialEq)]
pub enum MergeError {
    /// Two rows claim one permanent name. Names both claimants and both
    /// positions, which is what a source's name is for.
    Duplicate {
        /// The name claimed twice.
        id: String,
        /// Which source the first claimant came from.
        first_source: usize,
        /// That source's name.
        first_name: String,
        /// The first claimant's position within its source.
        first_index: usize,
        /// Which source the second claimant came from.
        second_source: usize,
        /// That source's name.
        second_name: String,
        /// The second claimant's position within its source.
        second_index: usize,
    },
    /// More rows than an [`ActionId`] can address.
    TooMany {
        /// How many rows the sources hold together.
        count: usize,
    },
}

/// Where position `p` of source `s` lands among all the rows.
pub open spec fn flat(sources: Seq<Source>, s: int, p: int) -> int {
    rows_of(sources.take(s)).len() + p
}

/// Whether position `p` of source `s` exists.
pub open spec fn valid_pos(sources: Seq<Source>, s: int, p: int) -> bool {
    0 <= s < sources.len() && 0 <= p < sources[s].actions@.len()
}

/// What a merge of `sources` reports, if it refuses: the first row, in
/// contribution order, that either repeats an earlier name or has no index
/// left for it.
pub open spec fn merge_refusal(sources: Seq<Source>, e: MergeError) -> bool {
    let rows = rows_of(sources);
    match e {
        MergeError::Duplicate {
            id,
            first_source,
            first_name,
            first_index,
            second_source,
            second_name,
            second_index,
        } => {
            let a = flat(sources, first_source as int, first_index as int);
            let b = flat(sources, second_source as int, second_index as int);
            &&& valid_pos(sources, first_source as int, first_index as int)
            &&& valid_pos(sources, second_source as int, second_index as int)
            &&& a < b <= ceiling()
            &&& distinct_ids(rows.take(b))
            &&& rows[a].id@ == rows[b].id@
            &&& id@ == rows[b].id@
            &&& first_name@ == sources[first_source as int].name@
            &&& second_name@ == sources[second_source as int].name@
        },
        MergeError::TooMany { count } => {
            &&& count == saturated(rows.len())
            &&& rows.len() > ceiling()
            &&& distinct_ids(rows.take(ceiling() as int + 1))
        },
    }
}

/// Row `p` of source `s` is where [`flat`] puts it.
proof fn lemma_flat(sources: Seq<Source>, s: int, p: int)
    requires
        valid_pos(sources, s, p),
    ensures
        0 <= flat(sources, s, p) < rows_of(sources).len(),
        rows_of(sources)[flat(sources, s, p)] == sources[s].actions@[p],
{
    lemma_rows_step(sources, s);
    lemma_rows_prefix(sources, s + 1);
    assert(rows_of(sources.take(s + 1))[flat(sources, s, p)] == sources[s].actions@[p]);
}

/// Checks what [`merge`] requires, and says what is wrong when it does not
/// hold.
pub fn check_sources(sources: &[Source]) -> (r: Result<(), MergeError>)
    ensures
        r is Ok <==> mergeable(sources@),
        r matches Err(e) ==> merge_refusal(sources@, e),
{
    let ghost all = rows_of(sources@);
    let mut origin: StringHashMap<(usize, usize)> = StringHashMap::new();
    let mut n: usize = 0;
    let mut si: usize = 0;
    proof {
        lemma_rows_prefix(sources@, 0);
        assert(sources@.take(0) =~= Seq::<Source>::empty());
        assert(all.take(0) =~= Seq::<Action>::empty());
    }
    while si < sources.len()
        invariant
            si <= sources@.len(),
            all == rows_of(sources@),
            n == rows_of(sources@.take(si as int)).len(),
            n <= all.len(),
            n <= ceiling(),
            distinct_ids(all.take(n as int)),
            forall|i: int| 0 <= i < n ==> #[trigger] origin@.contains_key(all[i].id@),
            forall|k: Seq<char>|
                #[trigger] origin@.contains_key(k) ==> {
                    let (s, p) = origin@[k];
                    &&& valid_pos(sources@, s as int, p as int)
                    &&& flat(sources@, s as int, p as int) < n
                    &&& all[flat(sources@, s as int, p as int)].id@ == k
                },
        decreases sources@.len() - si,
    {
        let contributed = rows(&sources[si]);
        proof {
            lemma_rows_step(sources@, si as int);
            lemma_rows_prefix(sources@, si as int + 1);
        }
        let mut pi: usize = 0;
        while pi < contributed.len()
            invariant
                si < sources@.len(),
                pi <= contributed@.len(),
                contributed@ == sources@[si as int].actions@,
                all == rows_of(sources@),
                rows_of(sources@.take(si as int + 1)) == rows_of(sources@.take(si as int))
                    + contributed@,
                rows_of(sources@.take(si as int + 1)).len() <= all.len(),
                forall|i: int|
                    0 <= i < rows_of(sources@.take(si as int + 1)).len() ==> #[trigger] rows_of(
                        sources@.take(si as int + 1),
                    )[i] == all[i],
                n == rows_of(sources@.take(si as int)).len() + pi,
                n <= ceiling(),
                distinct_ids(all.take(n as int)),
                forall|i: int| 0 <= i < n ==> #[trigger] origin@.contains_key(all[i].id@),
                forall|k: Seq<char>|
                    #[trigger] origin@.contains_key(k) ==> {
                        let (s, p) = origin@[k];
                        &&& valid_pos(sources@, s as int, p as int)
                        &&& flat(sources@, s as int, p as int) < n
                        &&& all[flat(sources@, s as int, p as int)].id@ == k
                    },
            decreases contributed@.len() - pi,
        {
            let row = &contributed[pi];
            let name = cow_str(&row.id);
            proof {
                assert(rows_of(sources@.take(si as int + 1))[n as int] == *row);
                assert(all[n as int] == *row);
            }
            match origin.get(name) {
                Some(first) => {
                    let (fs, fp) = *first;
                    proof {
                        lemma_flat(sources@, fs as int, fp as int);
                    }
                    return Err(
                        MergeError::Duplicate {
                            id: name.to_owned(),
                            first_source: fs,
                            first_name: cow_str(&sources[fs].name).to_owned(),
                            first_index: fp,
                            second_source: si,
                            second_name: cow_str(&sources[si].name).to_owned(),
                            second_index: pi,
                        },
                    );
                },
                None => {},
            }
            proof {
                assert forall|i: int| 0 <= i < n implies all[i].id@ != row.id@ by {
                    assert(origin@.contains_key(all[i].id@));
                }
                assert forall|i: int, j: int| 0 <= i < j < n + 1 implies #[trigger] all.take(
                    n + 1,
                )[i].id@ != #[trigger] all.take(n + 1)[j].id@ by {
                    if j < n {
                        assert(all.take(n as int)[i] == all[i]);
                        assert(all.take(n as int)[j] == all[j]);
                    }
                }
            }
            if n == 65536 {
                proof {
                    assert(all.take(ceiling() as int + 1) =~= all.take(n + 1));
                }
                return Err(MergeError::TooMany { count: count_rows(sources) });
            }
            origin.insert(name.to_owned(), (si, pi));
            proof {
                lemma_flat(sources@, si as int, pi as int);
            }
            n = n + 1;
            pi = pi + 1;
        }
        si = si + 1;
    }
    proof {
        assert(sources@.take(sources@.len() as int) =~= sources@);
        assert(all.take(n as int) =~= all);
    }
    Ok(())
}

/// How many rows the sources hold together, or `usize::MAX` when that is
/// more than a `usize` can count.
fn count_rows(sources: &[Source]) -> (r: usize)
    ensures
        r == saturated(rows_of(sources@).len()),
{
    let mut total: usize = 0;
    let mut i: usize = 0;
    while i < sources.len()
        invariant
            i <= sources@.len(),
            total == saturated(rows_of(sources@.take(i as int)).len()),
        decreases sources@.len() - i,
    {
        proof {
            lemma_rows_step(sources@, i as int);
        }
        total = total.saturating_add(rows(&sources[i]).len());
        i = i + 1;
    }
    proof {
        assert(sources@.take(sources@.len() as int) =~= sources@);
    }
    total
}

/// `n`, or `usize::MAX` when `n` is larger.
pub open spec fn saturated(n: nat) -> usize {
    if n > usize::MAX {
        usize::MAX
    } else {
        n as usize
    }
}

/// Merges sources into one registry, or says which rows make that
/// impossible.
pub fn try_merge(sources: &[Source]) -> (r: Result<Registry, MergeError>)
    ensures
        r is Ok <==> mergeable(sources@),
        r matches Ok(registry) ==> registry.rows() == rows_of(sources@),
        r matches Err(e) ==> merge_refusal(sources@, e),
{
    match check_sources(sources) {
        Ok(()) => Ok(build(sources)),
        Err(e) => Err(e),
    }
}

/// The message for a refused merge.
pub open spec fn merge_error_text(e: MergeError) -> Seq<char> {
    match e {
        MergeError::Duplicate {
            id,
            first_source,
            first_name,
            first_index,
            second_source,
            second_name,
            second_index,
        } => "duplicate action id "@ + debug_quoted(id@) + ": source "@ + decimal(
            first_source as nat,
        ) + " ("@ + first_name@ + ") index "@ + decimal(first_index as nat)
            + " collides with source "@ + decimal(second_source as nat) + " ("@ + second_name@
            + ") index "@ + decimal(second_index as nat),
        MergeError::TooMany { count } => "cannot register "@ + decimal(count as nat)
            + " actions: an ActionId is a u16, so 65536 is the ceiling"@,
    }
}

impl MergeError {
    /// The message, naming both claimants and both positions.
    pub fn to_string(&self) -> (r: String)
        ensures
            r@ == merge_error_text(*self),
    {
        match self {
            MergeError::Duplicate {
                id,
                first_source,
                first_name,
                first_index,
                second_source,
                second_name,
                second_index,
            } => {
                let mut out = "duplicate action id ".to_owned();
                out.append(debug_str(id.as_str()).as_str());
                out.append(": source ");
                out.append(decimal_string(*first_source).as_str());
                out.append(" (");
                out.append(first_name.as_str());
                out.append(") index ");
                out.append(decimal_string(*first_index).as_str());
                out.append(" collides with source ");
                out.append(decimal_string(*second_source).as_str());
                out.append(" (");
                out.append(second_name.as_str());
                out.append(") index ");
                out.append(decimal_string(*second_index).as_str());
                out
            },
            MergeError::TooMany { count } => {
                let mut out = "cannot register ".to_owned();
                out.append(decimal_string(*count).as_str());
                out.append(" actions: an ActionId is a u16, so 65536 is the ceiling");
                out
            },
        }
    }
}

} // verus!
