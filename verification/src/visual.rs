//! The registry of visuals and the rules for moving between them.
//!
//! Exactly one visual is on screen at a time, or none (a black stage). The
//! registry keeps every visual in registration order, which is the order the
//! autopilot cycles through and the digit keys select.

use vstd::prelude::*;

use vstd::arithmetic::div_mod::{
    lemma_add_mod_noop_right, lemma_fundamental_div_mod_converse, lemma_mod_add_multiples_vanish,
    lemma_small_mod,
};

use crate::bleed::{started_times, Transition};
use crate::text::same_text;

verus! {

/// Identifies a visual. Stable across runs.
pub type VisualId = &'static str;

/// What the overlay and the cycling logic know about a registered visual.
#[derive(Debug, Clone, Copy)]
pub struct VisualInfo {
    pub id: VisualId,
    pub name: &'static str,
    pub tags: &'static [&'static str],
}

/// Every visual registered with the app, in registration order, each id once.
#[derive(Debug)]
pub struct VisualRegistry {
    entries: Vec<VisualInfo>,
}

/// The ids of a run of entries.
pub open spec fn ids_of(entries: Seq<VisualInfo>) -> Seq<Seq<char>> {
    entries.map_values(|e: VisualInfo| e.id@)
}

/// Position of the entry whose id reads `id`, if there is one.
pub open spec fn index_in(entries: Seq<VisualInfo>, id: Seq<char>) -> Option<int> {
    if ids_of(entries).contains(id) {
        Some(choose|i: int| 0 <= i < entries.len() && entries[i].id@ == id)
    } else {
        None
    }
}

/// Where `offset` steps from `current` land, wrapping: the base is
/// `current`'s position, or the first entry when `current` is absent or not
/// registered.
pub open spec fn cycle_index(entries: Seq<VisualInfo>, current: Option<Seq<char>>, offset: int) -> int {
    let base = match current {
        Some(id) => match index_in(entries, id) {
            Some(i) => i,
            None => 0,
        },
        None => 0,
    };
    (base + offset) % (entries.len() as int)
}

/// The visual `offset` places after `current`, or nothing when the registry
/// is empty.
pub open spec fn cycle_spec(entries: Seq<VisualInfo>, current: Option<Seq<char>>, offset: int) -> Option<VisualId> {
    if entries.len() == 0 {
        None
    } else {
        Some(entries[cycle_index(entries, current, offset)].id)
    }
}

/// The view of an optional id.
pub open spec fn id_view(id: Option<VisualId>) -> Option<Seq<char>> {
    match id {
        Some(s) => Some(s@),
        None => None,
    }
}

/// Requests a visual change.
#[derive(Debug, Clone, Copy)]
pub enum VisualRequest {
    /// Show a specific visual.
    Show(VisualId),
    /// Move `offset` places through the registry.
    Cycle(isize),
    /// Fade to nothing.
    Blackout,
}

impl VisualRegistry {
    #[verifier::type_invariant]
    spec fn unique_ids(self) -> bool {
        ids_of(self.entries@).no_duplicates()
    }

    /// The entries, in registration order.
    pub closed spec fn view_entries(&self) -> Seq<VisualInfo> {
        self.entries@
    }

    /// An empty registry.
    pub fn new() -> (r: VisualRegistry)
        ensures
            r.view_entries() == Seq::<VisualInfo>::empty(),
    {
        let r = VisualRegistry { entries: Vec::new() };
        assert(ids_of(r.entries@) =~= Seq::<Seq<char>>::empty());
        r
    }

    /// The entries, in registration order.
    pub fn entries(&self) -> (r: &[VisualInfo])
        ensures
            r@ == self.view_entries(),
            ids_of(self.view_entries()).no_duplicates(),
    {
        proof {
            use_type_invariant(self);
        }
        self.entries.as_slice()
    }

    pub fn len(&self) -> (r: usize)
        ensures
            r == self.view_entries().len(),
    {
        self.entries.len()
    }

    pub fn is_empty(&self) -> (r: bool)
        ensures
            r == (self.view_entries().len() == 0),
    {
        self.entries.len() == 0
    }

    /// Position of the visual called `id`.
    pub fn index_of(&self, id: &str) -> (r: Option<usize>)
        ensures
            r matches Some(i) ==> index_in(self.view_entries(), id@) == Some(i as int),
            r is None ==> index_in(self.view_entries(), id@) is None,
            ids_of(self.view_entries()).no_duplicates(),
    {
        proof {
            use_type_invariant(self);
        }
        let mut k: usize = 0;
        while k < self.entries.len()
            invariant
                k <= self.entries@.len(),
                ids_of(self.entries@).no_duplicates(),
                forall|j: int| 0 <= j < k ==> self.entries@[j].id@ != id@,
            decreases self.entries.len() - k,
        {
            if same_text(self.entries[k].id, id) {
                proof {
                    let ids = ids_of(self.entries@);
                    assert(ids[k as int] == id@);
                    let c = choose|i: int| 0 <= i < self.entries@.len() && self.entries@[i].id@ == id@;
                    assert(ids[c] == id@);
                }
                return Some(k);
            }
            k = k + 1;
        }
        proof {
            let ids = ids_of(self.entries@);
            if ids.contains(id@) {
                let m = choose|m: int| 0 <= m < ids.len() && ids[m] == id@;
                assert(self.entries@[m].id@ == id@);
            }
        }
        None
    }

    /// The entry at `index`.
    pub fn get(&self, index: usize) -> (r: Option<&VisualInfo>)
        ensures
            index < self.view_entries().len() ==> r == Some(&self.view_entries()[index as int]),
            index >= self.view_entries().len() ==> r is None,
    {
        if index < self.entries.len() {
            Some(&self.entries[index])
        } else {
            None
        }
    }

    /// The entry for `id`.
    pub fn info(&self, id: &str) -> (r: Option<&VisualInfo>)
        ensures
            match index_in(self.view_entries(), id@) {
                Some(i) => r == Some(&self.view_entries()[i]),
                None => r is None,
            },
    {
        match self.index_of(id) {
            Some(i) => Some(&self.entries[i]),
            None => None,
        }
    }

    /// Look up a visual by a runtime string and recover its `'static` id.
    pub fn info_by_str(&self, id: &str) -> (r: Option<VisualId>)
        ensures
            match index_in(self.view_entries(), id@) {
                Some(i) => r == Some(self.view_entries()[i].id),
                None => r is None,
            },
    {
        match self.index_of(id) {
            Some(i) => Some(self.entries[i].id),
            None => None,
        }
    }

    /// The visual `offset` places after `current`, wrapping. `None` when
    /// nothing is registered.
    pub fn cycle(&self, current: Option<VisualId>, offset: isize) -> (r: Option<VisualId>)
        requires
            self.view_entries().len() == 0 || cycle_index_base(self.view_entries(), id_view(current))
                + offset <= isize::MAX,
        ensures
            r == cycle_spec(self.view_entries(), id_view(current), offset as int),
    {
        let n = self.entries.len();
        if n == 0 {
            return None;
        }
        let base: usize = match current {
            Some(id) => match self.index_of(id) {
                Some(i) => i,
                None => 0,
            },
            None => 0,
        };
        let next: usize = wrap_index(base, offset, n);
        Some(self.entries[next].id)
    }

    /// Add a visual. A second registration of an id already present is
    /// ignored, and reported by returning `false`.
    pub fn register(&mut self, info: VisualInfo) -> (added: bool)
        ensures
            added == !ids_of(old(self).view_entries()).contains(info.id@),
            added ==> final(self).view_entries() == old(self).view_entries().push(info),
            !added ==> final(self).view_entries() == old(self).view_entries(),
    {
        proof {
            use_type_invariant(&*self);
        }
        match self.index_of(info.id) {
            Some(_) => false,
            None => {
                let ghost ids = ids_of(self.entries@);
                assert(!ids.contains(info.id@));
                let mut entries: Vec<VisualInfo> = Vec::new();
                std::mem::swap(&mut entries, &mut self.entries);
                entries.push(info);
                proof {
                    let nids = ids_of(entries@);
                    assert(nids =~= ids.push(info.id@));
                    assert forall|a: int, b: int|
                        0 <= a < nids.len() && 0 <= b < nids.len() && a != b implies nids[a]
                        != nids[b] by {
                        if a < ids.len() && b < ids.len() {
                        } else if a < ids.len() {
                            assert(ids[a] != info.id@);
                        } else {
                            assert(ids[b] != info.id@);
                        }
                    }
                }
                self.entries = entries;
                true
            },
        }
    }
}

/// The position cycling starts from.
pub open spec fn cycle_index_base(entries: Seq<VisualInfo>, current: Option<Seq<char>>) -> int {
    match current {
        Some(id) => match index_in(entries, id) {
            Some(i) => i,
            None => 0,
        },
        None => 0,
    }
}

/// `(base + offset)` wrapped into `0..n`, Euclidean.
fn wrap_index(base: usize, offset: isize, n: usize) -> (r: usize)
    requires
        n > 0,
        base < n,
        base + offset <= isize::MAX,
    ensures
        r == (base + offset) % (n as int),
        r < n,
{
    if offset >= 0 {
        let x: usize = base + offset as usize;
        x % n
    } else {
        let neg: usize = if offset == isize::MIN {
            (isize::MAX as usize) + 1
        } else {
            (-offset) as usize
        };
        assert(neg == -(offset as int));
        if neg <= base {
            proof {
                let x = base + offset;
                assert(x == 0 * (n as int) + x);
                lemma_fundamental_div_mod_converse(x, n as int, 0, x);
            }
            base - neg
        } else {
            let m = (neg - base) % n;
            proof {
                let d = (neg - base) as int;
                let ni = n as int;
                let x = base + offset;
                assert(x == -d);
                let q = d / ni;
                assert(d == q * ni + m) by (nonlinear_arith)
                    requires q == d / ni, m == d % ni, ni > 0;
                if m == 0 {
                    assert(x == (-q) * ni + 0) by (nonlinear_arith)
                        requires x == -d, d == q * ni + m, m == 0;
                    lemma_fundamental_div_mod_converse(x, ni, -q, 0);
                } else {
                    assert(x == (-q - 1) * ni + (ni - m)) by (nonlinear_arith)
                        requires x == -d, d == q * ni + m;
                    lemma_fundamental_div_mod_converse(x, ni, -q - 1, ni - m);
                }
            }
            if m == 0 {
                0
            } else {
                n - m
            }
        }
    }
}

/// Where a request leads from `current`: a named visual, a step through the
/// registry, or nothing on stage.
pub open spec fn request_target(
    entries: Seq<VisualInfo>,
    current: Option<Seq<char>>,
    request: VisualRequest,
) -> Option<VisualId> {
    match request {
        VisualRequest::Show(id) => Some(id),
        VisualRequest::Cycle(offset) => cycle_spec(entries, current, offset as int),
        VisualRequest::Blackout => None,
    }
}

/// Whether a target differs from the visual `current` on stage.
pub open spec fn changes_from(current: Option<Seq<char>>) -> spec_fn(Option<VisualId>) -> bool {
    |target: Option<VisualId>| id_view(target) != current
}

/// Where each of a frame's requests leads, every one judged from `current`,
/// the visual on stage when the frame began.
pub open spec fn request_targets(
    entries: Seq<VisualInfo>,
    current: Option<Seq<char>>,
    requests: Seq<VisualRequest>,
) -> Seq<Option<VisualId>> {
    requests.map_values(|request: VisualRequest| request_target(entries, current, request))
}

/// The changes a frame's requests start, in order: every target except those
/// that name what was already on stage when the frame began.
pub open spec fn frame_changes(
    entries: Seq<VisualInfo>,
    current: Option<VisualId>,
    requests: Seq<VisualRequest>,
) -> Seq<Option<VisualId>> {
    request_targets(entries, id_view(current), requests).filter(changes_from(id_view(current)))
}

/// The visual on stage after the frame: the last change, or `current` when
/// there was none.
pub open spec fn frame_result(
    entries: Seq<VisualInfo>,
    current: Option<VisualId>,
    requests: Seq<VisualRequest>,
) -> Option<VisualId> {
    let changes = frame_changes(entries, current, requests);
    if changes.len() == 0 {
        current
    } else {
        changes.last()
    }
}

/// Whether every cycling request can be added to the position it steps from
/// without overflowing.
pub open spec fn offsets_in_range(
    entries: Seq<VisualInfo>,
    current: Option<Seq<char>>,
    requests: Seq<VisualRequest>,
) -> bool {
    forall|k: int|
        0 <= k < requests.len() ==> match #[trigger] requests[k] {
            VisualRequest::Cycle(offset) => entries.len() == 0 || cycle_index_base(entries, current)
                + offset <= isize::MAX,
            _ => true,
        }
}

fn same_visual(a: Option<VisualId>, b: Option<VisualId>) -> (r: bool)
    ensures
        r == (id_view(a) == id_view(b)),
{
    match (a, b) {
        (Some(x), Some(y)) => same_text(x, y),
        (None, None) => true,
        _ => false,
    }
}

impl VisualRegistry {
    /// Where `request` leads from `current`.
    pub fn target_of(&self, current: Option<VisualId>, request: VisualRequest) -> (r: Option<
        VisualId,
    >)
        requires
            request matches VisualRequest::Cycle(offset) ==> self.view_entries().len() == 0
                || cycle_index_base(self.view_entries(), id_view(current)) + offset <= isize::MAX,
        ensures
            r == request_target(self.view_entries(), id_view(current), request),
    {
        match request {
            VisualRequest::Show(id) => Some(id),
            VisualRequest::Cycle(offset) => self.cycle(current, offset),
            VisualRequest::Blackout => None,
        }
    }

    /// Apply a frame's worth of requests.
    ///
    /// Every request is judged against `current`, the visual on stage when the
    /// frame began: one that names it changes nothing, every other starts a
    /// change, and the last change is what is on stage afterwards. Returns that
    /// visual and the changes, in order; each change is a fresh activation that
    /// starts a transition.
    pub fn apply_visual_requests(
        &self,
        current: Option<VisualId>,
        requests: &Vec<VisualRequest>,
    ) -> (r: (Option<VisualId>, Vec<Option<VisualId>>))
        requires
            offsets_in_range(self.view_entries(), id_view(current), requests@),
        ensures
            r.1@ == frame_changes(self.view_entries(), current, requests@),
            r.0 == frame_result(self.view_entries(), current, requests@),
    {
        let ghost entries = self.view_entries();
        let ghost pred = changes_from(id_view(current));
        let mut now = current;
        let mut changes: Vec<Option<VisualId>> = Vec::new();
        let mut k: usize = 0;
        proof {
            reveal(Seq::filter);
            assert(request_targets(entries, id_view(current), requests@.take(0)) =~= Seq::<
                Option<VisualId>,
            >::empty());
        }
        while k < requests.len()
            invariant
                k <= requests@.len(),
                entries == self.view_entries(),
                pred == changes_from(id_view(current)),
                offsets_in_range(entries, id_view(current), requests@),
                changes@ == request_targets(entries, id_view(current), requests@.take(k as int)).filter(
                    pred,
                ),
                now == (if changes@.len() == 0 {
                    current
                } else {
                    changes@.last()
                }),
            decreases requests.len() - k,
        {
            let request = requests[k];
            assert(requests@[k as int] == request);
            let target = self.target_of(current, request);
            let ghost before = request_targets(entries, id_view(current), requests@.take(k as int));
            let ghost after = request_targets(
                entries,
                id_view(current),
                requests@.take(k + 1),
            );
            proof {
                assert(after =~= before.push(target));
                assert(after.drop_last() =~= before);
                reveal(Seq::filter);
            }
            if !same_visual(target, current) {
                changes.push(target);
                now = target;
            }
            k = k + 1;
        }
        assert(requests@.take(requests@.len() as int) =~= requests@);
        (now, changes)
    }
}

impl VisualRegistry {
    /// Apply a frame's worth of requests and begin the transition that covers
    /// each change.
    ///
    /// The changes are those of [`VisualRegistry::apply_visual_requests`]; one
    /// transition is started per change, in order, so every route into a
    /// visual change gets the same handover. Returns the visual on stage
    /// afterwards, the changes, and each started transition's seed bits.
    pub fn apply_and_start_transitions(
        &self,
        current: Option<VisualId>,
        requests: &Vec<VisualRequest>,
        transition: &mut Transition,
    ) -> (r: (Option<VisualId>, Vec<Option<VisualId>>, Vec<Option<u32>>))
        requires
            offsets_in_range(self.view_entries(), id_view(current), requests@),
        ensures
            r.1@ == frame_changes(self.view_entries(), current, requests@),
            r.0 == frame_result(self.view_entries(), current, requests@),
            (*final(transition), r.2@) == started_times(*old(transition), r.1@.len()),
    {
        let (now, changes) = self.apply_visual_requests(current, requests);
        let mut seeds: Vec<Option<u32>> = Vec::new();
        let mut k: usize = 0;
        while k < changes.len()
            invariant
                k <= changes@.len(),
                (*transition, seeds@) == started_times(*old(transition), k as nat),
            decreases changes.len() - k,
        {
            let seed = transition.start();
            seeds.push(seed);
            k = k + 1;
        }
        (now, changes, seeds)
    }
}

proof fn lemma_index_of_entry(entries: Seq<VisualInfo>, k: int)
    requires
        ids_of(entries).no_duplicates(),
        0 <= k < entries.len(),
    ensures
        index_in(entries, entries[k].id@) == Some(k),
{
    let ids = ids_of(entries);
    assert(ids[k] == entries[k].id@);
    let c = choose|i: int| 0 <= i < entries.len() && entries[i].id@ == entries[k].id@;
    assert(ids[c] == ids[k]);
}

/// Cycling composes: stepping `a` and then `b` from a registered visual lands
/// where stepping `a + b` does.
pub proof fn lemma_cycle_composes(entries: Seq<VisualInfo>, k: int, a: int, b: int)
    requires
        ids_of(entries).no_duplicates(),
        0 <= k < entries.len(),
    ensures
        cycle_spec(entries, id_view(cycle_spec(entries, Some(entries[k].id@), a)), b)
            == cycle_spec(entries, Some(entries[k].id@), a + b),
{
    let n = entries.len() as int;
    lemma_index_of_entry(entries, k);
    let i = (k + a) % n;
    lemma_index_of_entry(entries, i);
    lemma_add_mod_noop_right(b, k + a, n);
    assert(b + (k + a) == k + (a + b));
}

/// A step of zero, or of the whole registry, stays on a registered visual.
pub proof fn lemma_cycle_returns_home(entries: Seq<VisualInfo>, k: int)
    requires
        ids_of(entries).no_duplicates(),
        0 <= k < entries.len(),
    ensures
        cycle_spec(entries, Some(entries[k].id@), 0) == Some(entries[k].id),
        cycle_spec(entries, Some(entries[k].id@), entries.len() as int) == Some(entries[k].id),
{
    let n = entries.len() as int;
    lemma_index_of_entry(entries, k);
    lemma_small_mod(k as nat, n as nat);
    lemma_mod_add_multiples_vanish(k, n);
    assert(k + n == n + k);
}

/// Every step lands on a registered visual, and stepping from what is on stage
/// by anything but a multiple of the registry's size moves off it.
pub proof fn lemma_cycle_moves(entries: Seq<VisualInfo>, k: int, offset: int)
    requires
        ids_of(entries).no_duplicates(),
        0 <= k < entries.len(),
        offset % (entries.len() as int) != 0,
    ensures
        cycle_spec(entries, Some(entries[k].id@), offset) != Some(entries[k].id),
{
    let n = entries.len() as int;
    lemma_index_of_entry(entries, k);
    let i = (k + offset) % n;
    if i == k {
        lemma_add_mod_noop_right(k, offset, n);
        lemma_small_mod(k as nat, n as nat);
        assert((k + offset) % n == (k + offset % n) % n);
        assert(false) by (nonlinear_arith)
            requires
                (k + offset % n) % n == k,
                0 <= k < n,
                0 < offset % n < n,
        {
            assert(0 <= k + offset % n < 2 * n);
        }
    } else {
        let ids = ids_of(entries);
        assert(ids[i] != ids[k]);
    }
}

impl Default for VisualRegistry {
    /// An empty registry.
    fn default() -> (r: VisualRegistry)
        ensures
            r.view_entries() == Seq::<VisualInfo>::empty(),
    {
        VisualRegistry::new()
    }
}

} // verus!
