//! The operator's side of the show: command-line flags, the blackout toggle
//! and the choice of opening visual.

use vstd::prelude::*;

use crate::text::same_text;
use crate::visual::{id_view, index_in, VisualId, VisualRegistry, VisualRequest};

verus! {

/// Position of the first argument that reads `name`, if any.
pub open spec fn first_arg(args: Seq<String>, name: Seq<char>) -> Option<int> {
    if exists|i: int| 0 <= i < args.len() && args[i]@ == name {
        Some(
            choose|i: int|
                0 <= i < args.len() && args[i]@ == name && forall|j: int|
                    0 <= j < i ==> args[j]@ != name,
        )
    } else {
        None
    }
}

fn find_arg(args: &Vec<String>, name: &str) -> (r: Option<usize>)
    ensures
        match r {
            Some(i) => i < args@.len() && args@[i as int]@ == name@ && forall|j: int|
                0 <= j < i ==> args@[j]@ != name@,
            None => forall|j: int| 0 <= j < args@.len() ==> args@[j]@ != name@,
        },
{
    let mut k: usize = 0;
    while k < args.len()
        invariant
            k <= args@.len(),
            forall|j: int| 0 <= j < k ==> args@[j]@ != name@,
        decreases args.len() - k,
    {
        if same_text(args[k].as_str(), name) {
            return Some(k);
        }
        k = k + 1;
    }
    None
}

proof fn lemma_first_arg(args: Seq<String>, name: Seq<char>, i: int)
    requires
        0 <= i < args.len(),
        args[i]@ == name,
        forall|j: int| 0 <= j < i ==> args[j]@ != name,
    ensures
        first_arg(args, name) == Some(i),
{
    let c = choose|c: int|
        0 <= c < args.len() && args[c]@ == name && forall|j: int| 0 <= j < c ==> args[j]@ != name;
    assert(0 <= c < args.len() && args[c]@ == name && forall|j: int|
        0 <= j < c ==> args[j]@ != name);
    if c < i {
        assert(args[c]@ != name);
    }
    if i < c {
        assert(args[i]@ != name);
    }
}

/// Whether any argument reads `name`.
pub fn has_flag(args: &Vec<String>, name: &str) -> (r: bool)
    ensures
        r == exists|i: int| 0 <= i < args@.len() && args@[i]@ == name@,
{
    match find_arg(args, name) {
        Some(i) => {
            assert(args@[i as int]@ == name@);
            true
        },
        None => false,
    }
}

/// The argument after the first one that reads `name`, if there is one.
pub fn flag_value(args: &Vec<String>, name: &str) -> (r: Option<String>)
    ensures
        match first_arg(args@, name@) {
            Some(i) => if i + 1 < args@.len() {
                r == Some(args@[i + 1])
            } else {
                r is None
            },
            None => r is None,
        },
{
    match find_arg(args, name) {
        Some(i) => {
            proof {
                lemma_first_arg(args@, name@, i as int);
            }
            if i < args.len() - 1 {
                Some(args[i + 1].clone())
            } else {
                None
            }
        },
        None => {
            proof {
                if exists|i: int| 0 <= i < args@.len() && args@[i]@ == name@ {
                    let i = choose|i: int| 0 <= i < args@.len() && args@[i]@ == name@;
                    assert(args@[i]@ != name@);
                }
            }
            None
        },
    }
}

/// The cut to black, and what to come back to.
#[derive(Debug, Clone, Copy)]
pub struct Blackout {
    pub active: bool,
    /// What was on stage when the blackout began.
    pub previous: Option<VisualId>,
}

/// A toggle of the blackout with `current` on stage: the new state, and what
/// to request. Going dark remembers what was up; coming back shows it again,
/// or — with nothing remembered — re-shows whatever is at the current
/// position.
pub open spec fn toggled(b: Blackout, current: Option<VisualId>) -> (Blackout, VisualRequest) {
    if !b.active {
        (Blackout { active: true, previous: current }, VisualRequest::Blackout)
    } else {
        (
            Blackout { active: false, previous: None },
            match b.previous {
                Some(id) => VisualRequest::Show(id),
                None => VisualRequest::Cycle(0),
            },
        )
    }
}

impl Blackout {
    /// Not blacked out.
    pub fn new() -> (b: Blackout)
        ensures
            !b.active,
            b.previous is None,
    {
        Blackout { active: false, previous: None }
    }

    /// Toggle the blackout with `current` on stage, and say what to request.
    pub fn toggle(&mut self, current: Option<VisualId>) -> (r: VisualRequest)
        ensures
            (*final(self), r) == toggled(*old(self), current),
    {
        self.active = !self.active;
        if self.active {
            self.previous = current;
            VisualRequest::Blackout
        } else {
            let previous = self.previous;
            self.previous = None;
            match previous {
                Some(id) => VisualRequest::Show(id),
                None => VisualRequest::Cycle(0),
            }
        }
    }
}

/// Going dark and coming back returns to the visual that was up, whatever is
/// on stage in between, and leaves nothing remembered.
pub proof fn lemma_blackout_returns(b: Blackout, id: VisualId, between: Option<VisualId>)
    requires
        !b.active,
    ensures
        toggled(toggled(b, Some(id)).0, between).1 == VisualRequest::Show(id),
        toggled(toggled(b, Some(id)).0, between).0 == (Blackout { active: false, previous: None }),
{
}

/// The visual the show opens on when nothing is up yet: the one asked for by
/// name, or the first registered when that name is unknown or none was given.
pub open spec fn opening_visual_spec(
    entries: Seq<crate::visual::VisualInfo>,
    start_with: Option<Seq<char>>,
) -> Option<VisualId> {
    let requested = match start_with {
        Some(name) => match index_in(entries, name) {
            Some(i) => Some(entries[i].id),
            None => None,
        },
        None => None,
    };
    match requested {
        Some(id) => Some(id),
        None => if entries.len() > 0 {
            Some(entries[0].id)
        } else {
            None
        },
    }
}

/// The opening visual to request, or `None` when one is already up or
/// nothing is registered.
pub fn opening_visual(
    registry: &VisualRegistry,
    current: Option<VisualId>,
    start_with: Option<&str>,
) -> (r: Option<VisualId>)
    ensures
        current is Some ==> r is None,
        current is None ==> r == opening_visual_spec(
            registry.view_entries(),
            match start_with {
                Some(s) => Some(s@),
                None => None,
            },
        ),
{
    if current.is_some() {
        return None;
    }
    let requested = match start_with {
        Some(wanted) => registry.info_by_str(wanted),
        None => None,
    };
    match requested {
        Some(id) => Some(id),
        None => match registry.get(0) {
            Some(info) => Some(info.id),
            None => None,
        },
    }
}

impl Default for Blackout {
    /// Not blacked out.
    fn default() -> (b: Blackout)
        ensures
            !b.active,
            b.previous is None,
    {
        Blackout::new()
    }
}

} // verus!
