//! Tab bookkeeping shared by the workspaces: identifiers for new tabs, and
//! which tab becomes active when one is closed.
use vstd::prelude::*;

verus! {

/// The identifier after `id`: one more, wrapping round to 1 (0 is never used).
pub open spec fn spec_advance_id(id: u64) -> u64 {
    if id == u64::MAX {
        1
    } else {
        (id + 1) as u64
    }
}

/// The identifier after `id`, never 0.
pub fn advance_id(id: u64) -> (next: u64)
    ensures
        next == spec_advance_id(id),
        next >= 1,
{
    let next = id.wrapping_add(1);
    if next < 1 {
        1
    } else {
        next
    }
}

/// The position of the first tab with identifier `id`, or -1.
pub open spec fn position_of_id(ids: Seq<u64>, id: u64) -> int
    decreases ids.len(),
{
    if ids.len() == 0 {
        -1
    } else if ids[0] == id {
        0
    } else {
        let r = position_of_id(ids.drop_first(), id);
        if r < 0 {
            -1
        } else {
            r + 1
        }
    }
}

/// `position_of_id` finds the first tab with the identifier.
proof fn lemma_position_of_id(ids: Seq<u64>, id: u64)
    ensures
        -1 <= position_of_id(ids, id) < ids.len(),
        position_of_id(ids, id) >= 0 ==> ids[position_of_id(ids, id)] == id,
        position_of_id(ids, id) >= 0 ==> forall|j: int| 0 <= j < position_of_id(ids, id) ==> ids[j] != id,
        position_of_id(ids, id) < 0 ==> forall|j: int| 0 <= j < ids.len() ==> ids[j] != id,
    decreases ids.len(),
{
    if ids.len() > 0 {
        lemma_position_of_id(ids.drop_first(), id);
        assert forall|j: int| 1 <= j < ids.len() implies ids[j] == ids.drop_first()[j - 1] by {}
    }
}

/// What closing the tab `id` does to the tab strip whose tabs have the
/// identifiers `ids` and whose active tab is `active`: the position of the
/// tab to remove, and the tab active afterwards. Closing the active tab
/// activates the tab that moves into its place, or else the one before it.
pub fn closing_plan(ids: &Vec<u64>, active: Option<u64>, id: u64) -> (r: Option<(usize, Option<u64>)>)
    ensures
        ({
            let p = position_of_id(ids@, id);
            let rest = ids@.remove(p);
            &&& p < 0 ==> r is None
            &&& p >= 0 ==> (r matches Some((index, next)) && index == p && (active != Some(id) ==> next == active) && (
            active == Some(id) ==> next == if p < rest.len() {
                Some(rest[p])
            } else if p >= 1 {
                Some(rest[p - 1])
            } else {
                None::<u64>
            }))
        }),
{
    proof {
        lemma_position_of_id(ids@, id);
    }
    let mut i: usize = 0;
    while i < ids.len()
        invariant
            i <= ids@.len(),
            forall|j: int| 0 <= j < i ==> ids@[j] != id,
            -1 <= position_of_id(ids@, id) < ids@.len(),
            position_of_id(ids@, id) >= 0 ==> ids@[position_of_id(ids@, id)] == id,
            position_of_id(ids@, id) >= 0 ==> forall|j: int| 0 <= j < position_of_id(ids@, id) ==> ids@[j] != id,
            position_of_id(ids@, id) < 0 ==> forall|j: int| 0 <= j < ids@.len() ==> ids@[j] != id,
        decreases ids@.len() - i,
    {
        if ids[i] == id {
            proof {
                let f = position_of_id(ids@, id);
                if f < 0 {
                    assert(ids@[i as int] != id);
                } else if f < i {
                    assert(ids@[f] != id);
                } else if f > i {
                    assert(ids@[i as int] != id);
                }
            }
            let ghost rest = ids@.remove(i as int);
            let next = match active {
                Some(a) => if a == id {
                    if i + 1 < ids.len() {
                        assert(rest[i as int] == ids@[i + 1]);
                        Some(ids[i + 1])
                    } else if i >= 1 {
                        assert(rest[i - 1] == ids@[i - 1]);
                        Some(ids[i - 1])
                    } else {
                        None
                    }
                } else {
                    active
                },
                None => None,
            };
            return Some((i, next));
        }
        i = i + 1;
    }
    None
}

/// What asking to close a tab leads to.
#[derive(Clone, Copy, Debug, PartialEq, Eq, Structural)]
pub enum CloseRequest {
    /// The tab has unsaved changes: ask before discarding them.
    Confirm,
    /// Close it now.
    Close,
}

/// A tab with unsaved changes is only closed after a confirmation.
pub fn close_request(dirty: bool) -> (r: CloseRequest)
    ensures
        dirty ==> r == CloseRequest::Confirm,
        !dirty ==> r == CloseRequest::Close,
{
    if dirty {
        CloseRequest::Confirm
    } else {
        CloseRequest::Close
    }
}

} // verus!
