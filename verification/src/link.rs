//! What stands where a link belongs.
use crate::path::{LexPath, Part};
use vstd::prelude::*;

verus! {

/// The state of a place where a link to a shadow file belongs.
#[derive(Clone, Copy, Debug, PartialEq, Eq, Structural)]
pub enum LinkState {
    /// Nothing is there.
    Absent,
    /// A symbolic link is there and leads to the shadow file.
    Correct,
    /// Something else is there: a file, a directory, or a link that leads
    /// elsewhere or nowhere.
    Conflict,
}

/// The state of a place, from what was seen there: whether anything stands
/// there, be it a link that leads nowhere; whether it is a symbolic link;
/// and, if its location was resolved, where it leads. `target` is the shadow
/// file that it should lead to.
pub open spec fn classify(
    present: bool,
    is_symlink: bool,
    leads_to: Option<Seq<Part>>,
    target: Seq<Part>,
) -> LinkState {
    if !present {
        LinkState::Absent
    } else if is_symlink && leads_to == Some(target) {
        LinkState::Correct
    } else {
        LinkState::Conflict
    }
}

/// The state of a place where a link to `target` belongs.
pub fn link_state(
    present: bool,
    is_symlink: bool,
    leads_to: Option<&LexPath>,
    target: &LexPath,
) -> (state: LinkState)
    ensures
        state == classify(
            present,
            is_symlink,
            match leads_to {
                Some(p) => Some(p@),
                None => None,
            },
            target@,
        ),
{
    if !present {
        LinkState::Absent
    } else if !is_symlink {
        LinkState::Conflict
    } else {
        match leads_to {
            Some(p) => {
                if p.same(target) {
                    LinkState::Correct
                } else {
                    LinkState::Conflict
                }
            },
            None => LinkState::Conflict,
        }
    }
}

} // verus!
