use vstd::prelude::*;

use crate::text::{contains_str, has_infix};

verus! {

/// How many times the table status is polled after the table is created.
pub const MAX_TABLE_POLLS: u32 = 10;

/// What to do after polling the status of a table that is being created.
#[derive(Debug, Clone, Copy, PartialEq, Eq, Structural)]
pub enum TableWait {
    /// The table is active.
    Ready,
    /// Sleep, then poll again.
    Retry,
    /// Stop waiting: the creation was started and may finish later.
    GiveUp,
}

/// The step after poll number `polls_done + 1` reported `active`.
pub open spec fn table_wait_of(polls_done: u32, active: bool) -> TableWait {
    if active {
        TableWait::Ready
    } else if polls_done + 1 >= MAX_TABLE_POLLS {
        TableWait::GiveUp
    } else {
        TableWait::Retry
    }
}

/// Decides the next step of waiting for a new table, given how many polls
/// came before this one and the status this one reported, if any.
pub fn table_poll_step(polls_done: u32, status: Option<&str>) -> (r: TableWait)
    requires
        polls_done < MAX_TABLE_POLLS,
    ensures
        r == table_wait_of(
            polls_done,
            match status {
                Some(s) => s@ == "ACTIVE"@,
                None => false,
            },
        ),
{
    let active = match status {
        Some(s) => s.to_owned() == "ACTIVE".to_owned(),
        None => false,
    };
    if active {
        TableWait::Ready
    } else if polls_done + 1 >= MAX_TABLE_POLLS {
        TableWait::GiveUp
    } else {
        TableWait::Retry
    }
}

/// Whether an error from describing a table says that the table does not
/// exist.
pub fn reports_missing_table(error_text: &str) -> (r: bool)
    ensures
        r == has_infix(error_text@, "ResourceNotFoundException"@),
{
    contains_str(error_text, "ResourceNotFoundException")
}

/// Whether an error from the object store says that the bucket or object
/// does not exist.
pub fn reports_not_found(error_text: &str) -> (r: bool)
    ensures
        r == has_infix(error_text@, "NotFound"@),
{
    contains_str(error_text, "NotFound")
}

} // verus!
