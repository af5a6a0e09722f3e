//! The search for a name under which the old contents of an edited file are
//! kept.
//!
//! The copies of a file `f` are called `f.orig1`, `f.orig2` and so on. The
//! first number whose name is free is taken; the search goes from 1 up to, not
//! including, 100. Whether a name is free is for the caller to find out: this
//! module names the candidates and says how the search goes on.

use crate::text::{decimal, push_decimal};
use vstd::prelude::*;
use vstd::string::StringExecFns;

verus! {

/// The number of the first candidate.
pub const FIRST_BACKUP: u32 = 1;

/// The number at which the search gives up.
pub const BACKUP_LIMIT: u32 = 100;

/// What is put behind the name of a file to name its copy number `n`.
pub open spec fn backup_suffix(n: nat) -> Seq<char> {
    ".orig"@ + decimal(n)
}

/// How a search goes on behind one candidate.
#[derive(Clone, Copy, Debug, PartialEq, Eq)]
pub enum BackupStep {
    /// The candidate is free: take it.
    Use,
    /// The candidate is taken: try the one with this number.
    Try(u32),
    /// The candidate is taken and was the last.
    GiveUp,
}

/// How the search goes on behind candidate `n`, of which `taken` says whether
/// a file of its name exists.
pub open spec fn backup_step_after(n: u32, taken: bool) -> BackupStep {
    if !taken {
        BackupStep::Use
    } else if n + 1 < BACKUP_LIMIT {
        BackupStep::Try((n + 1) as u32)
    } else {
        BackupStep::GiveUp
    }
}

/// What is put behind the name of a file to name its copy number `n`:
/// `.orig` and the number.
pub fn backup_extension(n: u32) -> (extension: String)
    ensures
        extension@ == backup_suffix(n as nat),
{
    let mut extension = String::from_str(".orig");
    push_decimal(&mut extension, n as u128);
    extension
}

/// How the search goes on behind candidate `n`: a free name is taken, a taken
/// one leads to the next number, and behind the last number the search gives
/// up.
pub fn next_backup_step(n: u32, taken: bool) -> (step: BackupStep)
    ensures
        step == backup_step_after(n, taken),
{
    if !taken {
        BackupStep::Use
    } else if n < BACKUP_LIMIT - 1 {
        BackupStep::Try(n + 1)
    } else {
        BackupStep::GiveUp
    }
}

} // verus!
