//! The commands, and which of them may run side by side.

use vstd::prelude::*;

verus! {

/// A command of the user.
#[derive(Clone, Copy, Debug, PartialEq, Eq, Structural)]
pub enum CommandKind {
    Init,
    Checkout,
    Status,
    Drop,
    Pr,
    Sync,
    New,
    Pools,
    RmPool,
    Build,
    Cd,
    Completions,
    Complete,
    Migrate,
    Pin,
    Unpin,
    Doctor,
}

/// The command only reads what is recorded.
pub open spec fn read_only(kind: CommandKind) -> bool {
    ||| kind == CommandKind::Status
    ||| kind == CommandKind::Complete
    ||| kind == CommandKind::Cd
    ||| kind == CommandKind::Pools
    ||| kind == CommandKind::Build
    ||| kind == CommandKind::Completions
}

/// Whether the command must have the records to itself, from before it reads them
/// until it is done.
pub fn needs_lock(kind: CommandKind) -> (r: bool)
    ensures
        r == !read_only(kind),
{
    match kind {
        CommandKind::Status => false,
        CommandKind::Complete => false,
        CommandKind::Cd => false,
        CommandKind::Pools => false,
        CommandKind::Build => false,
        CommandKind::Completions => false,
        _ => true,
    }
}

/// Which commands have to wait for each other: those that may write what is recorded, to
/// set a pool up or take it away, to hand a clone out or take it back, to make, move, pin
/// or repair clones, or to remember branches. The others may run at any time.
pub proof fn law_who_waits(kind: CommandKind)
    ensures
        match kind {
            CommandKind::Init | CommandKind::RmPool => !read_only(kind),
            CommandKind::Checkout | CommandKind::Pr | CommandKind::Drop => !read_only(kind),
            CommandKind::New | CommandKind::Migrate => !read_only(kind),
            CommandKind::Pin | CommandKind::Unpin => !read_only(kind),
            CommandKind::Doctor | CommandKind::Sync => !read_only(kind),
            CommandKind::Status | CommandKind::Pools | CommandKind::Cd => read_only(kind),
            CommandKind::Build => read_only(kind),
            CommandKind::Complete | CommandKind::Completions => read_only(kind),
        },
{
}

} // verus!
