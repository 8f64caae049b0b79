//! The named extension points of the devlog tool.
//!
//! At each extension point the tool runs an executable of the same name
//! from the repository's "hooks" directory, if one exists; running it is
//! the caller's business.  This module only names the points.

use vstd::prelude::*;

verus! {

/// An extension point: a moment in an operation at which a user-supplied
/// hook program may run.
#[derive(Debug, Copy, Clone, PartialEq, Eq, Structural)]
pub enum HookType {
    /// Before the most recent entry is opened in the editor.
    BeforeEdit,
    /// After the editor closes.
    AfterEdit,
    /// Before a rollover creates the next entry.
    BeforeRollover,
    /// After a rollover created the next entry.
    AfterRollover,
}

/// The file name of the hook program run at each extension point.
pub open spec fn hook_name_spec(h: HookType) -> Seq<char> {
    match h {
        HookType::BeforeEdit => "before-edit"@,
        HookType::AfterEdit => "after-edit"@,
        HookType::BeforeRollover => "before-rollover"@,
        HookType::AfterRollover => "after-rollover"@,
    }
}

impl HookType {
    /// The file name of the hook program run at this extension point.
    pub fn name(&self) -> (r: String)
        ensures
            r@ == hook_name_spec(*self),
    {
        let s = match self {
            HookType::BeforeEdit => "before-edit",
            HookType::AfterEdit => "after-edit",
            HookType::BeforeRollover => "before-rollover",
            HookType::AfterRollover => "after-rollover",
        };
        s.to_owned()
    }
}

} // verus!
