//! How much should be done at once.

use crate::text::{decimal, decimal_string};
use vstd::prelude::*;

verus! {

/// A parallelism that is settled.
#[derive(Clone, Copy, Debug, PartialEq, Eq, Structural)]
pub struct Resolved {
    /// `None` when detection failed and nothing was declared.
    pub value: Option<usize>,
    /// Whether the value was declared, and not detected.
    pub declared: bool,
}

/// The parallelism of a process. It is settled once, by the first declaration or the first read.
#[derive(Clone, Copy, Debug, PartialEq, Eq, Structural)]
pub struct ParallelismCell {
    pub resolved: Option<Resolved>,
}

/// The parallelism was already settled to a different value, so the requested one is not in effect.
#[derive(Clone, Copy, Debug, PartialEq, Eq, Structural)]
pub struct SetParallelismError {
    /// The value that was requested, and is not in effect.
    pub requested: usize,
    /// The value that is in effect. `None` if detection failed.
    pub installed: Option<usize>,
    /// Whether the value in effect was declared, and not detected.
    pub installed_was_declared: bool,
}

impl SetParallelismError {
    /// How the error is told.
    pub open spec fn text(self) -> Seq<char> {
        "cannot set the available parallelism to "@ + decimal(self.requested as nat) + (
        match self.installed {
            Some(installed) => if self.installed_was_declared {
                ": "@ + decimal(installed as nat) + " was already declared"@
            } else {
                ": it was already resolved to the detected "@ + decimal(installed as nat)
                    + ", so this call came after something read it"@
            },
            None =>
                ": detection already ran and failed, so this call came after something read it"@,
        })
    }

    /// Returns how the error is told.
    pub fn to_string(&self) -> (r: String)
        ensures
            r@ == self.text(),
    {
        let mut s: String = "cannot set the available parallelism to ".to_owned();
        let requested = decimal_string(self.requested as u64);
        s.append(requested.as_str());
        match self.installed {
            Some(installed) => {
                let number = decimal_string(installed as u64);
                if self.installed_was_declared {
                    s.append(": ");
                    s.append(number.as_str());
                    s.append(" was already declared");
                } else {
                    s.append(": it was already resolved to the detected ");
                    s.append(number.as_str());
                    s.append(", so this call came after something read it");
                }
            },
            None => {
                s.append(
                    ": detection already ran and failed, so this call came after something read it",
                );
            },
        }
        assert(s@ =~= self.text());
        s
    }
}

/// What is settled after a declaration.
pub open spec fn after_declaration(cell: ParallelismCell, parallelism: usize) -> Resolved {
    match cell.resolved {
        Some(resolved) => resolved,
        None => Resolved { value: Some(parallelism), declared: true },
    }
}

/// What is settled after a read, where detection gives `detected`.
pub open spec fn after_read(cell: ParallelismCell, detected: Option<usize>) -> Resolved {
    match cell.resolved {
        Some(resolved) => resolved,
        None => Resolved { value: detected, declared: false },
    }
}

/// What a declaration is answered: that it is in effect, or what is in effect in its place.
pub open spec fn answered(cell: ParallelismCell, parallelism: usize) -> Result<
    (),
    SetParallelismError,
> {
    let resolved = after_declaration(cell, parallelism);
    if resolved.value == Some(parallelism) {
        Ok(())
    } else {
        Err(
            SetParallelismError {
                requested: parallelism,
                installed: resolved.value,
                installed_was_declared: resolved.declared,
            },
        )
    }
}

/// Declares the parallelism that is reported from then on.
///
/// Whichever of a declaration and a read comes first settles the value. To declare the value that
/// is in effect succeeds; to declare another one is refused and changes nothing.
pub fn set_available_parallelism(cell: &mut ParallelismCell, parallelism: usize) -> (r: Result<
    (),
    SetParallelismError,
>)
    requires
        parallelism > 0,
    ensures
        final(cell).resolved == Some(after_declaration(*old(cell), parallelism)),
        r is Ok <==> after_declaration(*old(cell), parallelism).value == Some(parallelism),
        r matches Err(e) ==> e == (SetParallelismError {
            requested: parallelism,
            installed: after_declaration(*old(cell), parallelism).value,
            installed_was_declared: after_declaration(*old(cell), parallelism).declared,
        }),
        r == answered(*old(cell), parallelism),
{
    let resolved: Resolved = match cell.resolved {
        Some(resolved) => resolved,
        None => Resolved { value: Some(parallelism), declared: true },
    };
    cell.resolved = Some(resolved);
    let in_effect: bool = match resolved.value {
        Some(value) => value == parallelism,
        None => false,
    };
    if in_effect {
        Ok(())
    } else {
        Err(
            SetParallelismError {
                requested: parallelism,
                installed: resolved.value,
                installed_was_declared: resolved.declared,
            },
        )
    }
}

/// Returns the parallelism, and settles it with what detection gives if nothing has settled it
/// before. Detection is asked only then.
pub fn get_available_parallelism<F: FnOnce() -> Option<usize>>(
    cell: &mut ParallelismCell,
    detect: F,
) -> (r: Option<usize>)
    requires
        detect.requires(()),
    ensures
        old(cell).resolved matches Some(resolved) ==> *final(cell) == *old(cell) && r
            == resolved.value,
        old(cell).resolved is None ==> detect.ensures((), r) && final(cell).resolved == Some(
            after_read(*old(cell), r),
        ),
{
    match cell.resolved {
        Some(resolved) => resolved.value,
        None => {
            let detected = detect();
            cell.resolved = Some(Resolved { value: detected, declared: false });
            detected
        },
    }
}

/// The first one settles it: whatever is declared or detected later, the value and where it came
/// from stay as they are.
pub proof fn law_the_first_settles_it(
    cell: ParallelismCell,
    first: usize,
    detected: Option<usize>,
    later: usize,
    detected_later: Option<usize>,
)
    ensures
        ({
            let declared = ParallelismCell { resolved: Some(after_declaration(cell, first)) };
            let read = ParallelismCell { resolved: Some(after_read(cell, detected)) };
            &&& after_declaration(declared, later) == after_declaration(cell, first)
            &&& after_read(declared, detected_later) == after_declaration(cell, first)
            &&& after_declaration(read, later) == after_read(cell, detected)
            &&& after_read(read, detected_later) == after_read(cell, detected)
        }),
{
}

/// What is not settled yet is settled by a declaration to what is declared and by a read to what is
/// detected, and it is remembered which of the two it was; what is settled stays as it is.
pub proof fn law_what_settles_it(cell: ParallelismCell, declared: usize, detected: Option<usize>)
    ensures
        cell.resolved is None ==> after_declaration(cell, declared).value == Some(declared)
            && after_declaration(cell, declared).declared && after_read(cell, detected).value
            == detected && !after_read(cell, detected).declared,
        cell.resolved is Some ==> Some(after_declaration(cell, declared)) == cell.resolved && Some(
            after_read(cell, detected),
        ) == cell.resolved,
{
}

/// The first declaration is accepted, and after it a declaration exactly if it is of the same value;
/// after a read, exactly if it is of what was detected. One that is refused is told what was
/// requested, what is in effect, and which of the two settled it.
pub proof fn law_which_declarations_are_refused(
    first: usize,
    detected: Option<usize>,
    later: usize,
)
    ensures
        ({
            let cell = ParallelismCell { resolved: None };
            let declared = ParallelismCell { resolved: Some(after_declaration(cell, first)) };
            let read = ParallelismCell { resolved: Some(after_read(cell, detected)) };
            &&& answered(cell, first) is Ok
            &&& answered(declared, later) is Ok <==> later == first
            &&& answered(read, later) is Ok <==> detected == Some(later)
            &&& answered(declared, later) matches Err(e) ==> e.requested == later && e.installed
                == Some(first) && e.installed_was_declared
            &&& answered(read, later) matches Err(e) ==> e.requested == later && e.installed
                == detected && !e.installed_was_declared
        }),
{
}

} // verus!
