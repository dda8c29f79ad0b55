//! The counter that records the highest generation number imported so far.
//!
//! The counter lets other services tell which commits exist both in Mercurial
//! and in Mononoke. It is only a hint: a commit with a lower generation number
//! that forked off the main branch may be imported after it.

use vstd::prelude::*;

verus! {

/// Why the counter could not be brought up to date.
#[derive(Debug, Clone, Copy, PartialEq, Eq, Structural)]
pub enum GenerationUpdateError {
    /// The latest imported changeset has no generation number.
    GenerationNumberNotSet,
}

/// The value to write into the counter, given the value it holds (if any) and
/// the generation number of the latest imported changeset: `None` when the
/// counter already holds a value at least as high.
pub open spec fn generation_counter_write(highest_imported: Option<i64>, new_generation: u64) -> Option<i64> {
    match highest_imported {
        Some(highest) => if new_generation as i64 > highest {
            Some(new_generation as i64)
        } else {
            None
        },
        None => Some(new_generation as i64),
    }
}

/// The counter after a write decided by `generation_counter_write` (or none) was applied.
pub open spec fn counter_after_write(highest_imported: Option<i64>, write: Option<i64>) -> Option<i64> {
    match write {
        Some(value) => Some(value),
        None => highest_imported,
    }
}

/// Decides how the counter of the highest imported generation number is updated
/// after an import whose latest changeset has generation `new_generation`.
/// Returns the value to write, `None` to leave the counter alone, or an error
/// when the changeset has no generation number.
pub fn highest_generation_update(highest_imported: Option<i64>, new_generation: Option<u64>) -> (write: Result<Option<i64>, GenerationUpdateError>)
    ensures
        match new_generation {
            None => write == Err::<Option<i64>, GenerationUpdateError>(GenerationUpdateError::GenerationNumberNotSet),
            Some(generation) => write == Ok::<Option<i64>, GenerationUpdateError>(generation_counter_write(highest_imported, generation)),
        },
{
    let generation = match new_generation {
        Some(generation) => generation,
        None => return Err(GenerationUpdateError::GenerationNumberNotSet),
    };
    let value = generation as i64;
    match highest_imported {
        Some(highest) => if value > highest {
            Ok(Some(value))
        } else {
            Ok(None)
        },
        None => Ok(Some(value)),
    }
}

/// The counter keeps the highest generation number imported: after the update
/// it holds the larger of its old value and the new generation number (as the
/// signed value it is stored as), and it never goes down.
pub proof fn lemma_counter_keeps_highest(highest_imported: Option<i64>, new_generation: u64)
    ensures
        ({
            let after = counter_after_write(highest_imported, generation_counter_write(highest_imported, new_generation));
            &&& after is Some
            &&& after->0 >= new_generation as i64
            &&& highest_imported matches Some(h) ==> after->0 >= h
            &&& (after->0 == new_generation as i64 || highest_imported == after)
        }),
{
}

} // verus!
