//! Which entries a listing shows: active ones, or only published ones.
use vstd::prelude::*;

use crate::text::{ascii_lower, ascii_lowercase, chars_equal, chars_of};

verus! {

/// Visibility filter of a listing.
#[derive(Debug, PartialEq, Eq, Structural, Clone, Copy)]
pub enum Visibility {
    Active,
    Published,
}

/// The visibility named by `s`, ignoring ASCII case.
pub open spec fn visibility_of_name(s: Seq<char>) -> Option<Visibility> {
    let lower = s.map_values(|c: char| ascii_lower(c));
    if lower == "active"@ {
        Some(Visibility::Active)
    } else if lower == "published"@ {
        Some(Visibility::Published)
    } else {
        None
    }
}

impl Visibility {
    /// Parses "active" or "published" in any ASCII case.
    pub fn from_str(s: &str) -> (res: Result<Visibility, ()>)
        ensures
            match visibility_of_name(s@) {
                Some(v) => res == Ok::<Visibility, ()>(v),
                None => res == Err::<Visibility, ()>(()),
            },
    {
        let lower = ascii_lowercase(s);
        let active = chars_of("active");
        let published = chars_of("published");
        if chars_equal(&lower, &active) {
            Ok(Visibility::Active)
        } else if chars_equal(&lower, &published) {
            Ok(Visibility::Published)
        } else {
            Err(())
        }
    }
}

} // verus!
