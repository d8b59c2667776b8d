//! Verified core of a Canvas LMS command-line client: metadata aggregation,
//! course/assignment selection, the three-stage file-upload protocol, and
//! submission finalization.
use vstd::prelude::*;

pub mod aggregate;
pub mod auth;
pub mod config;
pub mod download;
pub mod errors;
pub mod resolve;
pub mod select;
pub mod submit;
pub mod text;
pub mod upload;

verus! {

/// A remote course snapshot, with favorite flag and display color already
/// joined in from the favorites list and the color map.
pub struct Course {
    pub id: u32,
    pub name: String,
    pub is_favorite: bool,
    pub css_color: String,
    pub created_at: i64,
}

impl Course {
    /// A course is its own value; cloning preserves every field.
    pub fn duplicate(&self) -> (r: Course)
        ensures
            r.id == self.id,
            r.name@ == self.name@,
            r.is_favorite == self.is_favorite,
            r.css_color@ == self.css_color@,
            r.created_at == self.created_at,
    {
        Course {
            id: self.id,
            name: self.name.clone(),
            is_favorite: self.is_favorite,
            css_color: self.css_color.clone(),
            created_at: self.created_at,
        }
    }
}

} // verus!
