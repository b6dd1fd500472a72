//! Paths taken apart into components, and the permission column of a listing.

use crate::format::{format_permissions, permission_text};
use crate::record::Metadata;
use crate::text::text_equals;
use vstd::prelude::*;
use vstd::string::*;

verus! {

/// The first `upto` components with every `.` dropped and every `..` taking
/// back the component before it, if there is one.
pub open spec fn normalized(components: Seq<Seq<char>>, upto: int) -> Seq<Seq<char>>
    decreases upto,
{
    if upto <= 0 {
        Seq::empty()
    } else {
        let before = normalized(components, upto - 1);
        let component = components[upto - 1];
        if component == seq!['.'] {
            before
        } else if component == seq!['.', '.'] {
            if before.len() > 0 {
                before.drop_last()
            } else {
                before
            }
        } else {
            before.push(component)
        }
    }
}

/// The characters of each string of a list.
pub open spec fn texts(strings: Seq<String>) -> Seq<Seq<char>> {
    Seq::new(strings.len(), |i: int| strings[i]@)
}

/// Normalises a path given by its components, without looking at the file system.
pub fn normalize_path(components: &Vec<String>) -> (path: Vec<String>)
    ensures
        texts(path@) == normalized(texts(components@), components@.len() as int),
{
    proof {
        reveal_strlit(".");
        reveal_strlit("..");
    }
    let mut path: Vec<String> = Vec::new();
    let mut i: usize = 0;
    while i < components.len()
        invariant
            i <= components@.len(),
            "."@ == seq!['.'],
            ".."@ == seq!['.', '.'],
            texts(path@) == normalized(texts(components@), i as int),
        decreases components@.len() - i,
    {
        let component = &components[i];
        if text_equals(component.as_str(), ".") {
            // A `.` leaves the path as it is.
        } else if text_equals(component.as_str(), "..") {
            if path.len() > 0 {
                path.pop();
            }
        } else {
            path.push(component.clone());
        }
        i += 1;
    }
    path
}

/// The permission column of a node: `d` or `-` for its kind, then its nine
/// permission letters; ten dashes where they are not known; then a space.
pub open spec fn permission_line(metadata: Option<Metadata>) -> Seq<char> {
    match metadata {
        Some(Metadata { is_dir, mode: Some(mode), .. }) => seq![
            if is_dir {
                'd'
            } else {
                '-'
            },
        ] + permission_text(mode) + seq![' '],
        _ => seq!['-', '-', '-', '-', '-', '-', '-', '-', '-', '-', ' '],
    }
}

/// Formats the permission column of a node.
pub fn get_permission(metadata: Option<Metadata>) -> (line: String)
    ensures
        line@ == permission_line(metadata),
{
    proof {
        reveal_strlit("d");
        reveal_strlit("-");
        reveal_strlit(" ");
        reveal_strlit("---------- ");
    }
    match metadata {
        Some(Metadata { is_dir, mode: Some(mode), .. }) => {
            let mut line = String::from_str(
                if is_dir {
                    "d"
                } else {
                    "-"
                },
            );
            let letters = format_permissions(mode);
            line.append(letters.as_str());
            line.append(" ");
            line
        },
        _ => {
            let line = String::from_str("---------- ");
            line
        },
    }
}

} // verus!
