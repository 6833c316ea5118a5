//! Texts of files by their paths.

use vstd::prelude::*;
use crate::model::text_view;
use crate::text::{chars_of, is_text};

verus! {

pub struct FileText {
    /// The path below the directory that the files are of.
    pub path: String,
    pub text: String,
}

/// What was read of the files of a directory. A file that is not here was not there to be read.
pub struct Files {
    pub list: Vec<FileText>,
}

/// The text of the first file with the path, from place `i` on.
pub open spec fn text_from(list: Seq<FileText>, path: Seq<char>, i: int) -> Option<Seq<char>>
    decreases list.len() - i,
{
    if i < 0 || i >= list.len() {
        None
    } else if list[i].path@ == path {
        Some(list[i].text@)
    } else {
        text_from(list, path, i + 1)
    }
}

impl Files {
    /// The text of a file.
    pub open spec fn at(self, path: Seq<char>) -> Option<Seq<char>> {
        text_from(self.list@, path, 0)
    }

    pub fn read(&self, path: &str) -> (r: Option<String>)
        ensures
            text_view(r) == self.at(path@),
    {
        let mut i: usize = 0;
        while i < self.list.len()
            invariant
                i <= self.list.len(),
                text_from(self.list@, path@, i as int) == self.at(path@),
            decreases self.list.len() - i,
        {
            let p: Vec<char> = chars_of(self.list[i].path.as_str());
            if is_text(p.as_slice(), path) {
                return Some(self.list[i].text.clone());
            }
            i = i + 1;
        }
        None
    }
}

} // verus!
