//! The texts that the terminal shows for lists and their titles.
use vstd::prelude::*;
use crate::client::{basename, concat, file_basename, App};
use crate::error::{decimal, decimal_string};

verus! {

/// The line for a search result: a box ticked when the result is selected
/// for download, who shares it, the file, and its size in whole KiB.
pub fn search_result_label(queued: bool, username: &str, filename: &str, size: u64) -> (s: String)
    ensures
        s@ == (if queued { "[x] "@ } else { "[ ] "@ }) + username@ + " — "@ + filename@ + " ("@ + decimal(
            (size / 1024) as nat,
        ) + " KB)"@,
{
    let mark = if queued { "[x] " } else { "[ ] " };
    let a = concat(mark, username);
    let b = concat(a.as_str(), " — ");
    let c = concat(b.as_str(), filename);
    let d = concat(c.as_str(), " (");
    let kb = decimal_string(size / 1024);
    let e = concat(d.as_str(), kb.as_str());
    concat(e.as_str(), " KB)")
}

/// A list's title: its name, and the number of entries when there are any.
pub fn list_title(name: &str, count: usize) -> (s: String)
    ensures
        s@ == if count == 0 {
            " "@ + name@ + " "@
        } else {
            " "@ + name@ + " ("@ + decimal(count as nat) + ") "@
        },
{
    let a = concat(" ", name);
    if count == 0 {
        concat(a.as_str(), " ")
    } else {
        let b = concat(a.as_str(), " (");
        let n = decimal_string(count as u64);
        let c = concat(b.as_str(), n.as_str());
        concat(c.as_str(), ") ")
    }
}

/// The line for a download: who shares it, the file name without its
/// folders, and the status text.
pub fn download_label(username: &str, filename: &str, status: &str) -> (s: String)
    ensures
        s@ == username@ + " — "@ + basename(filename@) + " — "@ + status@,
{
    let name = file_basename(filename);
    let a = concat(username, " — ");
    let b = concat(a.as_str(), name.as_str());
    let c = concat(b.as_str(), " — ");
    concat(c.as_str(), status)
}

impl App {
    /// The search result at `i` is selected for download.
    pub fn is_selected_for_download(&self, i: usize) -> (b: bool)
        ensures
            b == self.selected_for_download@.contains(i),
    {
        let mut k: usize = 0;
        while k < self.selected_for_download.len()
            invariant
                k <= self.selected_for_download@.len(),
                forall|j: int| 0 <= j < k ==> self.selected_for_download@[j] != i,
            decreases self.selected_for_download@.len() - k,
        {
            if self.selected_for_download[k] == i {
                return true;
            }
            k = k + 1;
        }
        false
    }
}

} // verus!
