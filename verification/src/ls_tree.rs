//! `git ls-tree`: how a tree is listed.
use vstd::prelude::*;

verus! {

/// The message that logs a `git ls-tree`.
pub fn log_ls_tree(hash: &str, git_dir: &str, option: &str, time: &str) -> (message: String)
    ensures
        message@ == "Command 'git ls-tree': Hash '"@ + hash@ + "', Git Directory '"@ + git_dir@ + "', Option '"@
            + option@ + "', "@ + time@,
{
    let mut message = String::new();
    message.append("Command 'git ls-tree': Hash '");
    message.append(hash);
    message.append("', Git Directory '");
    message.append(git_dir);
    message.append("', Option '");
    message.append(option);
    message.append("', ");
    message.append(time);
    message
}

/// How a tree is listed.
#[derive(Debug, Clone, Copy, PartialEq, Eq, Structural)]
pub enum TreeListing {
    /// Its entries.
    Entries,
    /// Its blobs, those of its subtrees included, without the trees.
    RecursiveBlobs,
    /// Its subtrees.
    Subtrees,
    /// All its entries, those of its subtrees included.
    Recursive,
}

/// The listing that an option of `git ls-tree` asks for: none, `-r`, `-d`
/// or `-r-t`; any other option is refused.
pub open spec fn listing_of(option: Seq<char>) -> Option<TreeListing> {
    if option.len() == 0 {
        Some(TreeListing::Entries)
    } else if option == seq!['-', 'r'] {
        Some(TreeListing::RecursiveBlobs)
    } else if option == seq!['-', 'd'] {
        Some(TreeListing::Subtrees)
    } else if option == seq!['-', 'r', '-', 't'] {
        Some(TreeListing::Recursive)
    } else {
        None
    }
}

/// Decides how `git ls-tree` lists a tree for `option`; `None` for an
/// invalid option.
pub fn ls_tree(option: &str) -> (listing: Option<TreeListing>)
    ensures
        listing == listing_of(option@),
{
    let o = crate::text::chars_of(option);
    let r = vec!['-', 'r'];
    let d = vec!['-', 'd'];
    let rt = vec!['-', 'r', '-', 't'];
    assert(r@ == seq!['-', 'r']);
    assert(d@ == seq!['-', 'd']);
    assert(rt@ == seq!['-', 'r', '-', 't']);
    if o.len() == 0 {
        Some(TreeListing::Entries)
    } else if crate::text::chars_equal(o.as_slice(), r.as_slice()) {
        Some(TreeListing::RecursiveBlobs)
    } else if crate::text::chars_equal(o.as_slice(), d.as_slice()) {
        Some(TreeListing::Subtrees)
    } else if crate::text::chars_equal(o.as_slice(), rt.as_slice()) {
        Some(TreeListing::Recursive)
    } else {
        None
    }
}

} // verus!
