//! The lock file that keeps two runs from working on one workspace.
use vstd::prelude::*;

verus! {

/// `std::path::Path::exists` on `path`: whether the file system holds an
/// entry there at the moment of the call. That depends on the disk, so
/// nothing is stated of the result.
#[verifier::external_body]
fn path_exists(path: &str) -> bool {
    std::path::Path::new(path).exists()
}

/// The path of the lock file: `.lock` in the working directory.
pub fn lock_path() -> (res: &'static str)
    ensures
        res@ == seq!['.', '/', '.', 'l', 'o', 'c', 'k'],
{
    let p = "./.lock";
    proof {
        reveal_strlit("./.lock");
    }
    p
}

/// Whether the lock file (`lock_path`) exists, that is, whether another run
/// is (or seems to be) at work. The answer comes from the file system at the
/// moment of the call and is not stated further.
pub fn check_safety_lock() -> bool {
    path_exists(lock_path())
}

} // verus!
