//! Where shards are looked for, where the archive is unpacked, and the mode
//! every unpacked entry ends with.

use vstd::prelude::*;

verus! {

/// The file names that are shards: a fixed prefix, then anything.
pub const SHARD_GLOB: &'static str = "zarf-payload-*";

/// Matches every descendant of a directory, at any depth, when put behind
/// the directory's path.
pub const TREE_GLOB: &'static str = "/**/*";

/// The directory into which the archive is unpacked unless the caller names
/// another.
pub const DEFAULT_DEST: &'static str = "/zarf-stage2";

/// Read, write and execute for the owner; read and execute for everyone else.
pub const STAGED_MODE: u32 = 0o755;

/// The pattern that finds the shards directly under `search_root`. An empty
/// root stands for the working directory.
pub open spec fn shard_pattern(search_root: Seq<char>) -> Seq<char> {
    if search_root.len() == 0 {
        SHARD_GLOB@
    } else {
        search_root + seq!['/'] + SHARD_GLOB@
    }
}

/// The pattern that finds everything below `dest_root`.
pub open spec fn tree_pattern(dest_root: Seq<char>) -> Seq<char> {
    dest_root + TREE_GLOB@
}

/// Builds [`shard_pattern`].
pub fn shard_pattern_for(search_root: &str) -> (pattern: String)
    ensures
        pattern@ == shard_pattern(search_root@),
{
    if search_root.is_empty() {
        String::from_str(SHARD_GLOB)
    } else {
        let mut pattern = String::from_str(search_root);
        pattern.append("/");
        pattern.append(SHARD_GLOB);
        proof {
            reveal_strlit("/");
            assert("/"@ =~= seq!['/']);
        }
        pattern
    }
}

/// Builds [`tree_pattern`].
pub fn tree_pattern_for(dest_root: &str) -> (pattern: String)
    ensures
        pattern@ == tree_pattern(dest_root@),
{
    let mut pattern = String::from_str(dest_root);
    pattern.append(TREE_GLOB);
    pattern
}

} // verus!
