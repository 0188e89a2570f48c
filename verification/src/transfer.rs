//! What the transfer program is handed, and what came of the removals.
use crate::text::chars_of;
use crate::text::string_of;
use vstd::prelude::*;

verus! {

/// `p` without one slash at its start.
pub open spec fn without_leading_slash(p: Seq<char>) -> Seq<char> {
    if p.len() > 0 && p[0] == '/' {
        p.drop_first()
    } else {
        p
    }
}

/// The text of a file list: each path on a line of its own, without a slash at
/// its start, each line closed by a line feed.
pub open spec fn file_list(files: Seq<Seq<char>>) -> Seq<char>
    decreases files.len(),
{
    if files.len() == 0 {
        Seq::empty()
    } else {
        file_list(files.drop_last()) + without_leading_slash(files.last()) + seq!['\n']
    }
}

/// The text of the file list for a transfer of `files`. Where there is
/// nothing to transfer there is no list, and the transfer program is not to
/// be run.
pub fn rsync_file_list(files: &[String]) -> (r: Option<String>)
    ensures
        r.deep_view() == if files@.len() == 0 {
            None::<Seq<char>>
        } else {
            Some(file_list(files.deep_view()))
        },
{
    if files.len() == 0 {
        return None;
    }
    let mut text: Vec<char> = Vec::new();
    let mut i: usize = 0;
    proof {
        assert(files.deep_view().take(0) =~= Seq::<Seq<char>>::empty());
    }
    while i < files.len()
        invariant
            i <= files@.len(),
            text@ == file_list(files.deep_view().take(i as int)),
        decreases files@.len() - i,
    {
        let ghost before = text@;
        proof {
            let t = files.deep_view().take(i + 1);
            assert(t.drop_last() =~= files.deep_view().take(i as int));
            assert(t.last() == files@[i as int]@);
        }
        let chars = chars_of(files[i].as_str());
        let mut k: usize = if chars.len() > 0 && chars[0] == '/' {
            1
        } else {
            0
        };
        let ghost from = k;
        while k < chars.len()
            invariant
                from <= k <= chars@.len(),
                text@ == before + chars@.subrange(from as int, k as int),
            decreases chars@.len() - k,
        {
            text.push(chars[k]);
            proof {
                assert(chars@.subrange(from as int, k as int).push(chars@[k as int])
                    =~= chars@.subrange(from as int, k + 1));
                assert(text@ =~= before + chars@.subrange(from as int, k + 1));
            }
            k += 1;
        }
        text.push('\n');
        proof {
            assert(chars@.subrange(from as int, chars@.len() as int) =~= without_leading_slash(
                chars@,
            ));
            assert(text@ =~= before + without_leading_slash(chars@) + seq!['\n']);
        }
        i += 1;
    }
    proof {
        assert(files.deep_view().take(i as int) =~= files.deep_view());
    }
    Some(string_of(text.as_slice()))
}

/// What stands at a path of the target.
#[derive(Clone, Copy, PartialEq, Eq, Debug, Structural)]
pub enum PathState {
    Directory,
    File,
    Missing,
}

/// How a path of the target is removed.
#[derive(Clone, Copy, PartialEq, Eq, Debug, Structural)]
pub enum Removal {
    /// Remove the directory and all below it.
    RemoveTree,
    RemoveFile,
    /// The path is gone already: there is nothing to do, and that counts as
    /// removed.
    Nothing,
}

/// How what stands at a path is removed.
pub fn removal_for(state: PathState) -> (r: Removal)
    ensures
        r == match state {
            PathState::Directory => Removal::RemoveTree,
            PathState::File => Removal::RemoveFile,
            PathState::Missing => Removal::Nothing,
        },
{
    match state {
        PathState::Directory => Removal::RemoveTree,
        PathState::File => Removal::RemoveFile,
        PathState::Missing => Removal::Nothing,
    }
}

/// How many of `results` are `wanted`.
pub open spec fn count_of(results: Seq<bool>, wanted: bool) -> nat
    decreases results.len(),
{
    if results.len() == 0 {
        0
    } else {
        count_of(results.drop_last(), wanted) + if results.last() == wanted {
            1nat
        } else {
            0nat
        }
    }
}

/// Counts what came of the removals, one result for each path: `true` where
/// the path is gone, `false` where it could not be removed. Every path is
/// counted; a failure does not end the count.
pub fn delete_files_from_target(results: &[bool]) -> (r: (usize, usize))
    ensures
        r.0 == count_of(results@, true),
        r.1 == count_of(results@, false),
        r.0 + r.1 == results@.len(),
{
    let mut deleted: usize = 0;
    let mut errors: usize = 0;
    let mut i: usize = 0;
    proof {
        assert(results@.take(0) =~= Seq::<bool>::empty());
    }
    while i < results.len()
        invariant
            i <= results@.len(),
            deleted == count_of(results@.take(i as int), true),
            errors == count_of(results@.take(i as int), false),
            deleted + errors == i,
        decreases results@.len() - i,
    {
        proof {
            let t = results@.take(i + 1);
            assert(t.drop_last() =~= results@.take(i as int));
            assert(t.last() == results@[i as int]);
        }
        if results[i] {
            deleted += 1;
        } else {
            errors += 1;
        }
        i += 1;
    }
    proof {
        assert(results@.take(i as int) =~= results@);
    }
    (deleted, errors)
}

} // verus!
