//! The sync command: what is run for one repository, and what its result is.
//!
//! For each repository the remotes are probed and the mirrors brought up to date. Then the
//! files that are marked as unchanged are hidden from the index, unless everything is to
//! be synced, the content is exchanged with the usable remotes, and the files are shown
//! to the index again. A repository without any usable remote is not synced and counts as
//! failed.

use crate::text::{extend_texts, texts};
use vstd::prelude::*;
use vstd::string::*;

verus! {

/// The commands to run for one repository, in this order.
pub struct SyncPlan {
    /// Hides the unchanged files from the index; `None` where everything is synced.
    pub hide_unchanged: Option<Vec<String>>,
    /// Exchanges content with the usable remotes; `None` where there is no such remote.
    pub assist: Option<Vec<String>>,
    /// Shows the unchanged files to the index again.
    pub show_unchanged: Vec<String>,
}

/// The arguments that list the files marked as unchanged.
pub open spec fn unchanged_query() -> Seq<Seq<char>> {
    seq!["ls-files"@, "-z"@, ":(attr:annex.archiver.unchanged)*"@]
}

/// The arguments that hide `paths` from the index.
pub open spec fn hide_arguments(paths: Seq<Seq<char>>) -> Seq<Seq<char>> {
    seq!["update-index"@, "--assume-unchanged"@] + paths
}

/// The arguments that show `paths` to the index again.
pub open spec fn show_arguments(paths: Seq<Seq<char>>) -> Seq<Seq<char>> {
    seq!["update-index"@, "--no-assume-unchanged"@] + paths
}

/// The arguments that exchange content with `remotes`, of all files where `includes_all`
/// is set.
pub open spec fn assist_arguments(includes_all: bool, remotes: Seq<Seq<char>>) -> Seq<Seq<char>> {
    (if includes_all {
        seq!["annex"@, "assist"@, "--all"@]
    } else {
        seq!["annex"@, "assist"@]
    }) + remotes
}

/// The result of the sync of one repository: that of the exchange of content, and a
/// failure where there was no remote to exchange it with.
pub open spec fn repository_result(assisted: Option<bool>) -> bool {
    assisted == Some(true)
}

/// The view of an optional list of arguments.
pub open spec fn optional_texts(list: Option<Vec<String>>) -> Option<Seq<Seq<char>>> {
    match list {
        Some(items) => Some(texts(items@)),
        None => None,
    }
}

/// The arguments that list the files marked as unchanged.
pub fn unchanged_arguments() -> (args: Vec<String>)
    ensures
        texts(args@) == unchanged_query(),
{
    let mut args: Vec<String> = Vec::new();
    args.push(String::from_str("ls-files"));
    args.push(String::from_str("-z"));
    args.push(String::from_str(":(attr:annex.archiver.unchanged)*"));
    assert(texts(args@) =~= unchanged_query());
    args
}

fn index_arguments(flag: &str, paths: &Vec<String>) -> (args: Vec<String>)
    ensures
        texts(args@) == seq!["update-index"@, flag@] + texts(paths@),
{
    let mut args: Vec<String> = Vec::new();
    args.push(String::from_str("update-index"));
    args.push(String::from_str(flag));
    assert(texts(args@) =~= seq!["update-index"@, flag@]);
    extend_texts(&mut args, paths);
    args
}

/// The commands of the sync of one repository. `unchanged` are the files marked as
/// unchanged, `remotes` the usable remotes.
pub fn plan_sync_commands(includes_all: bool, unchanged: &Vec<String>, remotes: &Vec<String>) -> (plan:
    SyncPlan)
    ensures
        optional_texts(plan.hide_unchanged) == if includes_all {
            None
        } else {
            Some(hide_arguments(texts(unchanged@)))
        },
        optional_texts(plan.assist) == if remotes.len() == 0 {
            None
        } else {
            Some(assist_arguments(includes_all, texts(remotes@)))
        },
        texts(plan.show_unchanged@) == show_arguments(texts(unchanged@)),
{
    let hide_unchanged = if includes_all {
        None
    } else {
        Some(index_arguments("--assume-unchanged", unchanged))
    };
    let assist = if remotes.len() == 0 {
        None
    } else {
        let mut args: Vec<String> = Vec::new();
        args.push(String::from_str("annex"));
        args.push(String::from_str("assist"));
        if includes_all {
            args.push(String::from_str("--all"));
        }
        assert(texts(args@) =~= if includes_all {
            seq!["annex"@, "assist"@, "--all"@]
        } else {
            seq!["annex"@, "assist"@]
        });
        extend_texts(&mut args, remotes);
        Some(args)
    };
    let show_unchanged = index_arguments("--no-assume-unchanged", unchanged);
    SyncPlan { hide_unchanged, assist, show_unchanged }
}

/// The result of the sync of one repository, given how the exchange of content ended, or
/// `None` where it was not run for want of a remote.
pub fn sync_result(assisted: Option<bool>) -> (ok: bool)
    ensures
        ok == repository_result(assisted),
{
    match assisted {
        Some(ok) => ok,
        None => false,
    }
}

/// Whether no repository failed.
pub fn sync_succeeded(results: &Vec<bool>) -> (ok: bool)
    ensures
        ok == !results@.contains(false),
{
    let mut i: usize = 0;
    while i < results.len()
        invariant
            i <= results.len(),
            forall|k: int| 0 <= k < i ==> results[k],
        decreases results.len() - i,
    {
        if !results[i] {
            assert(results@[i as int] == false);
            return false;
        }
        i += 1;
    }
    true
}

} // verus!
