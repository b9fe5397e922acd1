//! The maintenance command: what is run for one repository, and for how long.
//!
//! A first round prepares every repository: embedded repositories are taken out of the
//! index, and the repository and its unused content are checked. A second round
//! satisfies the wanted content from the usable remotes and then checks the content of the
//! repository itself and of each of these remotes, in an order that chance decides.

use crate::commands::Unit;
use crate::paths::{all_components, path_all_components};
use crate::text::{ends_with, extend_texts, lemma_texts_push, strip_suffix, texts};
use vstd::prelude::*;
use vstd::string::*;

verus! {

/// Where content is checked: at the remote with the given name, or here where there is
/// none.
pub type Target = Option<String>;

/// The views of a list of targets.
pub open spec fn target_views(targets: Seq<Target>) -> Seq<Option<Seq<char>>> {
    targets.map_values(
        |t: Target|
            match t {
                Some(name) => Some(name@),
                None => None,
            },
    )
}

/// The targets of the checks, before they are put in random order: each usable remote,
/// then the repository itself.
pub open spec fn targets_of(remotes: Seq<Seq<char>>) -> Seq<Option<Seq<char>>> {
    remotes.map_values(|name: Seq<char>| Some(name)).push(None)
}

/// The arguments that satisfy the wanted content from `remotes`.
pub open spec fn satisfy_arguments(remotes: Seq<Seq<char>>) -> Seq<Seq<char>> {
    seq!["annex"@, "satisfy"@, "--all"@] + remotes
}

/// The option that aims a check at `target`, where it is a remote.
pub open spec fn from_option(target: Option<Seq<char>>) -> Seq<Seq<char>> {
    match target {
        Some(name) => seq!["--from="@ + name],
        None => Seq::empty(),
    }
}

/// The arguments of the content check at `target`.
pub open spec fn check_arguments(target: Option<Seq<char>>) -> Seq<Seq<char>> {
    seq!["annex"@, "fsck"@, "--incremental-schedule=15d"@, "--time-limit=2h"@, "--all"@]
        + from_option(target)
}

/// The arguments that drop the unused content at `target`.
pub open spec fn dropunused_arguments(target: Option<Seq<char>>) -> Seq<Seq<char>> {
    seq!["annex"@, "dropunused"@, "all"@] + from_option(target)
}

/// What a target is called in the log.
pub open spec fn target_name(target: Option<Seq<char>>) -> Seq<char> {
    match target {
        Some(name) => name,
        None => "here"@,
    }
}

/// The arguments that take the embedded repository whose metadata directory is `entry`
/// out of the index of the repository at `root`: the path of the embedded repository,
/// which is `entry` without the name of the metadata directory.
pub open spec fn untrack_arguments(entry: Seq<char>) -> Seq<Seq<char>> {
    seq!["rm"@, "-r"@, "--cached"@, entry.subrange(0, entry.len() - 4)]
}

/// Puts `targets` in a random order with `rand`'s `SliceRandom::shuffle`, fed by the
/// generator of the current thread. Whatever the order, the targets are the same ones, each as often as before.
#[verifier::external_body]
fn shuffle(targets: &mut Vec<Target>)
    ensures
        target_views(final(targets)@).to_multiset() == target_views(old(targets)@).to_multiset(),
{
    rand::seq::SliceRandom::shuffle(targets.as_mut_slice(), &mut rand::thread_rng());
}

/// How many seconds the maintenance may take, given the limit in minutes; `None` where
/// the number of seconds is beyond what 64 bits hold.
pub fn timeout_seconds(minutes: u64) -> (seconds: Option<u64>)
    ensures
        minutes * 60 <= u64::MAX ==> seconds == Some((minutes * 60) as u64),
        minutes * 60 > u64::MAX ==> seconds is None,
{
    if minutes <= u64::MAX / 60 {
        Some(minutes * 60)
    } else {
        None
    }
}

/// The three checks that prepare a repository, each with its arguments: the repository's
/// integrity, its unused content, and its staged pointers.
pub fn preparation_commands() -> (commands: Vec<(Unit, Vec<String>)>)
    ensures
        commands.len() == 3,
        commands[0].0 == Unit::Fsck,
        texts(commands[0].1@) == seq!["fsck"@],
        commands[1].0 == Unit::Unused,
        texts(commands[1].1@) == seq!["annex"@, "unused"@],
        commands[2].0 == Unit::Restage,
        texts(commands[2].1@) == seq!["annex"@, "restage"@],
{
    let mut fsck: Vec<String> = Vec::new();
    fsck.push(String::from_str("fsck"));
    assert(texts(fsck@) =~= seq!["fsck"@]);
    let mut unused: Vec<String> = Vec::new();
    unused.push(String::from_str("annex"));
    unused.push(String::from_str("unused"));
    assert(texts(unused@) =~= seq!["annex"@, "unused"@]);
    let mut restage: Vec<String> = Vec::new();
    restage.push(String::from_str("annex"));
    restage.push(String::from_str("restage"));
    assert(texts(restage@) =~= seq!["annex"@, "restage"@]);
    let mut commands: Vec<(Unit, Vec<String>)> = Vec::new();
    commands.push((Unit::Fsck, fsck));
    commands.push((Unit::Unused, unused));
    commands.push((Unit::Restage, restage));
    commands
}

/// The line that reports that the embedded repository with the metadata directory `entry`
/// has been taken out of the index.
pub fn untracked_line(entry: &str) -> (line: String)
    ensures
        line@ == "git-rm-cached "@ + entry@ + " ok"@,
{
    let mut line = String::from_str("git-rm-cached ");
    line.append(entry);
    line.append(" ok");
    line
}

/// The arguments that take an embedded repository out of the index, given the path of its
/// metadata directory as it was found below `root`. `None` for the metadata directory of
/// the repository at `root` itself, and for a path that does not end in a metadata
/// directory.
pub fn untrack_embedded_git(root: &str, entry: &str) -> (args: Option<Vec<String>>)
    ensures
        match args {
            Some(list) => {
                &&& ends_with(entry@, ".git"@)
                &&& !is_own_metadata(root@, entry@)
                &&& texts(list@) == untrack_arguments(entry@)
            },
            None => !ends_with(entry@, ".git"@) || is_own_metadata(root@, entry@),
        },
{
    proof {
        reveal_strlit(".git");
    }
    if owns_metadata(root, entry) {
        return None;
    }
    match strip_suffix(entry, ".git") {
        Some(embedded) => {
            let mut args: Vec<String> = Vec::new();
            args.push(String::from_str("rm"));
            args.push(String::from_str("-r"));
            args.push(String::from_str("--cached"));
            args.push(embedded);
            assert(texts(args@) =~= untrack_arguments(entry@));
            Some(args)
        },
        None => None,
    }
}

/// Whether `entry` is the metadata directory of the repository at `root` itself: the
/// directory above it and `root` are the same path, component by component, as
/// `std::path::Path` compares paths.
pub open spec fn is_own_metadata(root: Seq<char>, entry: Seq<char>) -> bool {
    let all = all_components(entry);
    &&& all.len() > 0
    &&& all.last() != seq!['/']
    &&& all.drop_last() == all_components(root)
}

/// Whether `entry` is the metadata directory of the repository at `root` itself.
pub fn owns_metadata(root: &str, entry: &str) -> (own: bool)
    ensures
        own == is_own_metadata(root@, entry@),
{
    let above = path_all_components(root);
    let all = path_all_components(entry);
    if all.len() == 0 || all.len() - 1 != above.len() {
        assert(all.len() > 0 ==> texts(all@).drop_last().len() != texts(above@).len());
        return false;
    }
    proof {
        reveal_strlit("/");
        assert("/"@ =~= seq!['/']);
        assert(texts(all@).last() == all@[all.len() - 1]@);
    }
    if crate::text::same_text(all[all.len() - 1].as_str(), "/") {
        return false;
    }
    let mut i: usize = 0;
    while i < above.len()
        invariant
            i <= above.len(),
            above.len() + 1 == all.len(),
            texts(above@) == all_components(root@),
            texts(all@) == all_components(entry@),
            texts(all@).last() != seq!['/'],
            forall|k: int| 0 <= k < i ==> texts(above@)[k] == texts(all@)[k],
        decreases above.len() - i,
    {
        if !(above[i] == all[i]) {
            assert(texts(all@).drop_last()[i as int] != texts(above@)[i as int]);
            return false;
        }
        i += 1;
    }
    assert(texts(all@).drop_last() =~= texts(above@));
    true
}

/// The arguments that satisfy the wanted content from the usable remotes.
pub fn satisfy_command(remotes: &Vec<String>) -> (args: Vec<String>)
    ensures
        texts(args@) == satisfy_arguments(texts(remotes@)),
{
    let mut args: Vec<String> = Vec::new();
    args.push(String::from_str("annex"));
    args.push(String::from_str("satisfy"));
    args.push(String::from_str("--all"));
    assert(texts(args@) =~= seq!["annex"@, "satisfy"@, "--all"@]);
    extend_texts(&mut args, remotes);
    args
}

/// The targets of the checks in the order in which the repository lists them: each
/// usable remote, then the repository itself.
pub fn listed_targets(remotes: &Vec<String>) -> (targets: Vec<Target>)
    ensures
        target_views(targets@) == targets_of(texts(remotes@)),
{
    let mut targets: Vec<Target> = Vec::new();
    let mut i: usize = 0;
    let ghost wanted = texts(remotes@).map_values(|name: Seq<char>| Some(name));
    assert(target_views(targets@) =~= wanted.take(0));
    while i < remotes.len()
        invariant
            i <= remotes.len(),
            wanted == texts(remotes@).map_values(|name: Seq<char>| Some(name)),
            target_views(targets@) == wanted.take(i as int),
        decreases remotes.len() - i,
    {
        let target: Target = Some(remotes[i].clone());
        proof {
            assert(target_views(targets@.push(target)) =~= target_views(targets@).push(
                Some(remotes@[i as int]@),
            ));
            assert(wanted.take(i + 1) =~= wanted.take(i as int).push(Some(remotes@[i as int]@)));
        }
        targets.push(target);
        i += 1;
    }
    proof {
        assert(wanted.take(remotes.len() as int) =~= wanted);
        assert(target_views(targets@.push(None)) =~= target_views(targets@).push(None));
    }
    targets.push(None);
    targets
}

/// The targets of the checks in the order in which to check them, which chance decides:
/// each usable remote and the repository itself, once each.
pub fn check_targets(remotes: &Vec<String>) -> (targets: Vec<Target>)
    ensures
        target_views(targets@).to_multiset() == targets_of(texts(remotes@)).to_multiset(),
{
    let mut targets = listed_targets(remotes);
    shuffle(&mut targets);
    targets
}

fn push_from_option(args: &mut Vec<String>, target: &Target)
    ensures
        texts(final(args)@) == texts(old(args)@) + from_option(
            match *target {
                Some(name) => Some(name@),
                None => None,
            },
        ),
{
    match target {
        Some(name) => {
            let mut option = String::from_str("--from=");
            option.append(name.as_str());
            proof {
                lemma_texts_push(args@, option);
                assert(texts(args@).push(option@) =~= texts(args@) + seq!["--from="@ + name@]);
            }
            args.push(option);
        },
        None => {
            assert(texts(args@) + Seq::<Seq<char>>::empty() =~= texts(args@));
        },
    }
}

/// The arguments of the content check at `target`.
pub fn check_command(target: &Target) -> (args: Vec<String>)
    ensures
        texts(args@) == check_arguments(
            match *target {
                Some(name) => Some(name@),
                None => None,
            },
        ),
{
    let mut args: Vec<String> = Vec::new();
    args.push(String::from_str("annex"));
    args.push(String::from_str("fsck"));
    args.push(String::from_str("--incremental-schedule=15d"));
    args.push(String::from_str("--time-limit=2h"));
    args.push(String::from_str("--all"));
    assert(texts(args@) =~= seq![
        "annex"@,
        "fsck"@,
        "--incremental-schedule=15d"@,
        "--time-limit=2h"@,
        "--all"@,
    ]);
    push_from_option(&mut args, target);
    args
}

/// The arguments that drop the unused content at `target`.
pub fn dropunused_command(target: &Target) -> (args: Vec<String>)
    ensures
        texts(args@) == dropunused_arguments(
            match *target {
                Some(name) => Some(name@),
                None => None,
            },
        ),
{
    let mut args: Vec<String> = Vec::new();
    args.push(String::from_str("annex"));
    args.push(String::from_str("dropunused"));
    args.push(String::from_str("all"));
    assert(texts(args@) =~= seq!["annex"@, "dropunused"@, "all"@]);
    push_from_option(&mut args, target);
    args
}

/// What `target` is called in the log.
pub fn target_text(target: &Target) -> (name: String)
    ensures
        name@ == target_name(
            match *target {
                Some(name) => Some(name@),
                None => None,
            },
        ),
{
    match target {
        Some(name) => name.clone(),
        None => String::from_str("here"),
    }
}

} // verus!
