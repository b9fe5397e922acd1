//! Remote availability: which of a repository's remotes can be used right now, and at
//! what cost.
//!
//! Remotes on the encrypted rsync transport are probed once per pass; the outcome of the
//! probe decides the cost and the ignore flag that are written to the repository's
//! configuration. Every other remote is usable as it is and its configuration is left
//! alone. Running the commands is the caller's part; what to run, what each outcome means
//! and which remotes are usable in the end is decided here.

use crate::text::{append_decimal, decimal, split_whitespace, starts_with, texts, trimmed, trim, words};
use vstd::prelude::*;
use vstd::string::*;

verus! {

/// What a timed reachability check of one remote found.
#[derive(Clone, Copy, Debug, PartialEq, Eq, Structural)]
pub struct ProbeResult {
    /// Whether the remote answered.
    pub reachable: bool,
    /// How long the probe took, in milliseconds.
    pub duration_ms: u128,
}

/// What a pass concludes about one remote.
#[derive(Clone, Copy, Debug, PartialEq, Eq, Structural)]
pub enum Verdict {
    /// Not on the probed transport: usable, and its configuration is not written.
    Untouched,
    /// Probed and reachable, with the cost to record.
    Reachable { cost: u128 },
    /// Probed and not reachable: to be ignored until a later pass finds it again.
    Unreachable,
}

/// One key and value to store in the repository's configuration.
pub struct ConfigEntry {
    pub key: String,
    pub value: String,
}

/// A remote together with the verdict reached about it.
pub struct RemoteReport {
    pub name: String,
    pub verdict: Verdict,
}

/// The prefix of the URLs that are probed.
pub open spec fn probed_prefix() -> Seq<char> {
    "gcrypt::rsync://"@
}

/// Whether a remote with this URL is probed.
pub open spec fn is_probed(url: Seq<char>) -> bool {
    probed_prefix().is_prefix_of(url)
}

/// The cost of a reachable remote whose probe took `duration_ms`.
pub open spec fn cost_of(duration_ms: nat) -> nat {
    200 + duration_ms / 100
}

/// The verdict about a remote with this URL, given the probe that was made of it, if any.
/// A probed remote without a probe result counts as unreachable.
pub open spec fn verdict_of(url: Seq<char>, probe: Option<ProbeResult>) -> Verdict {
    if !is_probed(url) {
        Verdict::Untouched
    } else {
        match probe {
            Some(result) => if result.reachable {
                Verdict::Reachable { cost: cost_of(result.duration_ms as nat) as u128 }
            } else {
                Verdict::Unreachable
            },
            None => Verdict::Unreachable,
        }
    }
}

/// The names of the usable remotes among `reports`, in the order of the reports.
pub open spec fn usable_names(reports: Seq<RemoteReport>) -> Seq<Seq<char>>
    decreases reports.len(),
{
    if reports.len() == 0 {
        Seq::<Seq<char>>::empty()
    } else if reports.last().verdict is Unreachable {
        usable_names(reports.drop_last())
    } else {
        usable_names(reports.drop_last()).push(reports.last().name@)
    }
}

/// The configuration key `remote.<name>.<setting>`.
pub open spec fn remote_key(name: Seq<char>, setting: Seq<char>) -> Seq<char> {
    "remote."@ + name + "."@ + setting
}

/// The configuration entries, as key and value, that record `verdict` for the remote `name`.
pub open spec fn config_of(name: Seq<char>, verdict: Verdict) -> Seq<(Seq<char>, Seq<char>)> {
    match verdict {
        Verdict::Untouched => Seq::empty(),
        Verdict::Reachable { cost } => seq![
            (remote_key(name, "annex-cost"@), decimal(cost as nat)),
            (remote_key(name, "annex-ignore"@), "false"@),
        ],
        Verdict::Unreachable => seq![(remote_key(name, "annex-ignore"@), "true"@)],
    }
}

/// The line that reports `verdict` for the remote `name` in the log.
pub open spec fn verdict_line(name: Seq<char>, verdict: Verdict) -> Seq<char> {
    match verdict {
        Verdict::Untouched => name + " ok"@,
        Verdict::Reachable { cost } => name + " ("@ + decimal(cost as nat) + ") ok"@,
        Verdict::Unreachable => name + " not ok"@,
    }
}

/// The views of a list of configuration entries.
pub open spec fn entry_views(entries: Seq<ConfigEntry>) -> Seq<(Seq<char>, Seq<char>)> {
    entries.map_values(|e: ConfigEntry| (e.key@, e.value@))
}

/// A slower probe never makes a remote cheaper.
pub proof fn lemma_cost_monotone(shorter_ms: nat, longer_ms: nat)
    requires
        shorter_ms <= longer_ms,
    ensures
        cost_of(shorter_ms) <= cost_of(longer_ms),
{
    assert(shorter_ms / 100 <= longer_ms / 100) by (nonlinear_arith)
        requires
            shorter_ms <= longer_ms,
    ;
}

/// A remote that is not on the probed transport is usable whatever was measured, and
/// nothing is written to its configuration.
pub proof fn lemma_other_transport_untouched(
    name: Seq<char>,
    url: Seq<char>,
    probe: Option<ProbeResult>,
)
    requires
        !is_probed(url),
    ensures
        verdict_of(url, probe) == Verdict::Untouched,
        config_of(name, verdict_of(url, probe)).len() == 0,
{
}

/// The arguments that list a repository's remotes.
pub fn list_arguments() -> (args: Vec<String>)
    ensures
        texts(args@) == seq!["remote"@],
{
    let mut args: Vec<String> = Vec::new();
    args.push(String::from_str("remote"));
    assert(texts(args@) =~= seq!["remote"@]);
    args
}

/// The names of the remotes in the output of the listing command, in its order.
pub fn parse_remote_names(output: &str) -> (names: Vec<String>)
    ensures
        texts(names@) == words(output@),
{
    split_whitespace(output)
}

/// The arguments that ask for the URL of the remote `name`.
pub fn url_arguments(name: &str) -> (args: Vec<String>)
    ensures
        texts(args@) == seq!["remote"@, "get-url"@, name@],
{
    let mut args: Vec<String> = Vec::new();
    args.push(String::from_str("remote"));
    args.push(String::from_str("get-url"));
    args.push(String::from_str(name));
    assert(texts(args@) =~= seq!["remote"@, "get-url"@, name@]);
    args
}

/// The URL in the output of the URL command.
pub fn parse_remote_url(output: &str) -> (url: String)
    ensures
        url@ == trim(output@),
{
    trimmed(output)
}

/// Whether a remote with this URL has to be probed.
pub fn needs_probe(url: &str) -> (b: bool)
    ensures
        b == is_probed(url@),
{
    starts_with(url, "gcrypt::rsync://")
}

/// The arguments of the reachability check of `url`: list the remote's branch heads, and
/// fail if there are none.
pub fn probe_arguments(url: &str) -> (args: Vec<String>)
    ensures
        texts(args@) == seq!["ls-remote"@, "--heads"@, "--exit-code"@, url@],
{
    let mut args: Vec<String> = Vec::new();
    args.push(String::from_str("ls-remote"));
    args.push(String::from_str("--heads"));
    args.push(String::from_str("--exit-code"));
    args.push(String::from_str(url));
    assert(texts(args@) =~= seq!["ls-remote"@, "--heads"@, "--exit-code"@, url@]);
    args
}

/// The cost of a reachable remote whose probe took `duration_ms`.
pub fn remote_cost(duration_ms: u128) -> (cost: u128)
    ensures
        cost == cost_of(duration_ms as nat),
{
    200 + duration_ms / 100
}

/// The verdict about a remote with this URL, given the probe that was made of it, if any.
pub fn assess_remote(url: &str, probe: Option<ProbeResult>) -> (verdict: Verdict)
    ensures
        verdict == verdict_of(url@, probe),
{
    if !needs_probe(url) {
        Verdict::Untouched
    } else {
        match probe {
            Some(result) => {
                if result.reachable {
                    Verdict::Reachable { cost: remote_cost(result.duration_ms) }
                } else {
                    Verdict::Unreachable
                }
            },
            None => Verdict::Unreachable,
        }
    }
}

fn key_text(name: &str, setting: &str) -> (key: String)
    ensures
        key@ == remote_key(name@, setting@),
{
    let mut key = String::from_str("remote.");
    key.append(name);
    key.append(".");
    key.append(setting);
    key
}

/// The configuration entries that record `verdict` for the remote `name`, in the order in
/// which they are written.
pub fn config_entries(name: &str, verdict: Verdict) -> (entries: Vec<ConfigEntry>)
    ensures
        entry_views(entries@) == config_of(name@, verdict),
{
    let mut entries: Vec<ConfigEntry> = Vec::new();
    match verdict {
        Verdict::Untouched => {},
        Verdict::Reachable { cost } => {
            let mut value = String::new();
            append_decimal(&mut value, cost);
            assert(value@ =~= decimal(cost as nat));
            entries.push(ConfigEntry { key: key_text(name, "annex-cost"), value });
            entries.push(
                ConfigEntry { key: key_text(name, "annex-ignore"), value: String::from_str("false") },
            );
        },
        Verdict::Unreachable => {
            entries.push(
                ConfigEntry { key: key_text(name, "annex-ignore"), value: String::from_str("true") },
            );
        },
    }
    assert(entry_views(entries@) =~= config_of(name@, verdict));
    entries
}

/// The arguments that store `entry`, replacing every earlier value of its key.
pub fn config_arguments(entry: &ConfigEntry) -> (args: Vec<String>)
    ensures
        texts(args@) == seq!["config"@, "--replace-all"@, entry.key@, entry.value@],
{
    let mut args: Vec<String> = Vec::new();
    args.push(String::from_str("config"));
    args.push(String::from_str("--replace-all"));
    args.push(entry.key.clone());
    args.push(entry.value.clone());
    assert(texts(args@) =~= seq!["config"@, "--replace-all"@, entry.key@, entry.value@]);
    args
}

/// The line that reports `verdict` for the remote `name` in the log.
pub fn verdict_log_line(name: &str, verdict: Verdict) -> (line: String)
    ensures
        line@ == verdict_line(name@, verdict),
{
    let mut line = String::from_str(name);
    match verdict {
        Verdict::Untouched => {
            line.append(" ok");
        },
        Verdict::Reachable { cost } => {
            line.append(" (");
            append_decimal(&mut line, cost);
            line.append(") ok");
        },
        Verdict::Unreachable => {
            line.append(" not ok");
        },
    }
    line
}

/// The usable remotes of a pass: the names of the remotes that were not found unreachable,
/// in the order in which the repository lists them.
pub fn test_available_remotes(reports: &Vec<RemoteReport>) -> (available: Vec<String>)
    ensures
        texts(available@) == usable_names(reports@),
{
    let mut available: Vec<String> = Vec::new();
    let mut i: usize = 0;
    assert(reports@.take(0) =~= Seq::<RemoteReport>::empty());
    assert(texts(available@) =~= Seq::<Seq<char>>::empty());
    while i < reports.len()
        invariant
            i <= reports.len(),
            texts(available@) == usable_names(reports@.take(i as int)),
        decreases reports.len() - i,
    {
        proof {
            let now = reports@.take(i + 1);
            assert(now.drop_last() =~= reports@.take(i as int));
            assert(now.last() == reports@[i as int]);
        }
        match reports[i].verdict {
            Verdict::Unreachable => {},
            _ => {
                let name = reports[i].name.clone();
                proof {
                    crate::text::lemma_texts_push(available@, name);
                }
                available.push(name);
            },
        }
        i += 1;
    }
    assert(reports@.take(reports.len() as int) =~= reports@);
    available
}

} // verus!
