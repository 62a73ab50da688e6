//! The command line: which command was asked for and with what options.
//!
//! Options after a command: `-N` sets how many entries to list, a bare number
//! selects one entry by id, any other word is a search keyword; for several of
//! a kind the last one counts.
use vstd::prelude::*;

use crate::text::{chars_of, parse_usize, spec_parse_usize, str_equal};

verus! {

/// How many groups or victims are listed when no `-N` is given.
pub const DEFAULT_LIST_LIMIT: usize = 20;

/// How many ransom notes are listed when no `-N` is given.
pub const DEFAULT_NOTES_LIMIT: usize = 50;

/// Whether `a` starts with `-`.
pub open spec fn dashed(a: Seq<char>) -> bool {
    a.len() > 0 && a[0] == '-'
}

/// The options after reading one more argument `a`: `-N` with a number `N`
/// sets the limit; a number sets the id; any other word not starting with `-`
/// sets the keyword; anything else changes nothing.
pub open spec fn arg_step(acc: (nat, Option<nat>, Option<Seq<char>>), a: Seq<char>) -> (
    nat,
    Option<nat>,
    Option<Seq<char>>,
) {
    if dashed(a) && a.len() > 1 {
        match spec_parse_usize(a.drop_first()) {
            Some(n) => (n, acc.1, acc.2),
            None => acc,
        }
    } else {
        match spec_parse_usize(a) {
            Some(n) => (acc.0, Some(n), acc.2),
            None => if !dashed(a) {
                (acc.0, acc.1, Some(a))
            } else {
                acc
            },
        }
    }
}

/// The (limit, id, keyword) read from `args`, starting from the default limit.
pub open spec fn parsed_args(args: Seq<Seq<char>>, default_limit: nat) -> (
    nat,
    Option<nat>,
    Option<Seq<char>>,
)
    decreases args.len(),
{
    if args.len() == 0 {
        (default_limit, None, None)
    } else {
        arg_step(parsed_args(args.drop_last(), default_limit), args.last())
    }
}

/// Reading one more argument: `-N` sets the limit to `N`, a bare number `N`
/// selects the id `N`, and a word that is not a number and does not start with
/// `-` becomes the keyword; each leaves the other two options as they were, so
/// that for several of a kind the last one counts. With no argument the limit
/// is the default and there is neither id nor keyword.
pub proof fn lemma_args_last_counts(args: Seq<Seq<char>>, default_limit: nat, n: usize, w: Seq<char>)
    ensures
        parsed_args(Seq::empty(), default_limit) == (default_limit, None::<nat>, None::<Seq<char>>),
        parsed_args(args.push("-"@ + crate::text::decimal(n as nat)), default_limit) == (
            n as nat,
            parsed_args(args, default_limit).1,
            parsed_args(args, default_limit).2,
        ),
        parsed_args(args.push(crate::text::decimal(n as nat)), default_limit) == (
            parsed_args(args, default_limit).0,
            Some(n as nat),
            parsed_args(args, default_limit).2,
        ),
        !dashed(w) && spec_parse_usize(w) is None ==> parsed_args(args.push(w), default_limit) == (
            parsed_args(args, default_limit).0,
            parsed_args(args, default_limit).1,
            Some(w),
        ),
{
    reveal_strlit("-");
    let d = crate::text::decimal(n as nat);
    crate::text::lemma_parse_usize_of_decimal(n);
    crate::text::lemma_decimal_digits(n as nat);
    let a = "-"@ + d;
    assert(a.drop_first() =~= d);
    assert(args.push(a).drop_last() =~= args);
    assert(args.push(d).drop_last() =~= args);
    assert(args.push(w).drop_last() =~= args);
    assert(crate::text::is_digit(d[0]));
    assert(!dashed(d));
}

/// The views of a slice of strings.
pub open spec fn arg_views(args: Seq<String>) -> Seq<Seq<char>> {
    args.map_values(|s: String| s@)
}

/// Whether the option `opt` is among the arguments.
pub open spec fn has_flag(args: Seq<String>, opt: Seq<char>) -> bool {
    exists|i: int| 0 <= i < args.len() && (#[trigger] args[i])@ == opt
}

/// Reads the list limit, the selected id and the search keyword from the
/// arguments of a command.
pub fn parse_args(args: &[String], default_limit: usize) -> (r: (usize, Option<usize>, Option<String>))
    ensures
        ({
            let p = parsed_args(arg_views(args@), default_limit as nat);
            &&& r.0 as nat == p.0
            &&& match r.1 {
                Some(n) => p.1 == Some(n as nat),
                None => p.1.is_none(),
            }
            &&& match r.2 {
                Some(k) => p.2 == Some(k@),
                None => p.2.is_none(),
            }
        }),
{
    let mut limit = default_limit;
    let mut id: Option<usize> = None;
    let mut keyword: Option<String> = None;
    let n = args.len();
    let mut i: usize = 0;
    while i < n
        invariant
            i <= n,
            n == args@.len(),
            ({
                let p = parsed_args(arg_views(args@.take(i as int)), default_limit as nat);
                &&& limit as nat == p.0
                &&& match id {
                    Some(x) => p.1 == Some(x as nat),
                    None => p.1.is_none(),
                }
                &&& match keyword {
                    Some(k) => p.2 == Some(k@),
                    None => p.2.is_none(),
                }
            }),
        decreases n - i,
    {
        proof {
            assert(arg_views(args@.take(i + 1)).drop_last() =~= arg_views(args@.take(i as int)));
            assert(arg_views(args@.take(i + 1)).last() == args@[i as int]@);
        }
        let arg = &args[i];
        let cs = chars_of(arg.as_str());
        let dashed_arg = cs.len() > 0 && cs[0] == '-';
        if dashed_arg && cs.len() > 1 {
            let rest = arg.as_str().substring_char(1, cs.len());
            proof {
                assert(rest@ =~= arg@.drop_first());
            }
            match parse_usize(rest) {
                Some(v) => {
                    limit = v;
                },
                None => {},
            }
        } else {
            match parse_usize(arg.as_str()) {
                Some(v) => {
                    id = Some(v);
                },
                None => {
                    if !dashed_arg {
                        keyword = Some(arg.clone());
                    }
                },
            }
        }
        i = i + 1;
    }
    proof {
        assert(args@.take(n as int) =~= args@);
    }
    (limit, id, keyword)
}

/// Whether the option `opt` is among the arguments.
pub fn has_option(args: &[String], opt: &str) -> (r: bool)
    ensures
        r == has_flag(args@, opt@),
{
    let n = args.len();
    let mut i: usize = 0;
    while i < n
        invariant
            i <= n,
            n == args@.len(),
            forall|j: int| 0 <= j < i ==> (#[trigger] args@[j])@ != opt@,
        decreases n - i,
    {
        if str_equal(args[i].as_str(), opt) {
            return true;
        }
        i = i + 1;
    }
    false
}

/// The command named on the command line.
pub enum Command {
    Sync,
    Groups,
    Victims,
    Notes,
    Usage,
}

/// The command named by the first argument after the program name; without
/// one, or for an unknown name, the usage text.
pub open spec fn command_of(args: Seq<String>) -> Command {
    if args.len() < 2 {
        Command::Usage
    } else if args[1]@ == "sync"@ {
        Command::Sync
    } else if args[1]@ == "groups"@ {
        Command::Groups
    } else if args[1]@ == "victims"@ {
        Command::Victims
    } else if args[1]@ == "notes"@ {
        Command::Notes
    } else {
        Command::Usage
    }
}

/// Tells which command the command line asks for.
pub fn parse_command(args: &[String]) -> (r: Command)
    ensures
        r == command_of(args@),
{
    if args.len() < 2 {
        Command::Usage
    } else if str_equal(args[1].as_str(), "sync") {
        Command::Sync
    } else if str_equal(args[1].as_str(), "groups") {
        Command::Groups
    } else if str_equal(args[1].as_str(), "victims") {
        Command::Victims
    } else if str_equal(args[1].as_str(), "notes") {
        Command::Notes
    } else {
        Command::Usage
    }
}

/// What the `groups` command is asked to show.
pub enum GroupsRequest {
    /// Groups counted per tool.
    ByTools,
    /// Groups counted per technique.
    ByTtps,
    /// One group's profile.
    Detail(usize),
    /// Groups whose name matches the SQL `LIKE` pattern, most recently active first.
    List { pattern: String, limit: usize },
}

/// The `LIKE` pattern for a keyword: `%keyword%`, or `%` without one.
pub open spec fn name_pattern(keyword: Option<Seq<char>>) -> Seq<char> {
    match keyword {
        Some(k) => "%"@ + k + "%"@,
        None => "%"@,
    }
}

/// What `groups` with these arguments shows.
pub open spec fn groups_request_of(args: Seq<String>, r: GroupsRequest) -> bool {
    let p = parsed_args(arg_views(args), DEFAULT_LIST_LIMIT as nat);
    if has_flag(args, "--by-tools"@) {
        r is ByTools
    } else if has_flag(args, "--by-ttps"@) {
        r is ByTtps
    } else if p.1.is_some() {
        r == GroupsRequest::Detail(p.1.unwrap() as usize)
    } else {
        match r {
            GroupsRequest::List { pattern, limit } => pattern@ == name_pattern(p.2) && limit as nat
                == p.0,
            _ => false,
        }
    }
}

/// Reads the arguments of the `groups` command.
pub fn groups_request(args: &[String]) -> (r: GroupsRequest)
    ensures
        groups_request_of(args@, r),
{
    if has_option(args, "--by-tools") {
        return GroupsRequest::ByTools;
    }
    if has_option(args, "--by-ttps") {
        return GroupsRequest::ByTtps;
    }
    let (limit, id, keyword) = parse_args(args, DEFAULT_LIST_LIMIT);
    match id {
        Some(n) => GroupsRequest::Detail(n),
        None => {
            let pattern = match keyword {
                Some(k) => {
                    let mut p = "%".to_owned();
                    p.append(k.as_str());
                    p.append("%");
                    p
                },
                None => "%".to_owned(),
            };
            GroupsRequest::List { pattern, limit }
        },
    }
}

/// What the `victims` command is asked to show.
pub enum VictimsRequest {
    /// Victims counted per country.
    ByCountry,
    /// One victim's record.
    Detail(usize),
    /// The most recently discovered victims, at most this many.
    List(usize),
}

/// What `victims` with these arguments shows.
pub open spec fn victims_request_of(args: Seq<String>) -> VictimsRequest {
    let p = parsed_args(arg_views(args), DEFAULT_LIST_LIMIT as nat);
    if has_flag(args, "--by-country"@) {
        VictimsRequest::ByCountry
    } else if p.1.is_some() {
        VictimsRequest::Detail(p.1.unwrap() as usize)
    } else {
        VictimsRequest::List(p.0 as usize)
    }
}

/// Reads the arguments of the `victims` command.
pub fn victims_request(args: &[String]) -> (r: VictimsRequest)
    ensures
        r == victims_request_of(args@),
{
    if has_option(args, "--by-country") {
        return VictimsRequest::ByCountry;
    }
    let (limit, id, _) = parse_args(args, DEFAULT_LIST_LIMIT);
    match id {
        Some(n) => VictimsRequest::Detail(n),
        None => VictimsRequest::List(limit),
    }
}

/// How many ransom notes the `notes` command lists.
pub fn notes_limit(args: &[String]) -> (r: usize)
    ensures
        r as nat == parsed_args(arg_views(args@), DEFAULT_NOTES_LIMIT as nat).0,
{
    let (limit, _, _) = parse_args(args, DEFAULT_NOTES_LIMIT);
    limit
}

/// The command is named by the first argument after the program name:
/// `sync`, `groups`, `victims` or `notes`; anything else, or nothing, asks for
/// the usage text.
pub proof fn lemma_command_names(args: Seq<String>)
    ensures
        args.len() >= 2 && args[1]@ == "sync"@ ==> command_of(args) == Command::Sync,
        args.len() >= 2 && args[1]@ == "groups"@ ==> command_of(args) == Command::Groups,
        args.len() >= 2 && args[1]@ == "victims"@ ==> command_of(args) == Command::Victims,
        args.len() >= 2 && args[1]@ == "notes"@ ==> command_of(args) == Command::Notes,
        args.len() < 2 || (args[1]@ != "sync"@ && args[1]@ != "groups"@ && args[1]@ != "victims"@
            && args[1]@ != "notes"@) ==> command_of(args) == Command::Usage,
{
    reveal_strlit("sync");
    reveal_strlit("groups");
    reveal_strlit("victims");
    reveal_strlit("notes");
    assert("sync"@.len() != "groups"@.len() && "sync"@.len() != "victims"@.len());
    assert("groups"@.len() != "victims"@.len() && "groups"@.len() != "notes"@.len());
    assert("sync"@[0] != "notes"@[0]);
}

/// `groups --by-tools` counts groups per tool and `groups --by-ttps` per
/// technique (`--by-tools` first when both are given); otherwise a number
/// selects one group's profile, and without one the groups whose name contains
/// the keyword (all groups without one) are listed, as many as the limit.
pub proof fn lemma_groups_request_cases(args: Seq<String>, r: GroupsRequest)
    requires
        groups_request_of(args, r),
    ensures
        ({
            let p = parsed_args(arg_views(args), DEFAULT_LIST_LIMIT as nat);
            &&& has_flag(args, "--by-tools"@) ==> r is ByTools
            &&& !has_flag(args, "--by-tools"@) && has_flag(args, "--by-ttps"@) ==> r is ByTtps
            &&& !has_flag(args, "--by-tools"@) && !has_flag(args, "--by-ttps"@) && p.1 is Some
                ==> r == GroupsRequest::Detail(p.1.unwrap() as usize)
            &&& !has_flag(args, "--by-tools"@) && !has_flag(args, "--by-ttps"@) && p.1 is None ==> (
            r matches GroupsRequest::List { pattern, limit } && limit as nat == p.0 && pattern@ == (
            match p.2 {
                Some(k) => "%"@ + k + "%"@,
                None => "%"@,
            }))
        }),
{
}

/// `victims --by-country` counts victims per country; otherwise a number
/// selects one victim's record, and without one the most recent victims are
/// listed, as many as the limit.
pub proof fn lemma_victims_request_cases(args: Seq<String>)
    ensures
        ({
            let p = parsed_args(arg_views(args), DEFAULT_LIST_LIMIT as nat);
            let r = victims_request_of(args);
            &&& has_flag(args, "--by-country"@) ==> r is ByCountry
            &&& !has_flag(args, "--by-country"@) && p.1 is Some ==> r == VictimsRequest::Detail(
                p.1.unwrap() as usize,
            )
            &&& !has_flag(args, "--by-country"@) && p.1 is None ==> r == VictimsRequest::List(
                p.0 as usize,
            )
        }),
{
}

} // verus!
