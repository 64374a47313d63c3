//! Privilege dropping of the file server: from root to an ordinary user, group first.
use crate::text;
use vstd::prelude::*;
use vstd::string::*;

verus! {

/// The numbers of a user account.
#[derive(Clone, Copy, Debug, PartialEq, Eq, Structural)]
pub struct Account {
    pub uid: u32,
    pub gid: u32,
}

/// What the system has said so far.
pub struct DropFacts {
    /// The effective user of the process.
    pub euid: Option<u32>,
    /// The account of the user to switch to; `Some(None)` where there is no such user.
    pub account: Option<Option<Account>>,
    /// Whether the group could be set.
    pub group_set: Option<bool>,
    /// Whether the user could be set.
    pub user_set: Option<bool>,
}

/// What to do next to drop privileges.
pub enum DropStep {
    /// Ask for the effective user of the process.
    QueryUser,
    /// Look up the account of the user to switch to.
    FindAccount,
    /// Set the group of the process.
    SetGroup(u32),
    /// Set the user of the process.
    SetUser(u32),
    /// The process does not run as root: there is nothing to drop.
    Skipped,
    /// The process now runs as this account.
    Dropped(Account),
    /// Privileges could not be dropped: the process must not go on.
    Failed(String),
}

/// What a `DropStep` stands for.
pub enum Dropping {
    QueryUser,
    FindAccount,
    SetGroup(u32),
    SetUser(u32),
    Skipped,
    Dropped(Account),
    Failed(Seq<char>),
}

impl View for DropStep {
    type V = Dropping;

    open spec fn view(&self) -> Dropping {
        match *self {
            DropStep::QueryUser => Dropping::QueryUser,
            DropStep::FindAccount => Dropping::FindAccount,
            DropStep::SetGroup(gid) => Dropping::SetGroup(gid),
            DropStep::SetUser(uid) => Dropping::SetUser(uid),
            DropStep::Skipped => Dropping::Skipped,
            DropStep::Dropped(account) => Dropping::Dropped(account),
            DropStep::Failed(message) => Dropping::Failed(message@),
        }
    }
}

/// The next step of dropping privileges to `user`.
pub open spec fn dropping(user: Seq<char>, facts: DropFacts) -> Dropping {
    match facts.euid {
        None => Dropping::QueryUser,
        Some(euid) => if euid != 0 {
            Dropping::Skipped
        } else if user.contains('\0') {
            Dropping::Failed("user name contains NUL"@)
        } else {
            match facts.account {
                None => Dropping::FindAccount,
                Some(None) => Dropping::Failed("user '"@ + user + "' not found"@),
                Some(Some(account)) => switching(account, facts),
            }
        },
    }
}

/// The next step of switching to an account: its group first, then its user.
pub open spec fn switching(account: Account, facts: DropFacts) -> Dropping {
    match facts.group_set {
        None => Dropping::SetGroup(account.gid),
        Some(false) => Dropping::Failed("setgid failed"@),
        Some(true) => match facts.user_set {
            None => Dropping::SetUser(account.uid),
            Some(false) => Dropping::Failed("setuid failed"@),
            Some(true) => Dropping::Dropped(account),
        },
    }
}

/// Drops privileges to `user`, one call to the system at a time. Called after the listener is
/// bound; on any failure the process ends rather than go on as root.
pub fn drop_privileges(user: &str, facts: &DropFacts) -> (r: DropStep)
    ensures
        r@ == dropping(user@, *facts),
        match r {
            DropStep::QueryUser => r@ is QueryUser,
            DropStep::FindAccount => r@ is FindAccount,
            DropStep::SetGroup(gid) => r@ == Dropping::SetGroup(gid),
            DropStep::SetUser(uid) => r@ == Dropping::SetUser(uid),
            DropStep::Skipped => r@ is Skipped,
            DropStep::Dropped(account) => r@ == Dropping::Dropped(account),
            DropStep::Failed(message) => r@ == Dropping::Failed(message@),
        },
{
    match facts.euid {
        None => return DropStep::QueryUser,
        Some(euid) => {
            if euid != 0 {
                return DropStep::Skipped;
            }
        },
    }
    if text::has_nul(user) {
        return DropStep::Failed(text::copy_text("user name contains NUL"));
    }
    let account = match facts.account {
        None => return DropStep::FindAccount,
        Some(None) => {
            let mut message = text::copy_text("user '");
            message.append(user);
            message.append("' not found");
            return DropStep::Failed(message);
        },
        Some(Some(account)) => account,
    };
    match facts.group_set {
        None => return DropStep::SetGroup(account.gid),
        Some(set) => {
            if !set {
                return DropStep::Failed(text::copy_text("setgid failed"));
            }
        },
    }
    match facts.user_set {
        None => DropStep::SetUser(account.uid),
        Some(set) => {
            if !set {
                return DropStep::Failed(text::copy_text("setuid failed"));
            }
            DropStep::Dropped(account)
        },
    }
}

/// Writes what is logged once privileges are dropped.
pub fn dropped_line(user: &str, account: Account) -> (r: String)
    ensures
        r@ == "dropped privileges to user '"@ + user@ + "' (uid="@ + text::decimal(
            account.uid as nat,
        ) + ", gid="@ + text::decimal(account.gid as nat) + ")"@,
{
    let mut out = text::copy_text("dropped privileges to user '");
    out.append(user);
    out.append("' (uid=");
    text::push_decimal(&mut out, account.uid as u64);
    out.append(", gid=");
    text::push_decimal(&mut out, account.gid as u64);
    out.append(")");
    out
}

/// The user is set only once the group is.
pub proof fn group_comes_before_user(user: Seq<char>, facts: DropFacts)
    ensures
        dropping(user, facts) is SetUser ==> facts.group_set == Some(true),
        dropping(user, facts) is Dropped ==> facts.group_set == Some(true) && facts.user_set
            == Some(true),
{
}

/// Privileges count as dropped only to the account that was found, once both its group and its
/// user are set; a process that does not run as root is left alone; and whatever goes wrong in
/// between is a failure.
pub proof fn root_is_left_or_the_process_ends(user: Seq<char>, facts: DropFacts)
    requires
        facts.euid is Some,
        facts.account is Some,
        facts.group_set is Some,
        facts.user_set is Some,
    ensures
        dropping(user, facts) is Skipped <==> facts.euid != Some(0u32),
        dropping(user, facts) is Dropped <==> {
            &&& facts.euid == Some(0u32)
            &&& !user.contains('\0')
            &&& facts.account->Some_0 is Some
            &&& facts.group_set == Some(true)
            &&& facts.user_set == Some(true)
        },
        dropping(user, facts) matches Dropping::Dropped(account) ==> facts.account == Some(
            Some(account),
        ),
        dropping(user, facts) is Skipped || dropping(user, facts) is Dropped || dropping(
            user,
            facts,
        ) is Failed,
{
}

/// No call is made again once its outcome is known.
pub proof fn no_call_is_repeated(user: Seq<char>, facts: DropFacts)
    ensures
        dropping(user, facts) is QueryUser ==> facts.euid is None,
        dropping(user, facts) is FindAccount ==> facts.account is None,
        dropping(user, facts) is SetGroup ==> facts.group_set is None,
        dropping(user, facts) is SetUser ==> facts.user_set is None,
{
}

/// Each call is made with the numbers of the account that was found, the group with its group and
/// the user with its user, and only by a process that runs as root.
pub proof fn the_account_that_was_found_is_taken(user: Seq<char>, facts: DropFacts)
    ensures
        dropping(user, facts) matches Dropping::SetGroup(gid) ==> {
            &&& facts.euid == Some(0u32)
            &&& facts.account matches Some(Some(account))
            &&& account.gid == gid
        },
        dropping(user, facts) matches Dropping::SetUser(uid) ==> {
            &&& facts.euid == Some(0u32)
            &&& facts.account matches Some(Some(account))
            &&& account.uid == uid
        },
        dropping(user, facts) matches Dropping::Dropped(taken) ==> facts.account == Some(
            Some(taken),
        ),
        dropping(user, facts) is FindAccount ==> facts.euid == Some(0u32) && !user.contains('\0'),
{
}

/// Root goes on, call by call, until the account is taken; what stops it is said in words.
pub proof fn root_goes_on_until_it_is_left(user: Seq<char>, facts: DropFacts)
    ensures
        facts.euid is None ==> dropping(user, facts) is QueryUser,
        facts.euid is Some && facts.euid != Some(0u32) ==> dropping(user, facts) is Skipped,
        facts.euid == Some(0u32) ==> {
            &&& user.contains('\0') ==> dropping(user, facts) == Dropping::Failed(
                "user name contains NUL"@,
            )
            &&& !user.contains('\0') && facts.account is None ==> dropping(user, facts)
                is FindAccount
            &&& !user.contains('\0') && facts.account == Some(None::<Account>) ==> dropping(
                user,
                facts,
            ) == Dropping::Failed("user '"@ + user + "' not found"@)
            &&& facts.account matches Some(Some(account)) ==> (!user.contains('\0') ==> {
                &&& facts.group_set is None ==> dropping(user, facts) == Dropping::SetGroup(
                    account.gid,
                )
                &&& facts.group_set == Some(false) ==> dropping(user, facts) == Dropping::Failed(
                    "setgid failed"@,
                )
                &&& facts.group_set == Some(true) && facts.user_set is None ==> dropping(
                    user,
                    facts,
                ) == Dropping::SetUser(account.uid)
                &&& facts.group_set == Some(true) && facts.user_set == Some(false) ==> dropping(
                    user,
                    facts,
                ) == Dropping::Failed("setuid failed"@)
            })
        },
{
}

} // verus!
