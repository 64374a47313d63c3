//! The web kernel: its port policy, its answers and how it gives up root.
use crate::privileges::Account;
use crate::text;
use vstd::prelude::*;
use vstd::string::*;

verus! {

/// The user that the kernel switches to.
pub const UNPRIVILEGED_USER: &'static str = "nobody";

/// The most connections that are served at once.
pub const MAX_CONNECTIONS: usize = 256;

/// How long, in seconds, a connection on port 80 may last.
pub const HTTP_TIMEOUT_SECS: u64 = 15;

/// How long, in seconds, a TLS handshake may take.
pub const HANDSHAKE_TIMEOUT_SECS: u64 = 5;

/// How long, in seconds, a connection on port 443 may last after its handshake.
pub const HTTPS_TIMEOUT_SECS: u64 = 20;

/// The values of the security headers that every response gets, unless it has them already.
pub const FRAME_OPTIONS: &'static str = "DENY";

pub const CONTENT_TYPE_OPTIONS: &'static str = "nosniff";

pub const TRANSPORT_SECURITY: &'static str = "max-age=31536000; includeSubDomains";

/// The only network services exposed by this kernel.
#[derive(Clone, Copy, Debug, PartialEq, Eq, Structural)]
pub enum AllowedPort {
    Http,
    Https,
}

/// The number of an allowed port.
pub open spec fn port_number(port: AllowedPort) -> u16 {
    match port {
        AllowedPort::Http => 80,
        AllowedPort::Https => 443,
    }
}

/// The service that is exposed on a port, if one is.
pub open spec fn service_on(port: u16) -> Option<AllowedPort> {
    if port == 80 {
        Some(AllowedPort::Http)
    } else if port == 443 {
        Some(AllowedPort::Https)
    } else {
        None
    }
}

impl AllowedPort {
    /// The allowed port with this number, if there is one.
    pub fn from_port(port: u16) -> (r: Option<AllowedPort>)
        ensures
            r == service_on(port),
    {
        match port {
            80 => Some(AllowedPort::Http),
            443 => Some(AllowedPort::Https),
            _ => None,
        }
    }

    /// The number of this port.
    pub fn number(self) -> (r: u16)
        ensures
            r == port_number(self),
    {
        match self {
            AllowedPort::Http => 80,
            AllowedPort::Https => 443,
        }
    }
}

/// Metamorphic traffic policy.
#[derive(Clone, Copy, Debug, PartialEq, Eq, Structural)]
pub enum TrafficState {
    Allowed(AllowedPort),
    Rejected(u16),
}

/// What the policy says of traffic to a port.
pub open spec fn policy(port: u16) -> TrafficState {
    match service_on(port) {
        Some(service) => TrafficState::Allowed(service),
        None => TrafficState::Rejected(port),
    }
}

/// Applies the traffic policy to the port that a connection came in on.
pub fn metamorphic_policy(port: u16) -> (r: TrafficState)
    ensures
        r == policy(port),
{
    match AllowedPort::from_port(port) {
        Some(allowed) => TrafficState::Allowed(allowed),
        None => TrafficState::Rejected(port),
    }
}

/// The policy lets through the ports of the allowed services and no others, and a service never
/// passes for another.
pub proof fn policy_exposes_the_allowed_services(port: u16, service: AllowedPort)
    ensures
        policy(port_number(service)) == TrafficState::Allowed(service),
        policy(port) == TrafficState::Allowed(service) <==> port == port_number(service),
        policy(port) is Rejected ==> policy(port) == TrafficState::Rejected(port),
{
}

/// Writes what is printed of a connection.
pub fn traffic_line(state: TrafficState, remote: &str) -> (r: String)
    ensures
        r@ == (match state {
            TrafficState::Allowed(port) => "[ALLOW] TCP/"@ + text::decimal(
                port_number(port) as nat,
            ),
            TrafficState::Rejected(port) => "[DROP] TCP/"@ + text::decimal(port as nat),
        }) + " ← "@ + remote@,
{
    let mut out = String::new();
    match state {
        TrafficState::Allowed(port) => {
            out.append("[ALLOW] TCP/");
            text::push_decimal(&mut out, port.number() as u64);
        },
        TrafficState::Rejected(port) => {
            out.append("[DROP] TCP/");
            text::push_decimal(&mut out, port as u64);
        },
    }
    out.append(" ← ");
    out.append(remote);
    out
}

/// The landing page: what its file holds, or a short note where that cannot be read.
pub fn landing_page(content: Option<String>) -> (r: String)
    ensures
        r@ == (match content {
            Some(html) => html@,
            None => "<h1>404 Not Found</h1>"@,
        }),
{
    match content {
        Some(html) => html,
        None => text::copy_text("<h1>404 Not Found</h1>"),
    }
}

/// What the system has said so far.
pub struct KernelDropFacts {
    /// The user of the process.
    pub uid: Option<u32>,
    /// The account of the user to switch to; `Some(None)` where there is no such user.
    pub account: Option<Option<Account>>,
    /// Whether the supplementary groups could be cleared.
    pub groups_cleared: Option<bool>,
    /// Whether the group could be set.
    pub group_set: Option<bool>,
    /// Whether the user could be set.
    pub user_set: Option<bool>,
    /// Whether the process could make itself root again.
    pub root_regained: Option<bool>,
}

/// Why privileges could not be dropped.
pub enum DropError {
    /// The name of the user holds a NUL.
    InvalidInput,
    /// There is no such user, as this message says.
    NotFound(String),
    /// A call failed; the system knows why.
    LastOsError,
    /// Root could be regained, as this message says.
    PermissionDenied(String),
}

/// What to do next to drop privileges.
pub enum KernelDropStep {
    /// Ask for the user of the process.
    QueryUser,
    /// Look up the account of the user to switch to.
    FindAccount,
    /// Clear the supplementary groups of the process.
    ClearGroups,
    /// Set the group of the process.
    SetGroup(u32),
    /// Set the user of the process.
    SetUser(u32),
    /// Try to become root again.
    RegainRoot,
    /// The process does not run as root: there is nothing to drop.
    Skipped,
    /// The process now runs as this account.
    Dropped(Account),
    /// Privileges could not be dropped: the process must not go on.
    Failed(DropError),
}

/// What a `DropError` stands for.
pub enum DropFailure {
    InvalidInput,
    NotFound(Seq<char>),
    LastOsError,
    PermissionDenied(Seq<char>),
}

/// What a `KernelDropStep` stands for.
pub enum KernelDropping {
    QueryUser,
    FindAccount,
    ClearGroups,
    SetGroup(u32),
    SetUser(u32),
    RegainRoot,
    Skipped,
    Dropped(Account),
    Failed(DropFailure),
}

impl View for DropError {
    type V = DropFailure;

    open spec fn view(&self) -> DropFailure {
        match *self {
            DropError::InvalidInput => DropFailure::InvalidInput,
            DropError::NotFound(message) => DropFailure::NotFound(message@),
            DropError::LastOsError => DropFailure::LastOsError,
            DropError::PermissionDenied(message) => DropFailure::PermissionDenied(message@),
        }
    }
}

impl View for KernelDropStep {
    type V = KernelDropping;

    open spec fn view(&self) -> KernelDropping {
        match *self {
            KernelDropStep::QueryUser => KernelDropping::QueryUser,
            KernelDropStep::FindAccount => KernelDropping::FindAccount,
            KernelDropStep::ClearGroups => KernelDropping::ClearGroups,
            KernelDropStep::SetGroup(gid) => KernelDropping::SetGroup(gid),
            KernelDropStep::SetUser(uid) => KernelDropping::SetUser(uid),
            KernelDropStep::RegainRoot => KernelDropping::RegainRoot,
            KernelDropStep::Skipped => KernelDropping::Skipped,
            KernelDropStep::Dropped(account) => KernelDropping::Dropped(account),
            KernelDropStep::Failed(error) => KernelDropping::Failed(error@),
        }
    }
}

/// The next step of dropping privileges to `user`.
pub open spec fn kernel_dropping(user: Seq<char>, facts: KernelDropFacts) -> KernelDropping {
    match facts.uid {
        None => KernelDropping::QueryUser,
        Some(uid) => if uid != 0 {
            KernelDropping::Skipped
        } else if user.contains('\0') {
            KernelDropping::Failed(DropFailure::InvalidInput)
        } else {
            match facts.account {
                None => KernelDropping::FindAccount,
                Some(None) => KernelDropping::Failed(
                    DropFailure::NotFound("User '"@ + user + "' not found on system"@),
                ),
                Some(Some(account)) => kernel_switching(account, facts),
            }
        },
    }
}

/// The next step of switching to an account: first the supplementary groups, which only root can
/// clear, then the group, then the user; last, that there is no way back.
pub open spec fn kernel_switching(account: Account, facts: KernelDropFacts) -> KernelDropping {
    match (facts.groups_cleared, facts.group_set, facts.user_set, facts.root_regained) {
        (None, _, _, _) => KernelDropping::ClearGroups,
        (Some(false), _, _, _) => KernelDropping::Failed(DropFailure::LastOsError),
        (Some(true), None, _, _) => KernelDropping::SetGroup(account.gid),
        (Some(true), Some(false), _, _) => KernelDropping::Failed(DropFailure::LastOsError),
        (Some(true), Some(true), None, _) => KernelDropping::SetUser(account.uid),
        (Some(true), Some(true), Some(false), _) => KernelDropping::Failed(
            DropFailure::LastOsError,
        ),
        (Some(true), Some(true), Some(true), None) => KernelDropping::RegainRoot,
        (Some(true), Some(true), Some(true), Some(true)) => KernelDropping::Failed(
            DropFailure::PermissionDenied(
                "CRITICAL: Successfully regained root privileges after dropping!"@,
            ),
        ),
        (Some(true), Some(true), Some(true), Some(false)) => KernelDropping::Dropped(account),
    }
}

/// Drops root privileges securely to an unprivileged user, one call to the system at a time.
pub fn drop_privileges(user: &str, facts: &KernelDropFacts) -> (r: KernelDropStep)
    ensures
        r@ == kernel_dropping(user@, *facts),
        match r {
            KernelDropStep::QueryUser => r@ is QueryUser,
            KernelDropStep::FindAccount => r@ is FindAccount,
            KernelDropStep::ClearGroups => r@ is ClearGroups,
            KernelDropStep::SetGroup(gid) => r@ == KernelDropping::SetGroup(gid),
            KernelDropStep::SetUser(uid) => r@ == KernelDropping::SetUser(uid),
            KernelDropStep::RegainRoot => r@ is RegainRoot,
            KernelDropStep::Skipped => r@ is Skipped,
            KernelDropStep::Dropped(account) => r@ == KernelDropping::Dropped(account),
            KernelDropStep::Failed(error) => r@ == KernelDropping::Failed(
                match error {
                    DropError::InvalidInput => DropFailure::InvalidInput,
                    DropError::NotFound(message) => DropFailure::NotFound(message@),
                    DropError::LastOsError => DropFailure::LastOsError,
                    DropError::PermissionDenied(message) => DropFailure::PermissionDenied(message@),
                },
            ),
        },
{
    match facts.uid {
        None => return KernelDropStep::QueryUser,
        Some(uid) => {
            if uid != 0 {
                return KernelDropStep::Skipped;
            }
        },
    }
    if text::has_nul(user) {
        return KernelDropStep::Failed(DropError::InvalidInput);
    }
    let account = match facts.account {
        None => return KernelDropStep::FindAccount,
        Some(None) => {
            let mut message = text::copy_text("User '");
            message.append(user);
            message.append("' not found on system");
            return KernelDropStep::Failed(DropError::NotFound(message));
        },
        Some(Some(account)) => account,
    };
    match facts.groups_cleared {
        None => return KernelDropStep::ClearGroups,
        Some(done) => {
            if !done {
                return KernelDropStep::Failed(DropError::LastOsError);
            }
        },
    }
    match facts.group_set {
        None => return KernelDropStep::SetGroup(account.gid),
        Some(done) => {
            if !done {
                return KernelDropStep::Failed(DropError::LastOsError);
            }
        },
    }
    match facts.user_set {
        None => return KernelDropStep::SetUser(account.uid),
        Some(done) => {
            if !done {
                return KernelDropStep::Failed(DropError::LastOsError);
            }
        },
    }
    match facts.root_regained {
        None => KernelDropStep::RegainRoot,
        Some(regained) => {
            if regained {
                return KernelDropStep::Failed(
                    DropError::PermissionDenied(
                        text::copy_text(
                            "CRITICAL: Successfully regained root privileges after dropping!",
                        ),
                    ),
                );
            }
            KernelDropStep::Dropped(account)
        },
    }
}

/// Writes what is printed once privileges are dropped.
pub fn dropped_line(user: &str, account: Account) -> (r: String)
    ensures
        r@ == "[+] Successfully dropped privileges to user '"@ + user@ + "' (UID: "@
            + text::decimal(account.uid as nat) + ", GID: "@ + text::decimal(account.gid as nat)
            + ")"@,
{
    let mut out = text::copy_text("[+] Successfully dropped privileges to user '");
    out.append(user);
    out.append("' (UID: ");
    text::push_decimal(&mut out, account.uid as u64);
    out.append(", GID: ");
    text::push_decimal(&mut out, account.gid as u64);
    out.append(")");
    out
}

/// The calls that give up root come in order: supplementary groups, group, user, and last the
/// check that root is out of reach.
pub proof fn privileges_go_in_order(user: Seq<char>, facts: KernelDropFacts)
    ensures
        kernel_dropping(user, facts) is SetGroup ==> facts.groups_cleared == Some(true),
        kernel_dropping(user, facts) is SetUser ==> facts.groups_cleared == Some(true)
            && facts.group_set == Some(true),
        kernel_dropping(user, facts) is RegainRoot ==> facts.groups_cleared == Some(true)
            && facts.group_set == Some(true) && facts.user_set == Some(true),
{
}

/// The kernel goes on only as a process that was never root, or as one that gave up every
/// privilege and cannot get root back.
pub proof fn root_is_out_of_reach(user: Seq<char>, facts: KernelDropFacts)
    ensures
        kernel_dropping(user, facts) is Skipped ==> facts.uid is Some && facts.uid != Some(0u32),
        kernel_dropping(user, facts) matches KernelDropping::Dropped(account) ==> {
            &&& facts.uid == Some(0u32)
            &&& facts.account == Some(Some(account))
            &&& facts.groups_cleared == Some(true)
            &&& facts.group_set == Some(true)
            &&& facts.user_set == Some(true)
            &&& facts.root_regained == Some(false)
        },
{
}

/// No call is made again once its outcome is known.
pub proof fn no_call_is_repeated(user: Seq<char>, facts: KernelDropFacts)
    ensures
        kernel_dropping(user, facts) is QueryUser ==> facts.uid is None,
        kernel_dropping(user, facts) is FindAccount ==> facts.account is None,
        kernel_dropping(user, facts) is ClearGroups ==> facts.groups_cleared is None,
        kernel_dropping(user, facts) is SetGroup ==> facts.group_set is None,
        kernel_dropping(user, facts) is SetUser ==> facts.user_set is None,
        kernel_dropping(user, facts) is RegainRoot ==> facts.root_regained is None,
{
}

/// Each call is made with the numbers of the account that was found, the group with its group and
/// the user with its user, and only by a process that runs as root.
pub proof fn the_account_that_was_found_is_taken(user: Seq<char>, facts: KernelDropFacts)
    ensures
        kernel_dropping(user, facts) matches KernelDropping::SetGroup(gid) ==> {
            &&& facts.uid == Some(0u32)
            &&& facts.account matches Some(Some(account))
            &&& account.gid == gid
        },
        kernel_dropping(user, facts) matches KernelDropping::SetUser(uid) ==> {
            &&& facts.uid == Some(0u32)
            &&& facts.account matches Some(Some(account))
            &&& account.uid == uid
        },
        kernel_dropping(user, facts) is ClearGroups ==> facts.uid == Some(0u32) && facts.account
            matches Some(Some(_)),
{
}

/// Root goes on, call by call, until it is given up and out of reach; what stops it is an error of
/// its own.
pub proof fn root_goes_on_until_it_is_left(user: Seq<char>, facts: KernelDropFacts)
    ensures
        facts.uid is None ==> kernel_dropping(user, facts) is QueryUser,
        facts.uid is Some && facts.uid != Some(0u32) ==> kernel_dropping(user, facts) is Skipped,
        facts.uid == Some(0u32) ==> {
            &&& user.contains('\0') ==> kernel_dropping(user, facts) == KernelDropping::Failed(
                DropFailure::InvalidInput,
            )
            &&& !user.contains('\0') && facts.account is None ==> kernel_dropping(user, facts)
                is FindAccount
            &&& !user.contains('\0') && facts.account == Some(None::<Account>)
                ==> kernel_dropping(user, facts) == KernelDropping::Failed(
                DropFailure::NotFound("User '"@ + user + "' not found on system"@),
            )
            &&& facts.account matches Some(Some(account)) ==> (!user.contains('\0') ==> {
                let cleared = facts.groups_cleared == Some(true);
                let grouped = cleared && facts.group_set == Some(true);
                let switched = grouped && facts.user_set == Some(true);
                &&& facts.groups_cleared is None ==> kernel_dropping(user, facts) is ClearGroups
                &&& cleared && facts.group_set is None ==> kernel_dropping(user, facts)
                    == KernelDropping::SetGroup(account.gid)
                &&& grouped && facts.user_set is None ==> kernel_dropping(user, facts)
                    == KernelDropping::SetUser(account.uid)
                &&& switched && facts.root_regained is None ==> kernel_dropping(user, facts)
                    is RegainRoot
                &&& switched && facts.root_regained == Some(false) ==> kernel_dropping(user, facts)
                    == KernelDropping::Dropped(account)
                &&& switched && facts.root_regained == Some(true) ==> kernel_dropping(user, facts)
                    == KernelDropping::Failed(
                    DropFailure::PermissionDenied(
                        "CRITICAL: Successfully regained root privileges after dropping!"@,
                    ),
                )
                &&& facts.groups_cleared == Some(false) || (cleared && facts.group_set == Some(
                    false,
                )) || (grouped && facts.user_set == Some(false)) ==> kernel_dropping(user, facts)
                    == KernelDropping::Failed(DropFailure::LastOsError)
            })
        },
{
}

} // verus!
