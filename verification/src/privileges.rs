//! Confinement: what a process does, and in which order, before it serves.
//!
//! Started as root, it changes its root to the served directory and becomes an
//! unprivileged user. In any case it gives up what it does not need, and it refuses
//! to serve as root.

use vstd::prelude::*;

use crate::bytes::copy_bytes;

verus! {

/// A user and their primary group.
#[derive(Clone, Copy, Debug, PartialEq, Eq, Structural)]
pub struct Account {
    pub uid: u32,
    pub gid: u32,
}

/// One step of confinement.
#[derive(Clone, Copy, Debug, PartialEq, Eq, Structural)]
pub enum Action {
    /// Never gain privileges from here on.
    ForbidNewPrivileges,
    /// Write no core dumps.
    ForbidCoreDumps,
    /// Make the served directory the root.
    ChangeRoot,
    /// Make the root the working directory.
    EnterRoot,
    /// Drop the supplementary groups.
    ClearGroups,
    /// Set the real, effective and saved group.
    SetGroup(u32),
    /// Set the real, effective and saved user.
    SetUser(u32),
    /// Make no further processes.
    ForbidForking,
}

/// Why a process may not serve as the user that it is.
#[derive(Clone, Copy, Debug, PartialEq, Eq, Structural)]
pub enum IdentityError {
    /// It is, or could become, root.
    IsRoot,
    /// It is not the user that was asked for.
    NotThatUser,
}

/// The account that is used where none is named.
pub const DEFAULT_ACCOUNT: &'static str = "nobody";

/// The name of the account to look up: to become it as root, or to hold the process
/// to it where one is asked for.
pub open spec fn account_name(euid: u32, run_as: Option<Seq<char>>) -> Option<Seq<char>> {
    match run_as {
        Some(name) => Some(name),
        None => if euid == 0 {
            Some(DEFAULT_ACCOUNT@)
        } else {
            None
        },
    }
}

/// The name of the account to look up, while that can still be done.
pub fn account_to_look_up<'a>(euid: u32, run_as: Option<&'a str>) -> (r: Option<&'a str>)
    ensures
        r is Some <==> euid == 0 || run_as is Some,
        r matches Some(name) ==> account_name(
            euid,
            match run_as {
                Some(n) => Some(n@),
                None => None,
            },
        ) == Some(name@),
{
    match run_as {
        Some(name) => Some(name),
        None => if euid == 0 {
            Some(DEFAULT_ACCOUNT)
        } else {
            None
        },
    }
}

/// The steps that need no privilege and come before all others.
pub open spec fn hardening() -> Seq<Action> {
    seq![Action::ForbidNewPrivileges, Action::ForbidCoreDumps]
}

/// The steps by which root becomes `account`, confined to the served directory.
pub open spec fn becoming(account: Account) -> Seq<Action> {
    seq![
        Action::ChangeRoot,
        Action::EnterRoot,
        Action::ClearGroups,
        Action::SetGroup(account.gid),
        Action::SetUser(account.uid),
    ]
}

/// The steps after the account is known. Forking is forbidden after the change of
/// user, which could fail otherwise, and not at all to a listener, which makes a
/// child for each connection.
pub open spec fn lowering(euid: u32, account: Option<Account>, may_fork: bool) -> Seq<Action> {
    let drop = if euid == 0 {
        becoming(account->0)
    } else {
        seq![]
    };
    if may_fork {
        drop
    } else {
        drop.push(Action::ForbidForking)
    }
}

/// The steps that need no privilege and come before all others.
pub fn hardening_steps() -> (r: Vec<Action>)
    ensures
        r@ == hardening(),
{
    let mut steps: Vec<Action> = Vec::new();
    steps.push(Action::ForbidNewPrivileges);
    steps.push(Action::ForbidCoreDumps);
    assert(steps@ =~= hardening());
    steps
}

/// The steps after the account is known, in order; root has to know one.
pub fn lowering_steps(euid: u32, account: Option<Account>, may_fork: bool) -> (r: Vec<Action>)
    requires
        euid == 0 ==> account is Some,
    ensures
        r@ == lowering(euid, account, may_fork),
{
    let mut steps: Vec<Action> = Vec::new();
    if euid == 0 {
        if let Some(a) = account {
            steps.push(Action::ChangeRoot);
            steps.push(Action::EnterRoot);
            steps.push(Action::ClearGroups);
            steps.push(Action::SetGroup(a.gid));
            steps.push(Action::SetUser(a.uid));
        }
    }
    if !may_fork {
        steps.push(Action::ForbidForking);
    }
    assert(steps@ =~= lowering(euid, account, may_fork));
    steps
}

impl Action {
    /// Whether a failure of this step is fatal. Where the others fail, the process
    /// is no more privileged than before.
    pub open spec fn is_vital(self) -> bool {
        match self {
            Action::ForbidNewPrivileges | Action::ForbidCoreDumps | Action::ForbidForking => false,
            _ => true,
        }
    }

    /// Whether a failure of this step is fatal.
    pub fn must_succeed(&self) -> (r: bool)
        ensures
            r == self.is_vital(),
    {
        match self {
            Action::ForbidNewPrivileges | Action::ForbidCoreDumps | Action::ForbidForking => false,
            _ => true,
        }
    }
}

/// The directory that is served: the root, once the root has been changed to it.
pub fn served_root(euid: u32, root: &[u8]) -> (r: Vec<u8>)
    ensures
        r@ == (if euid == 0 {
            seq![0x2fu8]
        } else {
            root@
        }),
{
    if euid == 0 {
        let mut slash: Vec<u8> = Vec::new();
        slash.push(0x2f);
        assert(slash@ =~= seq![0x2fu8]);
        slash
    } else {
        copy_bytes(root)
    }
}

/// The user that the process is held to: the one that was asked for, if one was. The
/// account that is used where none is named holds it to nothing.
pub open spec fn held_uid(is_named: bool, account: Option<Account>) -> Option<u32> {
    if is_named {
        Some((account->0).uid)
    } else {
        None
    }
}

/// The user that the process is held to, once the account is known.
pub fn uid_to_hold(run_as: Option<&str>, account: Option<Account>) -> (r: Option<u32>)
    requires
        run_as is Some ==> account is Some,
    ensures
        r == held_uid(run_as is Some, account),
{
    if run_as.is_none() {
        return None;
    }
    match account {
        Some(a) => Some(a.uid),
        None => None,
    }
}

/// Whether a process with these real, effective and saved users may serve; `wanted`
/// is the user that was asked for, if one was.
pub open spec fn identity(ruid: u32, euid: u32, suid: u32, wanted: Option<u32>) -> Result<
    (),
    IdentityError,
> {
    if ruid == 0 || euid == 0 || suid == 0 {
        Err(IdentityError::IsRoot)
    } else if wanted matches Some(uid) && !(ruid == uid && euid == uid && suid == uid) {
        Err(IdentityError::NotThatUser)
    } else {
        Ok(())
    }
}

/// Whether a process with these real, effective and saved users may serve.
pub fn check_identity(ruid: u32, euid: u32, suid: u32, wanted: Option<u32>) -> (r: Result<
    (),
    IdentityError,
>)
    ensures
        r == identity(ruid, euid, suid, wanted),
{
    if ruid == 0 || euid == 0 || suid == 0 {
        return Err(IdentityError::IsRoot);
    }
    if let Some(uid) = wanted {
        if ruid != uid || euid != uid || suid != uid {
            return Err(IdentityError::NotThatUser);
        }
    }
    Ok(())
}

// ---------------------------------------------------------------------------
// Laws
// ---------------------------------------------------------------------------
/// A process never serves as root, nor as a user that could become root again, and
/// where a user was asked for, it serves as that user alone.
pub proof fn law_root_never_serves(ruid: u32, euid: u32, suid: u32, wanted: Option<u32>)
    requires
        identity(ruid, euid, suid, wanted) is Ok,
    ensures
        ruid != 0 && euid != 0 && suid != 0,
        wanted matches Some(uid) ==> ruid == uid && euid == uid && suid == uid,
{
}

/// A process that was asked to run as a user serves as that user alone: its real,
/// effective and saved users are those of the account that was looked up for the
/// name.
pub proof fn law_named_user_is_held(
    ruid: u32,
    euid: u32,
    suid: u32,
    run_as: Option<Seq<char>>,
    account: Option<Account>,
)
    requires
        run_as is Some ==> account is Some,
        identity(ruid, euid, suid, held_uid(run_as is Some, account)) is Ok,
    ensures
        ruid != 0 && euid != 0 && suid != 0,
        run_as is Some ==> {
            let uid = (account->0).uid;
            ruid == uid && euid == uid && suid == uid
        },
        run_as is Some ==> forall|started: u32| #[trigger]
            account_name(started, run_as) == run_as,
{
}

/// What a process may do, as far as confinement changes it.
pub struct Standing {
    /// Whether the served directory is its root.
    pub confined: bool,
    /// Whether it is in supplementary groups.
    pub grouped: bool,
    /// Its real, effective and saved groups.
    pub gids: (u32, u32, u32),
    /// Its real, effective and saved users.
    pub uids: (u32, u32, u32),
}

/// The standing of a process after a step, if it is permitted: the root, the groups
/// and the users are changed by root alone.
pub open spec fn stepped(p: Standing, a: Action) -> Option<Standing> {
    match a {
        Action::ChangeRoot => if p.uids.1 == 0 {
            Some(Standing { confined: true, ..p })
        } else {
            None
        },
        Action::ClearGroups => if p.uids.1 == 0 {
            Some(Standing { grouped: false, ..p })
        } else {
            None
        },
        Action::SetGroup(gid) => if p.uids.1 == 0 {
            Some(Standing { gids: (gid, gid, gid), ..p })
        } else {
            None
        },
        Action::SetUser(uid) => if p.uids.1 == 0 {
            Some(Standing { uids: (uid, uid, uid), ..p })
        } else {
            None
        },
        _ => Some(p),
    }
}

/// The standing of a process after steps in order, if all are permitted.
pub open spec fn stepped_through(p: Standing, steps: Seq<Action>) -> Option<Standing>
    decreases steps.len(),
{
    if steps.len() == 0 {
        Some(p)
    } else {
        match stepped_through(p, steps.drop_last()) {
            Some(q) => stepped(q, steps.last()),
            None => None,
        }
    }
}

/// The order of the steps is right: a process that starts as root may take all of
/// them, and is then confined, in no other group, and its account and nothing else.
pub proof fn law_lowering_is_complete(p: Standing, account: Account, may_fork: bool)
    requires
        p.uids.1 == 0,
    ensures
        stepped_through(p, lowering(0, Some(account), may_fork)) == Some(
            Standing {
                confined: true,
                grouped: false,
                gids: (account.gid, account.gid, account.gid),
                uids: (account.uid, account.uid, account.uid),
            },
        ),
{
    reveal_with_fuel(stepped_through, 7);
    let all = becoming(account);
    let s4 = all.drop_last();
    let s3 = s4.drop_last();
    let s2 = s3.drop_last();
    let s1 = s2.drop_last();
    assert(s1.drop_last() =~= seq![]);
    if !may_fork {
        assert(all.push(Action::ForbidForking).drop_last() =~= all);
    }
}

/// Who may serve: a process none of whose users is root, and all of whose users are the
/// one that was asked for, if one was.
pub proof fn law_who_may_serve(ruid: u32, euid: u32, suid: u32, uid: u32)
    ensures
        identity(ruid, euid, suid, None) is Ok <==> ruid > 0 && euid > 0 && suid > 0,
        identity(ruid, euid, suid, Some(uid)) is Ok <==> ruid > 0 && ruid == euid && euid == suid
            && suid == uid,
        ruid == 0 || euid == 0 || suid == 0 ==> identity(ruid, euid, suid, None) == Err::<
            (),
            IdentityError,
        >(IdentityError::IsRoot) && identity(ruid, euid, suid, Some(uid)) == Err::<
            (),
            IdentityError,
        >(IdentityError::IsRoot),
        ruid > 0 && euid > 0 && suid > 0 && (ruid != uid || euid != uid || suid != uid)
            ==> identity(ruid, euid, suid, Some(uid)) == Err::<(), IdentityError>(
            IdentityError::NotThatUser,
        ),
{
}

/// Which account is looked up: the one that is named, whoever starts the process; else,
/// for root alone, `nobody`. And the process is held to the one that is named alone.
pub proof fn law_accounts(euid: u32, name: Seq<char>, account: Account)
    ensures
        account_name(euid, Some(name)) == Some(name),
        account_name(0, None) == Some("nobody"@),
        euid > 0 ==> account_name(euid, None) is None,
        held_uid(true, Some(account)) == Some(account.uid),
        held_uid(false, Some(account)) is None,
        held_uid(false, None) is None,
{
}

/// What a process does before it serves, and in which order. The first two steps come in
/// any case and need no privilege; root goes on to lower itself, from the change of root
/// to the change of user; and only then, and only without children to come, is forking
/// forbidden. Only what raises no privilege may fail.
pub proof fn law_steps_in_order(euid: u32, account: Account, n: u32)
    ensures
        hardening() == seq![Action::ForbidNewPrivileges, Action::ForbidCoreDumps],
        lowering(0, Some(account), true) == seq![
            Action::ChangeRoot,
            Action::EnterRoot,
            Action::ClearGroups,
            Action::SetGroup(account.gid),
            Action::SetUser(account.uid),
        ],
        lowering(0, Some(account), false) == lowering(0, Some(account), true) + seq![
            Action::ForbidForking,
        ],
        euid > 0 ==> lowering(euid, Some(account), true) == Seq::<Action>::empty() && lowering(
            euid,
            None,
            true,
        ) == Seq::<Action>::empty() && lowering(euid, Some(account), false) == seq![
            Action::ForbidForking,
        ] && lowering(euid, None, false) == seq![Action::ForbidForking],
        !Action::ForbidNewPrivileges.is_vital(),
        !Action::ForbidCoreDumps.is_vital(),
        !Action::ForbidForking.is_vital(),
        Action::ChangeRoot.is_vital(),
        Action::EnterRoot.is_vital(),
        Action::ClearGroups.is_vital(),
        Action::SetGroup(n).is_vital(),
        Action::SetUser(n).is_vital(),
{
    assert(lowering(0, Some(account), false) =~= lowering(0, Some(account), true) + seq![
        Action::ForbidForking,
    ]);
    if euid > 0 {
        assert(lowering(euid, Some(account), false) =~= seq![Action::ForbidForking]);
        assert(lowering(euid, None, false) =~= seq![Action::ForbidForking]);
    }
}

/// Root serves the directory as its own root, anyone else by its path.
pub proof fn law_served_root(euid: u32, root: &[u8], r: Vec<u8>)
    requires
        call_ensures(served_root, (euid, root), r),
    ensures
        euid == 0 ==> r@ == seq![0x2fu8],
        euid > 0 ==> r@ == root@,
{
}

/// An account is looked up for root and where one is named, and else none.
pub proof fn law_looked_up_account(euid: u32, name: &str, named: Option<&str>, other: Option<&str>)
    requires
        call_ensures(account_to_look_up, (euid, Some(name)), named),
        call_ensures(account_to_look_up, (euid, None::<&str>), other),
    ensures
        named matches Some(n) && n@ == name@,
        euid == 0 ==> (other matches Some(n) && n@ == "nobody"@),
        euid > 0 ==> other is None,
{
}

} // verus!
