//! Giving up the rights of the superuser: what is asked of the system, step
//! by step, and what each of its answers leads to.

use vstd::prelude::*;

verus! {

/// The user that the resolver runs as where none is configured.
pub const DEFAULT_USER: &'static str = "nobody";

/// The group that the resolver runs as where none is configured.
pub const DEFAULT_GROUP: &'static str = "nobody";

/// A right that the resolver keeps when it gives up the others.
#[derive(Debug, Clone, Copy, PartialEq, Eq, Hash, Structural)]
pub enum Capability {
    /// To change packet-filter sets.
    NetAdmin,
    /// To listen on a low port.
    NetBindService,
    /// To answer multicast queries.
    NetBroadcast,
    /// To send echo requests.
    NetRaw,
}

/// A request to run as another user.
#[derive(Debug)]
pub struct SwitchUser {
    pub username: String,
    /// The group to run as; the first group of the user where none is named.
    pub groupname: Option<String>,
    /// The rights that are kept, each of them once.
    pub caps: Vec<Capability>,
}

/// The rights that are kept: to change packet-filter sets, to listen on a
/// low port, to answer multicast queries and to send echo requests.
pub open spec fn kept_caps() -> Seq<Capability> {
    seq![
        Capability::NetAdmin,
        Capability::NetBindService,
        Capability::NetBroadcast,
        Capability::NetRaw,
    ]
}

/// The request to run as the user `username` and the group `groupname`,
/// keeping the rights that the resolver needs.
pub fn with(username: &str, groupname: Option<&str>) -> (out: SwitchUser)
    ensures
        out.username@ == username@,
        out.groupname.is_some() == groupname.is_some(),
        out.groupname matches Some(g) ==> g@ == groupname.unwrap()@,
        out.caps@ == kept_caps(),
        out.caps@.no_duplicates(),
{
    let mut caps: Vec<Capability> = Vec::new();
    caps.push(Capability::NetAdmin);
    caps.push(Capability::NetBindService);
    caps.push(Capability::NetBroadcast);
    caps.push(Capability::NetRaw);
    assert(caps@ =~= kept_caps());
    assert(caps@.no_duplicates());
    SwitchUser {
        username: username.to_owned(),
        groupname: match groupname {
            Some(g) => Some(g.to_owned()),
            None => None,
        },
        caps,
    }
}

/// The request to run as the default user and group.
pub fn try_drop_privs() -> (out: SwitchUser)
    ensures
        out.username@ == DEFAULT_USER@,
        out.groupname matches Some(g) && g@ == DEFAULT_GROUP@,
        out.caps@ == kept_caps(),
{
    with(DEFAULT_USER, Some(DEFAULT_GROUP))
}

/// What went wrong while the rights were given up.
#[derive(Debug, Clone, Copy, PartialEq, Eq, Hash, Structural)]
pub enum SwitchError {
    UserNotFound,
    KeepCaps,
    SetGid(u32),
    SetUid(u32),
    SetCaps,
    /// The system answered what the switch had not asked for.
    OutOfTurn,
}

/// What is asked of the system next.
#[derive(Debug, Clone, Copy, PartialEq, Eq, Hash)]
pub enum Action {
    /// The real and the effective user of the process.
    ReadIds,
    /// The user of the request, by name.
    LookupUser,
    /// The group of the request, by name.
    LookupGroup,
    /// To keep the rights of the process across the change of user.
    KeepCaps,
    /// To run as this group.
    SetGid(u32),
    /// To run as this user.
    SetUid(u32),
    /// To cut the rights of the process down to those that are kept.
    SetCaps,
    /// Nothing: the switch is over, with this outcome.
    Done(Result<(), SwitchError>),
}

/// How far the switch has come.
#[derive(Debug, Clone, Copy, PartialEq, Eq, Hash, Structural)]
pub enum Stage {
    Start,
    /// The users of the process were asked for.
    Ids,
    /// The user of the request was asked for.
    User,
    /// The group of the request was asked for; the user has this number and
    /// this first group.
    Group { uid: u32, primary: u32 },
    /// Keeping the rights was asked for; the process is to run as this user
    /// and this group.
    Caps { uid: u32, gid: u32 },
    /// The change of group was asked for.
    Gid { uid: u32, gid: u32 },
    /// The change of user was asked for.
    Uid { uid: u32 },
    /// Cutting down the rights was asked for.
    Cut,
    /// The switch is over.
    Over,
}

/// What the system answered.
#[derive(Debug, Clone, Copy, PartialEq, Eq, Hash)]
pub enum Event {
    /// Nothing yet: the switch starts.
    Begin,
    /// The real and the effective user of the process.
    Ids { uid: u32, euid: u32 },
    /// The number and the first group of the user, or that there is no such
    /// user.
    User(Option<(u32, u32)>),
    /// The number of the group, or that there is no such group.
    Group(Option<u32>),
    /// What was asked for is done.
    Succeeded,
    /// What was asked for could not be done.
    Failed,
}

/// Where the switch goes from a stage on an answer of the system, and what
/// it asks for next. The process switches only if it runs as the superuser.
/// It runs as the group of the request where that is named and known, as
/// the first group of the user otherwise. Rights are kept, then the group
/// is changed, then the user, then the rights are cut down; the first step
/// that fails ends the switch. An answer that the stage did not ask for
/// ends the switch as a failure.
pub open spec fn next(stage: Stage, has_group: bool, event: Event) -> (Stage, Action) {
    match (stage, event) {
        (Stage::Start, Event::Begin) => (Stage::Ids, Action::ReadIds),
        (Stage::Ids, Event::Ids { uid, euid }) => if uid == 0 || euid == 0 {
            (Stage::User, Action::LookupUser)
        } else {
            (Stage::Over, Action::Done(Ok(())))
        },
        (Stage::User, Event::User(None)) => (
            Stage::Over,
            Action::Done(Err(SwitchError::UserNotFound)),
        ),
        (Stage::User, Event::User(Some((uid, primary)))) => if has_group {
            (Stage::Group { uid, primary }, Action::LookupGroup)
        } else {
            (Stage::Caps { uid, gid: primary }, Action::KeepCaps)
        },
        (Stage::Group { uid, primary }, Event::Group(g)) => (
            Stage::Caps {
                uid,
                gid: match g {
                    Some(gid) => gid,
                    None => primary,
                },
            },
            Action::KeepCaps,
        ),
        (Stage::Caps { uid, gid }, Event::Succeeded) => (Stage::Gid { uid, gid }, Action::SetGid(gid)),
        (Stage::Caps { uid, gid }, Event::Failed) => (
            Stage::Over,
            Action::Done(Err(SwitchError::KeepCaps)),
        ),
        (Stage::Gid { uid, gid }, Event::Succeeded) => (Stage::Uid { uid }, Action::SetUid(uid)),
        (Stage::Gid { uid, gid }, Event::Failed) => (
            Stage::Over,
            Action::Done(Err(SwitchError::SetGid(gid))),
        ),
        (Stage::Uid { uid }, Event::Succeeded) => (Stage::Cut, Action::SetCaps),
        (Stage::Uid { uid }, Event::Failed) => (
            Stage::Over,
            Action::Done(Err(SwitchError::SetUid(uid))),
        ),
        (Stage::Cut, Event::Succeeded) => (Stage::Over, Action::Done(Ok(()))),
        (Stage::Cut, Event::Failed) => (Stage::Over, Action::Done(Err(SwitchError::SetCaps))),
        _ => (Stage::Over, Action::Done(Err(SwitchError::OutOfTurn))),
    }
}

/// Takes the switch one step on: from a stage and an answer of the system
/// to the next stage and what to ask for.
pub fn switch_user(request: &SwitchUser, stage: Stage, event: Event) -> (r: (Stage, Action))
    ensures
        r == next(stage, request.groupname.is_some(), event),
{
    match (stage, event) {
        (Stage::Start, Event::Begin) => (Stage::Ids, Action::ReadIds),
        (Stage::Ids, Event::Ids { uid, euid }) => if uid == 0 || euid == 0 {
            (Stage::User, Action::LookupUser)
        } else {
            (Stage::Over, Action::Done(Ok(())))
        },
        (Stage::User, Event::User(None)) => (
            Stage::Over,
            Action::Done(Err(SwitchError::UserNotFound)),
        ),
        (Stage::User, Event::User(Some((uid, primary)))) => if request.groupname.is_some() {
            (Stage::Group { uid, primary }, Action::LookupGroup)
        } else {
            (Stage::Caps { uid, gid: primary }, Action::KeepCaps)
        },
        (Stage::Group { uid, primary }, Event::Group(g)) => (
            Stage::Caps {
                uid,
                gid: match g {
                    Some(gid) => gid,
                    None => primary,
                },
            },
            Action::KeepCaps,
        ),
        (Stage::Caps { uid, gid }, Event::Succeeded) => (Stage::Gid { uid, gid }, Action::SetGid(gid)),
        (Stage::Caps { uid, gid }, Event::Failed) => (
            Stage::Over,
            Action::Done(Err(SwitchError::KeepCaps)),
        ),
        (Stage::Gid { uid, gid }, Event::Succeeded) => (Stage::Uid { uid }, Action::SetUid(uid)),
        (Stage::Gid { uid, gid }, Event::Failed) => (
            Stage::Over,
            Action::Done(Err(SwitchError::SetGid(gid))),
        ),
        (Stage::Uid { uid }, Event::Succeeded) => (Stage::Cut, Action::SetCaps),
        (Stage::Uid { uid }, Event::Failed) => (
            Stage::Over,
            Action::Done(Err(SwitchError::SetUid(uid))),
        ),
        (Stage::Cut, Event::Succeeded) => (Stage::Over, Action::Done(Ok(()))),
        (Stage::Cut, Event::Failed) => (Stage::Over, Action::Done(Err(SwitchError::SetCaps))),
        _ => (Stage::Over, Action::Done(Err(SwitchError::OutOfTurn))),
    }
}

} // verus!
