//! Fans group repository requests out to their members.

use vstd::prelude::*;
use vstd::string::StrSliceExecFns;

use crate::meta::RepoType;
use crate::repo::group_metadata::{path_with_repo, with_repo};
use crate::repo::reply::{
    answer, http_error, is_read, not_found, opt_answer, reads, Answer, Method, Reply,
    INTERNAL_SERVER_ERROR, METHOD_NOT_ALLOWED, NOT_FOUND,
};
use crate::text::{cat, contains_text, same, texts};

verus! {

/// The name that links back to this server are built with: the group's, where the
/// request came through one, and else the member's own.
pub fn serving_repo_name(group: Option<&str>, fallback: &str) -> (r: String)
    ensures
        r@ == if group is Some && group->0@.len() > 0 {
            group->0@
        } else {
            fallback@
        },
{
    match group {
        Some(name) => {
            if name.unicode_len() != 0 {
                name.to_owned()
            } else {
                fallback.to_owned()
            }
        },
        None => fallback.to_owned(),
    }
}

/// The answer that ends a request to a group before any member is asked: groups are
/// read-only, and their configuration must be readable.
pub open spec fn group_refusal_of(method: Method, config_ok: bool) -> Option<Answer> {
    if !reads(method) {
        Some(answer(METHOD_NOT_ALLOWED, "group repositories are read-only"@))
    } else if !config_ok {
        Some(answer(INTERNAL_SERVER_ERROR, "invalid repository config"@))
    } else {
        None
    }
}

/// The answer that ends a request to a group before any member is asked.
pub fn group_refusal(method: Method, config_ok: bool) -> (r: Option<Reply>)
    ensures
        opt_answer(r) == group_refusal_of(method, config_ok),
{
    if !is_read(method) {
        return Some(http_error(METHOD_NOT_ALLOWED, "group repositories are read-only"));
    }
    if !config_ok {
        return Some(http_error(INTERNAL_SERVER_ERROR, "invalid repository config"));
    }
    None
}

/// The target that one member is asked for: the repository segment of the path (the
/// second, after the format) replaced by the member's name, and the query kept.
pub fn uri_with_repo(path: &str, query: Option<&str>, member: &str) -> (r: String)
    ensures
        r@ == match query {
            Some(q) => with_repo(path@, member@) + "?"@ + q@,
            None => with_repo(path@, member@),
        },
{
    let mut rebuilt = path_with_repo(path, member);
    if let Some(q) = query {
        rebuilt.append("?");
        rebuilt.append(q);
    }
    rebuilt
}

// ---------------------------------------------------------------------------
// The walk

/// The first of the members that answers anything but "not found".
pub open spec fn first_hit(statuses: Seq<u16>) -> Option<int>
    decreases statuses.len(),
{
    if statuses.len() == 0 {
        None
    } else {
        match first_hit(statuses.drop_last()) {
            Some(i) => Some(i),
            None => if statuses.last() != NOT_FOUND {
                Some(statuses.len() - 1)
            } else {
                None
            },
        }
    }
}

/// A request on its way through the members of a group, in order.
pub struct GroupWalk {
    pub members: usize,
    /// The number of members that have answered.
    pub asked: usize,
    /// What they answered.
    pub seen: Ghost<Seq<u16>>,
}

/// What comes next on the way through a group.
pub enum WalkStep {
    /// Ask this member.
    Ask(usize),
    /// The member asked last has given the answer.
    Serve,
    /// No member has anything.
    Answer(Reply),
}

impl GroupWalk {
    /// Every member asked so far has answered "not found".
    pub open spec fn wf(&self) -> bool {
        &&& self.asked <= self.members
        &&& self.seen@.len() == self.asked
        &&& first_hit(self.seen@) is None
    }

    fn next(&self) -> (r: WalkStep)
        requires
            self.wf(),
        ensures
            match r {
                WalkStep::Ask(i) => i == self.asked && i < self.members,
                WalkStep::Answer(a) => self.asked == self.members && a@ == answer(
                    NOT_FOUND,
                    "404 page not found"@,
                ),
                WalkStep::Serve => false,
            },
    {
        if self.asked < self.members {
            WalkStep::Ask(self.asked)
        } else {
            WalkStep::Answer(not_found())
        }
    }

    /// Starts on the way.
    pub fn start(members: usize) -> (r: (GroupWalk, WalkStep))
        ensures
            r.0.wf(),
            r.0.members == members,
            r.0.seen@ == Seq::<u16>::empty(),
            match r.1 {
                WalkStep::Ask(i) => i == 0 && members > 0,
                WalkStep::Answer(a) => members == 0 && a@ == answer(
                    NOT_FOUND,
                    "404 page not found"@,
                ),
                WalkStep::Serve => false,
            },
    {
        let walk = GroupWalk { members, asked: 0, seen: Ghost(Seq::empty()) };
        let step = walk.next();
        (walk, step)
    }

    /// Takes the status that the member asked last has answered. The first answer
    /// that is not "not found" is the group's, a refusal included.
    pub fn step(&mut self, status: u16) -> (r: WalkStep)
        requires
            old(self).wf(),
            old(self).asked < old(self).members,
        ensures
            final(self).members == old(self).members,
            final(self).seen@ == old(self).seen@.push(status),
            final(self).asked == old(self).asked + 1,
            match r {
                WalkStep::Serve => first_hit(final(self).seen@) == Some(old(self).asked as int),
                WalkStep::Ask(i) => final(self).wf() && i == final(self).asked && i < final(
                    self).members,
                WalkStep::Answer(a) => final(self).wf() && final(self).asked == final(self).members
                    && a@ == answer(NOT_FOUND, "404 page not found"@),
            },
            first_hit(final(self).seen@) is Some <==> r is Serve,
    {
        let ghost before = self.seen@;
        self.seen = Ghost(before.push(status));
        self.asked = self.asked + 1;
        proof {
            assert(self.seen@.drop_last() =~= before);
        }
        if status != NOT_FOUND {
            return WalkStep::Serve;
        }
        self.next()
    }
}

/// The group serves the first member, in order, that has something: all before it
/// have nothing, and a later member is never asked in its place.
pub proof fn group_serves_the_first_hit(statuses: Seq<u16>)
    ensures
        match first_hit(statuses) {
            Some(i) => 0 <= i < statuses.len() && statuses[i] != NOT_FOUND && forall|j: int|
                0 <= j < i ==> #[trigger] statuses[j] == NOT_FOUND,
            None => forall|j: int| 0 <= j < statuses.len() ==> #[trigger] statuses[j] == NOT_FOUND,
        },
    decreases statuses.len(),
{
    if statuses.len() > 0 {
        let front = statuses.drop_last();
        group_serves_the_first_hit(front);
        assert forall|j: int| 0 <= j < front.len() implies #[trigger] front[j] == statuses[j] by {}
        match first_hit(front) {
            Some(i) => {
                assert forall|j: int| 0 <= j < i implies #[trigger] statuses[j] == NOT_FOUND by {
                    assert(front[j] == NOT_FOUND);
                }
            },
            None => {
                assert forall|j: int| 0 <= j < front.len() implies #[trigger] statuses[j]
                    == NOT_FOUND by {
                    assert(front[j] == NOT_FOUND);
                }
            },
        }
    }
}

/// What a later member answers never changes the answer of the group.
pub proof fn later_members_are_shadowed(statuses: Seq<u16>, status: u16)
    requires
        first_hit(statuses) is Some,
    ensures
        first_hit(statuses.push(status)) == first_hit(statuses),
{
    assert(statuses.push(status).drop_last() =~= statuses);
}

// ---------------------------------------------------------------------------
// Members

/// What the store knows of a member.
pub enum MemberLookup {
    Found { format: String, kind: RepoType },
    NotFound,
    Failed(String),
}

/// Why the members of a group are refused.
pub enum GroupError {
    Empty,
    Duplicate(String),
    NotFound(String),
    FormatMismatch(String),
    Nested(String),
    /// The store failed.
    Store(String),
}

/// Why the members of a group are refused, as a text.
pub open spec fn group_message(e: GroupError) -> Seq<char> {
    match e {
        GroupError::Empty => "group repository requires at least one member"@,
        GroupError::Duplicate(name) => "duplicate group member: "@ + name@,
        GroupError::NotFound(name) => "group member not found: "@ + name@,
        GroupError::FormatMismatch(name) => "group member format mismatch: "@ + name@,
        GroupError::Nested(name) => "nested group repositories are not allowed: "@ + name@,
        GroupError::Store(detail) => detail@,
    }
}

impl GroupError {
    /// The text of the error.
    pub fn message(&self) -> (r: String)
        ensures
            r@ == group_message(*self),
    {
        match self {
            GroupError::Empty => "group repository requires at least one member".to_owned(),
            GroupError::Duplicate(name) => cat("duplicate group member: ", name.as_str()),
            GroupError::NotFound(name) => cat("group member not found: ", name.as_str()),
            GroupError::FormatMismatch(name) => cat(
                "group member format mismatch: ",
                name.as_str(),
            ),
            GroupError::Nested(name) => cat(
                "nested group repositories are not allowed: ",
                name.as_str(),
            ),
            GroupError::Store(detail) => detail.as_str().to_owned(),
        }
    }
}

/// A repository of `format` that is no group.
pub open spec fn plain_member(format: Seq<char>, found: MemberLookup) -> bool {
    &&& found matches MemberLookup::Found { format: f, kind }
    &&& f@ == format
    &&& kind != RepoType::Group
}

/// A member may join a group of `format` after the members `before`.
pub open spec fn member_ok(
    format: Seq<char>,
    before: Seq<Seq<char>>,
    name: Seq<char>,
    found: MemberLookup,
) -> bool {
    !before.contains(name) && plain_member(format, found)
}

/// `e` is what is wrong with a member, the first thing in the order of the checks.
pub open spec fn member_problem(
    format: Seq<char>,
    before: Seq<Seq<char>>,
    name: Seq<char>,
    found: MemberLookup,
    e: GroupError,
) -> bool {
    if before.contains(name) {
        e matches GroupError::Duplicate(n) && n@ == name
    } else {
        match found {
            MemberLookup::NotFound => e matches GroupError::NotFound(n) && n@ == name,
            MemberLookup::Failed(detail) => e matches GroupError::Store(d) && d@ == detail@,
            MemberLookup::Found { format: f, kind } => if f@ != format {
                e matches GroupError::FormatMismatch(n) && n@ == name
            } else {
                kind == RepoType::Group && (e matches GroupError::Nested(n) && n@ == name)
            },
        }
    }
}

/// The first `n` members may all join.
pub open spec fn members_ok(
    format: Seq<char>,
    names: Seq<Seq<char>>,
    found: Seq<MemberLookup>,
    n: int,
) -> bool {
    forall|i: int|
        0 <= i < n ==> member_ok(format, names.take(i), #[trigger] names[i], found[i])
}

/// Enforces the invariants of group membership: at least one member, every member
/// exists, matches the group's format, is not itself a group, and appears only once.
/// `found` is what the store knows of each member. The first member that is wrong
/// decides.
pub fn validate_group_members(
    format: &str,
    members: &Vec<String>,
    found: &Vec<MemberLookup>,
) -> (r: Result<(), GroupError>)
    requires
        found@.len() == members@.len(),
    ensures
        match r {
            Ok(()) => members@.len() > 0 && members_ok(
                format@,
                texts(members@),
                found@,
                members@.len() as int,
            ),
            Err(e) => if members@.len() == 0 {
                e is Empty
            } else {
                exists|i: int|
                    #![trigger texts(members@)[i]]
                    {
                        &&& 0 <= i < members@.len()
                        &&& members_ok(format@, texts(members@), found@, i)
                        &&& member_problem(
                            format@,
                            texts(members@).take(i),
                            texts(members@)[i],
                            found@[i],
                            e,
                        )
                    }
            },
        },
{
    if members.len() == 0 {
        return Err(GroupError::Empty);
    }
    let ghost names = texts(members@);
    let mut seen: Vec<String> = Vec::new();
    let mut i: usize = 0;
    assert(texts(seen@) =~= names.take(0));
    while i < members.len()
        invariant
            i <= members@.len(),
            found@.len() == members@.len(),
            members@.len() > 0,
            names == texts(members@),
            texts(seen@) == names.take(i as int),
            members_ok(format@, names, found@, i as int),
        decreases members@.len() - i,
    {
        let name = members[i].as_str();
        assert(names[i as int] == name@);
        if contains_text(&seen, name) {
            return Err(GroupError::Duplicate(name.to_owned()));
        }
        match &found[i] {
            MemberLookup::NotFound => {
                return Err(GroupError::NotFound(name.to_owned()));
            },
            MemberLookup::Failed(detail) => {
                return Err(GroupError::Store(detail.as_str().to_owned()));
            },
            MemberLookup::Found { format: f, kind } => {
                if !same(f.as_str(), format) {
                    return Err(GroupError::FormatMismatch(name.to_owned()));
                }
                if *kind == RepoType::Group {
                    return Err(GroupError::Nested(name.to_owned()));
                }
            },
        }
        let ghost before = texts(seen@);
        seen.push(name.to_owned());
        i += 1;
        assert(texts(seen@) =~= before.push(names[i - 1]));
        assert(names.take(i as int) =~= names.take(i - 1).push(names[i - 1]));
    }
    Ok(())
}

/// The members of a valid group are distinct, of the group's format, and no groups.
pub proof fn valid_members_are_distinct(
    format: Seq<char>,
    names: Seq<Seq<char>>,
    found: Seq<MemberLookup>,
)
    requires
        names.len() == found.len(),
        members_ok(format, names, found, names.len() as int),
    ensures
        names.no_duplicates(),
        forall|i: int| 0 <= i < names.len() ==> plain_member(format, #[trigger] found[i]),
{
    assert forall|i: int, j: int| 0 <= i < j < names.len() implies names[i] != names[j] by {
        assert(member_ok(format, names.take(j), names[j], found[j]));
        assert(names.take(j)[i] == names[i]);
    }
    assert forall|i: int| 0 <= i < names.len() implies plain_member(format, #[trigger] found[i]) by {
        assert(member_ok(format, names.take(i), names[i], found[i]));
    }
}

} // verus!
