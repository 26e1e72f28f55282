//! The command tree: groups of named commands and subgroups, each group with
//! an optional fallback command, and the two ways of finding a command in it.
use crate::framework::commands::{clone_text, text_view, CommandMeta, ErasedCommand};
use crate::framework::text::{
    first_word, is_blank_line, lemma_run_len_bounds, next_word, views, CharClass,
};
use vstd::prelude::*;
use vstd::string::*;

verus! {

/// What stands under a name in a group.
#[derive(Debug)]
pub enum GroupOrCommand<H> {
    Command(ErasedCommand<H>),
    Group(Group<H>),
}

/// A namespace of commands and subgroups.
///
/// The children are kept in the order in which they were registered. In a
/// well-formed group no name occurs twice.
#[derive(Debug)]
pub struct Group<H> {
    pub description: Option<String>,
    /// The children, each under its name.
    pub inner: Vec<(String, GroupOrCommand<H>)>,
    /// The command that runs where no child is named.
    pub fallback: Option<ErasedCommand<H>>,
}

/// A borrowed child of a group, or a borrowed group.
#[derive(Debug)]
pub enum GroupOrCommandRef<'a, H> {
    Command(&'a ErasedCommand<H>),
    Group(&'a Group<H>),
}

impl<H> GroupOrCommand<H> {
    /// The command, where this is one.
    pub fn as_command(&self) -> (r: Option<&ErasedCommand<H>>)
        ensures
            match self {
                GroupOrCommand::Command(c) => r == Some(c),
                GroupOrCommand::Group(_) => r is None,
            },
    {
        match self {
            GroupOrCommand::Command(c) => Some(c),
            GroupOrCommand::Group(_) => None,
        }
    }

    /// The group, where this is one.
    pub fn as_group(&self) -> (r: Option<&Group<H>>)
        ensures
            match self {
                GroupOrCommand::Command(_) => r is None,
                GroupOrCommand::Group(g) => r == Some(g),
            },
    {
        match self {
            GroupOrCommand::Command(_) => None,
            GroupOrCommand::Group(g) => Some(g),
        }
    }
}

impl<'a, H> GroupOrCommandRef<'a, H> {
    /// What the reference points to.
    pub open spec fn target(self) -> GroupOrCommand<H> {
        match self {
            GroupOrCommandRef::Command(c) => GroupOrCommand::Command(*c),
            GroupOrCommandRef::Group(g) => GroupOrCommand::Group(*g),
        }
    }
}

/// The ways in which a registration can clash with what is registered.
#[derive(Clone, Copy, Debug, PartialEq, Eq, Structural)]
pub enum Conflict {
    /// A command is registered under the name of a command.
    CommandExists,
    /// A command is registered under the name of a group that has a
    /// fallback.
    FallbackExists,
    /// A group is registered under the name of a group.
    GroupExists,
    /// A group with a fallback is registered under the name of a command.
    GroupHasFallback,
}

/// A registration that was refused.
#[derive(Clone, Debug, PartialEq, Eq)]
pub struct RegistrationError {
    pub kind: Conflict,
    /// The name under which the registration was made.
    pub name: String,
}

impl Conflict {
    /// What the message says before the name.
    pub open spec fn lead(self) -> Seq<char> {
        match self {
            Conflict::CommandExists => "Command "@,
            Conflict::FallbackExists => "Fallback command for group "@,
            Conflict::GroupExists => "Group with name "@,
            Conflict::GroupHasFallback => "Can't add group "@,
        }
    }

    /// What the message says after the name.
    pub open spec fn tail(self) -> Seq<char> {
        match self {
            Conflict::GroupHasFallback => ", a command already exists and this group has its fallback set"@,
            _ => " already exists"@,
        }
    }
}

impl RegistrationError {
    /// The refusal in words.
    pub fn message(&self) -> (text: String)
        ensures
            text@ == self.kind.lead() + self.name@ + self.kind.tail(),
    {
        let lead = match self.kind {
            Conflict::CommandExists => "Command ",
            Conflict::FallbackExists => "Fallback command for group ",
            Conflict::GroupExists => "Group with name ",
            Conflict::GroupHasFallback => "Can't add group ",
        };
        let tail = match self.kind {
            Conflict::GroupHasFallback => ", a command already exists and this group has its fallback set",
            _ => " already exists",
        };
        String::from_str(lead).concat(self.name.as_str()).concat(tail)
    }
}

/// The place of the first entry under `name`, if there is one.
pub open spec fn index_of<T>(entries: Seq<(String, T)>, name: Seq<char>) -> Option<int>
    decreases entries.len(),
{
    if entries.len() == 0 {
        None
    } else if entries[0].0@ == name {
        Some(0)
    } else {
        match index_of(entries.skip(1), name) {
            Some(i) => Some(i + 1),
            None => None,
        }
    }
}

/// No name occurs twice among `entries`.
pub open spec fn unique_names<T>(entries: Seq<(String, T)>) -> bool {
    forall|i: int, j: int|
        0 <= i < j < entries.len() ==> (#[trigger] entries[i]).0@ != (#[trigger] entries[j]).0@
}

/// The first entry under a name is pinned down by what stands before it:
/// where no entry before `k` has the name and the one at `k`, if any, has it,
/// `k` is found, or nothing where `k` is the end.
pub proof fn lemma_index_of<T>(entries: Seq<(String, T)>, name: Seq<char>, k: int)
    requires
        0 <= k <= entries.len(),
        forall|i: int| 0 <= i < k ==> (#[trigger] entries[i]).0@ != name,
        k < entries.len() ==> entries[k].0@ == name,
    ensures
        index_of(entries, name) == if k < entries.len() {
            Some(k)
        } else {
            None
        },
    decreases entries.len(),
{
    if entries.len() > 0 && k > 0 {
        let tail = entries.skip(1);
        assert(entries[0].0@ != name);
        assert forall|i: int| 0 <= i < k - 1 implies (#[trigger] tail[i]).0@ != name by {
            assert(tail[i] == entries[i + 1]);
        }
        lemma_index_of(tail, name, k - 1);
    }
}

/// What `index_of` finds is an entry under the name, and the first one.
pub proof fn lemma_index_of_found<T>(entries: Seq<(String, T)>, name: Seq<char>)
    ensures
        match index_of(entries, name) {
            Some(k) => 0 <= k < entries.len() && entries[k].0@ == name && forall|i: int|
                0 <= i < k ==> (#[trigger] entries[i]).0@ != name,
            None => forall|i: int| 0 <= i < entries.len() ==> (#[trigger] entries[i]).0@ != name,
        },
    decreases entries.len(),
{
    if entries.len() > 0 && entries[0].0@ != name {
        let tail = entries.skip(1);
        lemma_index_of_found(tail, name);
        match index_of(tail, name) {
            Some(k) => {
                assert forall|i: int| 0 <= i < k + 1 implies (#[trigger] entries[i]).0@
                    != name by {
                    if i > 0 {
                        assert(entries[i] == tail[i - 1]);
                    }
                }
            },
            None => {
                assert forall|i: int| 0 <= i < entries.len() implies (#[trigger] entries[i]).0@
                    != name by {
                    if i > 0 {
                        assert(entries[i] == tail[i - 1]);
                    }
                }
            },
        }
    }
}

/// Finds the first entry under `name`.
pub fn find<T>(entries: &Vec<(String, T)>, name: &str) -> (r: Option<usize>)
    ensures
        match r {
            Some(i) => i < entries@.len() && index_of(entries@, name@) == Some(i as int),
            None => index_of(entries@, name@) is None,
        },
{
    let key = String::from_str(name);
    let mut i: usize = 0;
    while i < entries.len()
        invariant
            i <= entries@.len(),
            key@ == name@,
            forall|j: int| 0 <= j < i ==> (#[trigger] entries@[j]).0@ != name@,
        decreases entries@.len() - i,
    {
        if entries[i].0 == key {
            proof {
                lemma_index_of(entries@, name@, i as int);
            }
            return Some(i);
        }
        i += 1;
    }
    proof {
        lemma_index_of(entries@, name@, i as int);
    }
    None
}

/// The rest that `first_word` leaves is shorter than the line.
pub proof fn lemma_first_word_shrinks(line: Seq<char>)
    ensures
        first_word(line) matches Some((_, rest)) ==> rest.len() < line.len(),
{
    lemma_run_len_bounds(line, CharClass::Word);
}

/// Appending an entry, or changing what stands under a name, leaves the
/// entries under every other name where they were.
pub proof fn lemma_index_of_elsewhere<T>(
    before: Seq<(String, T)>,
    after: Seq<(String, T)>,
    name: Seq<char>,
    other: Seq<char>,
)
    requires
        other != name,
        before.len() <= after.len() <= before.len() + 1,
        forall|i: int| 0 <= i < before.len() ==> (#[trigger] after[i]).0@ == before[i].0@,
        after.len() > before.len() ==> after.last().0@ == name,
    ensures
        index_of(after, other) == index_of(before, other),
{
    lemma_index_of_found(before, other);
    match index_of(before, other) {
        Some(k) => {
            lemma_index_of(after, other, k);
        },
        None => {
            lemma_index_of(after, other, after.len() as int);
        },
    }
}

impl<H> Default for Group<H> {
    fn default() -> (g: Self)
        ensures
            g.description is None,
            g.inner@.len() == 0,
            g.fallback is None,
            g.wf(),
    {
        Group { description: None, inner: Vec::new(), fallback: None }
    }
}

impl<H> Group<H> {
    /// `after` is `before` with `node` as a new, last child under `name`.
    pub open spec fn appended(
        before: Self,
        after: Self,
        name: Seq<char>,
        node: GroupOrCommand<H>,
    ) -> bool {
        &&& after.description == before.description
        &&& after.fallback == before.fallback
        &&& after.inner@.len() == before.inner@.len() + 1
        &&& after.inner@.drop_last() == before.inner@
        &&& after.inner@.last().0@ == name
        &&& after.inner@.last().1 == node
    }

    /// `after` is `before` with `node` in the place of the child at `i`,
    /// under that child's name.
    pub open spec fn replaced(before: Self, after: Self, i: int, node: GroupOrCommand<H>) -> bool {
        &&& after.description == before.description
        &&& after.fallback == before.fallback
        &&& after.inner@ == before.inner@.update(i, (before.inner@[i].0, node))
    }

    /// The group `g` with `command` as its fallback.
    pub open spec fn falling_back_to(g: Self, command: ErasedCommand<H>) -> Self {
        Group { description: g.description, inner: g.inner, fallback: Some(command) }
    }

    /// No name occurs twice among the children, here and in every subgroup.
    pub open spec fn wf(self) -> bool
        decreases self,
    {
        &&& unique_names(self.inner@)
        &&& forall|i: int|
            0 <= i < self.inner@.len() ==> ((#[trigger] self.inner@[i]).1 matches GroupOrCommand::Group(
                g,
            ) ==> g.wf())
    }

    /// The child under `name`.
    pub open spec fn child(self, name: Seq<char>) -> Option<GroupOrCommand<H>> {
        match index_of(self.inner@, name) {
            Some(i) => Some(self.inner@[i].1),
            None => None,
        }
    }

    /// The fallback with the input it is to read, where there is a fallback.
    pub open spec fn fallen_back(self, input: Seq<char>) -> Option<(ErasedCommand<H>, Seq<char>)> {
        match self.fallback {
            Some(f) => Some((f, input)),
            None => None,
        }
    }

    /// The command that a line of input names, with the input that is left
    /// for its arguments.
    ///
    /// The first word of the line names a child. A command is found with what
    /// follows the word; a subgroup goes on with what follows the word. Where
    /// the line is blank or the word names nothing, the fallback of the group
    /// reached is found, with the line as it stood there.
    pub open spec fn resolved(self, input: Seq<char>) -> Option<(ErasedCommand<H>, Seq<char>)>
        decreases input.len(),
    {
        match first_word(input) {
            Some((word, rest)) => match self.child(word) {
                Some(GroupOrCommand::Command(c)) => Some((c, rest)),
                Some(GroupOrCommand::Group(g)) => {
                    proof {
                        lemma_first_word_shrinks(input);
                    }
                    g.resolved(rest)
                },
                None => self.fallen_back(input),
            },
            None => self.fallen_back(input),
        }
    }

    /// The command at a path of names: each name but the last names a
    /// subgroup. A path that ends at a group, or leaves the tree, gives the
    /// fallback of the last group it reached; names after a command are not
    /// looked at.
    pub open spec fn command_at(self, path: Seq<Seq<char>>) -> Option<ErasedCommand<H>>
        decreases path.len(),
    {
        if path.len() == 0 {
            self.fallback
        } else {
            match self.child(path[0]) {
                Some(GroupOrCommand::Command(c)) => Some(c),
                Some(GroupOrCommand::Group(g)) => g.command_at(path.skip(1)),
                None => self.fallback,
            }
        }
    }

    /// The command or group at a path of names. A path that leaves the tree
    /// gives the last group it reached; names after a command are not looked
    /// at.
    pub open spec fn thing_at(self, path: Seq<Seq<char>>) -> GroupOrCommand<H>
        decreases path.len(),
    {
        if path.len() == 0 {
            GroupOrCommand::Group(self)
        } else {
            match self.child(path[0]) {
                Some(GroupOrCommand::Command(c)) => GroupOrCommand::Command(c),
                Some(GroupOrCommand::Group(g)) => g.thing_at(path.skip(1)),
                None => GroupOrCommand::Group(self),
            }
        }
    }

    /// The group with `description` as its description.
    pub fn with_description(self, description: &str) -> (g: Self)
        ensures
            g.description matches Some(d) && d@ == description@,
            g.inner == self.inner,
            g.fallback == self.fallback,
    {
        let mut g = self;
        g.description = Some(String::from_str(description));
        g
    }

    /// The child under `name`.
    pub fn get(&self, name: &str) -> (r: Option<&GroupOrCommand<H>>)
        ensures
            match self.child(name@) {
                Some(node) => r matches Some(n) && *n == node,
                None => r is None,
            },
    {
        match find(&self.inner, name) {
            Some(i) => Some(&self.inner[i].1),
            None => None,
        }
    }

    /// Finds the command that a line of input names, and the input that is
    /// left for its arguments.
    pub fn find_command_parsing<'a, 'b>(&'a self, input: &'b str) -> (r: Option<
        (&'a ErasedCommand<H>, &'b str),
    >)
        ensures
            match self.resolved(input@) {
                Some((command, rest)) => r matches Some((c, t)) && *c == command && t@ == rest,
                None => r is None,
            },
        decreases input@.len(),
    {
        match next_word(input) {
            Some((word, rest)) => match self.get(word) {
                Some(GroupOrCommand::Command(c)) => Some((c, rest)),
                Some(GroupOrCommand::Group(g)) => {
                    proof {
                        lemma_first_word_shrinks(input@);
                    }
                    g.find_command_parsing(rest)
                },
                None => match &self.fallback {
                    Some(f) => Some((f, input)),
                    None => None,
                },
            },
            None => match &self.fallback {
                Some(f) => Some((f, input)),
                None => None,
            },
        }
    }

    /// Finds the command at a path of names.
    pub fn find_command(&self, path: &[&str]) -> (r: Option<&ErasedCommand<H>>)
        ensures
            match self.command_at(views(path@)) {
                Some(command) => r matches Some(c) && *c == command,
                None => r is None,
            },
    {
        let mut cur: &Group<H> = self;
        let mut i: usize = 0;
        proof {
            assert(views(path@).skip(0) == views(path@));
        }
        while i < path.len()
            invariant
                i <= path@.len(),
                self.command_at(views(path@)) == cur.command_at(views(path@).skip(i as int)),
            decreases path@.len() - i,
        {
            proof {
                let tail = views(path@).skip(i as int);
                assert(tail[0] == path@[i as int]@);
                assert(tail.skip(1) == views(path@).skip(i + 1));
            }
            match cur.get(path[i]) {
                Some(GroupOrCommand::Command(c)) => {
                    return Some(c);
                },
                Some(GroupOrCommand::Group(g)) => {
                    cur = g;
                },
                None => {
                    return cur.fallback.as_ref();
                },
            }
            i += 1;
        }
        cur.fallback.as_ref()
    }

    /// The command or group at a path of names; where the path leaves the
    /// tree, the last group it reached. This never looks at a fallback.
    pub fn locate<'a>(&'a self, path: &[&str]) -> (thing: GroupOrCommandRef<'a, H>)
        ensures
            thing.target() == self.thing_at(views(path@)),
    {
        let mut cur: &Group<H> = self;
        let mut i: usize = 0;
        proof {
            assert(views(path@).skip(0) == views(path@));
        }
        while i < path.len()
            invariant
                i <= path@.len(),
                self.thing_at(views(path@)) == cur.thing_at(views(path@).skip(i as int)),
            decreases path@.len() - i,
        {
            proof {
                let tail = views(path@).skip(i as int);
                assert(tail[0] == path@[i as int]@);
                assert(tail.skip(1) == views(path@).skip(i + 1));
            }
            match cur.get(path[i]) {
                Some(GroupOrCommand::Command(c)) => {
                    return GroupOrCommandRef::Command(c);
                },
                Some(GroupOrCommand::Group(g)) => {
                    cur = g;
                },
                None => {
                    return GroupOrCommandRef::Group(cur);
                },
            }
            i += 1;
        }
        GroupOrCommandRef::Group(cur)
    }

    /// Finds the command or group at a path of names. This never looks at a
    /// fallback, and it always finds something: in the last resort the group
    /// it was asked of.
    pub fn find_thing<'a>(&'a self, path: &[&str]) -> (r: Option<GroupOrCommandRef<'a, H>>)
        ensures
            r matches Some(thing) && thing.target() == self.thing_at(views(path@)),
    {
        Some(self.locate(path))
    }
}

impl<H> Group<H> {
    /// A group without children, fallback or description.
    pub fn new() -> (g: Self)
        ensures
            g.description is None,
            g.inner@.len() == 0,
            g.fallback is None,
            g.wf(),
    {
        Group { description: None, inner: Vec::new(), fallback: None }
    }

    /// What stands in the way of registering a command under `name`, if
    /// anything does: a command under that name, or a subgroup under it that
    /// has a fallback.
    pub open spec fn command_clash(self, name: Seq<char>) -> Option<Conflict> {
        match self.child(name) {
            None => None,
            Some(GroupOrCommand::Command(_)) => Some(Conflict::CommandExists),
            Some(GroupOrCommand::Group(g)) => if g.fallback is Some {
                Some(Conflict::FallbackExists)
            } else {
                None
            },
        }
    }

    /// A command can be registered under `name`.
    pub open spec fn accepts_command(self, name: Seq<char>) -> bool {
        self.command_clash(name) is None
    }

    /// What stands in the way of registering `group` under `name`, if
    /// anything does: a group under that name, or a command under it while
    /// `group` has a fallback of its own.
    pub open spec fn group_clash(self, name: Seq<char>, group: Self) -> Option<Conflict> {
        match self.child(name) {
            None => None,
            Some(GroupOrCommand::Group(_)) => Some(Conflict::GroupExists),
            Some(GroupOrCommand::Command(_)) => if group.fallback is Some {
                Some(Conflict::GroupHasFallback)
            } else {
                None
            },
        }
    }

    /// `group` can be registered under `name`.
    pub open spec fn accepts_group(self, name: Seq<char>, group: Self) -> bool {
        self.group_clash(name, group) is None
    }

    /// Says what stands in the way of registering a command under `name`.
    /// Nothing does exactly where `add_command` may be called.
    pub fn command_conflict(&self, name: &str) -> (r: Option<Conflict>)
        ensures
            r == self.command_clash(name@),
            r is None <==> self.accepts_command(name@),
    {
        match self.get(name) {
            None => None,
            Some(GroupOrCommand::Command(_)) => Some(Conflict::CommandExists),
            Some(GroupOrCommand::Group(g)) => if g.fallback.is_some() {
                Some(Conflict::FallbackExists)
            } else {
                None
            },
        }
    }

    /// Says what stands in the way of registering `group` under `name`.
    /// Nothing does exactly where `add_group` may be called.
    pub fn group_conflict(&self, name: &str, group: &Self) -> (r: Option<Conflict>)
        ensures
            r == self.group_clash(name@, *group),
            r is None <==> self.accepts_group(name@, *group),
    {
        match self.get(name) {
            None => None,
            Some(GroupOrCommand::Group(_)) => Some(Conflict::GroupExists),
            Some(GroupOrCommand::Command(_)) => if group.fallback.is_some() {
                Some(Conflict::GroupHasFallback)
            } else {
                None
            },
        }
    }

    /// Registers `command` under `name`.
    ///
    /// Under a free name the command becomes a new child. Under the name of a
    /// subgroup without a fallback it becomes that subgroup's fallback. What
    /// stands under any other name stays. A command cannot be registered
    /// under the name of a command, nor under that of a subgroup that has a
    /// fallback: `command_conflict` tells.
    pub fn add_command(&mut self, name: &str, command: ErasedCommand<H>)
        requires
            old(self).accepts_command(name@),
        ensures
            match old(self).child(name@) {
                Some(GroupOrCommand::Group(g)) => Self::replaced(
                    *old(self),
                    *final(self),
                    index_of(old(self).inner@, name@)->0,
                    GroupOrCommand::Group(Self::falling_back_to(g, command)),
                ),
                _ => Self::appended(
                    *old(self),
                    *final(self),
                    name@,
                    GroupOrCommand::Command(command),
                ),
            },
            final(self).child(name@) is Some,
            old(self).wf() ==> final(self).wf(),
            forall|other: Seq<char>|
                other != name@ ==> (#[trigger] final(self).child(other)) == old(self).child(other),
    {
        let ghost before = *self;
        proof {
            lemma_index_of_found(before.inner@, name@);
        }
        match find(&self.inner, name) {
            None => {
                self.inner.push((String::from_str(name), GroupOrCommand::Command(command)));
                proof {
                    assert(self.inner@.drop_last() == before.inner@);
                    assert forall|other: Seq<char>| other != name@ implies (#[trigger] self.child(
                        other,
                    )) == before.child(other) by {
                        lemma_index_of_elsewhere(before.inner@, self.inner@, name@, other);
                        lemma_index_of_found(before.inner@, other);
                    }
                    lemma_index_of(self.inner@, name@, before.inner@.len() as int);
                    if before.wf() {
                        Self::lemma_wf_kept(before, *self);
                    }
                }
            },
            Some(i) => {
                match &mut self.inner[i].1 {
                    GroupOrCommand::Group(g) => {
                        g.fallback = Some(command);
                    },
                    GroupOrCommand::Command(_) => {},
                }
                proof {
                    assert(self.inner@ == before.inner@.update(
                        i as int,
                        (before.inner@[i as int].0, self.inner@[i as int].1),
                    ));
                    assert forall|other: Seq<char>| other != name@ implies (#[trigger] self.child(
                        other,
                    )) == before.child(other) by {
                        lemma_index_of_elsewhere(before.inner@, self.inner@, name@, other);
                        lemma_index_of_found(before.inner@, other);
                    }
                    lemma_index_of_same_names(before.inner@, self.inner@, name@);
                    if before.wf() {
                        assert(before.inner@[i as int].1 matches GroupOrCommand::Group(g)
                            && g.wf());
                        Self::lemma_wf_kept(before, *self);
                    }
                }
            },
        }
    }

    /// Registers `group` under `name`.
    ///
    /// Under a free name the group becomes a new child. Under the name of a
    /// command the group takes the command's place and the command becomes
    /// its fallback. What stands under any other name stays. A group cannot
    /// be registered under the name of a group, nor, where it has a fallback
    /// of its own, under that of a command: `group_conflict` tells.
    pub fn add_group(&mut self, name: &str, group: Group<H>)
        requires
            old(self).accepts_group(name@, group),
        ensures
            match old(self).child(name@) {
                Some(GroupOrCommand::Command(c)) => Self::replaced(
                    *old(self),
                    *final(self),
                    index_of(old(self).inner@, name@)->0,
                    GroupOrCommand::Group(Self::falling_back_to(group, c)),
                ),
                _ => Self::appended(
                    *old(self),
                    *final(self),
                    name@,
                    GroupOrCommand::Group(group),
                ),
            },
            final(self).child(name@) matches Some(GroupOrCommand::Group(_)),
            old(self).wf() && group.wf() ==> final(self).wf(),
            forall|other: Seq<char>|
                other != name@ ==> (#[trigger] final(self).child(other)) == old(self).child(other),
    {
        let ghost before = *self;
        proof {
            lemma_index_of_found(before.inner@, name@);
        }
        match find(&self.inner, name) {
            None => {
                self.inner.push((String::from_str(name), GroupOrCommand::Group(group)));
                proof {
                    assert(self.inner@.drop_last() == before.inner@);
                    assert forall|other: Seq<char>| other != name@ implies (#[trigger] self.child(
                        other,
                    )) == before.child(other) by {
                        lemma_index_of_elsewhere(before.inner@, self.inner@, name@, other);
                        lemma_index_of_found(before.inner@, other);
                    }
                    lemma_index_of(self.inner@, name@, before.inner@.len() as int);
                    if before.wf() && group.wf() {
                        Self::lemma_wf_kept(before, *self);
                    }
                }
            },
            Some(i) => {
                let mut held = GroupOrCommand::Group(group);
                std::mem::swap(&mut self.inner[i].1, &mut held);
                match (&mut self.inner[i].1, held) {
                    (GroupOrCommand::Group(g), GroupOrCommand::Command(c)) => {
                        g.fallback = Some(c);
                    },
                    _ => {},
                }
                let ghost filled = Self::falling_back_to(group, before.inner@[i as int].1->Command_0);
                proof {
                    assert(self.inner@ == before.inner@.update(
                        i as int,
                        (before.inner@[i as int].0, GroupOrCommand::Group(filled)),
                    ));
                    assert forall|other: Seq<char>| other != name@ implies (#[trigger] self.child(
                        other,
                    )) == before.child(other) by {
                        lemma_index_of_elsewhere(before.inner@, self.inner@, name@, other);
                        lemma_index_of_found(before.inner@, other);
                    }
                    lemma_index_of_same_names(before.inner@, self.inner@, name@);
                    if before.wf() && group.wf() {
                        assert(filled.wf());
                        Self::lemma_wf_kept(before, *self);
                    }
                }
            },
        }
    }

    /// A group stays well formed where its children keep their names, a new
    /// last child has a name of its own, and every child that is a group is
    /// well formed.
    pub proof fn lemma_wf_kept(before: Self, after: Self)
        requires
            before.wf(),
            before.inner@.len() <= after.inner@.len() <= before.inner@.len() + 1,
            forall|i: int|
                0 <= i < before.inner@.len() ==> (#[trigger] after.inner@[i]).0@
                    == before.inner@[i].0@,
            after.inner@.len() > before.inner@.len() ==> forall|i: int|
                0 <= i < before.inner@.len() ==> (#[trigger] before.inner@[i]).0@
                    != after.inner@.last().0@,
            forall|i: int|
                0 <= i < after.inner@.len() ==> ((#[trigger] after.inner@[i]).1 matches GroupOrCommand::Group(
                    g,
                ) ==> g.wf()),
        ensures
            after.wf(),
    {
        assert forall|i: int, j: int| 0 <= i < j < after.inner@.len() implies (
        #[trigger] after.inner@[i]).0@ != (#[trigger] after.inner@[j]).0@ by {
            if j < before.inner@.len() {
                assert(before.inner@[i].0@ != before.inner@[j].0@);
            } else {
                assert(before.inner@[i].0@ != after.inner@.last().0@);
            }
        }
    }
}

/// Builds a group from registrations made one after another.
#[derive(Debug)]
pub struct GroupBuilder<H> {
    pub root: Group<H>,
}

impl<H> GroupBuilder<H> {
    /// A builder that holds an empty group.
    pub fn new() -> (b: Self)
        ensures
            b.root.description is None,
            b.root.inner@.len() == 0,
            b.root.fallback is None,
            b.root.wf(),
    {
        GroupBuilder { root: Group::new() }
    }

    /// Says what stands in the way of registering a command under `name`.
    /// Nothing does exactly where `command` may be called.
    pub fn command_conflict(&self, name: &str) -> (r: Option<Conflict>)
        ensures
            r == self.root.command_clash(name@),
            r is None <==> self.root.accepts_command(name@),
    {
        self.root.command_conflict(name)
    }

    /// Says what stands in the way of registering `grp` under `name`.
    /// Nothing does exactly where `group` may be called.
    pub fn group_conflict(&self, name: &str, grp: &Group<H>) -> (r: Option<Conflict>)
        ensures
            r == self.root.group_clash(name@, *grp),
            r is None <==> self.root.accepts_group(name@, *grp),
    {
        self.root.group_conflict(name, grp)
    }

    /// Registers the group `grp` under `name`, as `Group::add_group` does,
    /// and hands the builder back for the next registration.
    pub fn group(&mut self, name: &str, grp: Group<H>) -> (b: &mut Self)
        requires
            old(self).root.accepts_group(name@, grp),
        ensures
            *final(self) == *final(b),
            match old(self).root.child(name@) {
                Some(GroupOrCommand::Command(c)) => Group::replaced(
                    old(self).root,
                    b.root,
                    index_of(old(self).root.inner@, name@)->0,
                    GroupOrCommand::Group(Group::falling_back_to(grp, c)),
                ),
                _ => Group::appended(old(self).root, b.root, name@, GroupOrCommand::Group(grp)),
            },
            b.root.child(name@) matches Some(GroupOrCommand::Group(_)),
            old(self).root.wf() && grp.wf() ==> b.root.wf(),
            forall|other: Seq<char>|
                other != name@ ==> (#[trigger] b.root.child(other)) == old(self).root.child(
                    other,
                ),
    {
        self.root.add_group(name, grp);
        self
    }

    /// Registers the command `cmd` under `name`, as `Group::add_command`
    /// does, and hands the builder back for the next registration.
    pub fn command(&mut self, name: &str, cmd: ErasedCommand<H>) -> (b: &mut Self)
        requires
            old(self).root.accepts_command(name@),
        ensures
            *final(self) == *final(b),
            match old(self).root.child(name@) {
                Some(GroupOrCommand::Group(g)) => Group::replaced(
                    old(self).root,
                    b.root,
                    index_of(old(self).root.inner@, name@)->0,
                    GroupOrCommand::Group(Group::falling_back_to(g, cmd)),
                ),
                _ => Group::appended(
                    old(self).root,
                    b.root,
                    name@,
                    GroupOrCommand::Command(cmd),
                ),
            },
            b.root.child(name@) is Some,
            old(self).root.wf() ==> b.root.wf(),
            forall|other: Seq<char>|
                other != name@ ==> (#[trigger] b.root.child(other)) == old(self).root.child(
                    other,
                ),
    {
        self.root.add_command(name, cmd);
        self
    }

    /// The group that was built. The builder is left with an empty group.
    pub fn done(&mut self) -> (g: Group<H>)
        ensures
            g == old(self).root,
            final(self).root.description is None,
            final(self).root.inner@.len() == 0,
            final(self).root.fallback is None,
    {
        let mut g = Group::new();
        std::mem::swap(&mut self.root, &mut g);
        g
    }
}

/// What the help text says of a child of a group.
#[derive(Debug, PartialEq, Eq)]
pub enum GroupOrCommandMeta {
    Command(CommandMeta),
    Group(GroupMeta),
}

/// What the help text says of a group: the tree without its handlers.
#[derive(Debug, PartialEq, Eq)]
pub struct GroupMeta {
    pub description: Option<String>,
    /// The children, each under its name, in the order of the group's.
    pub inner: Vec<(String, GroupOrCommandMeta)>,
    pub fallback: Option<CommandMeta>,
}

/// A borrowed description of a command or of a group.
#[derive(Debug)]
pub enum GroupOrCommandMetaRef<'a> {
    Command(&'a CommandMeta),
    Group(&'a GroupMeta),
}

impl<'a> GroupOrCommandMetaRef<'a> {
    /// What the reference points to.
    pub open spec fn target(self) -> GroupOrCommandMeta {
        match self {
            GroupOrCommandMetaRef::Command(c) => GroupOrCommandMeta::Command(*c),
            GroupOrCommandMetaRef::Group(g) => GroupOrCommandMeta::Group(*g),
        }
    }
}

impl GroupOrCommandMeta {
    /// This is what the help text says of `node`: of a command its
    /// metadata, of a group its description.
    pub open spec fn describes<H>(self, node: GroupOrCommand<H>) -> bool
        decreases node, 0nat,
    {
        match (self, node) {
            (GroupOrCommandMeta::Command(m), GroupOrCommand::Command(c)) => m@ == c.meta@,
            (GroupOrCommandMeta::Group(m), GroupOrCommand::Group(g)) => m.describes(g),
            _ => false,
        }
    }
}

impl GroupMeta {
    /// This is what the help text says of `group`: the same description, the
    /// same names in the same order with what the help text says of each
    /// child, and the metadata of the fallback.
    pub open spec fn describes<H>(self, group: Group<H>) -> bool
        decreases group, 1nat,
    {
        &&& text_view(self.description) == text_view(group.description)
        &&& self.inner@.len() == group.inner@.len()
        &&& forall|i: int|
            0 <= i < group.inner@.len() ==> (#[trigger] self.inner@[i]).0@ == group.inner@[i].0@
                && self.inner@[i].1.describes(group.inner@[i].1)
        &&& match (self.fallback, group.fallback) {
            (Some(m), Some(c)) => m@ == c.meta@,
            (None, None) => true,
            _ => false,
        }
    }

    /// The child under `name`.
    pub open spec fn child(self, name: Seq<char>) -> Option<GroupOrCommandMeta> {
        match index_of(self.inner@, name) {
            Some(i) => Some(self.inner@[i].1),
            None => None,
        }
    }

    /// The command or group at a path of names. A path that leaves the tree
    /// gives the last group it reached; names after a command are not looked
    /// at.
    pub open spec fn thing_at(self, path: Seq<Seq<char>>) -> GroupOrCommandMeta
        decreases path.len(),
    {
        if path.len() == 0 {
            GroupOrCommandMeta::Group(self)
        } else {
            match self.child(path[0]) {
                Some(GroupOrCommandMeta::Command(c)) => GroupOrCommandMeta::Command(c),
                Some(GroupOrCommandMeta::Group(g)) => g.thing_at(path.skip(1)),
                None => GroupOrCommandMeta::Group(self),
            }
        }
    }

    /// How many names of a path lead to what `thing_at` gives: all of them
    /// where the path stays in the tree, the names up to a command's where
    /// it reaches one, and those before the first unknown name otherwise.
    pub open spec fn matched(self, path: Seq<Seq<char>>) -> nat
        decreases path.len(),
    {
        if path.len() == 0 {
            0
        } else {
            match self.child(path[0]) {
                Some(GroupOrCommandMeta::Command(_)) => 1,
                Some(GroupOrCommandMeta::Group(g)) => 1 + g.matched(path.skip(1)),
                None => 0,
            }
        }
    }

    /// The child under `name`.
    pub fn get(&self, name: &str) -> (r: Option<&GroupOrCommandMeta>)
        ensures
            match self.child(name@) {
                Some(node) => r matches Some(n) && *n == node,
                None => r is None,
            },
    {
        match find(&self.inner, name) {
            Some(i) => Some(&self.inner[i].1),
            None => None,
        }
    }

    /// The command or group at a path of names, and how many names of the
    /// path led there. Where fewer names led to a group than the path has,
    /// the next name is not known in that group.
    pub fn reach<'a>(&'a self, path: &[&str]) -> (r: (GroupOrCommandMetaRef<'a>, usize))
        ensures
            r.0.target() == self.thing_at(views(path@)),
            r.1 == self.matched(views(path@)),
            r.1 <= path@.len(),
    {
        let mut cur: &GroupMeta = self;
        let mut i: usize = 0;
        proof {
            assert(views(path@).skip(0) == views(path@));
        }
        while i < path.len()
            invariant
                i <= path@.len(),
                self.thing_at(views(path@)) == cur.thing_at(views(path@).skip(i as int)),
                self.matched(views(path@)) == i + cur.matched(views(path@).skip(i as int)),
            decreases path@.len() - i,
        {
            proof {
                let tail = views(path@).skip(i as int);
                assert(tail[0] == path@[i as int]@);
                assert(tail.skip(1) == views(path@).skip(i + 1));
            }
            match cur.get(path[i]) {
                Some(GroupOrCommandMeta::Command(c)) => {
                    return (GroupOrCommandMetaRef::Command(c), i + 1);
                },
                Some(GroupOrCommandMeta::Group(g)) => {
                    cur = g;
                },
                None => {
                    return (GroupOrCommandMetaRef::Group(cur), i);
                },
            }
            i += 1;
        }
        (GroupOrCommandMetaRef::Group(cur), i)
    }

    /// The command or group at a path of names; where the path leaves the
    /// tree, the last group it reached. This never looks at a fallback.
    pub fn locate<'a>(&'a self, path: &[&str]) -> (thing: GroupOrCommandMetaRef<'a>)
        ensures
            thing.target() == self.thing_at(views(path@)),
    {
        self.reach(path).0
    }

    /// Finds the command or group at a path of names. This never looks at a
    /// fallback, and it always finds something: in the last resort the group
    /// it was asked of.
    pub fn find_thing<'a>(&'a self, path: &[&str]) -> (r: Option<GroupOrCommandMetaRef<'a>>)
        ensures
            r matches Some(thing) && thing.target() == self.thing_at(views(path@)),
    {
        Some(self.locate(path))
    }
}

impl<H> GroupOrCommand<H> {
    /// What the help text says of this child.
    pub fn meta(&self) -> (m: GroupOrCommandMeta)
        ensures
            m.describes(*self),
        decreases self, 0nat,
    {
        match self {
            GroupOrCommand::Command(c) => GroupOrCommandMeta::Command(c.meta.clone()),
            GroupOrCommand::Group(g) => GroupOrCommandMeta::Group(g.meta()),
        }
    }
}

impl<H> Group<H> {
    /// What the help text says of this group: the tree without its handlers.
    pub fn meta(&self) -> (m: GroupMeta)
        ensures
            m.describes(*self),
        decreases self, 1nat,
    {
        let mut inner: Vec<(String, GroupOrCommandMeta)> = Vec::new();
        let mut i: usize = 0;
        while i < self.inner.len()
            invariant
                i <= self.inner@.len(),
                inner@.len() == i,
                forall|j: int|
                    0 <= j < i ==> (#[trigger] inner@[j]).0@ == self.inner@[j].0@
                        && inner@[j].1.describes(self.inner@[j].1),
            decreases self.inner@.len() - i,
        {
            let node = self.inner[i].1.meta();
            inner.push((self.inner[i].0.clone(), node));
            i += 1;
        }
        let fallback = match &self.fallback {
            Some(c) => Some(c.meta.clone()),
            None => None,
        };
        GroupMeta { description: clone_text(&self.description), inner, fallback }
    }
}

/// Where two lists of entries hold the same names in the same order, a name
/// is found at the same place in both.
pub proof fn lemma_index_of_same_names<T, U>(
    a: Seq<(String, T)>,
    b: Seq<(String, U)>,
    name: Seq<char>,
)
    requires
        a.len() == b.len(),
        forall|i: int| 0 <= i < a.len() ==> (#[trigger] a[i]).0@ == b[i].0@,
    ensures
        index_of(a, name) == index_of(b, name),
{
    lemma_index_of_found(a, name);
    match index_of(a, name) {
        Some(k) => {
            assert forall|i: int| 0 <= i < k implies (#[trigger] b[i]).0@ != name by {
                assert(a[i].0@ != name);
            }
            assert(a[k].0@ == b[k].0@);
            lemma_index_of(b, name, k);
        },
        None => {
            assert forall|i: int| 0 <= i < b.len() implies (#[trigger] b[i]).0@ != name by {
                assert(a[i].0@ != name);
            }
            lemma_index_of(b, name, b.len() as int);
        },
    }
}

impl<H> Group<H> {
    /// Two children of a group whose names differ are each found under their
    /// own name, by `child` and by a path of that one name, whatever else is
    /// registered.
    pub proof fn lemma_distinct_names_resolve(self, i: int, j: int)
        requires
            unique_names(self.inner@),
            0 <= i < self.inner@.len(),
            0 <= j < self.inner@.len(),
            i != j,
        ensures
            self.inner@[i].0@ != self.inner@[j].0@,
            self.child(self.inner@[i].0@) == Some(self.inner@[i].1),
            self.child(self.inner@[j].0@) == Some(self.inner@[j].1),
            self.thing_at(seq![self.inner@[i].0@]) == self.inner@[i].1,
            self.thing_at(seq![self.inner@[j].0@]) == self.inner@[j].1,
    {
        self.lemma_child_resolves(i);
        self.lemma_child_resolves(j);
        if i < j {
            assert(self.inner@[i].0@ != self.inner@[j].0@);
        } else {
            assert(self.inner@[j].0@ != self.inner@[i].0@);
        }
    }

    /// In a group where no name occurs twice, every child is found under its
    /// name.
    pub proof fn lemma_child_resolves(self, i: int)
        requires
            unique_names(self.inner@),
            0 <= i < self.inner@.len(),
        ensures
            self.child(self.inner@[i].0@) == Some(self.inner@[i].1),
            self.thing_at(seq![self.inner@[i].0@]) == self.inner@[i].1,
    {
        let name = self.inner@[i].0@;
        assert forall|k: int| 0 <= k < i implies (#[trigger] self.inner@[k]).0@ != name by {
            assert(self.inner@[k].0@ != self.inner@[i].0@);
        }
        lemma_index_of(self.inner@, name, i);
        let path = seq![name];
        assert(path[0] == name);
        match self.inner@[i].1 {
            GroupOrCommand::Group(g) => {
                assert(g.thing_at(path.skip(1)) == GroupOrCommand::Group(g));
            },
            GroupOrCommand::Command(_) => {},
        }
    }

    /// A group registered under the name of a command takes the command as
    /// its fallback: the name then leads to the group, and the path of that
    /// one name to the command.
    pub proof fn lemma_promotion(before: Self, after: Self, name: Seq<char>, group: Self)
        requires
            before.child(name) matches Some(GroupOrCommand::Command(c)) && Self::replaced(
                before,
                after,
                index_of(before.inner@, name)->0,
                GroupOrCommand::Group(Self::falling_back_to(group, c)),
            ),
        ensures
            before.child(name) matches Some(GroupOrCommand::Command(c)) && after.child(name)
                == Some(GroupOrCommand::Group(Self::falling_back_to(group, c)))
                && after.command_at(seq![name]) == Some(c),
    {
        lemma_index_of_found(before.inner@, name);
        let k = index_of(before.inner@, name)->0;
        assert forall|i: int| 0 <= i < before.inner@.len() implies (#[trigger] before.inner@[i]).0@
            == after.inner@[i].0@ by {}
        lemma_index_of_same_names(before.inner@, after.inner@, name);
        let path = seq![name];
        assert(path[0] == name);
        match before.inner@[k].1 {
            GroupOrCommand::Command(c) => {
                let promoted = Self::falling_back_to(group, c);
                assert(after.inner@[k].1 == GroupOrCommand::Group(promoted));
                assert(promoted.command_at(path.skip(1)) == Some(c));
            },
            GroupOrCommand::Group(_) => {},
        }
    }

    /// A name that holds a group takes no second group: whatever the
    /// incoming group is, it clashes, and `add_group` cannot be called, so
    /// the group that is there is neither replaced nor merged.
    pub proof fn lemma_group_under_a_group_clashes(self, name: Seq<char>, incoming: Self)
        requires
            self.child(name) matches Some(GroupOrCommand::Group(_)),
        ensures
            self.group_clash(name, incoming) == Some(Conflict::GroupExists),
            !self.accepts_group(name, incoming),
    {
    }

    /// A name that holds a command takes no second command, and a name that
    /// holds a group with a fallback takes no command.
    pub proof fn lemma_command_under_a_command_clashes(self, name: Seq<char>)
        ensures
            self.child(name) matches Some(GroupOrCommand::Command(_)) ==> self.command_clash(name)
                == Some(Conflict::CommandExists),
            self.child(name) matches Some(GroupOrCommand::Group(g)) && g.fallback is Some
                ==> self.command_clash(name) == Some(Conflict::FallbackExists),
            self.accepts_command(name) <==> !(self.child(name) matches Some(
                GroupOrCommand::Command(_),
            )) && !(self.child(name) matches Some(GroupOrCommand::Group(g)) && g.fallback is Some),
    {
    }

    /// A blank line resolves to the fallback of the group it is given to,
    /// with the line as it stands.
    pub proof fn lemma_blank_line_falls_back(self, input: Seq<char>)
        requires
            is_blank_line(input),
        ensures
            self.resolved(input) == self.fallen_back(input),
    {
    }

    /// A line whose first word names a command resolves to that command,
    /// with what follows the word.
    pub proof fn lemma_named_command_resolves(
        self,
        input: Seq<char>,
        word: Seq<char>,
        rest: Seq<char>,
        command: ErasedCommand<H>,
    )
        requires
            first_word(input) == Some((word, rest)),
            self.child(word) == Some(GroupOrCommand::Command(command)),
        ensures
            self.resolved(input) == Some((command, rest)),
    {
    }

    /// A line whose first word names a subgroup resolves as what follows the
    /// word resolves in the subgroup.
    pub proof fn lemma_named_group_resolves(
        self,
        input: Seq<char>,
        word: Seq<char>,
        rest: Seq<char>,
        group: Self,
    )
        requires
            first_word(input) == Some((word, rest)),
            self.child(word) == Some(GroupOrCommand::Group(group)),
        ensures
            self.resolved(input) == group.resolved(rest),
    {
    }
}

impl GroupMeta {
    /// The metadata of a tree is resolved as the tree is: what a path leads
    /// to in the metadata describes what it leads to in the tree.
    pub proof fn lemma_describes_along_paths<H>(self, group: Group<H>, path: Seq<Seq<char>>)
        requires
            self.describes(group),
        ensures
            self.thing_at(path).describes(group.thing_at(path)),
        decreases path.len(),
    {
        if path.len() > 0 {
            lemma_index_of_same_names(self.inner@, group.inner@, path[0]);
            lemma_index_of_found(group.inner@, path[0]);
            match index_of(group.inner@, path[0]) {
                Some(k) => {
                    assert(self.inner@[k].1.describes(group.inner@[k].1));
                    match (self.inner@[k].1, group.inner@[k].1) {
                        (GroupOrCommandMeta::Group(m), GroupOrCommand::Group(g)) => {
                            m.lemma_describes_along_paths(g, path.skip(1));
                        },
                        _ => {},
                    }
                },
                None => {},
            }
        }
    }
}

} // verus!
