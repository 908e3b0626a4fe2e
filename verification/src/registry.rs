//! The command registry: which command a name or an alias stands for.
//!
//! A command answers to its name and to each of its aliases; together these
//! are its keys. Within a registry no key is held twice, so that a key always
//! resolves to one command. Lookup is by exact match.

use vstd::prelude::*;
use vstd::string::*;
use crate::text::same_text;

verus! {

/// How a help listing shows a command that the reader may not run. The
/// registry only stores the choice.
#[derive(Clone, Copy, Debug, PartialEq, Eq)]
pub enum HelpBehaviour {
    /// Leave the command out.
    Hide,
    /// List it like any other.
    Nothing,
    /// List it struck through.
    Strike,
}

/// A command as it is registered.
#[derive(Clone, Debug)]
pub struct Command {
    /// The primary name.
    pub name: String,
    /// Further names the command answers to.
    pub aliases: Vec<String>,
    /// The roles of which the invoker needs one; empty for no restriction.
    pub required_roles: Vec<String>,
    /// The rate-limit bucket the command draws on, if any.
    pub bucket: Option<String>,
}

/// A named set of commands with the options they share.
#[derive(Clone, Debug)]
pub struct CommandGroup {
    pub name: String,
    pub description: String,
    pub commands: Vec<Command>,
    /// Whether the commands may only be used inside a guild.
    pub guild_only: bool,
    /// How help shows these commands to someone who lacks the permissions.
    pub lacking_permissions: HelpBehaviour,
}

/// The identity of a registered command: its group's position in the
/// registry and its own position in the group.
#[derive(Clone, Copy, Debug, PartialEq, Eq, Structural)]
pub struct CommandRef {
    pub group: usize,
    pub command: usize,
}

/// A key was already taken when a group was registered.
#[derive(Clone, Debug, PartialEq, Eq)]
pub struct DuplicateCommandError {
    /// The first key of the rejected group that was found taken.
    pub name: String,
}

/// The registered groups, in the order of their registration.
pub struct Registry {
    groups: Vec<CommandGroup>,
}

impl Command {
    /// The keys of the command: its name, then its aliases in order.
    pub open spec fn keys(&self) -> Seq<Seq<char>> {
        seq![self.name@] + self.aliases@.map_values(|s: String| s@)
    }

    /// Whether the command answers to `key`.
    pub open spec fn answers_to(&self, key: Seq<char>) -> bool {
        self.keys().contains(key)
    }

    fn key_at(&self, j: usize) -> (k: &str)
        requires
            j <= self.aliases.len(),
        ensures
            k@ == self.keys()[j as int],
    {
        if j == 0 {
            self.name.as_str()
        } else {
            self.aliases[j - 1].as_str()
        }
    }

    /// Executable form of [`Command::answers_to`].
    pub fn answers(&self, key: &str) -> (r: bool)
        ensures
            r == self.answers_to(key@),
    {
        if same_text(self.name.as_str(), key) {
            assert(self.keys()[0] == key@);
            return true;
        }
        let mut i: usize = 0;
        while i < self.aliases.len()
            invariant
                i <= self.aliases.len(),
                self.name@ != key@,
                forall|j: int| 0 <= j < i ==> self.aliases[j]@ != key@,
            decreases self.aliases.len() - i,
        {
            if same_text(self.aliases[i].as_str(), key) {
                assert(self.keys()[i + 1] == key@);
                return true;
            }
            i += 1;
        }
        assert forall|j: int| 0 <= j < self.keys().len() implies self.keys()[j] != key@ by {
            if j > 0 {
                assert(self.keys()[j] == self.aliases[j - 1]@);
            }
        }
        false
    }
}

/// Whether `r` names a command of `groups`.
pub open spec fn valid_ref(groups: Seq<CommandGroup>, r: CommandRef) -> bool {
    r.group < groups.len() && r.command < groups[r.group as int].commands.len()
}

/// The command that `r` names.
pub open spec fn command_at(groups: Seq<CommandGroup>, r: CommandRef) -> Command {
    groups[r.group as int].commands[r.command as int]
}

/// Whether `r` names a command of `groups` that answers to `key`.
pub open spec fn owns(groups: Seq<CommandGroup>, r: CommandRef, key: Seq<char>) -> bool {
    valid_ref(groups, r) && command_at(groups, r).answers_to(key)
}

/// The command that answers to `key`, if there is one.
pub open spec fn owner(groups: Seq<CommandGroup>, key: Seq<char>) -> Option<CommandRef> {
    if exists|r: CommandRef| owns(groups, r, key) {
        Some(choose|r: CommandRef| owns(groups, r, key))
    } else {
        None
    }
}

/// No key is held twice: not by two commands, and not twice by one.
pub open spec fn keys_unique(groups: Seq<CommandGroup>) -> bool {
    &&& forall|r: CommandRef| #[trigger]
        valid_ref(groups, r) ==> command_at(groups, r).keys().no_duplicates()
    &&& forall|r1: CommandRef, r2: CommandRef, key: Seq<char>|
        #![trigger owns(groups, r1, key), owns(groups, r2, key)]
        owns(groups, r1, key) && owns(groups, r2, key) ==> r1 == r2
}

/// Whether `(c, j)` is the place of a key in `group`: key `j` of command `c`.
pub open spec fn slot(group: CommandGroup, c: int, j: int) -> bool {
    0 <= c < group.commands.len() && 0 <= j < group.commands[c].keys().len()
}

/// Whether the key at slot `(c, j)` of `group` is taken: by a command of
/// `groups`, by an earlier command of `group`, or by an earlier key of its
/// own command.
pub open spec fn taken(groups: Seq<CommandGroup>, group: CommandGroup, c: int, j: int) -> bool {
    let key = group.commands[c].keys()[j];
    ||| owner(groups, key) is Some
    ||| exists|c2: int| 0 <= c2 < c && (#[trigger] group.commands[c2]).answers_to(key)
    ||| exists|j2: int| 0 <= j2 < j && #[trigger] group.commands[c].keys()[j2] == key
}

/// Whether slot `(c2, j2)` comes before slot `(c, j)` when a group is read
/// command by command, each with its name first.
pub open spec fn earlier(c2: int, j2: int, c: int, j: int) -> bool {
    c2 < c || (c2 == c && j2 < j)
}

/// Whether `(c, j)` is the first slot of `group` whose key is taken.
pub open spec fn first_taken(groups: Seq<CommandGroup>, group: CommandGroup, c: int, j: int) -> bool {
    &&& slot(group, c, j)
    &&& taken(groups, group, c, j)
    &&& forall|c2: int, j2: int|
        slot(group, c2, j2) && earlier(c2, j2, c, j) ==> !#[trigger] taken(groups, group, c2, j2)
}

/// Whether `group` can join `groups`: none of its keys is taken.
pub open spec fn registrable(groups: Seq<CommandGroup>, group: CommandGroup) -> bool {
    forall|c: int, j: int| slot(group, c, j) ==> !#[trigger] taken(groups, group, c, j)
}

/// A command answers to a key exactly if the key stands at one of its slots.
proof fn lemma_answers_slot(cmd: Command, key: Seq<char>) -> (j: int)
    requires
        cmd.answers_to(key),
    ensures
        0 <= j < cmd.keys().len(),
        cmd.keys()[j] == key,
{
    choose|j: int| 0 <= j < cmd.keys().len() && cmd.keys()[j] == key
}

/// Where every key has one owner, the owner of a key is whoever answers to it.
pub proof fn lemma_owner(groups: Seq<CommandGroup>, r: CommandRef, key: Seq<char>)
    requires
        keys_unique(groups),
        owns(groups, r, key),
    ensures
        owner(groups, key) == Some(r),
{
    let chosen = choose|r: CommandRef| owns(groups, r, key);
    assert(owns(groups, chosen, key));
}

/// Resolving by an alias gives the same command as resolving by the primary
/// name: the command itself.
pub proof fn lemma_alias_resolves_like_name(groups: Seq<CommandGroup>, r: CommandRef, a: int)
    requires
        keys_unique(groups),
        valid_ref(groups, r),
        0 <= a < command_at(groups, r).aliases.len(),
    ensures
        owner(groups, command_at(groups, r).aliases[a]@) == Some(r),
        owner(groups, command_at(groups, r).name@) == Some(r),
        owner(groups, command_at(groups, r).aliases[a]@) == owner(
            groups,
            command_at(groups, r).name@,
        ),
{
    let cmd = command_at(groups, r);
    assert(cmd.keys()[0] == cmd.name@);
    assert(cmd.keys()[a + 1] == cmd.aliases[a]@);
    lemma_owner(groups, r, cmd.name@);
    lemma_owner(groups, r, cmd.aliases[a]@);
}

/// A group that shares a key with a registered command cannot join.
pub proof fn lemma_shared_key_rejected(
    groups: Seq<CommandGroup>,
    group: CommandGroup,
    r: CommandRef,
    c: int,
    key: Seq<char>,
)
    requires
        owns(groups, r, key),
        0 <= c < group.commands.len(),
        group.commands[c].answers_to(key),
    ensures
        !registrable(groups, group),
{
    let j = lemma_answers_slot(group.commands[c], key);
    assert(slot(group, c, j));
    assert(taken(groups, group, c, j));
}

/// A group in which two commands share a key cannot join.
pub proof fn lemma_inner_clash_rejected(
    groups: Seq<CommandGroup>,
    group: CommandGroup,
    c1: int,
    c2: int,
    key: Seq<char>,
)
    requires
        0 <= c1 < c2 < group.commands.len(),
        group.commands[c1].answers_to(key),
        group.commands[c2].answers_to(key),
    ensures
        !registrable(groups, group),
{
    let j = lemma_answers_slot(group.commands[c2], key);
    assert(slot(group, c2, j));
    assert(taken(groups, group, c2, j));
}

/// A group none of whose keys is taken keeps the keys unique when it joins.
proof fn lemma_join_keeps_unique(groups: Seq<CommandGroup>, group: CommandGroup)
    requires
        keys_unique(groups),
        registrable(groups, group),
    ensures
        keys_unique(groups.push(group)),
{
    let joined = groups.push(group);
    let n = groups.len() as int;
    assert forall|r: CommandRef| #[trigger] valid_ref(joined, r) implies command_at(
        joined,
        r,
    ).keys().no_duplicates() by {
        if r.group < n {
            assert(valid_ref(groups, r));
        } else {
            let c = r.command as int;
            let keys = group.commands[c].keys();
            assert forall|i: int, j: int| 0 <= i < keys.len() && 0 <= j < keys.len() && i != j implies keys[i]
                != keys[j] by {
                if i < j {
                    assert(slot(group, c, j));
                    assert(!taken(groups, group, c, j));
                } else {
                    assert(slot(group, c, i));
                    assert(!taken(groups, group, c, i));
                }
            }
        }
    }
    assert forall|r1: CommandRef, r2: CommandRef, key: Seq<char>|
        #![trigger owns(joined, r1, key), owns(joined, r2, key)]
        owns(joined, r1, key) && owns(joined, r2, key) implies r1 == r2 by {
        if r1.group < n && r2.group < n {
            assert(owns(groups, r1, key) && owns(groups, r2, key));
        } else if r1.group < n {
            assert(owns(groups, r1, key));
            lemma_shared_key_rejected(groups, group, r1, r2.command as int, key);
        } else if r2.group < n {
            assert(owns(groups, r2, key));
            lemma_shared_key_rejected(groups, group, r2, r1.command as int, key);
        } else if r1.command < r2.command {
            lemma_inner_clash_rejected(groups, group, r1.command as int, r2.command as int, key);
        } else if r2.command < r1.command {
            lemma_inner_clash_rejected(groups, group, r2.command as int, r1.command as int, key);
        }
    }
}

impl Registry {
    /// Every key has one owner.
    #[verifier::type_invariant]
    pub closed spec fn wf(&self) -> bool {
        keys_unique(self.groups@)
    }

    /// The registered groups, in the order of their registration.
    pub closed spec fn groups(&self) -> Seq<CommandGroup> {
        self.groups@
    }

    /// In a well-formed registry every key has one owner.
    pub proof fn lemma_wf(&self)
        requires
            self.wf(),
        ensures
            keys_unique(self.groups()),
    {
    }

    /// A registry without commands.
    pub fn new() -> (r: Self)
        ensures
            r.wf(),
            r.groups() == Seq::<CommandGroup>::empty(),
    {
        Registry { groups: Vec::new() }
    }

    /// The command that answers to `name`, by exact match.
    pub fn resolve(&self, name: &str) -> (r: Option<CommandRef>)
        ensures
            r == owner(self.groups(), name@),
            r matches Some(found) ==> owns(self.groups(), found, name@),
    {
        proof {
            use_type_invariant(self);
        }
        let mut g: usize = 0;
        while g < self.groups.len()
            invariant
                g <= self.groups.len(),
                keys_unique(self.groups@),
                forall|r: CommandRef| r.group < g ==> !owns(self.groups@, r, name@),
            decreases self.groups.len() - g,
        {
            let group = &self.groups[g];
            let mut c: usize = 0;
            while c < group.commands.len()
                invariant
                    g < self.groups.len(),
                    keys_unique(self.groups@),
                    group == &self.groups[g as int],
                    c <= group.commands.len(),
                    forall|r: CommandRef| r.group < g ==> !owns(self.groups@, r, name@),
                    forall|r: CommandRef|
                        r.group == g && r.command < c ==> !owns(self.groups@, r, name@),
                decreases group.commands.len() - c,
            {
                if group.commands[c].answers(name) {
                    let found = CommandRef { group: g, command: c };
                    proof {
                        lemma_owner(self.groups@, found, name@);
                    }
                    return Some(found);
                }
                c += 1;
            }
            g += 1;
        }
        None
    }

    /// The command that `r` names, if it names one.
    pub fn command(&self, r: CommandRef) -> (c: Option<&Command>)
        ensures
            c is Some <==> valid_ref(self.groups(), r),
            c matches Some(cmd) ==> *cmd == command_at(self.groups(), r),
    {
        if r.group < self.groups.len() && r.command < self.groups[r.group].commands.len() {
            Some(&self.groups[r.group].commands[r.command])
        } else {
            None
        }
    }

    /// The group of the command that `r` names, if it names one.
    pub fn group_of(&self, r: CommandRef) -> (g: Option<&CommandGroup>)
        ensures
            g is Some <==> valid_ref(self.groups(), r),
            g matches Some(group) ==> *group == self.groups()[r.group as int],
    {
        if r.group < self.groups.len() && r.command < self.groups[r.group].commands.len() {
            Some(&self.groups[r.group])
        } else {
            None
        }
    }

    /// All groups, for a help listing.
    pub fn all_groups(&self) -> (v: &Vec<CommandGroup>)
        ensures
            v@ == self.groups(),
    {
        &self.groups
    }

    fn key_taken(&self, group: &CommandGroup, c: usize, j: usize) -> (b: bool)
        requires
            slot(*group, c as int, j as int),
        ensures
            b == taken(self.groups(), *group, c as int, j as int),
    {
        let cmd = &group.commands[c];
        let key = cmd.key_at(j);
        if self.resolve(key).is_some() {
            return true;
        }
        let mut c2: usize = 0;
        while c2 < c
            invariant
                c2 <= c < group.commands.len(),
                key@ == group.commands[c as int].keys()[j as int],
                owner(self.groups(), key@) is None,
                forall|i: int| 0 <= i < c2 ==> !(#[trigger] group.commands[i]).answers_to(key@),
            decreases c - c2,
        {
            if group.commands[c2].answers(key) {
                return true;
            }
            c2 += 1;
        }
        let mut j2: usize = 0;
        while j2 < j
            invariant
                j2 <= j,
                cmd == &group.commands[c as int],
                slot(*group, c as int, j as int),
                key@ == group.commands[c as int].keys()[j as int],
                owner(self.groups(), key@) is None,
                forall|i: int| 0 <= i < c ==> !(#[trigger] group.commands[i]).answers_to(key@),
                forall|i: int| 0 <= i < j2 ==> #[trigger] cmd.keys()[i] != key@,
            decreases j - j2,
        {
            if same_text(cmd.key_at(j2), key) {
                return true;
            }
            j2 += 1;
        }
        false
    }

    /// Adds `group`, unless one of its keys is taken. Then the registry stays
    /// as it was, and the error names the first such key, reading the group
    /// command by command, each with its name first.
    pub fn register(&mut self, group: CommandGroup) -> (r: Result<(), DuplicateCommandError>)
        ensures
            final(self).wf(),
            r is Ok <==> registrable(old(self).groups(), group),
            r is Ok ==> final(self).groups() == old(self).groups().push(group),
            r is Err ==> final(self).groups() == old(self).groups(),
            r matches Err(e) ==> exists|c: int, j: int|
                first_taken(old(self).groups(), group, c, j) && e.name@ == group.commands[c].keys()[j],
    {
        proof {
            use_type_invariant(&*self);
        }
        let mut c: usize = 0;
        while c < group.commands.len()
            invariant
                c <= group.commands.len(),
                *self == *old(self),
                self.wf(),
                forall|c2: int, j2: int|
                    slot(group, c2, j2) && c2 < c ==> !#[trigger] taken(self.groups@, group, c2, j2),
            decreases group.commands.len() - c,
        {
            let n = group.commands[c].aliases.len();
            let mut j: usize = 0;
            if self.key_taken(&group, c, j) {
                let name = String::from_str(group.commands[c].key_at(j));
                assert(first_taken(self.groups@, group, c as int, j as int));
                return Err(DuplicateCommandError { name });
            }
            while j < n
                invariant
                    c < group.commands.len(),
                    n == group.commands[c as int].aliases.len(),
                    j <= n,
                    *self == *old(self),
                    self.wf(),
                    forall|c2: int, j2: int|
                        slot(group, c2, j2) && c2 < c ==> !#[trigger] taken(
                            self.groups@,
                            group,
                            c2,
                            j2,
                        ),
                    forall|j2: int| 0 <= j2 <= j ==> !#[trigger] taken(self.groups@, group, c as int, j2),
                decreases n - j,
            {
                j += 1;
                if self.key_taken(&group, c, j) {
                    let name = String::from_str(group.commands[c].key_at(j));
                    assert(first_taken(self.groups@, group, c as int, j as int));
                    return Err(DuplicateCommandError { name });
                }
            }
            c += 1;
        }
        proof {
            lemma_join_keeps_unique(self.groups@, group);
        }
        let mut groups: Vec<CommandGroup> = Vec::new();
        std::mem::swap(&mut self.groups, &mut groups);
        groups.push(group);
        std::mem::swap(&mut self.groups, &mut groups);
        Ok(())
    }
}

} // verus!
