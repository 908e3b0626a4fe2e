//! The replies of the three built-in commands: `commands`, which lists the
//! usage counts; `ping`, which looks a role up by its name; and `latency`,
//! which tells the latency of a shard. Each function here makes the text of
//! the reply; sending it is left to the caller.

use vstd::prelude::*;
use vstd::string::*;
use crate::debug_text::{debug_duration, debug_str, duration_debug, str_debug};
use crate::shard::{latency_of, ShardLatency, ShardStatus};
use crate::text::{decimal, decimal_text, same_text};
use crate::usage::{snapshot_view, Listing, UsageEntry};

verus! {

/// A role of a guild.
#[derive(Clone, Debug, PartialEq, Eq)]
pub struct Role {
    pub id: u64,
    pub name: String,
}

/// The line of the usage report for one command.
pub open spec fn usage_line(name: Seq<char>, count: nat) -> Seq<char> {
    "- "@ + name + ": "@ + decimal_text(count) + "\n"@
}

/// The lines of the usage report, one for each entry of `l` in its order.
pub open spec fn usage_lines(l: Listing) -> Seq<char>
    decreases l.len(),
{
    if l.len() == 0 {
        Seq::empty()
    } else {
        usage_lines(l.drop_last()) + usage_line(l.last().0, l.last().1)
    }
}

/// The usage report: a heading, then the lines.
pub open spec fn usage_text(l: Listing) -> Seq<char> {
    "Commands used:\n"@ + usage_lines(l)
}

/// The identity of the first role in `roles` that is called `name`.
pub open spec fn role_named(roles: Seq<Role>, name: Seq<char>) -> Option<u64>
    decreases roles.len(),
{
    if roles.len() == 0 {
        None
    } else if roles[0].name@ == name {
        Some(roles[0].id)
    } else {
        role_named(roles.drop_first(), name)
    }
}

/// The reply of `ping`: the identity of the role that was found, or else the
/// name that was asked for, as `quoted` shows it.
pub open spec fn ping_text(found: Option<u64>, quoted: Seq<char>) -> Seq<char> {
    match found {
        Some(id) => "Role-ID: "@ + decimal_text(id as nat),
        None => "Could not find role named: "@ + quoted,
    }
}

/// The role that `ping` finds: the first of that name in the guild, none
/// outside a guild.
pub open spec fn ping_found(role_name: Seq<char>, guild_roles: Option<&Vec<Role>>) -> Option<u64> {
    match guild_roles {
        Some(roles) => role_named(roles@, role_name),
        None => None,
    }
}

/// The reply of `latency`. `reading` is `None` where the shard manager could
/// not be had; `shown` is how a known latency is shown.
pub open spec fn latency_text(reading: Option<ShardLatency>, shown: Seq<char>) -> Seq<char> {
    match reading {
        None => "There was a problem getting the shard manager"@,
        Some(ShardLatency::NotFound) => "No shard found"@,
        Some(ShardLatency::Unknown) => "The shard latency is None"@,
        Some(ShardLatency::Known(_)) => "The shard latency is Some("@ + shown + ")"@,
    }
}

/// What `latency` reads: the latency of the shard as the manager has it,
/// nothing without a manager.
pub open spec fn latency_reading(shards: Option<&Vec<ShardStatus>>, shard_id: u64) -> Option<
    ShardLatency,
> {
    match shards {
        Some(shards) => Some(latency_of(shards@, shard_id)),
        None => None,
    }
}

/// How a reading is shown: a known latency the way `{:?}` prints the
/// duration, anything else not at all.
pub open spec fn latency_shown(reading: Option<ShardLatency>) -> Seq<char> {
    match reading {
        Some(ShardLatency::Known(l)) => duration_debug(l.seconds(), l.nanoseconds()),
        _ => Seq::empty(),
    }
}

/// The reply of the `commands` command: the usage counts of `entries`, one
/// to a line.
pub fn commands(entries: &Vec<UsageEntry>) -> (reply: String)
    ensures
        reply@ == usage_text(snapshot_view(entries@)),
{
    let ghost l = snapshot_view(entries@);
    let mut reply = String::from_str("Commands used:\n");
    let mut i: usize = 0;
    assert(l.take(0) =~= Listing::empty());
    while i < entries.len()
        invariant
            i <= entries.len(),
            l == snapshot_view(entries@),
            reply@ == usage_text(l.take(i as int)),
        decreases entries.len() - i,
    {
        let ghost before = reply@;
        reply.append("- ");
        reply.append(entries[i].name.as_str());
        reply.append(": ");
        reply.append(decimal(entries[i].count).as_str());
        reply.append("\n");
        proof {
            assert(l.take(i + 1).drop_last() =~= l.take(i as int));
            assert(l.take(i + 1).last() == l[i as int]);
            assert(reply@ =~= before + usage_line(l[i as int].0, l[i as int].1));
            assert(reply@ =~= usage_text(l.take(i + 1)));
        }
        i += 1;
    }
    assert(l.take(entries.len() as int) =~= l);
    reply
}

/// The identity of the first role in `roles` that is called `name`.
pub fn role_by_name(roles: &Vec<Role>, name: &str) -> (found: Option<u64>)
    ensures
        found == role_named(roles@, name@),
{
    let mut i: usize = 0;
    assert(roles@.skip(0) =~= roles@);
    while i < roles.len()
        invariant
            i <= roles.len(),
            role_named(roles@, name@) == role_named(roles@.skip(i as int), name@),
        decreases roles.len() - i,
    {
        if same_text(roles[i].name.as_str(), name) {
            return Some(roles[i].id);
        }
        assert(roles@.skip(i as int).drop_first() =~= roles@.skip(i + 1));
        i += 1;
    }
    None
}

/// The reply of `ping`, given the role that was found, if one was, and the
/// name that was asked for as it is to be shown.
pub fn ping_reply(found: Option<u64>, quoted: &str) -> (reply: String)
    ensures
        reply@ == ping_text(found, quoted@),
{
    match found {
        Some(id) => {
            let mut reply = String::from_str("Role-ID: ");
            reply.append(decimal(id).as_str());
            reply
        },
        None => {
            let mut reply = String::from_str("Could not find role named: ");
            reply.append(quoted);
            reply
        },
    }
}

/// The reply of the `ping` command to the argument `role_name`: the identity
/// of the role of that name in the guild, or that no such role was found,
/// with the name shown the way `{:?}` prints it. `guild_roles` is `None`
/// outside a guild.
pub fn ping(role_name: &str, guild_roles: Option<&Vec<Role>>) -> (reply: String)
    ensures
        reply@ == ping_text(ping_found(role_name@, guild_roles), str_debug(role_name@)),
{
    let found = match guild_roles {
        Some(roles) => role_by_name(roles, role_name),
        None => None,
    };
    match found {
        Some(_) => ping_reply(found, ""),
        None => {
            let quoted = debug_str(role_name);
            ping_reply(found, quoted.as_str())
        },
    }
}

/// The reply of `latency`, given what was read and how a known latency is
/// to be shown.
pub fn latency_reply(reading: Option<ShardLatency>, shown: &str) -> (reply: String)
    ensures
        reply@ == latency_text(reading, shown@),
{
    match reading {
        None => String::from_str("There was a problem getting the shard manager"),
        Some(ShardLatency::NotFound) => String::from_str("No shard found"),
        Some(ShardLatency::Unknown) => String::from_str("The shard latency is None"),
        Some(ShardLatency::Known(_)) => {
            let mut reply = String::from_str("The shard latency is Some(");
            reply.append(shown);
            reply.append(")");
            reply
        },
    }
}

/// The reply of the `latency` command for shard `shard_id`. `shards` is what
/// the shard manager knows, `None` where the manager could not be had.
pub fn latency(shards: Option<&Vec<ShardStatus>>, shard_id: u64) -> (reply: String)
    ensures
        reply@ == latency_text(
            latency_reading(shards, shard_id),
            latency_shown(latency_reading(shards, shard_id)),
        ),
{
    let reading = match shards {
        Some(shards) => Some(crate::shard::latency(shards, shard_id)),
        None => None,
    };
    match reading {
        Some(ShardLatency::Known(l)) => {
            let shown = debug_duration(l.secs(), l.subsec_nanos());
            latency_reply(reading, shown.as_str())
        },
        _ => latency_reply(reading, ""),
    }
}

} // verus!
