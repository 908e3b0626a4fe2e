//! The dispatcher: from an inbound message to the command that runs.
//!
//! A dispatch moves through a fixed run of states. It is received and read
//! as a command; the command is looked up and the attempt is counted; the
//! permissions of the invoker are checked, then the bucket of the command;
//! the before-hook is asked, the handler runs, and the after-hook hears of
//! the outcome. Each step that needs something from outside (the roles of
//! the invoker, the time, the hooks, the handler) is a function here that
//! takes what came back and gives the next state; the program around the
//! library does the asking.
//!
//! An attempt is counted as soon as the command is known, under its primary
//! name, whatever becomes of it afterwards.

use vstd::prelude::*;
use vstd::string::*;
use crate::parse::{parse, parsed, Configuration};
use crate::ratelimit::{
    store_recorded,
    store_verdict,
    BucketPolicy,
    BucketStore,
    BucketView,
    ScopeKey,
    Verdict,
};
use crate::registry::{
    command_at,
    owner,
    valid_ref,
    CommandGroup,
    CommandRef,
    DuplicateCommandError,
    Registry,
};
use crate::text::{decimal, decimal_text, same_text};
use crate::usage::{counted, UsageCounter, UsageEntry};

verus! {

/// An inbound message.
#[derive(Clone, Debug)]
pub struct MessageEvent {
    pub author_id: u64,
    pub channel_id: u64,
    /// The guild in which the message was sent; `None` outside a guild.
    pub guild_id: Option<u64>,
    pub text: String,
}

/// What the gateway hands in.
#[derive(Clone, Debug)]
pub enum GatewayEvent {
    /// The connection is up, and the bot knows who it is.
    Ready { bot_id: u64 },
    /// A message came in.
    MessageReceived(MessageEvent),
}

/// What one dispatch knows of its invocation.
#[derive(Clone, Debug, PartialEq, Eq)]
pub struct DispatchContext {
    pub user_id: u64,
    pub channel_id: u64,
    pub guild_id: Option<u64>,
    /// The message as it came in.
    pub text: String,
    /// The name under which the command was called.
    pub command_name: String,
    /// The argument string.
    pub args: String,
    /// The command that the name stands for.
    pub command: CommandRef,
}

/// Why a dispatch did not run its command to the end.
#[derive(Clone, Debug, PartialEq, Eq)]
pub enum DispatchError {
    /// The message is no command.
    NotACommand,
    /// No command answers to the name.
    UnrecognisedCommand(String),
    /// The invoker holds none of the roles that the command asks for.
    LackingPermissions,
    /// The command is for guilds only and was called outside one.
    WrongChannel,
    /// The bucket of the command denied; the number is the seconds to wait.
    Ratelimited(u64),
    /// The handler of the command failed.
    HandlerError(String),
    /// A reply could not be sent.
    SendError,
}

/// Where a dispatch stands.
#[derive(Clone, Debug, PartialEq, Eq)]
pub enum DispatchState {
    /// A message is awaited.
    Received,
    /// The command is known and the attempt counted.
    Parsed(DispatchContext),
    /// The invoker may use the command.
    PermissionChecked(DispatchContext),
    /// The bucket has let the invocation pass.
    BucketChecked(DispatchContext),
    /// The before-hook has agreed; the handler runs.
    Executing(DispatchContext),
    /// The handler has returned without error.
    Completed(DispatchContext),
    /// The before-hook has refused; the handler was not run.
    Vetoed(DispatchContext),
    /// The dispatch has failed.
    Errored(DispatchError),
}

/// What the program around the library is to do for a dispatch.
#[derive(Clone, Debug, PartialEq, Eq)]
pub enum Action {
    /// Nothing.
    Await,
    /// Hand the message to the callback for ordinary messages.
    NormalMessage,
    /// Read the roles of the invoker and hand them to `check_permissions`.
    FetchRoles,
    /// Read the clock and hand the time to `check_bucket`.
    ReadClock,
    /// Ask the before-hook and hand its answer to `before_hook_returned`.
    AskBeforeHook,
    /// Run the handler of this command and hand its result to
    /// `handler_returned`.
    RunHandler(CommandRef),
    /// Tell the after-hook of the outcome: `None` for success, else what the
    /// handler reported.
    TellAfterHook(Option<String>),
    /// Tell the error observer of the error.
    Report,
    /// Tell the error observer of the error, and send this reply.
    Reply(String),
}

/// The model of a [`DispatchContext`].
pub struct ContextView {
    pub user_id: u64,
    pub channel_id: u64,
    pub guild_id: Option<u64>,
    pub text: Seq<char>,
    pub command_name: Seq<char>,
    pub args: Seq<char>,
    pub command: CommandRef,
}

/// The model of a [`DispatchError`].
pub enum ErrorView {
    NotACommand,
    UnrecognisedCommand(Seq<char>),
    LackingPermissions,
    WrongChannel,
    Ratelimited(u64),
    HandlerError(Seq<char>),
    SendError,
}

/// The model of a [`DispatchState`].
pub enum StateView {
    Received,
    Parsed(ContextView),
    PermissionChecked(ContextView),
    BucketChecked(ContextView),
    Executing(ContextView),
    Completed(ContextView),
    Vetoed(ContextView),
    Errored(ErrorView),
}

/// The model of an [`Action`].
pub enum ActionView {
    Await,
    NormalMessage,
    FetchRoles,
    ReadClock,
    AskBeforeHook,
    RunHandler(CommandRef),
    TellAfterHook(Option<Seq<char>>),
    Report,
    Reply(Seq<char>),
}

impl View for DispatchContext {
    type V = ContextView;

    open spec fn view(&self) -> ContextView {
        ContextView {
            user_id: self.user_id,
            channel_id: self.channel_id,
            guild_id: self.guild_id,
            text: self.text@,
            command_name: self.command_name@,
            args: self.args@,
            command: self.command,
        }
    }
}

impl View for DispatchError {
    type V = ErrorView;

    open spec fn view(&self) -> ErrorView {
        match self {
            DispatchError::NotACommand => ErrorView::NotACommand,
            DispatchError::UnrecognisedCommand(name) => ErrorView::UnrecognisedCommand(name@),
            DispatchError::LackingPermissions => ErrorView::LackingPermissions,
            DispatchError::WrongChannel => ErrorView::WrongChannel,
            DispatchError::Ratelimited(n) => ErrorView::Ratelimited(*n),
            DispatchError::HandlerError(details) => ErrorView::HandlerError(details@),
            DispatchError::SendError => ErrorView::SendError,
        }
    }
}

impl View for DispatchState {
    type V = StateView;

    open spec fn view(&self) -> StateView {
        match self {
            DispatchState::Received => StateView::Received,
            DispatchState::Parsed(c) => StateView::Parsed(c@),
            DispatchState::PermissionChecked(c) => StateView::PermissionChecked(c@),
            DispatchState::BucketChecked(c) => StateView::BucketChecked(c@),
            DispatchState::Executing(c) => StateView::Executing(c@),
            DispatchState::Completed(c) => StateView::Completed(c@),
            DispatchState::Vetoed(c) => StateView::Vetoed(c@),
            DispatchState::Errored(e) => StateView::Errored(e@),
        }
    }
}

impl View for Action {
    type V = ActionView;

    open spec fn view(&self) -> ActionView {
        match self {
            Action::Await => ActionView::Await,
            Action::NormalMessage => ActionView::NormalMessage,
            Action::FetchRoles => ActionView::FetchRoles,
            Action::ReadClock => ActionView::ReadClock,
            Action::AskBeforeHook => ActionView::AskBeforeHook,
            Action::RunHandler(r) => ActionView::RunHandler(*r),
            Action::TellAfterHook(Some(details)) => ActionView::TellAfterHook(Some(details@)),
            Action::TellAfterHook(None) => ActionView::TellAfterHook(None),
            Action::Report => ActionView::Report,
            Action::Reply(text) => ActionView::Reply(text@),
        }
    }
}

/// The texts of a list of role names.
pub open spec fn role_texts(roles: Seq<String>) -> Seq<Seq<char>> {
    roles.map_values(|s: String| s@)
}

/// Whether two lists have an item in common.
pub open spec fn intersects(a: Seq<Seq<char>>, b: Seq<Seq<char>>) -> bool {
    exists|i: int, j: int| 0 <= i < a.len() && 0 <= j < b.len() && a[i] == b[j]
}

/// The state after a message was received: the message is read, and the
/// command looked up.
pub open spec fn received(
    config: Configuration,
    bot: Option<u64>,
    groups: Seq<CommandGroup>,
    event: MessageEvent,
) -> StateView {
    match parsed(config, bot, event.text@) {
        None => StateView::Errored(ErrorView::NotACommand),
        Some(inv) => match owner(groups, inv.name) {
            None => StateView::Errored(ErrorView::UnrecognisedCommand(inv.name)),
            Some(r) => StateView::Parsed(
                ContextView {
                    user_id: event.author_id,
                    channel_id: event.channel_id,
                    guild_id: event.guild_id,
                    text: event.text@,
                    command_name: inv.name,
                    args: inv.args,
                    command: r,
                },
            ),
        },
    }
}

/// The counts after a message was received: where a command was found, one
/// more attempt under its primary name.
pub open spec fn counted_attempt(
    groups: Seq<CommandGroup>,
    state: StateView,
    counts: Map<Seq<char>, nat>,
) -> Map<Seq<char>, nat> {
    match state {
        StateView::Parsed(ctx) => counted(counts, command_at(groups, ctx.command).name@),
        _ => counts,
    }
}

/// The state after the permissions were checked against the roles that the
/// invoker holds. A command for guilds only fails outside a guild, whatever
/// the roles; then a command that asks for roles fails where the invoker
/// holds none of them.
pub open spec fn permitted(groups: Seq<CommandGroup>, state: StateView, held: Seq<Seq<char>>) -> StateView {
    match state {
        StateView::Parsed(ctx) => if !valid_ref(groups, ctx.command) {
            StateView::Errored(ErrorView::UnrecognisedCommand(ctx.command_name))
        } else if groups[ctx.command.group as int].guild_only && ctx.guild_id is None {
            StateView::Errored(ErrorView::WrongChannel)
        } else if command_at(groups, ctx.command).required_roles.len() > 0 && !intersects(
            role_texts(command_at(groups, ctx.command).required_roles@),
            held,
        ) {
            StateView::Errored(ErrorView::LackingPermissions)
        } else {
            StateView::PermissionChecked(ctx)
        },
        _ => state,
    }
}

/// The scope key under which the buckets count a dispatch: the invoker in
/// the channel.
pub open spec fn scope_of(ctx: ContextView) -> ScopeKey {
    ScopeKey { user_id: ctx.user_id, channel_id: ctx.channel_id }
}

/// The bucket that a dispatch in `state` draws on at its bucket check.
pub open spec fn bucket_drawn(groups: Seq<CommandGroup>, state: StateView) -> Option<Seq<char>> {
    match state {
        StateView::PermissionChecked(ctx) => if valid_ref(groups, ctx.command) {
            match command_at(groups, ctx.command).bucket {
                Some(name) => Some(name@),
                None => None,
            }
        } else {
            None
        },
        _ => None,
    }
}

/// The state after the bucket check at clock reading `now`.
pub open spec fn bucket_checked(
    groups: Seq<CommandGroup>,
    store: Map<Seq<char>, BucketView>,
    state: StateView,
    now: u64,
) -> StateView {
    match state {
        StateView::PermissionChecked(ctx) => match bucket_drawn(groups, state) {
            Some(name) => match store_verdict(store, name, scope_of(ctx), now) {
                Verdict::Allowed => StateView::BucketChecked(ctx),
                Verdict::RateLimited(n) => StateView::Errored(ErrorView::Ratelimited(n)),
            },
            None => StateView::BucketChecked(ctx),
        },
        _ => state,
    }
}

/// The buckets after the bucket check at clock reading `now`.
pub open spec fn buckets_after(
    groups: Seq<CommandGroup>,
    store: Map<Seq<char>, BucketView>,
    state: StateView,
    now: u64,
) -> Map<Seq<char>, BucketView> {
    match state {
        StateView::PermissionChecked(ctx) => match bucket_drawn(groups, state) {
            Some(name) => store_recorded(store, name, scope_of(ctx), now),
            None => store,
        },
        _ => store,
    }
}

/// The state after the before-hook has answered.
pub open spec fn hooked(state: StateView, proceed: bool) -> StateView {
    match state {
        StateView::BucketChecked(ctx) => if proceed {
            StateView::Executing(ctx)
        } else {
            StateView::Vetoed(ctx)
        },
        _ => state,
    }
}

/// The state after the handler has returned; `failure` is what it reported
/// if it failed.
pub open spec fn handled(state: StateView, failure: Option<Seq<char>>) -> StateView {
    match state {
        StateView::Executing(ctx) => match failure {
            None => StateView::Completed(ctx),
            Some(details) => StateView::Errored(ErrorView::HandlerError(details)),
        },
        _ => state,
    }
}

/// The reply to an invoker who has to wait `seconds`.
pub open spec fn rate_limit_text(seconds: u64) -> Seq<char> {
    "Try this again in "@ + decimal_text(seconds as nat) + " seconds."@
}

/// What is to be done for a dispatch in `state`.
pub open spec fn action_for(state: StateView) -> ActionView {
    match state {
        StateView::Received => ActionView::Await,
        StateView::Parsed(_) => ActionView::FetchRoles,
        StateView::PermissionChecked(_) => ActionView::ReadClock,
        StateView::BucketChecked(_) => ActionView::AskBeforeHook,
        StateView::Executing(ctx) => ActionView::RunHandler(ctx.command),
        StateView::Completed(_) => ActionView::TellAfterHook(None),
        StateView::Vetoed(_) => ActionView::Await,
        StateView::Errored(ErrorView::NotACommand) => ActionView::NormalMessage,
        StateView::Errored(ErrorView::Ratelimited(n)) => ActionView::Reply(rate_limit_text(n)),
        StateView::Errored(ErrorView::HandlerError(details)) => ActionView::TellAfterHook(
            Some(details),
        ),
        StateView::Errored(_) => ActionView::Report,
    }
}

/// Whether a dispatch in `state` has come to its end.
pub open spec fn is_final(state: StateView) -> bool {
    state is Completed || state is Vetoed || state is Errored
}

/// The state of a whole dispatch up to the bucket check.
pub open spec fn dispatched(
    config: Configuration,
    bot: Option<u64>,
    groups: Seq<CommandGroup>,
    store: Map<Seq<char>, BucketView>,
    event: MessageEvent,
    held: Seq<Seq<char>>,
    now: u64,
) -> StateView {
    bucket_checked(groups, store, permitted(groups, received(config, bot, groups, event), held), now)
}

/// The state after the reply to a denied invocation was sent, or was not.
/// A reply that could not be sent is an error of its own, and is not tried
/// again.
pub open spec fn replied(state: StateView, delivered: bool) -> StateView {
    match state {
        StateView::Errored(ErrorView::Ratelimited(_)) => if delivered {
            state
        } else {
            StateView::Errored(ErrorView::SendError)
        },
        _ => state,
    }
}

/// After a reply that could not be sent no further reply is asked for.
pub proof fn lemma_no_resend(state: StateView)
    ensures
        !(action_for(replied(state, false)) is Reply),
{
}

/// A dispatch that has come to its end stays where it is, whatever comes in,
/// and asks for no handler to be run.
pub proof fn lemma_final_states_stay(
    groups: Seq<CommandGroup>,
    store: Map<Seq<char>, BucketView>,
    state: StateView,
    held: Seq<Seq<char>>,
    now: u64,
    proceed: bool,
    failure: Option<Seq<char>>,
)
    requires
        is_final(state),
    ensures
        permitted(groups, state, held) == state,
        bucket_checked(groups, store, state, now) == state,
        buckets_after(groups, store, state, now) == store,
        hooked(state, proceed) == state,
        handled(state, failure) == state,
        !(action_for(state) is RunHandler),
        !(action_for(state) is AskBeforeHook),
{
}

/// The handler is asked for in one state only: when the before-hook has
/// agreed. That state is reached only from a passed bucket check.
pub proof fn lemma_handler_runs_after_checks(state: StateView, proceed: bool)
    ensures
        action_for(state) is RunHandler <==> state is Executing,
        hooked(state, proceed) is Executing ==> (state is BucketChecked && proceed) || state is Executing,
{
}

/// A message that begins neither with a mention of the bot that counts nor
/// with a prefix is no command: the dispatch ends in `NotACommand`, nothing
/// is counted and no bucket is touched.
pub proof fn lemma_ordinary_message(
    config: Configuration,
    bot: Option<u64>,
    groups: Seq<CommandGroup>,
    store: Map<Seq<char>, BucketView>,
    counts: Map<Seq<char>, nat>,
    event: MessageEvent,
    held: Seq<Seq<char>>,
    now: u64,
)
    requires
        crate::parse::mention_len(config.on_mention, bot, event.text@) is None,
        forall|i: int|
            0 <= i < config.prefixes.len() ==> !crate::text::starts_with(
                event.text@,
                (#[trigger] config.prefixes[i])@,
            ),
    ensures
        received(config, bot, groups, event) == StateView::Errored(ErrorView::NotACommand),
        dispatched(config, bot, groups, store, event, held, now) == StateView::Errored(
            ErrorView::NotACommand,
        ),
        action_for(dispatched(config, bot, groups, store, event, held, now)) is NormalMessage,
        counted_attempt(groups, received(config, bot, groups, event), counts) == counts,
        buckets_after(
            groups,
            store,
            permitted(groups, received(config, bot, groups, event), held),
            now,
        ) == store,
{
    crate::parse::lemma_not_a_command(config, bot, event.text@);
}

/// A command for guilds only that is called outside a guild ends in
/// `WrongChannel`: it is neither checked against a bucket nor handed to the
/// before-hook or the handler. The attempt has been counted all the same.
pub proof fn lemma_guild_only_outside_guild(
    config: Configuration,
    bot: Option<u64>,
    groups: Seq<CommandGroup>,
    store: Map<Seq<char>, BucketView>,
    counts: Map<Seq<char>, nat>,
    event: MessageEvent,
    held: Seq<Seq<char>>,
    now: u64,
    command: CommandRef,
)
    requires
        parsed(config, bot, event.text@) matches Some(inv) && owner(groups, inv.name) == Some(
            command,
        ),
        groups[command.group as int].guild_only,
        event.guild_id is None,
    ensures
        dispatched(config, bot, groups, store, event, held, now) == StateView::Errored(
            ErrorView::WrongChannel,
        ),
        action_for(dispatched(config, bot, groups, store, event, held, now)) is Report,
        buckets_after(
            groups,
            store,
            permitted(groups, received(config, bot, groups, event), held),
            now,
        ) == store,
        counted_attempt(groups, received(config, bot, groups, event), counts) == counted(
            counts,
            command_at(groups, command).name@,
        ),
{
    let inv = parsed(config, bot, event.text@)->0;
    assert(crate::registry::owns(groups, command, inv.name));
}

/// The dispatcher: the configuration, the registry, the buckets and the usage
/// counter that the dispatches of one bot share.
pub struct Dispatcher {
    pub config: Configuration,
    /// The identity of the bot, once the gateway has told it.
    pub bot_id: Option<u64>,
    pub registry: Registry,
    pub buckets: BucketStore,
    pub usage: UsageCounter,
}

fn shares(a: &Vec<String>, b: &Vec<String>) -> (r: bool)
    ensures
        r == intersects(role_texts(a@), role_texts(b@)),
{
    let mut i: usize = 0;
    while i < a.len()
        invariant
            i <= a.len(),
            forall|x: int, y: int| 0 <= x < i && 0 <= y < b.len() ==> a[x]@ != b[y]@,
        decreases a.len() - i,
    {
        let mut j: usize = 0;
        while j < b.len()
            invariant
                i < a.len(),
                j <= b.len(),
                forall|x: int, y: int| 0 <= x < i && 0 <= y < b.len() ==> a[x]@ != b[y]@,
                forall|y: int| 0 <= y < j ==> a[i as int]@ != b[y]@,
            decreases b.len() - j,
        {
            if same_text(a[i].as_str(), b[j].as_str()) {
                assert(role_texts(a@)[i as int] == role_texts(b@)[j as int]);
                return true;
            }
            j += 1;
        }
        i += 1;
    }
    assert forall|x: int, y: int|
        0 <= x < role_texts(a@).len() && 0 <= y < role_texts(b@).len() implies role_texts(a@)[x]
        != role_texts(b@)[y] by {
        assert(a[x]@ != b[y]@);
    }
    false
}

/// The reply to an invoker who has to wait `seconds`.
pub fn rate_limit_reply(seconds: u64) -> (text: String)
    ensures
        text@ == rate_limit_text(seconds),
{
    let mut text = String::from_str("Try this again in ");
    text.append(decimal(seconds).as_str());
    text.append(" seconds.");
    text
}

/// The state after the before-hook has answered: the handler is to run only
/// if the hook agreed.
pub fn before_hook_returned(state: DispatchState, proceed: bool) -> (next: DispatchState)
    ensures
        next@ == hooked(state@, proceed),
{
    match state {
        DispatchState::BucketChecked(ctx) => if proceed {
            DispatchState::Executing(ctx)
        } else {
            DispatchState::Vetoed(ctx)
        },
        other => other,
    }
}

/// The state after the handler has returned.
pub fn handler_returned(state: DispatchState, result: Result<(), String>) -> (next: DispatchState)
    ensures
        next@ == handled(
            state@,
            match result {
                Ok(_) => None,
                Err(details) => Some(details@),
            },
        ),
{
    match state {
        DispatchState::Executing(ctx) => match result {
            Ok(_) => DispatchState::Completed(ctx),
            Err(details) => DispatchState::Errored(DispatchError::HandlerError(details)),
        },
        other => other,
    }
}

/// The state after the reply to a denied invocation was sent, or was not.
pub fn reply_sent(state: DispatchState, delivered: bool) -> (next: DispatchState)
    ensures
        next@ == replied(state@, delivered),
{
    match state {
        DispatchState::Errored(DispatchError::Ratelimited(n)) => if delivered {
            DispatchState::Errored(DispatchError::Ratelimited(n))
        } else {
            DispatchState::Errored(DispatchError::SendError)
        },
        other => other,
    }
}

/// What the program around the library is to do for a dispatch in `state`.
pub fn next_action(state: &DispatchState) -> (action: Action)
    ensures
        action@ == action_for(state@),
{
    match state {
        DispatchState::Received => Action::Await,
        DispatchState::Parsed(_) => Action::FetchRoles,
        DispatchState::PermissionChecked(_) => Action::ReadClock,
        DispatchState::BucketChecked(_) => Action::AskBeforeHook,
        DispatchState::Executing(ctx) => Action::RunHandler(ctx.command),
        DispatchState::Completed(_) => Action::TellAfterHook(None),
        DispatchState::Vetoed(_) => Action::Await,
        DispatchState::Errored(DispatchError::NotACommand) => Action::NormalMessage,
        DispatchState::Errored(DispatchError::Ratelimited(n)) => Action::Reply(rate_limit_reply(*n)),
        DispatchState::Errored(DispatchError::HandlerError(details)) => Action::TellAfterHook(
            Some(details.clone()),
        ),
        DispatchState::Errored(_) => Action::Report,
    }
}

impl Dispatcher {
    /// A dispatcher with `config` and nothing registered.
    pub fn new(config: Configuration) -> (d: Self)
        ensures
            d.config == config,
            d.bot_id is None,
            d.registry.groups() == Seq::<CommandGroup>::empty(),
            d.buckets@ == Map::<Seq<char>, BucketView>::empty(),
            d.usage@ == Map::<Seq<char>, nat>::empty(),
    {
        Dispatcher {
            config,
            bot_id: None,
            registry: Registry::new(),
            buckets: BucketStore::new(),
            usage: UsageCounter::new(),
        }
    }

    /// Sets the prefixes, the delimiters and whether a mention marks a
    /// command. Nothing else changes.
    pub fn configure(&mut self, prefixes: Vec<String>, delimiters: Vec<String>, on_mention: bool)
        ensures
            final(self).config.prefixes == prefixes,
            final(self).config.delimiters == delimiters,
            final(self).config.on_mention == on_mention,
            final(self).config.trim_rest == old(self).config.trim_rest,
            final(self).bot_id == old(self).bot_id,
            final(self).registry == old(self).registry,
            final(self).buckets == old(self).buckets,
            final(self).usage == old(self).usage,
    {
        self.config.prefixes = prefixes;
        self.config.delimiters = delimiters;
        self.config.on_mention = on_mention;
    }

    /// Registers `group`, as [`Registry::register`] does.
    pub fn register_group(&mut self, group: CommandGroup) -> (r: Result<(), DuplicateCommandError>)
        ensures
            r is Ok <==> crate::registry::registrable(old(self).registry.groups(), group),
            r is Ok ==> final(self).registry.groups() == old(self).registry.groups().push(group),
            r is Err ==> final(self).registry.groups() == old(self).registry.groups(),
            r matches Err(e) ==> exists|c: int, j: int|
                crate::registry::first_taken(old(self).registry.groups(), group, c, j) && e.name@
                    == group.commands[c].keys()[j],
            final(self).config == old(self).config,
            final(self).bot_id == old(self).bot_id,
            final(self).buckets == old(self).buckets,
            final(self).usage == old(self).usage,
    {
        self.registry.register(group)
    }

    /// Defines a bucket, as [`BucketStore::define`] does.
    pub fn define_bucket(&mut self, name: &str, policy: BucketPolicy) -> (defined: bool)
        ensures
            defined == (policy.limit >= 1),
            defined ==> final(self).buckets@ == old(self).buckets@.insert(
                name@,
                crate::ratelimit::fresh(policy),
            ),
            !defined ==> final(self).buckets@ == old(self).buckets@,
            final(self).config == old(self).config,
            final(self).bot_id == old(self).bot_id,
            final(self).registry == old(self).registry,
            final(self).usage == old(self).usage,
    {
        self.buckets.define(name, policy)
    }

    /// A copy of the usage counts as they are now.
    pub fn usage_snapshot(&self) -> (v: Vec<UsageEntry>)
        ensures
            crate::usage::snapshot_view(v@) == self.usage.listing(),
    {
        self.usage.snapshot()
    }

    /// Takes note of who the bot is. From then on its mention can mark a
    /// command.
    pub fn on_ready(&mut self, bot_id: u64)
        ensures
            final(self).bot_id == Some(bot_id),
            final(self).config == old(self).config,
            final(self).registry == old(self).registry,
            final(self).buckets == old(self).buckets,
            final(self).usage == old(self).usage,
    {
        self.bot_id = Some(bot_id);
    }

    /// Receives a message: reads it as a command, looks the command up and
    /// counts the attempt.
    pub fn receive(&mut self, event: &MessageEvent) -> (state: DispatchState)
        ensures
            state@ == received(old(self).config, old(self).bot_id, old(self).registry.groups(), *event),
            final(self).usage@ == counted_attempt(
                old(self).registry.groups(),
                state@,
                old(self).usage@,
            ),
            final(self).usage.listing() == match state@ {
                StateView::Parsed(ctx) => crate::usage::listed(
                    old(self).usage.listing(),
                    command_at(old(self).registry.groups(), ctx.command).name@,
                ),
                _ => old(self).usage.listing(),
            },
            final(self).config == old(self).config,
            final(self).bot_id == old(self).bot_id,
            final(self).registry == old(self).registry,
            final(self).buckets == old(self).buckets,
    {
        let inv = match parse(&self.config, self.bot_id, event.text.as_str()) {
            Some(inv) => inv,
            None => {
                return DispatchState::Errored(DispatchError::NotACommand);
            },
        };
        let found = match self.registry.resolve(inv.name.as_str()) {
            Some(found) => found,
            None => {
                return DispatchState::Errored(DispatchError::UnrecognisedCommand(inv.name));
            },
        };
        match self.registry.command(found) {
            Some(command) => {
                self.usage.increment(command.name.as_str());
            },
            None => {},
        }
        DispatchState::Parsed(
            DispatchContext {
                user_id: event.author_id,
                channel_id: event.channel_id,
                guild_id: event.guild_id,
                text: event.text.clone(),
                command_name: inv.name,
                args: inv.args,
                command: found,
            },
        )
    }

    /// Checks the permissions of the invoker, who holds `roles`.
    pub fn check_permissions(&self, state: DispatchState, roles: &Vec<String>) -> (next:
        DispatchState)
        ensures
            next@ == permitted(self.registry.groups(), state@, role_texts(roles@)),
    {
        match state {
            DispatchState::Parsed(ctx) => {
                match (self.registry.group_of(ctx.command), self.registry.command(ctx.command)) {
                    (Some(group), Some(command)) => {
                        if group.guild_only && ctx.guild_id.is_none() {
                            DispatchState::Errored(DispatchError::WrongChannel)
                        } else if command.required_roles.len() > 0 && !shares(
                            &command.required_roles,
                            roles,
                        ) {
                            DispatchState::Errored(DispatchError::LackingPermissions)
                        } else {
                            DispatchState::PermissionChecked(ctx)
                        }
                    },
                    _ => DispatchState::Errored(
                        DispatchError::UnrecognisedCommand(ctx.command_name),
                    ),
                }
            },
            other => other,
        }
    }

    /// Checks the bucket of the command at clock reading `now`, and records
    /// the invocation there if it is allowed.
    pub fn check_bucket(&mut self, state: DispatchState, now: u64) -> (next: DispatchState)
        ensures
            next@ == bucket_checked(old(self).registry.groups(), old(self).buckets@, state@, now),
            final(self).buckets@ == buckets_after(
                old(self).registry.groups(),
                old(self).buckets@,
                state@,
                now,
            ),
            final(self).config == old(self).config,
            final(self).bot_id == old(self).bot_id,
            final(self).registry == old(self).registry,
            final(self).usage == old(self).usage,
    {
        match state {
            DispatchState::PermissionChecked(ctx) => {
                let verdict = match self.registry.command(ctx.command) {
                    Some(command) => match &command.bucket {
                        Some(name) => self.buckets.check_and_record(
                            name.as_str(),
                            ScopeKey { user_id: ctx.user_id, channel_id: ctx.channel_id },
                            now,
                        ),
                        None => Verdict::Allowed,
                    },
                    None => Verdict::Allowed,
                };
                match verdict {
                    Verdict::Allowed => DispatchState::BucketChecked(ctx),
                    Verdict::RateLimited(n) => DispatchState::Errored(DispatchError::Ratelimited(n)),
                }
            },
            other => other,
        }
    }

    /// Takes a message through all checks: it is received, the permissions of
    /// the invoker, who holds `roles`, are checked, then the bucket of the
    /// command at clock reading `now`. The result is `BucketChecked` where the
    /// before-hook is to be asked next, and `Errored` otherwise.
    pub fn dispatch(&mut self, event: &MessageEvent, roles: &Vec<String>, now: u64) -> (state:
        DispatchState)
        ensures
            state@ == dispatched(
                old(self).config,
                old(self).bot_id,
                old(self).registry.groups(),
                old(self).buckets@,
                *event,
                role_texts(roles@),
                now,
            ),
            state@ is BucketChecked || state@ is Errored,
            final(self).usage@ == counted_attempt(
                old(self).registry.groups(),
                received(old(self).config, old(self).bot_id, old(self).registry.groups(), *event),
                old(self).usage@,
            ),
            final(self).buckets@ == buckets_after(
                old(self).registry.groups(),
                old(self).buckets@,
                permitted(
                    old(self).registry.groups(),
                    received(old(self).config, old(self).bot_id, old(self).registry.groups(), *event),
                    role_texts(roles@),
                ),
                now,
            ),
            final(self).config == old(self).config,
            final(self).bot_id == old(self).bot_id,
            final(self).registry == old(self).registry,
    {
        let state = self.receive(event);
        let state = self.check_permissions(state, roles);
        self.check_bucket(state, now)
    }

    /// Takes in what the gateway hands over: the identity of the bot when the
    /// connection is up, or a message, which is received.
    pub fn handle(&mut self, event: &GatewayEvent) -> (state: DispatchState)
        ensures
            match *event {
                GatewayEvent::Ready { bot_id } => state@ == StateView::Received && final(self).bot_id
                    == Some(bot_id) && final(self).usage == old(self).usage,
                GatewayEvent::MessageReceived(message) => state@ == received(
                    old(self).config,
                    old(self).bot_id,
                    old(self).registry.groups(),
                    message,
                ) && final(self).bot_id == old(self).bot_id && final(self).usage@ == counted_attempt(
                    old(self).registry.groups(),
                    state@,
                    old(self).usage@,
                ),
            },
            final(self).config == old(self).config,
            final(self).registry == old(self).registry,
            final(self).buckets == old(self).buckets,
    {
        match event {
            GatewayEvent::Ready { bot_id } => {
                self.on_ready(*bot_id);
                DispatchState::Received
            },
            GatewayEvent::MessageReceived(message) => self.receive(message),
        }
    }
}

} // verus!
