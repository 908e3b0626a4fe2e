use command_dispatch::dispatch::{
    before_hook_returned, handler_returned, next_action, rate_limit_reply, reply_sent, Action,
    DispatchContext, DispatchError, DispatchState, Dispatcher, GatewayEvent, MessageEvent,
};
use command_dispatch::parse::Configuration;
use command_dispatch::ratelimit::BucketPolicy;
use command_dispatch::registry::{
    Command, CommandGroup, CommandRef, DuplicateCommandError, HelpBehaviour,
};

fn strings(items: &[&str]) -> Vec<String> {
    items.iter().map(|s| s.to_string()).collect()
}

fn command(name: &str, aliases: &[&str], roles: &[&str], bucket: Option<&str>) -> Command {
    Command {
        name: name.to_string(),
        aliases: strings(aliases),
        required_roles: strings(roles),
        bucket: bucket.map(|b| b.to_string()),
    }
}

fn general() -> CommandGroup {
    CommandGroup {
        name: "General".to_string(),
        description: "General".to_string(),
        commands: vec![
            command("ping", &["p"], &["staff"], None),
            command("latency", &[], &[], None),
            command("commands", &[], &[], Some("complicated")),
        ],
        guild_only: true,
        lacking_permissions: HelpBehaviour::Hide,
    }
}

fn anywhere() -> CommandGroup {
    CommandGroup {
        name: "Anywhere".to_string(),
        description: String::new(),
        commands: vec![
            command("about", &[], &[], None),
            command("secret", &[], &["staff", "owner"], None),
        ],
        guild_only: false,
        lacking_permissions: HelpBehaviour::Nothing,
    }
}

fn dispatcher() -> Dispatcher {
    let mut d = Dispatcher::new(Configuration {
        prefixes: strings(&[";"]),
        delimiters: strings(&[", ", ","]),
        on_mention: true,
        trim_rest: false,
    });
    assert_eq!(d.register_group(general()), Ok(()));
    assert_eq!(d.register_group(anywhere()), Ok(()));
    assert!(d.define_bucket("complicated", BucketPolicy { delay: 5, time_span: 30, limit: 2 }));
    d
}

fn message(text: &str, guild_id: Option<u64>) -> MessageEvent {
    MessageEvent { author_id: 1, channel_id: 2, guild_id, text: text.to_string() }
}

fn context(text: &str, name: &str, args: &str, guild_id: Option<u64>, command: CommandRef) -> DispatchContext {
    DispatchContext {
        user_id: 1,
        channel_id: 2,
        guild_id,
        text: text.to_string(),
        command_name: name.to_string(),
        args: args.to_string(),
        command,
    }
}

const PING: CommandRef = CommandRef { group: 0, command: 0 };
const LATENCY: CommandRef = CommandRef { group: 0, command: 1 };
const COMMANDS: CommandRef = CommandRef { group: 0, command: 2 };
const ABOUT: CommandRef = CommandRef { group: 1, command: 0 };

#[test]
fn a_command_that_passes_all_checks() {
    let mut d = dispatcher();
    let state = d.dispatch(&message(";ping staff-role", Some(3)), &strings(&["staff"]), 100);
    let ctx = context(";ping staff-role", "ping", "staff-role", Some(3), PING);
    assert_eq!(state, DispatchState::BucketChecked(ctx.clone()));
    assert_eq!(next_action(&state), Action::AskBeforeHook);
    let state = before_hook_returned(state, true);
    assert_eq!(state, DispatchState::Executing(ctx.clone()));
    assert_eq!(next_action(&state), Action::RunHandler(PING));
    let state = handler_returned(state, Ok(()));
    assert_eq!(state, DispatchState::Completed(ctx));
    assert_eq!(next_action(&state), Action::TellAfterHook(None));
    assert_eq!(d.usage.get("ping"), 1);
}

#[test]
fn ordinary_message_is_no_command() {
    let mut d = dispatcher();
    let state = d.dispatch(&message("hello there", Some(3)), &strings(&["staff"]), 0);
    assert_eq!(state, DispatchState::Errored(DispatchError::NotACommand));
    assert_eq!(next_action(&state), Action::NormalMessage);
    assert!(d.usage_snapshot().is_empty());
}

#[test]
fn unknown_command_is_unrecognised() {
    let mut d = dispatcher();
    let state = d.dispatch(&message(";foo bar", Some(3)), &strings(&["staff"]), 0);
    assert_eq!(
        state,
        DispatchState::Errored(DispatchError::UnrecognisedCommand("foo".to_string()))
    );
    assert_eq!(next_action(&state), Action::Report);
    assert!(d.usage_snapshot().is_empty());
    let state = d.dispatch(&message(";Ping", Some(3)), &strings(&["staff"]), 0);
    assert_eq!(
        state,
        DispatchState::Errored(DispatchError::UnrecognisedCommand("Ping".to_string()))
    );
    let state = d.dispatch(&message(";", Some(3)), &strings(&["staff"]), 0);
    assert_eq!(
        state,
        DispatchState::Errored(DispatchError::UnrecognisedCommand(String::new()))
    );
}

#[test]
fn guild_only_command_outside_a_guild_is_wrong_channel() {
    let mut d = dispatcher();
    let state = d.dispatch(&message(";latency", None), &strings(&[]), 0);
    assert_eq!(state, DispatchState::Errored(DispatchError::WrongChannel));
    assert_eq!(next_action(&state), Action::Report);
    assert_eq!(d.usage.get("latency"), 1);
    let state = before_hook_returned(state, true);
    assert_eq!(state, DispatchState::Errored(DispatchError::WrongChannel));
    let state = handler_returned(state, Ok(()));
    assert_eq!(state, DispatchState::Errored(DispatchError::WrongChannel));
    assert_ne!(next_action(&state), Action::RunHandler(LATENCY));
}

#[test]
fn wrong_channel_comes_before_the_roles() {
    let mut d = dispatcher();
    let state = d.dispatch(&message(";ping x", None), &strings(&[]), 0);
    assert_eq!(state, DispatchState::Errored(DispatchError::WrongChannel));
    let state = d.dispatch(&message(";ping x", None), &strings(&["staff"]), 0);
    assert_eq!(state, DispatchState::Errored(DispatchError::WrongChannel));
    assert_eq!(d.usage.get("ping"), 2);
}

#[test]
fn wrong_channel_does_not_touch_the_bucket() {
    let mut d = dispatcher();
    for now in 0..5 {
        let state = d.dispatch(&message(";commands", None), &strings(&[]), now);
        assert_eq!(state, DispatchState::Errored(DispatchError::WrongChannel));
    }
    let state = d.dispatch(&message(";commands", Some(3)), &strings(&[]), 5);
    assert_eq!(
        state,
        DispatchState::BucketChecked(context(";commands", "commands", "", Some(3), COMMANDS))
    );
    assert_eq!(d.usage.get("commands"), 6);
}

#[test]
fn command_outside_guild_only_group_runs_anywhere() {
    let mut d = dispatcher();
    let state = d.dispatch(&message(";about", None), &strings(&[]), 0);
    assert_eq!(
        state,
        DispatchState::BucketChecked(context(";about", "about", "", None, ABOUT))
    );
}

#[test]
fn invoker_without_a_required_role_lacks_permissions() {
    let mut d = dispatcher();
    let state = d.dispatch(&message(";ping x", Some(3)), &strings(&["member", "Staff"]), 0);
    assert_eq!(state, DispatchState::Errored(DispatchError::LackingPermissions));
    assert_eq!(next_action(&state), Action::Report);
    let state = d.dispatch(&message(";ping x", Some(3)), &strings(&[]), 0);
    assert_eq!(state, DispatchState::Errored(DispatchError::LackingPermissions));
    assert_eq!(d.usage.get("ping"), 2);
}

#[test]
fn one_of_several_required_roles_is_enough() {
    let mut d = dispatcher();
    let state = d.dispatch(&message(";secret", None), &strings(&["member", "owner"]), 0);
    assert!(matches!(state, DispatchState::BucketChecked(_)));
    let state = d.dispatch(&message(";secret", None), &strings(&["staff"]), 0);
    assert!(matches!(state, DispatchState::BucketChecked(_)));
    let state = d.dispatch(&message(";secret", None), &strings(&["member"]), 0);
    assert_eq!(state, DispatchState::Errored(DispatchError::LackingPermissions));
}

#[test]
fn command_without_required_roles_is_open_to_all() {
    let mut d = dispatcher();
    let state = d.dispatch(&message(";latency", Some(3)), &strings(&[]), 0);
    assert_eq!(
        state,
        DispatchState::BucketChecked(context(";latency", "latency", "", Some(3), LATENCY))
    );
}

#[test]
fn bucket_denies_and_the_reply_says_how_long_to_wait() {
    let mut d = dispatcher();
    let roles = strings(&[]);
    let ok = DispatchState::BucketChecked(context(";commands", "commands", "", Some(3), COMMANDS));
    assert_eq!(d.dispatch(&message(";commands", Some(3)), &roles, 0), ok);
    assert_eq!(d.dispatch(&message(";commands", Some(3)), &roles, 5), ok);
    let state = d.dispatch(&message(";commands", Some(3)), &roles, 7);
    assert_eq!(state, DispatchState::Errored(DispatchError::Ratelimited(23)));
    assert_eq!(
        next_action(&state),
        Action::Reply("Try this again in 23 seconds.".to_string())
    );
    assert_eq!(d.usage.get("commands"), 3);
    let state = d.dispatch(&message(";commands", Some(3)), &roles, 30);
    assert_eq!(state, ok);
}

#[test]
fn bucket_counts_each_invoker_and_channel_apart() {
    let mut d = dispatcher();
    let roles = strings(&[]);
    assert!(matches!(
        d.dispatch(&message(";commands", Some(3)), &roles, 0),
        DispatchState::BucketChecked(_)
    ));
    assert_eq!(
        d.dispatch(&message(";commands", Some(3)), &roles, 1),
        DispatchState::Errored(DispatchError::Ratelimited(4))
    );
    let other_user =
        MessageEvent { author_id: 9, channel_id: 2, guild_id: Some(3), text: ";commands".to_string() };
    assert!(matches!(d.dispatch(&other_user, &roles, 1), DispatchState::BucketChecked(_)));
    let other_channel =
        MessageEvent { author_id: 1, channel_id: 8, guild_id: Some(3), text: ";commands".to_string() };
    assert!(matches!(d.dispatch(&other_channel, &roles, 1), DispatchState::BucketChecked(_)));
}

#[test]
fn command_with_an_undefined_bucket_is_not_limited() {
    let mut d = Dispatcher::new(Configuration {
        prefixes: strings(&[";"]),
        delimiters: strings(&[" "]),
        on_mention: false,
        trim_rest: false,
    });
    assert_eq!(d.register_group(general()), Ok(()));
    for _ in 0..4 {
        let state = d.dispatch(&message(";commands", Some(3)), &strings(&[]), 0);
        assert!(matches!(state, DispatchState::BucketChecked(_)));
    }
}

#[test]
fn lacking_permissions_does_not_touch_the_bucket() {
    let mut d = Dispatcher::new(Configuration {
        prefixes: strings(&[";"]),
        delimiters: strings(&[" "]),
        on_mention: false,
        trim_rest: false,
    });
    let group = CommandGroup {
        name: "G".to_string(),
        description: String::new(),
        commands: vec![command("limited", &[], &["staff"], Some("b"))],
        guild_only: false,
        lacking_permissions: HelpBehaviour::Strike,
    };
    assert_eq!(d.register_group(group), Ok(()));
    assert!(d.define_bucket("b", BucketPolicy { delay: 0, time_span: 60, limit: 1 }));
    for now in 0..3 {
        let state = d.dispatch(&message(";limited", None), &strings(&[]), now);
        assert_eq!(state, DispatchState::Errored(DispatchError::LackingPermissions));
    }
    let state = d.dispatch(&message(";limited", None), &strings(&["staff"]), 3);
    assert!(matches!(state, DispatchState::BucketChecked(_)));
    let state = d.dispatch(&message(";limited", None), &strings(&["staff"]), 4);
    assert_eq!(state, DispatchState::Errored(DispatchError::Ratelimited(59)));
}

#[test]
fn before_hook_can_veto() {
    let mut d = dispatcher();
    let state = d.dispatch(&message(";latency", Some(3)), &strings(&[]), 0);
    let ctx = context(";latency", "latency", "", Some(3), LATENCY);
    let state = before_hook_returned(state, false);
    assert_eq!(state, DispatchState::Vetoed(ctx.clone()));
    assert_eq!(next_action(&state), Action::Await);
    let state = handler_returned(state, Ok(()));
    assert_eq!(state, DispatchState::Vetoed(ctx.clone()));
    let state = before_hook_returned(state, true);
    assert_eq!(state, DispatchState::Vetoed(ctx));
    assert_eq!(d.usage.get("latency"), 1);
}

#[test]
fn handler_error_is_told_to_the_after_hook() {
    let mut d = dispatcher();
    let state = d.dispatch(&message(";latency", Some(3)), &strings(&[]), 0);
    let state = before_hook_returned(state, true);
    let state = handler_returned(state, Err("lookup failed".to_string()));
    assert_eq!(
        state,
        DispatchState::Errored(DispatchError::HandlerError("lookup failed".to_string()))
    );
    assert_eq!(
        next_action(&state),
        Action::TellAfterHook(Some("lookup failed".to_string()))
    );
}

#[test]
fn steps_out_of_turn_change_nothing() {
    let ctx = context(";latency", "latency", "", Some(3), LATENCY);
    let parsed = DispatchState::Parsed(ctx.clone());
    assert_eq!(before_hook_returned(parsed.clone(), true), parsed);
    assert_eq!(handler_returned(parsed.clone(), Ok(())), parsed);
    let checked = DispatchState::BucketChecked(ctx.clone());
    assert_eq!(handler_returned(checked.clone(), Err("x".to_string())), checked);
    let completed = DispatchState::Completed(ctx.clone());
    assert_eq!(before_hook_returned(completed.clone(), true), completed);
    assert_eq!(handler_returned(completed.clone(), Err("x".to_string())), completed);
    assert_eq!(before_hook_returned(DispatchState::Received, true), DispatchState::Received);
    let mut d = dispatcher();
    assert_eq!(d.check_permissions(checked.clone(), &strings(&[])), checked);
    assert_eq!(d.check_bucket(parsed.clone(), 0), parsed);
    assert_eq!(d.check_bucket(DispatchState::Received, 0), DispatchState::Received);
}

#[test]
fn actions_of_the_states_on_the_way() {
    let ctx = context(";latency", "latency", "", Some(3), LATENCY);
    assert_eq!(next_action(&DispatchState::Received), Action::Await);
    assert_eq!(next_action(&DispatchState::Parsed(ctx.clone())), Action::FetchRoles);
    assert_eq!(next_action(&DispatchState::PermissionChecked(ctx.clone())), Action::ReadClock);
    assert_eq!(next_action(&DispatchState::BucketChecked(ctx.clone())), Action::AskBeforeHook);
    assert_eq!(next_action(&DispatchState::Executing(ctx.clone())), Action::RunHandler(LATENCY));
    assert_eq!(next_action(&DispatchState::Completed(ctx.clone())), Action::TellAfterHook(None));
    assert_eq!(next_action(&DispatchState::Vetoed(ctx)), Action::Await);
    assert_eq!(
        next_action(&DispatchState::Errored(DispatchError::SendError)),
        Action::Report
    );
    assert_eq!(
        next_action(&DispatchState::Errored(DispatchError::LackingPermissions)),
        Action::Report
    );
}

#[test]
fn step_by_step_is_the_same_as_all_at_once() {
    let texts = [";ping a", ";p a", ";latency", ";commands", ";nothing", "hello", ";about x"];
    for text in texts {
        for guild in [None, Some(3)] {
            for roles in [strings(&[]), strings(&["staff"])] {
                let mut whole = dispatcher();
                let mut stepped = dispatcher();
                for now in [0u64, 1, 40] {
                    let event = message(text, guild);
                    let all_at_once = whole.dispatch(&event, &roles, now);
                    let state = stepped.receive(&event);
                    let state = stepped.check_permissions(state, &roles);
                    let state = stepped.check_bucket(state, now);
                    assert_eq!(state, all_at_once);
                }
                assert_eq!(whole.usage.get("ping"), stepped.usage.get("ping"));
                assert_eq!(whole.usage.get("commands"), stepped.usage.get("commands"));
            }
        }
    }
}

#[test]
fn receive_reads_and_counts() {
    let mut d = dispatcher();
    let state = d.receive(&message(";ping staff-role", None));
    assert_eq!(
        state,
        DispatchState::Parsed(context(";ping staff-role", "ping", "staff-role", None, PING))
    );
    assert_eq!(next_action(&state), Action::FetchRoles);
    assert_eq!(d.usage.get("ping"), 1);
    let state = d.check_permissions(state, &strings(&["staff"]));
    assert_eq!(state, DispatchState::Errored(DispatchError::WrongChannel));
}

#[test]
fn attempt_by_alias_counts_under_the_primary_name() {
    let mut d = dispatcher();
    let state = d.dispatch(&message(";p x", Some(3)), &strings(&["staff"]), 0);
    assert_eq!(
        state,
        DispatchState::BucketChecked(context(";p x", "p", "x", Some(3), PING))
    );
    d.dispatch(&message(";ping x", Some(3)), &strings(&["staff"]), 0);
    assert_eq!(d.usage.get("ping"), 2);
    assert_eq!(d.usage.get("p"), 0);
    let snapshot = d.usage_snapshot();
    assert_eq!(snapshot.len(), 1);
    assert_eq!(snapshot[0].name, "ping");
    assert_eq!(snapshot[0].count, 2);
}

#[test]
fn every_attempt_is_counted_whatever_becomes_of_it() {
    let mut d = dispatcher();
    d.dispatch(&message(";ping", Some(3)), &strings(&["staff"]), 0);
    d.dispatch(&message(";ping", Some(3)), &strings(&[]), 0);
    d.dispatch(&message(";ping", None), &strings(&["staff"]), 0);
    d.dispatch(&message(";pong", Some(3)), &strings(&["staff"]), 0);
    d.dispatch(&message("ping", Some(3)), &strings(&["staff"]), 0);
    for now in 0..10 {
        d.dispatch(&message(";commands", Some(3)), &strings(&[]), now);
    }
    assert_eq!(d.usage.get("ping"), 3);
    assert_eq!(d.usage.get("pong"), 0);
    assert_eq!(d.usage.get("commands"), 10);
}

#[test]
fn failed_reply_becomes_a_send_error_and_is_not_sent_again() {
    let denied = DispatchState::Errored(DispatchError::Ratelimited(5));
    assert_eq!(reply_sent(denied.clone(), true), denied);
    let failed = reply_sent(denied, false);
    assert_eq!(failed, DispatchState::Errored(DispatchError::SendError));
    assert_eq!(next_action(&failed), Action::Report);
    assert_eq!(reply_sent(failed.clone(), false), failed);
    let other = DispatchState::Errored(DispatchError::WrongChannel);
    assert_eq!(reply_sent(other.clone(), false), other);
}

#[test]
fn rate_limit_reply_text() {
    assert_eq!(rate_limit_reply(0), "Try this again in 0 seconds.");
    assert_eq!(rate_limit_reply(1), "Try this again in 1 seconds.");
    assert_eq!(rate_limit_reply(30), "Try this again in 30 seconds.");
    assert_eq!(
        rate_limit_reply(u64::MAX),
        "Try this again in 18446744073709551615 seconds."
    );
}

#[test]
fn ready_tells_the_bot_who_it_is() {
    let mut d = dispatcher();
    let mention = message("<@42> latency", Some(3));
    assert_eq!(
        d.dispatch(&mention, &strings(&[]), 0),
        DispatchState::Errored(DispatchError::NotACommand)
    );
    assert_eq!(d.handle(&GatewayEvent::Ready { bot_id: 42 }), DispatchState::Received);
    assert_eq!(d.bot_id, Some(42));
    assert_eq!(
        d.dispatch(&mention, &strings(&[]), 0),
        DispatchState::BucketChecked(context("<@42> latency", "latency", "", Some(3), LATENCY))
    );
    let state = d.handle(&GatewayEvent::MessageReceived(message("<@!42> about", None)));
    assert_eq!(
        state,
        DispatchState::Parsed(context("<@!42> about", "about", "", None, ABOUT))
    );
    assert_eq!(d.usage.get("about"), 1);
    assert_eq!(d.usage.get("latency"), 1);
}

#[test]
fn configure_changes_how_messages_are_read() {
    let mut d = dispatcher();
    d.on_ready(42);
    d.configure(strings(&["!"]), strings(&[":"]), false);
    assert_eq!(
        d.dispatch(&message(";latency", Some(3)), &strings(&[]), 0),
        DispatchState::Errored(DispatchError::NotACommand)
    );
    assert_eq!(
        d.dispatch(&message("<@42> latency", Some(3)), &strings(&[]), 0),
        DispatchState::Errored(DispatchError::NotACommand)
    );
    assert_eq!(
        d.dispatch(&message("!latency:now", Some(3)), &strings(&[]), 0),
        DispatchState::BucketChecked(context("!latency:now", "latency", "now", Some(3), LATENCY))
    );
    assert_eq!(d.bot_id, Some(42));
    assert!(!d.config.trim_rest);
}

#[test]
fn registering_a_clashing_group_fails_and_changes_nothing() {
    let mut d = dispatcher();
    let clash = CommandGroup {
        name: "Clash".to_string(),
        description: String::new(),
        commands: vec![command("fresh", &[], &[], None), command("other", &["p"], &[], None)],
        guild_only: false,
        lacking_permissions: HelpBehaviour::Hide,
    };
    assert_eq!(
        d.register_group(clash),
        Err(DuplicateCommandError { name: "p".to_string() })
    );
    assert_eq!(d.registry.all_groups().len(), 2);
    assert_eq!(d.registry.resolve("fresh"), None);
    assert_eq!(d.registry.resolve("p"), Some(PING));
}

#[test]
fn context_of_a_stale_reference_is_rejected() {
    let d = dispatcher();
    let stale = context(";gone", "gone", "", Some(3), CommandRef { group: 7, command: 0 });
    assert_eq!(
        d.check_permissions(DispatchState::Parsed(stale), &strings(&["staff"])),
        DispatchState::Errored(DispatchError::UnrecognisedCommand("gone".to_string()))
    );
}
