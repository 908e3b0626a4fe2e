use command_dispatch::parse::{parse, Configuration, Invocation};

fn config(prefixes: &[&str], delimiters: &[&str]) -> Configuration {
    Configuration {
        prefixes: prefixes.iter().map(|s| s.to_string()).collect(),
        delimiters: delimiters.iter().map(|s| s.to_string()).collect(),
        on_mention: false,
        trim_rest: false,
    }
}

fn invocation(name: &str, args: &str) -> Option<Invocation> {
    Some(Invocation { name: name.to_string(), args: args.to_string() })
}

#[test]
fn ping_with_a_role_name() {
    let c = config(&[";"], &[" "]);
    assert_eq!(parse(&c, None, ";ping staff-role"), invocation("ping", "staff-role"));
}

#[test]
fn message_without_prefix_or_mention_is_no_command() {
    let c = config(&[";"], &[" "]);
    assert_eq!(parse(&c, None, "ping staff-role"), None);
    assert_eq!(parse(&c, None, "hello; world"), None);
    assert_eq!(parse(&c, None, ""), None);
    assert_eq!(parse(&c, None, " ;ping"), None);
    assert_eq!(parse(&c, Some(42), "<@42> ping"), None);
    let mut with_mention = config(&[";"], &[" "]);
    with_mention.on_mention = true;
    assert_eq!(parse(&with_mention, Some(42), "hello <@42>"), None);
    assert_eq!(parse(&with_mention, Some(42), "<@43> ping"), None);
    assert_eq!(parse(&with_mention, None, "<@42> ping"), None);
}

#[test]
fn no_prefix_configured_means_no_command() {
    let c = config(&[], &[" "]);
    assert_eq!(parse(&c, None, ";ping"), None);
    assert_eq!(parse(&c, None, "ping"), None);
}

#[test]
fn empty_prefix_never_matches() {
    let c = config(&[""], &[" "]);
    assert_eq!(parse(&c, None, "ping"), None);
    let d = config(&["", ";"], &[" "]);
    assert_eq!(parse(&d, None, "ping"), None);
    assert_eq!(parse(&d, None, ";ping"), invocation("ping", ""));
}

#[test]
fn name_without_arguments() {
    let c = config(&[";"], &[" "]);
    assert_eq!(parse(&c, None, ";latency"), invocation("latency", ""));
    assert_eq!(parse(&c, None, ";latency "), invocation("latency", ""));
}

#[test]
fn prefix_alone_gives_an_empty_name() {
    let c = config(&[";"], &[" "]);
    assert_eq!(parse(&c, None, ";"), invocation("", ""));
    assert_eq!(parse(&c, None, ";   "), invocation("", ""));
}

#[test]
fn blanks_after_the_prefix_are_passed_over() {
    let c = config(&[";"], &[","]);
    assert_eq!(parse(&c, None, "; ping x"), invocation("ping", "x"));
    assert_eq!(parse(&c, None, ";\t \nping x"), invocation("ping", "x"));
}

#[test]
fn a_blank_ends_the_name_without_any_delimiter() {
    let c = config(&[";"], &[]);
    assert_eq!(parse(&c, None, ";ping staff-role"), invocation("ping", "staff-role"));
    assert_eq!(parse(&c, None, ";ping\tstaff role"), invocation("ping", "staff role"));
    assert_eq!(parse(&c, None, ";ping\nstaff"), invocation("ping", "staff"));
}

#[test]
fn only_one_blank_is_taken_as_separator() {
    let c = config(&[";"], &[]);
    assert_eq!(parse(&c, None, ";ping  staff "), invocation("ping", " staff "));
}

#[test]
fn rest_is_trimmed_on_request() {
    let mut c = config(&[";"], &[" "]);
    c.trim_rest = true;
    assert_eq!(parse(&c, None, ";ping   staff  "), invocation("ping", "staff"));
    assert_eq!(parse(&c, None, ";ping \t a b \n"), invocation("ping", "a b"));
    assert_eq!(parse(&c, None, ";ping     "), invocation("ping", ""));
    assert_eq!(parse(&c, None, ";ping"), invocation("ping", ""));
    assert_eq!(parse(&c, None, ";ping x"), invocation("ping", "x"));
}

#[test]
fn delimiters_end_the_name() {
    let c = config(&[";"], &[", ", ","]);
    assert_eq!(parse(&c, None, ";add,1"), invocation("add", "1"));
    assert_eq!(parse(&c, None, ";add, 1"), invocation("add", "1"));
    assert_eq!(parse(&c, None, ";add 1, 2"), invocation("add", "1, 2"));
    assert_eq!(parse(&c, None, ";add,1,2"), invocation("add", "1,2"));
    assert_eq!(parse(&c, None, ";add,"), invocation("add", ""));
}

#[test]
fn delimiters_are_taken_in_their_order() {
    let long_first = config(&[";"], &[", ", ","]);
    let short_first = config(&[";"], &[",", ", "]);
    assert_eq!(parse(&long_first, None, ";add, 1"), invocation("add", "1"));
    assert_eq!(parse(&short_first, None, ";add, 1"), invocation("add", " 1"));
}

#[test]
fn a_long_delimiter_is_taken_whole() {
    let c = config(&["!"], &["--", "::"]);
    assert_eq!(parse(&c, None, "!say--hello--there"), invocation("say", "hello--there"));
    assert_eq!(parse(&c, None, "!say::x"), invocation("say", "x"));
    assert_eq!(parse(&c, None, "!say-x"), invocation("say-x", ""));
    assert_eq!(parse(&c, None, "!say:"), invocation("say:", ""));
}

#[test]
fn empty_delimiter_never_matches() {
    let c = config(&[";"], &["", ","]);
    assert_eq!(parse(&c, None, ";ping x"), invocation("ping", "x"));
    assert_eq!(parse(&c, None, ";ping,x"), invocation("ping", "x"));
    assert_eq!(parse(&c, None, ";ping"), invocation("ping", ""));
}

#[test]
fn prefixes_are_tried_in_their_order() {
    let short_first = config(&["!", "!!"], &[" "]);
    let long_first = config(&["!!", "!"], &[" "]);
    assert_eq!(parse(&short_first, None, "!!ping"), invocation("!ping", ""));
    assert_eq!(parse(&long_first, None, "!!ping"), invocation("ping", ""));
    assert_eq!(parse(&long_first, None, "!ping"), invocation("ping", ""));
    assert_eq!(parse(&long_first, None, "?ping"), None);
}

#[test]
fn long_prefix() {
    let c = config(&["bot, "], &[" "]);
    assert_eq!(parse(&c, None, "bot, ping me"), invocation("ping", "me"));
    assert_eq!(parse(&c, None, "bot,ping me"), None);
    assert_eq!(parse(&c, None, "bot"), None);
}

#[test]
fn mention_marks_a_command() {
    let mut c = config(&[";"], &[" "]);
    c.on_mention = true;
    assert_eq!(parse(&c, Some(42), "<@42> ping staff"), invocation("ping", "staff"));
    assert_eq!(parse(&c, Some(42), "<@!42> ping staff"), invocation("ping", "staff"));
    assert_eq!(parse(&c, Some(42), "<@42>ping"), invocation("ping", ""));
    assert_eq!(parse(&c, Some(42), "<@42>"), invocation("", ""));
    assert_eq!(parse(&c, Some(42), ";ping"), invocation("ping", ""));
    assert_eq!(
        parse(&c, Some(u64::MAX), "<@18446744073709551615> ping"),
        invocation("ping", "")
    );
    assert_eq!(parse(&c, Some(0), "<@0> ping"), invocation("ping", ""));
}

#[test]
fn only_the_exact_mention_of_the_bot_counts() {
    let mut c = config(&[], &[" "]);
    c.on_mention = true;
    assert_eq!(parse(&c, Some(42), "<@042> ping"), None);
    assert_eq!(parse(&c, Some(42), "<@421> ping"), None);
    assert_eq!(parse(&c, Some(42), "<@4> ping"), None);
    assert_eq!(parse(&c, Some(42), "<@42 ping"), None);
    assert_eq!(parse(&c, Some(42), "<@&42> ping"), None);
    assert_eq!(parse(&c, Some(42), "<@!!42> ping"), None);
    assert_eq!(parse(&c, Some(42), "@42 ping"), None);
}

#[test]
fn mention_goes_before_the_prefixes() {
    let mut c = config(&["<"], &[" "]);
    c.on_mention = true;
    assert_eq!(parse(&c, Some(42), "<@42> ping"), invocation("ping", ""));
    assert_eq!(parse(&c, Some(7), "<@42> ping"), invocation("@42>", "ping"));
    c.on_mention = false;
    assert_eq!(parse(&c, Some(42), "<@42> ping"), invocation("@42>", "ping"));
}

#[test]
fn text_beyond_ascii() {
    let c = config(&["！"], &["、"]);
    assert_eq!(parse(&c, None, "！こんにちは、世界"), invocation("こんにちは", "世界"));
    assert_eq!(parse(&c, None, "！ping 您好"), invocation("ping", "您好"));
    assert_eq!(parse(&c, None, "!ping"), None);
}

#[test]
fn name_is_kept_as_written() {
    let c = config(&[";"], &[" "]);
    assert_eq!(parse(&c, None, ";PiNg X"), invocation("PiNg", "X"));
    assert_eq!(parse(&c, None, ";;ping"), invocation(";ping", ""));
}
