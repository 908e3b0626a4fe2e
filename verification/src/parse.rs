//! Reading a message as a command invocation.
//!
//! A message is a command if it begins with a marker: a mention of the bot,
//! or else one of the configured prefixes, tried in their order. Blanks after
//! the marker are passed over. The command name runs from there to the first
//! blank or delimiter, or to the end. What follows that separator is the
//! argument string. Where several delimiters match at one place, the first in
//! the configured order is the one taken. An empty prefix or delimiter never
//! matches.

use vstd::prelude::*;
use vstd::string::*;
use crate::text::{
    char_is_space,
    chars_of,
    decimal,
    decimal_text,
    is_space,
    matches_at,
    occurs_at,
    slice_of,
    starts_with,
};

verus! {

/// How messages are read.
#[derive(Clone, Debug)]
pub struct Configuration {
    /// The prefixes that mark a command, in the order in which they are tried.
    pub prefixes: Vec<String>,
    /// The delimiters that end a command name, in the order of their priority.
    pub delimiters: Vec<String>,
    /// Whether a mention of the bot marks a command too.
    pub on_mention: bool,
    /// Whether the blanks at the two ends of the argument string are dropped.
    pub trim_rest: bool,
}

/// A message read as a command invocation.
#[derive(Clone, Debug, PartialEq, Eq)]
pub struct Invocation {
    /// The name under which the command was called.
    pub name: String,
    /// The text after the name and its separator.
    pub args: String,
}

/// The model of an [`Invocation`].
pub struct InvocationView {
    pub name: Seq<char>,
    pub args: Seq<char>,
}

impl View for Invocation {
    type V = InvocationView;

    open spec fn view(&self) -> InvocationView {
        InvocationView { name: self.name@, args: self.args@ }
    }
}

/// The texts of a list of strings.
pub open spec fn texts(v: Seq<String>) -> Seq<Seq<char>> {
    v.map_values(|s: String| s@)
}

/// The mention of user `id` in its plain form.
pub open spec fn plain_mention(id: u64) -> Seq<char> {
    "<@"@ + decimal_text(id as nat) + ">"@
}

/// The mention of user `id` in its nickname form.
pub open spec fn nick_mention(id: u64) -> Seq<char> {
    "<@!"@ + decimal_text(id as nat) + ">"@
}

/// The place in `pats`, from `from` on, of the first pattern that is not
/// empty and occurs in `text` at `at`.
pub open spec fn first_occurring(pats: Seq<Seq<char>>, text: Seq<char>, at: int, from: int) -> Option<
    int,
>
    decreases pats.len() - from,
{
    if from < 0 || from >= pats.len() {
        None
    } else if pats[from].len() > 0 && occurs_at(text, pats[from], at) {
        Some(from)
    } else {
        first_occurring(pats, text, at, from + 1)
    }
}

/// The length of the mention of the bot that `text` begins with, if mentions
/// count and it begins with one.
pub open spec fn mention_len(on_mention: bool, bot: Option<u64>, text: Seq<char>) -> Option<int> {
    match bot {
        Some(id) => if on_mention && starts_with(text, plain_mention(id)) {
            Some(plain_mention(id).len() as int)
        } else if on_mention && starts_with(text, nick_mention(id)) {
            Some(nick_mention(id).len() as int)
        } else {
            None
        },
        None => None,
    }
}

/// The length of the marker that `text` begins with, if it begins with one.
pub open spec fn marker_len(config: Configuration, bot: Option<u64>, text: Seq<char>) -> Option<int> {
    match mention_len(config.on_mention, bot, text) {
        Some(n) => Some(n),
        None => match first_occurring(texts(config.prefixes@), text, 0, 0) {
            Some(i) => Some(texts(config.prefixes@)[i].len() as int),
            None => None,
        },
    }
}

/// The first place in `text`, from `from` on, that holds no blank; the end
/// of `text` if there is none.
pub open spec fn skip_blanks(text: Seq<char>, from: int) -> int
    decreases text.len() - from,
{
    if 0 <= from < text.len() && is_space(text[from]) {
        skip_blanks(text, from + 1)
    } else {
        from
    }
}

/// Whether a command name ends before place `at` of `text`.
pub open spec fn stops(delims: Seq<Seq<char>>, text: Seq<char>, at: int) -> bool {
    ||| at >= text.len()
    ||| at < 0
    ||| is_space(text[at])
    ||| first_occurring(delims, text, at, 0) is Some
}

/// The first place in `text`, from `from` on, before which a command name
/// ends.
pub open spec fn name_end(delims: Seq<Seq<char>>, text: Seq<char>, from: int) -> int
    decreases text.len() - from,
{
    if stops(delims, text, from) {
        from
    } else {
        name_end(delims, text, from + 1)
    }
}

/// The place after the separator that stands at `at`: after the delimiter
/// taken there, or else after the one blank.
pub open spec fn after_separator(delims: Seq<Seq<char>>, text: Seq<char>, at: int) -> int {
    if at >= text.len() {
        text.len() as int
    } else {
        match first_occurring(delims, text, at, 0) {
            Some(i) => at + delims[i].len(),
            None => at + 1,
        }
    }
}

/// `s` without the blanks at its two ends.
pub open spec fn trimmed(s: Seq<char>) -> Seq<char>
    decreases s.len(),
{
    if s.len() > 0 && is_space(s[0]) {
        trimmed(s.drop_first())
    } else if s.len() > 0 && is_space(s.last()) {
        trimmed(s.drop_last())
    } else {
        s
    }
}

/// What `text` says as a command, if it is one.
pub open spec fn parsed(config: Configuration, bot: Option<u64>, text: Seq<char>) -> Option<
    InvocationView,
> {
    match marker_len(config, bot, text) {
        None => None,
        Some(m) => {
            let delims = texts(config.delimiters@);
            let start = skip_blanks(text, m);
            let end = name_end(delims, text, start);
            let rest = text.subrange(after_separator(delims, text, end), text.len() as int);
            Some(
                InvocationView {
                    name: text.subrange(start, end),
                    args: if config.trim_rest {
                        trimmed(rest)
                    } else {
                        rest
                    },
                },
            )
        },
    }
}

/// No pattern is found exactly if none that is not empty occurs.
pub proof fn lemma_first_occurring(pats: Seq<Seq<char>>, text: Seq<char>, at: int, from: int)
    requires
        0 <= from,
    ensures
        first_occurring(pats, text, at, from) is None <==> forall|i: int|
            from <= i < pats.len() ==> !(pats[i].len() > 0 && occurs_at(text, #[trigger] pats[i], at)),
        first_occurring(pats, text, at, from) matches Some(i) ==> from <= i < pats.len() && pats[i].len()
            > 0 && occurs_at(text, pats[i], at) && forall|j: int|
            from <= j < i ==> !(pats[j].len() > 0 && occurs_at(text, #[trigger] pats[j], at)),
    decreases pats.len() - from,
{
    if from < pats.len() {
        lemma_first_occurring(pats, text, at, from + 1);
    }
}

/// A message is not a command exactly if it begins neither with a mention of
/// the bot that counts nor with a prefix that is not empty.
pub proof fn lemma_not_a_command(config: Configuration, bot: Option<u64>, text: Seq<char>)
    ensures
        parsed(config, bot, text) is None <==> {
            &&& mention_len(config.on_mention, bot, text) is None
            &&& forall|i: int|
                0 <= i < config.prefixes.len() ==> !((#[trigger] config.prefixes[i])@.len() > 0
                    && starts_with(text, config.prefixes[i]@))
        },
{
    let pats = texts(config.prefixes@);
    lemma_first_occurring(pats, text, 0, 0);
    assert forall|i: int| 0 <= i < config.prefixes.len() implies pats[i] == (
    #[trigger] config.prefixes[i])@ by {}
    if first_occurring(pats, text, 0, 0) is None {
        assert forall|i: int| 0 <= i < config.prefixes.len() implies !((
        #[trigger] config.prefixes[i])@.len() > 0 && starts_with(text, config.prefixes[i]@)) by {
            assert(pats[i] == config.prefixes[i]@);
        }
    }
}

/// The bounds of [`skip_blanks`].
proof fn lemma_skip_blanks(text: Seq<char>, from: int)
    requires
        0 <= from <= text.len(),
    ensures
        from <= skip_blanks(text, from) <= text.len(),
    decreases text.len() - from,
{
    if from < text.len() && is_space(text[from]) {
        lemma_skip_blanks(text, from + 1);
    }
}

/// The bounds of [`name_end`].
proof fn lemma_name_end(delims: Seq<Seq<char>>, text: Seq<char>, from: int)
    requires
        0 <= from <= text.len(),
    ensures
        from <= name_end(delims, text, from) <= text.len(),
    decreases text.len() - from,
{
    if !stops(delims, text, from) {
        lemma_name_end(delims, text, from + 1);
    }
}

fn char_lists(items: &Vec<String>) -> (lists: Vec<Vec<char>>)
    ensures
        lists.len() == items.len(),
        forall|i: int| 0 <= i < lists.len() ==> (#[trigger] lists[i])@ == items[i]@,
{
    let mut lists: Vec<Vec<char>> = Vec::new();
    let mut i: usize = 0;
    while i < items.len()
        invariant
            i <= items.len(),
            lists.len() == i,
            forall|j: int| 0 <= j < i ==> (#[trigger] lists[j])@ == items[j]@,
        decreases items.len() - i,
    {
        lists.push(chars_of(items[i].as_str()));
        i += 1;
    }
    lists
}

fn find_occurring(pats: &Vec<Vec<char>>, text: &Vec<char>, at: usize, Ghost(model): Ghost<
    Seq<Seq<char>>,
>) -> (r: Option<usize>)
    requires
        model.len() == pats.len(),
        forall|i: int| 0 <= i < pats.len() ==> (#[trigger] pats[i])@ == model[i],
    ensures
        match r {
            Some(n) => first_occurring(model, text@, at as int, 0) matches Some(i) && model[i].len()
                == n,
            None => first_occurring(model, text@, at as int, 0) is None,
        },
{
    let mut i: usize = 0;
    while i < pats.len()
        invariant
            i <= pats.len(),
            model.len() == pats.len(),
            forall|j: int| 0 <= j < pats.len() ==> (#[trigger] pats[j])@ == model[j],
            first_occurring(model, text@, at as int, 0) == first_occurring(
                model,
                text@,
                at as int,
                i as int,
            ),
        decreases pats.len() - i,
    {
        if pats[i].len() > 0 && matches_at(text, &pats[i], at) {
            return Some(pats[i].len());
        }
        i += 1;
    }
    None
}

fn mention_of(id: u64, nick: bool) -> (m: Vec<char>)
    ensures
        m@ == if nick {
            nick_mention(id)
        } else {
            plain_mention(id)
        },
{
    let mut s = if nick {
        String::from_str("<@!")
    } else {
        String::from_str("<@")
    };
    s.append(decimal(id).as_str());
    s.append(">");
    chars_of(s.as_str())
}

fn find_marker(config: &Configuration, bot: Option<u64>, text: &Vec<char>) -> (r: Option<usize>)
    ensures
        match r {
            Some(n) => marker_len(*config, bot, text@) == Some(n as int) && n <= text.len(),
            None => marker_len(*config, bot, text@) is None,
        },
{
    if config.on_mention {
        match bot {
            Some(id) => {
                let plain = mention_of(id, false);
                if matches_at(text, &plain, 0) {
                    return Some(plain.len());
                }
                let nick = mention_of(id, true);
                if matches_at(text, &nick, 0) {
                    return Some(nick.len());
                }
            },
            None => {},
        }
    }
    proof {
        lemma_first_occurring(texts(config.prefixes@), text@, 0, 0);
    }
    let prefixes = char_lists(&config.prefixes);
    find_occurring(&prefixes, text, 0, Ghost(texts(config.prefixes@)))
}

fn trim_bounds(text: &Vec<char>, from: usize) -> (r: (usize, usize))
    requires
        from <= text.len(),
    ensures
        from <= r.0 <= r.1 <= text.len(),
        text@.subrange(r.0 as int, r.1 as int) == trimmed(text@.subrange(from as int, text.len() as int)),
{
    let ghost whole = text@.subrange(from as int, text.len() as int);
    let mut a: usize = from;
    while a < text.len() && char_is_space(text[a])
        invariant
            from <= a <= text.len(),
            trimmed(whole) == trimmed(text@.subrange(a as int, text.len() as int)),
        decreases text.len() - a,
    {
        assert(text@.subrange(a as int, text.len() as int).drop_first() =~= text@.subrange(
            a + 1,
            text.len() as int,
        ));
        a += 1;
    }
    let mut b: usize = text.len();
    while b > a && char_is_space(text[b - 1])
        invariant
            a <= b <= text.len(),
            a < text.len() ==> !is_space(text@[a as int]),
            trimmed(whole) == trimmed(text@.subrange(a as int, b as int)),
        decreases b,
    {
        assert(text@.subrange(a as int, b as int).drop_last() =~= text@.subrange(a as int, b - 1));
        b -= 1;
    }
    (a, b)
}

/// Reads `text` as a command invocation. `bot` is the identity of the bot,
/// once it is known. The result is `None` where `text` is not a command.
pub fn parse(config: &Configuration, bot: Option<u64>, text: &str) -> (r: Option<Invocation>)
    ensures
        r is Some <==> parsed(*config, bot, text@) is Some,
        r matches Some(inv) ==> Some(inv@) == parsed(*config, bot, text@),
{
    let chars = chars_of(text);
    let m = match find_marker(config, bot, &chars) {
        Some(m) => m,
        None => {
            return None;
        },
    };
    let ghost delims = texts(config.delimiters@);
    let delimiters = char_lists(&config.delimiters);
    proof {
        lemma_skip_blanks(chars@, m as int);
    }
    let mut start: usize = m;
    while start < chars.len() && char_is_space(chars[start])
        invariant
            m <= start <= chars.len(),
            skip_blanks(chars@, m as int) == skip_blanks(chars@, start as int),
        decreases chars.len() - start,
    {
        start += 1;
    }
    proof {
        lemma_name_end(delims, chars@, start as int);
    }
    let mut end: usize = start;
    let mut taken: Option<usize> = None;
    while end < chars.len()
        invariant_except_break
            taken is None,
        invariant
            start <= end <= chars.len(),
            delims.len() == delimiters.len(),
            forall|i: int| 0 <= i < delimiters.len() ==> (#[trigger] delimiters[i])@ == delims[i],
            name_end(delims, chars@, start as int) == name_end(delims, chars@, end as int),
        ensures
            start <= end <= chars.len(),
            end as int == name_end(delims, chars@, start as int),
            end < chars.len() ==> match taken {
                Some(n) => first_occurring(delims, chars@, end as int, 0) matches Some(i)
                    && delims[i].len() == n,
                None => first_occurring(delims, chars@, end as int, 0) is None,
            },
        decreases chars.len() - end,
    {
        let found = find_occurring(&delimiters, &chars, end, Ghost(delims));
        if found.is_some() {
            taken = found;
            break ;
        }
        if char_is_space(chars[end]) {
            break ;
        }
        end += 1;
    }
    let rest_from: usize = if end >= chars.len() {
        chars.len()
    } else {
        match taken {
            Some(n) => {
                proof {
                    lemma_first_occurring(delims, chars@, end as int, 0);
                }
                end + n
            },
            None => end + 1,
        }
    };
    assert(rest_from as int == after_separator(delims, chars@, end as int));
    let name = slice_of(text, start, end);
    let args = if config.trim_rest {
        let (a, b) = trim_bounds(&chars, rest_from);
        slice_of(text, a, b)
    } else {
        slice_of(text, rest_from, chars.len())
    };
    Some(Invocation { name, args })
}

} // verus!
