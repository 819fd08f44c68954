//! The decisions and replies of the bot's commands: usage texts, the check
//! that precedes setting a role or channel, and the replies that report it.
use vstd::prelude::*;
use crate::text::{parse_u64_spec, parse_u64};
use crate::guild::{strip_mention, strip_mention_spec};
use crate::text::{string_views, contains_text_spec, lemma_contains_text_of_split, lemma_contains_text_extend};
use crate::message::{
    push, push_bold, push_bold_line, push_line, push_role_mention, push_channel_mention,
    push_user_mention, bold, role_mention, channel_mention, user_mention,
};

verus! {

// ---------------------------------------------------------------------------
// Setting a role or the log channel
// ---------------------------------------------------------------------------

/// What a command that sets a role or the log channel does with the
/// guild's current setting and the argument it was given.
pub enum AssignmentPlan {
    /// A value is already set (the text here); it is left as it is.
    AlreadyAssigned(String),
    /// No argument was given.
    MissingArgument,
    /// The argument is neither an id nor a mention of one.
    InvalidId,
    /// The id to store.
    Assign(u64),
}

/// The id a command argument names: a bare id, or the id inside a role or
/// user mention.
pub open spec fn argument_id(argument: Seq<char>) -> Option<u64> {
    parse_u64_spec(strip_mention_spec(argument))
}

/// Reads the id that a command argument names.
pub fn parse_id_argument(argument: &str) -> (res: Option<u64>)
    ensures
        res == argument_id(argument@),
{
    parse_u64(strip_mention(argument))
}

/// Decides what `add` does for a role or the log channel: an existing
/// setting is kept; otherwise the argument must name an id.
pub fn plan_assignment(current: Option<&str>, argument: Option<&str>) -> (res: AssignmentPlan)
    ensures
        match current {
            Some(c) => res matches AssignmentPlan::AlreadyAssigned(id) && id@ == c@,
            None => match argument {
                None => res is MissingArgument,
                Some(a) => match argument_id(a@) {
                    Some(n) => res == AssignmentPlan::Assign(n),
                    None => res is InvalidId,
                },
            },
        },
{
    match current {
        Some(c) => AssignmentPlan::AlreadyAssigned(String::from_str(c)),
        None => match argument {
            None => AssignmentPlan::MissingArgument,
            Some(a) => match parse_id_argument(a) {
                Some(n) => AssignmentPlan::Assign(n),
                None => AssignmentPlan::InvalidId,
            },
        },
    }
}

/// The reply when the guild already has a moderated role.
pub fn moderated_role_taken_message(id: &str) -> (res: String)
    ensures
        res@ == "Guild already has one role to moderate!: "@ + bold(id@),
{
    let r = push(String::new(), "Guild already has one role to moderate!: ");
    push_bold(r, id)
}

/// The reply when the guild already has a basic role.
pub fn basic_role_taken_message(id: &str) -> (res: String)
    ensures
        res@ == "Guild already has basic role: "@ + bold(id@),
{
    let r = push(String::new(), "Guild already has basic role: ");
    push_bold(r, id)
}

/// The reply when the guild already has a log channel.
pub fn log_channel_taken_message(id: &str) -> (res: String)
    ensures
        res@ == "Guild already has log channel: "@ + bold(id@),
{
    let r = push(String::new(), "Guild already has log channel: ");
    push_bold(r, id)
}

/// The reply once role `id` is moderated.
pub fn moderated_role_set_message(id: u64) -> (res: String)
    ensures
        res@ == "Role "@ + role_mention(id) + " is now under surveilence"@,
{
    let r = push(String::new(), "Role ");
    let r = push_role_mention(r, id);
    push(r, " is now under surveilence")
}

/// The reply once role `id` is the basic role.
pub fn basic_role_set_message(id: u64) -> (res: String)
    ensures
        res@ == "Role "@ + role_mention(id) + " is now a basic role."@,
{
    let r = push(String::new(), "Role ");
    let r = push_role_mention(r, id);
    push(r, " is now a basic role.")
}

/// The reply once channel `id` receives the logs.
pub fn log_channel_set_message(id: u64) -> (res: String)
    ensures
        res@ == "I will now send logs on channel "@ + channel_mention(id),
{
    let r = push(String::new(), "I will now send logs on channel ");
    push_channel_mention(r, id)
}

// ---------------------------------------------------------------------------
// General commands
// ---------------------------------------------------------------------------

/// What `make_sandwich` answers the user `author`.
pub fn sandwich_message(author: u64) -> (res: String)
    ensures
        res@ == user_mention(author) + bold(" Here is your sandwich"@),
{
    let r = push_user_mention(String::new(), author);
    push_bold(r, " Here is your sandwich")
}

/// What the bot answers the user `author` on a command it does not know.
pub fn unknown_command_message(author: u64) -> (res: String)
    ensures
        res@ == user_mention(author) + " stop mumbling. I don't understand."@,
{
    let r = push_user_mention(String::new(), author);
    push(r, " stop mumbling. I don't understand.")
}

/// Each word preceded by one space.
pub open spec fn spaced(words: Seq<Seq<char>>) -> Seq<char>
    decreases words.len(),
{
    if words.len() == 0 {
        Seq::empty()
    } else {
        spaced(words.drop_last()) + seq![' '] + words.last()
    }
}

/// `say` repeats every word after a space, whatever came before it: adding
/// a word at the end adds exactly a space and that word.
pub proof fn lemma_spaced_push(words: Seq<Seq<char>>, w: Seq<char>)
    ensures
        spaced(words.push(w)) == spaced(words) + seq![' '] + w,
{
    assert(words.push(w).drop_last() =~= words);
}

/// Adding a word at the front adds exactly a space and that word at the
/// front.
pub proof fn lemma_spaced_prepend(w: Seq<char>, words: Seq<Seq<char>>)
    ensures
        spaced(seq![w] + words) == seq![' '] + w + spaced(words),
    decreases words.len(),
{
    if words.len() == 0 {
        assert((seq![w] + words).drop_last() =~= Seq::<Seq<char>>::empty());
        assert((seq![w] + words).last() == w);
        assert(spaced(seq![w] + words) == spaced(Seq::<Seq<char>>::empty()) + seq![' '] + w);
        assert(spaced(seq![w] + words) =~= seq![' '] + w + spaced(words));
    } else {
        let p = words.drop_last();
        lemma_spaced_prepend(w, p);
        assert((seq![w] + words).drop_last() =~= seq![w] + p);
        assert((seq![w] + words).last() == words.last());
        assert(spaced(words) == spaced(p) + seq![' '] + words.last());
        assert(spaced(seq![w] + words) == spaced(seq![w] + p) + seq![' '] + words.last());
        assert(spaced(seq![w] + words) =~= seq![' '] + w + spaced(words));
    }
}

/// The total length of the words, each counted with its space.
pub open spec fn spaced_len(words: Seq<Seq<char>>) -> int
    decreases words.len(),
{
    if words.len() == 0 {
        0
    } else {
        spaced_len(words.drop_last()) + 1 + words.last().len()
    }
}

/// What `say` repeats is as long as all the words plus one space for each.
pub proof fn lemma_spaced_length(words: Seq<Seq<char>>)
    ensures
        spaced(words).len() == spaced_len(words),
    decreases words.len(),
{
    if words.len() > 0 {
        lemma_spaced_length(words.drop_last());
    }
}

/// Every word occurs in what `say` repeats, right after a space.
pub proof fn lemma_spaced_keeps_every_word(words: Seq<Seq<char>>)
    ensures
        forall|i: int| 0 <= i < words.len() ==> contains_text_spec(
            spaced(words),
            seq![' '] + #[trigger] words[i],
        ),
    decreases words.len(),
{
    if words.len() > 0 {
        let p = words.drop_last();
        lemma_spaced_keeps_every_word(p);
        assert forall|i: int| 0 <= i < words.len() implies contains_text_spec(
            spaced(words),
            seq![' '] + #[trigger] words[i],
        ) by {
            let w = seq![' '] + words[i];
            if i == words.len() - 1 {
                lemma_contains_text_of_split(spaced(p), w, Seq::<char>::empty());
                assert(spaced(p) + w + Seq::<char>::empty() =~= spaced(words));
            } else {
                assert(words[i] == p[i]);
                assert(contains_text_spec(spaced(p), w));
                lemma_contains_text_extend(spaced(p), w, seq![' '] + words.last());
                assert(spaced(p) + (seq![' '] + words.last()) =~= spaced(words));
            }
        }
    }
}

/// What `say` repeats: every argument, each preceded by a space.
pub fn say_message(words: &Vec<String>) -> (res: String)
    ensures
        res@ == spaced(string_views(words@)),
{
    let mut res = String::new();
    let n = words.len();
    let mut i: usize = 0;
    while i < n
        invariant
            i <= n,
            n == words@.len(),
            res@ == spaced(string_views(words@.take(i as int))),
        decreases n - i,
    {
        res.append(" ");
        res.append(words[i].as_str());
        proof {
            reveal_strlit(" ");
            let ws = string_views(words@.take(i + 1));
            assert(ws.drop_last() =~= string_views(words@.take(i as int)));
            assert(ws.last() == words@[i as int]@);
            assert(res@ =~= spaced(ws));
        }
        i = i + 1;
    }
    assert(words@.take(n as int) =~= words@);
    res
}

// ---------------------------------------------------------------------------
// Usage texts of the command groups
// ---------------------------------------------------------------------------

/// What `banned_words` without a subcommand answers.
pub fn banned_words_usage() -> (res: String)
    ensures
        res@ == "You need to specify what you want to do, dumbass!\nYou can use:\n> banned_words **add {words}**\n> banned_words **remove {words}**\n> banned_words **show**\n"@,
{
    let mut r = push_line(String::new(), "You need to specify what you want to do, dumbass!");
    r = push_line(r, "You can use:");
    r = push(r, "> banned_words ");
    r = push_bold_line(r, "add {words}");
    r = push(r, "> banned_words ");
    r = push_bold_line(r, "remove {words}");
    r = push(r, "> banned_words ");
    r = push_bold_line(r, "show");
    proof {
        reveal_strlit("You need to specify what you want to do, dumbass!");
        reveal_strlit("You can use:");
        reveal_strlit("> banned_words ");
        reveal_strlit("add {words}");
        reveal_strlit("remove {words}");
        reveal_strlit("show");
        reveal_strlit(
            "You need to specify what you want to do, dumbass!\nYou can use:\n> banned_words **add {words}**\n> banned_words **remove {words}**\n> banned_words **show**\n",
        );
    }
    assert(r@ =~= "You need to specify what you want to do, dumbass!\nYou can use:\n> banned_words **add {words}**\n> banned_words **remove {words}**\n> banned_words **show**\n"@);
    r
}

/// What `moderated_role` without a subcommand answers.
pub fn moderated_role_usage() -> (res: String)
    ensures
        res@ == "You need to specify what to do, dumbass!\nYou can use:\n> moderated_role **add {role id/role ping}**\n> moderated_role **remove {role id/role ping}**\n"@,
{
    let mut r = String::new();
    r = push_line(r, "You need to specify what to do, dumbass!");
    r = push_line(r, "You can use:");
    r = push(r, "> moderated_role ");
    r = push_bold_line(r, "add {role id/role ping}");
    r = push(r, "> moderated_role ");
    r = push_bold_line(r, "remove {role id/role ping}");
    proof {
        reveal_strlit("You need to specify what to do, dumbass!");
        reveal_strlit("You can use:");
        reveal_strlit("> moderated_role ");
        reveal_strlit("add {role id/role ping}");
        reveal_strlit("remove {role id/role ping}");
        reveal_strlit("You need to specify what to do, dumbass!\nYou can use:\n> moderated_role **add {role id/role ping}**\n> moderated_role **remove {role id/role ping}**\n");
    }
    assert(r@ =~= "You need to specify what to do, dumbass!\nYou can use:\n> moderated_role **add {role id/role ping}**\n> moderated_role **remove {role id/role ping}**\n"@);
    r
}

/// What `basic_role` without a subcommand answers.
pub fn basic_role_usage() -> (res: String)
    ensures
        res@ == "You need to specify what to do, dumbass!\nYou can use:\n> basic_role **add {role id/role ping}**\n> basic_role **remove {role id/role ping}**\n> basic_role **show {role id/role ping}**\n"@,
{
    let mut r = String::new();
    r = push_line(r, "You need to specify what to do, dumbass!");
    r = push_line(r, "You can use:");
    r = push(r, "> basic_role ");
    r = push_bold_line(r, "add {role id/role ping}");
    r = push(r, "> basic_role ");
    r = push_bold_line(r, "remove {role id/role ping}");
    r = push(r, "> basic_role ");
    r = push_bold_line(r, "show {role id/role ping}");
    proof {
        reveal_strlit("You need to specify what to do, dumbass!");
        reveal_strlit("You can use:");
        reveal_strlit("> basic_role ");
        reveal_strlit("add {role id/role ping}");
        reveal_strlit("remove {role id/role ping}");
        reveal_strlit("show {role id/role ping}");
        reveal_strlit("You need to specify what to do, dumbass!\nYou can use:\n> basic_role **add {role id/role ping}**\n> basic_role **remove {role id/role ping}**\n> basic_role **show {role id/role ping}**\n");
    }
    assert(r@ =~= "You need to specify what to do, dumbass!\nYou can use:\n> basic_role **add {role id/role ping}**\n> basic_role **remove {role id/role ping}**\n> basic_role **show {role id/role ping}**\n"@);
    r
}

/// What `logs` without a subcommand answers.
pub fn logs_usage() -> (res: String)
    ensures
        res@ == "You need to specify what to do, dumbass!\nYou can use:\n> logs **add {channel id/channel ping}**\n> logs **remove {channel id/channel ping}**\n> logs **show {channel id/channel ping}**\n"@,
{
    let mut r = String::new();
    r = push_line(r, "You need to specify what to do, dumbass!");
    r = push_line(r, "You can use:");
    r = push(r, "> logs ");
    r = push_bold_line(r, "add {channel id/channel ping}");
    r = push(r, "> logs ");
    r = push_bold_line(r, "remove {channel id/channel ping}");
    r = push(r, "> logs ");
    r = push_bold_line(r, "show {channel id/channel ping}");
    proof {
        reveal_strlit("You need to specify what to do, dumbass!");
        reveal_strlit("You can use:");
        reveal_strlit("> logs ");
        reveal_strlit("add {channel id/channel ping}");
        reveal_strlit("remove {channel id/channel ping}");
        reveal_strlit("show {channel id/channel ping}");
        reveal_strlit("You need to specify what to do, dumbass!\nYou can use:\n> logs **add {channel id/channel ping}**\n> logs **remove {channel id/channel ping}**\n> logs **show {channel id/channel ping}**\n");
    }
    assert(r@ =~= "You need to specify what to do, dumbass!\nYou can use:\n> logs **add {channel id/channel ping}**\n> logs **remove {channel id/channel ping}**\n> logs **show {channel id/channel ping}**\n"@);
    r
}

/// What `server` without a subcommand answers.
pub fn server_usage() -> (res: String)
    ensures
        res@ == "You need to specify what you want to do, dumbass!\nYou can use:\n> server **describe**\n"@,
{
    let mut r = String::new();
    r = push_line(r, "You need to specify what you want to do, dumbass!");
    r = push_line(r, "You can use:");
    r = push(r, "> server ");
    r = push_bold_line(r, "describe");
    proof {
        reveal_strlit("You need to specify what you want to do, dumbass!");
        reveal_strlit("You can use:");
        reveal_strlit("> server ");
        reveal_strlit("describe");
        reveal_strlit("You need to specify what you want to do, dumbass!\nYou can use:\n> server **describe**\n");
    }
    assert(r@ =~= "You need to specify what you want to do, dumbass!\nYou can use:\n> server **describe**\n"@);
    r
}

} // verus!
