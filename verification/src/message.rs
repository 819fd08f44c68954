//! Discord message formatting through serenity's `MessageBuilder`.
//!
//! Each wrapper hands the text built so far to a `MessageBuilder`, makes
//! one call, and takes the text back. Their contracts restate what
//! serenity 0.11's source does: plain text is appended unchanged, bold text
//! is framed by `**`, italic text by `_`, a line ends with `\n`, and a
//! mention of an id is `<@&id>` (role), `<#id>` (channel) or `<@id>` (user).
use vstd::prelude::*;
use serenity::utils::MessageBuilder;
use serenity::model::id::{ChannelId, RoleId, UserId};
use crate::text::decimal;

verus! {

/// `**`
pub open spec fn bold_mark() -> Seq<char> {
    seq!['*', '*']
}

/// `text` in bold.
pub open spec fn bold(text: Seq<char>) -> Seq<char> {
    bold_mark() + text + bold_mark()
}

/// `text` in italics.
pub open spec fn italic(text: Seq<char>) -> Seq<char> {
    seq!['_'] + text + seq!['_']
}

/// A line feed.
pub open spec fn newline() -> Seq<char> {
    seq!['\n']
}

/// How Discord writes a mention of the role `id`.
pub open spec fn role_mention(id: u64) -> Seq<char> {
    seq!['<', '@', '&'] + decimal(id as nat) + seq!['>']
}

/// How Discord writes a mention of the channel `id`.
pub open spec fn channel_mention(id: u64) -> Seq<char> {
    seq!['<', '#'] + decimal(id as nat) + seq!['>']
}

/// How Discord writes a mention of the user `id`.
pub open spec fn user_mention(id: u64) -> Seq<char> {
    seq!['<', '@'] + decimal(id as nat) + seq!['>']
}

/// serenity's `MessageBuilder::push`: appends `text` unchanged.
#[verifier::external_body]
pub(crate) fn push(message: String, text: &str) -> (res: String)
    ensures
        res@ == message@ + text@,
{
    let mut builder = MessageBuilder(message);
    builder.push(text);
    builder.0
}

/// serenity's `MessageBuilder::push_line`: appends `text` and a line feed.
#[verifier::external_body]
pub(crate) fn push_line(message: String, text: &str) -> (res: String)
    ensures
        res@ == message@ + text@ + newline(),
{
    let mut builder = MessageBuilder(message);
    builder.push_line(text);
    builder.0
}

/// serenity's `MessageBuilder::push_bold`: appends `**text**`.
#[verifier::external_body]
pub(crate) fn push_bold(message: String, text: &str) -> (res: String)
    ensures
        res@ == message@ + bold(text@),
{
    let mut builder = MessageBuilder(message);
    builder.push_bold(text);
    builder.0
}

/// serenity's `MessageBuilder::push_bold_line`: appends `**text**` and a line
/// feed.
#[verifier::external_body]
pub(crate) fn push_bold_line(message: String, text: &str) -> (res: String)
    ensures
        res@ == message@ + bold(text@) + newline(),
{
    let mut builder = MessageBuilder(message);
    builder.push_bold_line(text);
    builder.0
}

/// serenity's `MessageBuilder::push_italic`: appends `_text_`.
#[verifier::external_body]
pub(crate) fn push_italic(message: String, text: &str) -> (res: String)
    ensures
        res@ == message@ + italic(text@),
{
    let mut builder = MessageBuilder(message);
    builder.push_italic(text);
    builder.0
}

/// serenity's `MessageBuilder::push_italic_line`: appends `_text_` and a line
/// feed.
#[verifier::external_body]
pub(crate) fn push_italic_line(message: String, text: &str) -> (res: String)
    ensures
        res@ == message@ + italic(text@) + newline(),
{
    let mut builder = MessageBuilder(message);
    builder.push_italic_line(text);
    builder.0
}

/// serenity's `MessageBuilder::mention` of a `RoleId`: appends `<@&id>`.
#[verifier::external_body]
pub(crate) fn push_role_mention(message: String, id: u64) -> (res: String)
    ensures
        res@ == message@ + role_mention(id),
{
    let mut builder = MessageBuilder(message);
    builder.mention(&RoleId(id));
    builder.0
}

/// serenity's `MessageBuilder::mention` of a `ChannelId`: appends `<#id>`.
#[verifier::external_body]
pub(crate) fn push_channel_mention(message: String, id: u64) -> (res: String)
    ensures
        res@ == message@ + channel_mention(id),
{
    let mut builder = MessageBuilder(message);
    builder.mention(&ChannelId(id));
    builder.0
}

/// serenity's `MessageBuilder::mention` of a user (`UserId`): appends `<@id>`.
#[verifier::external_body]
pub(crate) fn push_user_mention(message: String, id: u64) -> (res: String)
    ensures
        res@ == message@ + user_mention(id),
{
    let mut builder = MessageBuilder(message);
    builder.mention(&UserId(id));
    builder.0
}

} // verus!
