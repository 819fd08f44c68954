//! The moderation settings the bot keeps for one guild (Discord server), and
//! the parsing of role and channel mentions given as command arguments.
use vstd::prelude::*;
use crate::text::{
    chars_of, decimal, parse_u64_spec, lemma_parse_decimal, string_views, contains_text_spec,
    lemma_contains_text_of_split, lemma_contains_text_extend, lemma_contains_text_prepend,
};
use crate::message::{
    push, push_bold, push_bold_line, push_italic, push_italic_line, push_line, bold, italic,
    newline, role_mention, user_mention,
};

verus! {

/// The view of an optional string.
pub open spec fn opt_view(o: Option<String>) -> Option<Seq<char>> {
    match o {
        Some(s) => Some(s@),
        None => None,
    }
}

/// What a `GuildDescription` holds, as plain text values.
pub struct GuildView {
    pub guild_id: Seq<char>,
    pub moderated_role_id: Option<Seq<char>>,
    pub basic_role_id: Option<Seq<char>>,
    pub log_channel_id: Option<Seq<char>>,
    pub banned_words: Seq<Seq<char>>,
}

/// The settings of one guild: the role whose members are moderated, the
/// role given to new members, the channel that receives moderation logs,
/// and the banned words.
#[derive(Debug)]
pub struct GuildDescription {
    guild_id: String,
    moderated_role_id: Option<String>,
    basic_role_id: Option<String>,
    log_channel_id: Option<String>,
    banned_words: Vec<String>,
}

impl View for GuildDescription {
    type V = GuildView;

    closed spec fn view(&self) -> GuildView {
        GuildView {
            guild_id: self.guild_id@,
            moderated_role_id: opt_view(self.moderated_role_id),
            basic_role_id: opt_view(self.basic_role_id),
            log_channel_id: opt_view(self.log_channel_id),
            banned_words: string_views(self.banned_words@),
        }
    }
}

/// The placeholder role id that a newly registered guild starts with.
pub open spec fn placeholder_role() -> Seq<char> {
    seq!['E', 'R', 'R']
}

/// `words` without the first occurrence of `word`, if there is one.
pub open spec fn remove_first(words: Seq<Seq<char>>, word: Seq<char>) -> Seq<Seq<char>> {
    match words.index_of_first(word) {
        Some(i) => words.remove(i),
        None => words,
    }
}

/// The banned-word list as it is shown: one quoted bold line per word.
pub open spec fn word_lines(words: Seq<Seq<char>>) -> Seq<char>
    decreases words.len(),
{
    if words.len() == 0 {
        Seq::empty()
    } else {
        word_lines(words.drop_last()) + "> "@ + bold(words.last()) + newline()
    }
}

/// A setting as `describe` shows it: the id in bold, or `None` in italics,
/// then a line feed.
pub open spec fn setting_line(value: Option<Seq<char>>) -> Seq<char> {
    match value {
        Some(id) => bold(id) + newline(),
        None => italic("None"@) + newline(),
    }
}

/// A setting as the `show` commands give it: the id in bold, or `None` in
/// italics.
pub open spec fn setting_text(value: Option<Seq<char>>) -> Seq<char> {
    match value {
        Some(id) => bold(id),
        None => italic("None"@),
    }
}

/// The full description of a guild's settings.
pub open spec fn description_text(g: GuildView) -> Seq<char> {
    "Guild id: "@ + bold(g.guild_id) + newline() + "Id of moderated role: "@ + setting_line(
        g.moderated_role_id,
    ) + "Id of basic role: "@ + setting_line(g.basic_role_id) + "List of banned words: "@
        + newline() + if g.banned_words.len() == 0 {
        italic("None"@) + newline()
    } else {
        word_lines(g.banned_words)
    }
}

/// Appends `value` as `setting_line` writes it.
fn push_setting_line(message: String, value: Option<&str>) -> (res: String)
    ensures
        res@ == message@ + setting_line(
            match value {
                Some(v) => Some(v@),
                None => None,
            },
        ),
{
    match value {
        Some(id) => push_bold_line(message, id),
        None => push_italic_line(message, "None"),
    }
}

/// Appends `value` as `setting_text` writes it.
fn push_setting_text(message: String, value: Option<&str>) -> (res: String)
    ensures
        res@ == message@ + setting_text(
            match value {
                Some(v) => Some(v@),
                None => None,
            },
        ),
{
    match value {
        Some(id) => push_bold(message, id),
        None => push_italic(message, "None"),
    }
}

/// Appends one quoted bold line per word.
fn push_word_lines(message: String, words: &Vec<String>) -> (res: String)
    ensures
        res@ == message@ + word_lines(string_views(words@)),
{
    let mut res = message;
    let n = words.len();
    let mut i: usize = 0;
    while i < n
        invariant
            i <= n,
            n == words@.len(),
            res@ == message@ + word_lines(string_views(words@.take(i as int))),
        decreases n - i,
    {
        res = push(res, "> ");
        res = push_bold_line(res, words[i].as_str());
        proof {
            let ws = string_views(words@.take(i + 1));
            assert(ws.drop_last() =~= string_views(words@.take(i as int)));
            assert(ws.last() == words@[i as int]@);
            assert(res@ =~= message@ + word_lines(ws));
        }
        i = i + 1;
    }
    assert(words@.take(n as int) =~= words@);
    res
}


/// What `strip_mention` makes of `m`: a role mention `<@&id>` or a user
/// mention `<@id>` gives the text between the marks; any other text is kept.
pub open spec fn strip_mention_spec(m: Seq<char>) -> Seq<char> {
    if m.len() >= 4 && m.take(3) == seq!['<', '@', '&'] && m.last() == '>' {
        m.subrange(3, m.len() - 1)
    } else if m.len() >= 3 && m.take(2) == seq!['<', '@'] && m.last() == '>' {
        m.subrange(2, m.len() - 1)
    } else {
        m
    }
}

/// Takes the id out of a role mention (`<@&id>`) or a user mention
/// (`<@id>`); anything else, such as a bare id, comes back unchanged.
pub fn strip_mention(mention: &str) -> (res: &str)
    ensures
        res@ == strip_mention_spec(mention@),
{
    let c = chars_of(mention);
    let n = c.len();
    if n >= 4 && c[0] == '<' && c[1] == '@' && c[2] == '&' && c[n - 1] == '>' {
        assert(mention@.take(3) =~= seq!['<', '@', '&']);
        return mention.substring_char(3, n - 1);
    }
    if n >= 3 && c[0] == '<' && c[1] == '@' && c[n - 1] == '>' {
        assert(mention@.take(2) =~= seq!['<', '@']);
        assert(!(mention@.len() >= 4 && mention@.take(3) == seq!['<', '@', '&'])) by {
            if mention@.len() >= 4 && mention@.take(3) == seq!['<', '@', '&'] {
                assert(mention@.take(3)[2] == c[2]);
            }
        }
        return mention.substring_char(2, n - 1);
    }
    assert(!(mention@.len() >= 4 && mention@.take(3) == seq!['<', '@', '&'] && mention@.last() == '>')) by {
        if mention@.len() >= 4 && mention@.take(3) == seq!['<', '@', '&'] && mention@.last() == '>' {
            assert(mention@.take(3)[0] == c[0]);
            assert(mention@.take(3)[1] == c[1]);
            assert(mention@.take(3)[2] == c[2]);
        }
    }
    assert(!(mention@.len() >= 3 && mention@.take(2) == seq!['<', '@'] && mention@.last() == '>')) by {
        if mention@.len() >= 3 && mention@.take(2) == seq!['<', '@'] && mention@.last() == '>' {
            assert(mention@.take(2)[0] == c[0]);
            assert(mention@.take(2)[1] == c[1]);
        }
    }
    mention
}

/// Pinging a role gives back exactly the role's id: stripping the mention
/// that Discord writes for role `id` leaves its decimal text, which reads
/// back as `id`.
pub proof fn lemma_role_mention_round_trip(id: u64)
    ensures
        strip_mention_spec(role_mention(id)) == decimal(id as nat),
        parse_u64_spec(strip_mention_spec(role_mention(id))) == Some(id),
{
    let m = role_mention(id);
    crate::text::lemma_decimal_digits(id as nat);
    assert(m.take(3) =~= seq!['<', '@', '&']);
    assert(m.subrange(3, m.len() - 1) =~= decimal(id as nat));
    lemma_parse_decimal(id);
}

/// Pinging a user gives back exactly the user's id.
pub proof fn lemma_user_mention_round_trip(id: u64)
    ensures
        strip_mention_spec(user_mention(id)) == decimal(id as nat),
        parse_u64_spec(strip_mention_spec(user_mention(id))) == Some(id),
{
    let m = user_mention(id);
    crate::text::lemma_decimal_digits(id as nat);
    assert(m.take(2) =~= seq!['<', '@']);
    assert(m[2] == decimal(id as nat)[0]);
    assert(m.subrange(2, m.len() - 1) =~= decimal(id as nat));
    lemma_parse_decimal(id);
}

/// A bare id is left as it is.
pub proof fn lemma_plain_id_unchanged(id: u64)
    ensures
        strip_mention_spec(decimal(id as nat)) == decimal(id as nat),
{
    crate::text::lemma_decimal_digits(id as nat);
    let d = decimal(id as nat);
    assert(crate::text::is_digit(d[0]));
    if d.len() >= 3 {
        assert(d.take(2)[0] == d[0]);
        assert(d.take(3)[0] == d[0]);
    }
}

/// The line that shows one banned word.
pub open spec fn word_line(w: Seq<char>) -> Seq<char> {
    "> "@ + bold(w) + newline()
}

/// Every banned word has its own line in the list, and the list ends with
/// the line of the last word.
pub proof fn lemma_word_lines_show_every_word(words: Seq<Seq<char>>)
    ensures
        forall|i: int| 0 <= i < words.len() ==> contains_text_spec(word_lines(words), word_line(#[trigger] words[i])),
        words.len() > 0 ==> word_line(words.last()).is_suffix_of(word_lines(words)),
    decreases words.len(),
{
    if words.len() > 0 {
        let p = words.drop_last();
        lemma_word_lines_show_every_word(p);
        assert(word_lines(words) =~= word_lines(p) + word_line(words.last()));
        assert forall|i: int| 0 <= i < words.len() implies contains_text_spec(
            word_lines(words),
            word_line(#[trigger] words[i]),
        ) by {
            if i == words.len() - 1 {
                lemma_contains_text_of_split(word_lines(p), word_line(words[i]), Seq::<char>::empty());
                assert(word_lines(p) + word_line(words[i]) + Seq::<char>::empty() =~= word_lines(words));
            } else {
                assert(words[i] == p[i]);
                lemma_contains_text_extend(word_lines(p), word_line(words[i]), word_line(words.last()));
            }
        }
    }
}

/// What `describe` shows of the banned words: with none, the list ends in
/// an italic `None`; otherwise every word has its `> **word**` line, the
/// last word's line ends the description, and `None` is not what ends it.
/// The description always starts with the guild's id in bold.
pub proof fn lemma_description_lists_banned_words(g: GuildView)
    ensures
        ("Guild id: "@ + bold(g.guild_id) + newline()).is_prefix_of(description_text(g)),
        g.banned_words.len() == 0 ==> ("List of banned words: "@ + newline() + italic("None"@)
            + newline()).is_suffix_of(description_text(g)),
        forall|i: int| 0 <= i < g.banned_words.len() ==> contains_text_spec(
            description_text(g),
            word_line(#[trigger] g.banned_words[i]),
        ),
        g.banned_words.len() > 0 ==> word_line(g.banned_words.last()).is_suffix_of(description_text(g)),
{
    let head = "Guild id: "@ + bold(g.guild_id) + newline();
    let pre = head + "Id of moderated role: "@ + setting_line(g.moderated_role_id) + "Id of basic role: "@
        + setting_line(g.basic_role_id);
    let tail_head = "List of banned words: "@ + newline();
    let ws = g.banned_words;
    let list = if ws.len() == 0 {
        italic("None"@) + newline()
    } else {
        word_lines(ws)
    };
    assert(description_text(g) =~= head + ("Id of moderated role: "@ + setting_line(g.moderated_role_id)
        + "Id of basic role: "@ + setting_line(g.basic_role_id) + tail_head + list));
    assert(description_text(g) =~= (pre + tail_head) + list);
    if ws.len() == 0 {
        assert(description_text(g) =~= pre + (tail_head + italic("None"@) + newline()));
    } else {
        lemma_word_lines_show_every_word(ws);
        assert forall|i: int| 0 <= i < ws.len() implies contains_text_spec(
            description_text(g),
            word_line(#[trigger] ws[i]),
        ) by {
            lemma_contains_text_prepend(pre + tail_head, word_lines(ws), word_line(ws[i]));
        }
        let l = word_line(ws.last());
        let wl = word_lines(ws);
        assert(description_text(g).subrange(description_text(g).len() - l.len(), description_text(g).len() as int)
            =~= wl.subrange(wl.len() - l.len(), wl.len() as int));
    }
}

/// Banning a word that is not yet banned and then lifting the ban again
/// leaves the banned words as they were.
pub proof fn lemma_add_then_remove_word(words: Seq<Seq<char>>, word: Seq<char>)
    requires
        !words.contains(word),
    ensures
        remove_first(words.push(word), word) == words,
{
    let ws = words.push(word);
    ws.index_of_first_ensures(word);
    assert(ws[words.len() as int] == word);
    let k = ws.index_of_first(word).unwrap();
    if k < words.len() {
        assert(words[k] == word);
    }
    assert(k == words.len());
    assert(ws.remove(k) =~= words);
}

/// Lifting the ban on a word removes its first occurrence wherever it
/// stands, and keeps everything before and after it in order.
pub proof fn lemma_remove_first_occurrence(a: Seq<Seq<char>>, word: Seq<char>, b: Seq<Seq<char>>)
    requires
        !a.contains(word),
    ensures
        remove_first(a.push(word) + b, word) == a + b,
{
    let ws = a.push(word) + b;
    ws.index_of_first_ensures(word);
    assert(ws[a.len() as int] == word);
    let k = ws.index_of_first(word).unwrap();
    if k < a.len() {
        assert(ws[k] == a[k]);
    }
    assert(k == a.len());
    assert(ws.remove(k) =~= a + b);
}

/// Lifting the ban on a word that is not banned changes nothing.
pub proof fn lemma_remove_absent_word(words: Seq<Seq<char>>, word: Seq<char>)
    requires
        !words.contains(word),
    ensures
        remove_first(words, word) == words,
{
    words.index_of_first_ensures(word);
}

impl GuildDescription {
    /// The settings as they are stored for a guild that is already known.
    pub fn from_record(
        guild_id: String,
        moderated_role_id: Option<String>,
        basic_role_id: Option<String>,
        log_channel_id: Option<String>,
        banned_words: Vec<String>,
    ) -> (res: GuildDescription)
        ensures
            res@ == (GuildView {
                guild_id: guild_id@,
                moderated_role_id: opt_view(moderated_role_id),
                basic_role_id: opt_view(basic_role_id),
                log_channel_id: opt_view(log_channel_id),
                banned_words: string_views(banned_words@),
            }),
    {
        GuildDescription { guild_id, moderated_role_id, basic_role_id, log_channel_id, banned_words }
    }

    /// The settings of a guild seen for the first time: both roles hold the
    /// placeholder `ERR`, no log channel and no banned words.
    pub fn new_registered(guild_id: &str) -> (res: GuildDescription)
        ensures
            res@ == (GuildView {
                guild_id: guild_id@,
                moderated_role_id: Some(placeholder_role()),
                basic_role_id: Some(placeholder_role()),
                log_channel_id: None,
                banned_words: Seq::empty(),
            }),
    {
        let err = "ERR";
        proof {
            reveal_strlit("ERR");
        }
        let moderated = String::from_str(err);
        let basic = String::from_str(err);
        let res = GuildDescription {
            guild_id: String::from_str(guild_id),
            moderated_role_id: Some(moderated),
            basic_role_id: Some(basic),
            log_channel_id: None,
            banned_words: Vec::new(),
        };
        assert(res@.banned_words =~= Seq::<Seq<char>>::empty());
        assert(err@ =~= placeholder_role());
        res
    }

    /// The guild's id.
    pub fn get_guild_id(&self) -> (res: &str)
        ensures
            res@ == self@.guild_id,
    {
        self.guild_id.as_str()
    }

    /// The id of the moderated role, if one is set.
    pub fn get_moderated_role_id(&self) -> (res: Option<&str>)
        ensures
            match res {
                Some(id) => self@.moderated_role_id == Some(id@),
                None => self@.moderated_role_id is None,
            },
    {
        match &self.moderated_role_id {
            Some(id) => Some(id.as_str()),
            None => None,
        }
    }

    /// The id of the role given to new members, if one is set.
    pub fn get_basic_role_id(&self) -> (res: Option<&str>)
        ensures
            match res {
                Some(id) => self@.basic_role_id == Some(id@),
                None => self@.basic_role_id is None,
            },
    {
        match &self.basic_role_id {
            Some(id) => Some(id.as_str()),
            None => None,
        }
    }

    /// The id of the channel that receives moderation logs, if one is set.
    pub fn get_log_channel_id(&self) -> (res: Option<&str>)
        ensures
            match res {
                Some(id) => self@.log_channel_id == Some(id@),
                None => self@.log_channel_id is None,
            },
    {
        match &self.log_channel_id {
            Some(id) => Some(id.as_str()),
            None => None,
        }
    }

    /// The banned words, in the order they were added.
    pub fn get_banned_words(&self) -> (res: &Vec<String>)
        ensures
            string_views(res@) == self@.banned_words,
    {
        &self.banned_words
    }

    /// Sets the moderated role.
    pub fn create_moderated_role(&mut self, moderated_role: String)
        ensures
            final(self)@.moderated_role_id == Some(moderated_role@),
            final(self)@.guild_id == old(self)@.guild_id,
            final(self)@.basic_role_id == old(self)@.basic_role_id,
            final(self)@.log_channel_id == old(self)@.log_channel_id,
            final(self)@.banned_words == old(self)@.banned_words,
    {
        self.moderated_role_id = Some(moderated_role);
    }

    /// Clears the moderated role.
    pub fn delete_moderated_role(&mut self)
        ensures
            final(self)@.moderated_role_id is None,
            final(self)@.guild_id == old(self)@.guild_id,
            final(self)@.basic_role_id == old(self)@.basic_role_id,
            final(self)@.log_channel_id == old(self)@.log_channel_id,
            final(self)@.banned_words == old(self)@.banned_words,
    {
        self.moderated_role_id = None;
    }

    /// Sets the role given to new members.
    pub fn create_basic_role(&mut self, basic_role: String)
        ensures
            final(self)@.basic_role_id == Some(basic_role@),
            final(self)@.guild_id == old(self)@.guild_id,
            final(self)@.moderated_role_id == old(self)@.moderated_role_id,
            final(self)@.log_channel_id == old(self)@.log_channel_id,
            final(self)@.banned_words == old(self)@.banned_words,
    {
        self.basic_role_id = Some(basic_role);
    }

    /// Clears the role given to new members.
    pub fn delete_basic_role(&mut self)
        ensures
            final(self)@.basic_role_id is None,
            final(self)@.guild_id == old(self)@.guild_id,
            final(self)@.moderated_role_id == old(self)@.moderated_role_id,
            final(self)@.log_channel_id == old(self)@.log_channel_id,
            final(self)@.banned_words == old(self)@.banned_words,
    {
        self.basic_role_id = None;
    }

    /// Sets the channel that receives moderation logs.
    pub fn create_log_channel(&mut self, log_channel: String)
        ensures
            final(self)@.log_channel_id == Some(log_channel@),
            final(self)@.guild_id == old(self)@.guild_id,
            final(self)@.moderated_role_id == old(self)@.moderated_role_id,
            final(self)@.basic_role_id == old(self)@.basic_role_id,
            final(self)@.banned_words == old(self)@.banned_words,
    {
        self.log_channel_id = Some(log_channel);
    }

    /// Clears the channel that receives moderation logs.
    pub fn delete_log_channel(&mut self)
        ensures
            final(self)@.log_channel_id is None,
            final(self)@.guild_id == old(self)@.guild_id,
            final(self)@.moderated_role_id == old(self)@.moderated_role_id,
            final(self)@.basic_role_id == old(self)@.basic_role_id,
            final(self)@.banned_words == old(self)@.banned_words,
    {
        self.log_channel_id = None;
    }

    /// Adds `word` at the end of the banned words.
    pub fn add_word_to_moderate(&mut self, word: String)
        ensures
            final(self)@.banned_words == old(self)@.banned_words.push(word@),
            final(self)@.guild_id == old(self)@.guild_id,
            final(self)@.moderated_role_id == old(self)@.moderated_role_id,
            final(self)@.basic_role_id == old(self)@.basic_role_id,
            final(self)@.log_channel_id == old(self)@.log_channel_id,
    {
        self.banned_words.push(word);
        assert(string_views(self.banned_words@) =~= string_views(old(self).banned_words@).push(
            self.banned_words@.last()@,
        ));
    }

    /// Removes the first banned word equal to `word`; nothing changes when
    /// `word` is not banned.
    pub fn remove_word_from_moderation(&mut self, word: &str)
        ensures
            final(self)@.banned_words == remove_first(old(self)@.banned_words, word@),
            final(self)@.guild_id == old(self)@.guild_id,
            final(self)@.moderated_role_id == old(self)@.moderated_role_id,
            final(self)@.basic_role_id == old(self)@.basic_role_id,
            final(self)@.log_channel_id == old(self)@.log_channel_id,
    {
        let target = String::from_str(word);
        let ghost ws = string_views(self.banned_words@);
        let n = self.banned_words.len();
        let mut i: usize = 0;
        while i < n
            invariant
                i <= n,
                n == self.banned_words@.len(),
                ws == string_views(self.banned_words@),
                *self == *old(self),
                target@ == word@,
                forall|j: int| 0 <= j < i ==> ws[j] != word@,
            decreases n - i,
        {
            if self.banned_words[i] == target {
                proof {
                    ws.index_of_first_ensures(word@);
                    assert(ws[i as int] == word@);
                    assert(ws.index_of_first(word@) == Some(i as int)) by {
                        let k = ws.index_of_first(word@).unwrap();
                        assert(ws.contains(word@));
                        if k < i {
                        } else if k > i {
                        }
                    }
                }
                self.banned_words.remove(i);
                assert(string_views(self.banned_words@) =~= ws.remove(i as int));
                return;
            }
            i = i + 1;
        }
        proof {
            ws.index_of_first_ensures(word@);
        }
    }

    /// The description `describe` shows: the guild id, both roles and the
    /// banned words.
    pub fn guild_description_msg(&self) -> (res: String)
        ensures
            res@ == description_text(self@),
    {
        let mut response = String::new();
        response = push(response, "Guild id: ");
        response = push_bold_line(response, self.get_guild_id());
        response = push(response, "Id of moderated role: ");
        response = push_setting_line(response, self.get_moderated_role_id());
        response = push(response, "Id of basic role: ");
        response = push_setting_line(response, self.get_basic_role_id());
        response = push_line(response, "List of banned words: ");
        let words = self.get_banned_words();
        if words.len() == 0 {
            response = push_italic_line(response, "None");
        } else {
            response = push_word_lines(response, words);
        }
        assert(response@ =~= description_text(self@));
        response
    }

    /// The list `banned_words show` gives.
    pub fn banned_words_message(&self) -> (res: String)
        ensures
            res@ == "List of banned words: "@ + newline() + word_lines(self@.banned_words),
    {
        let response = push_line(String::new(), "List of banned words: ");
        push_word_lines(response, &self.banned_words)
    }

    /// What `moderated_role show` answers.
    pub fn moderated_role_message(&self) -> (res: String)
        ensures
            res@ == "Moderated role: "@ + setting_text(self@.moderated_role_id),
    {
        let response = push(String::new(), "Moderated role: ");
        push_setting_text(response, self.get_moderated_role_id())
    }

    /// What `basic_role show` answers.
    pub fn basic_role_message(&self) -> (res: String)
        ensures
            res@ == "Basic role: "@ + setting_text(self@.basic_role_id),
    {
        let response = push(String::new(), "Basic role: ");
        push_setting_text(response, self.get_basic_role_id())
    }

    /// What `logs show` answers.
    pub fn log_channel_message(&self) -> (res: String)
        ensures
            res@ == "Log channel: "@ + setting_text(self@.log_channel_id),
    {
        let response = push(String::new(), "Log channel: ");
        push_setting_text(response, self.get_log_channel_id())
    }
}

} // verus!
