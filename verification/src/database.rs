//! The descriptions that `help` lists: one per command, read from a text
//! file of `name;description` lines.
use vstd::prelude::*;
use crate::text::{lines, lines_of, str_views, find_char};
use crate::message::{push, push_bold_line, push_line, bold, newline};

verus! {

/// A description entry as text: the command's name and its description.
pub type EntryView = (Seq<char>, Seq<char>);

/// The views of a sequence of entries.
pub open spec fn pair_views(v: Seq<(String, String)>) -> Seq<EntryView> {
    v.map_values(|p: (String, String)| (p.0@, p.1@))
}

/// No command name occurs twice.
pub open spec fn keys_unique(es: Seq<EntryView>) -> bool {
    forall|i: int, j: int| 0 <= i < j < es.len() ==> es[i].0 != es[j].0
}

/// The map that inserting the entries one after the other gives: a later
/// description of a command replaces an earlier one.
pub open spec fn entries_map(es: Seq<EntryView>) -> Map<Seq<char>, Seq<char>>
    decreases es.len(),
{
    if es.len() == 0 {
        Map::empty()
    } else {
        entries_map(es.drop_last()).insert(es.last().0, es.last().1)
    }
}

/// The entry that a line of the descriptions file gives: the text before
/// the first separator is the name, the text after it the description.
pub open spec fn description_entry(line: Seq<char>, separator: char) -> Option<EntryView> {
    match line.index_of_first(separator) {
        Some(p) => Some((line.take(p), line.skip(p + 1))),
        None => None,
    }
}

/// The entries of all lines, or `None` if some line lacks the separator.
pub open spec fn description_entries(ls: Seq<Seq<char>>, separator: char) -> Option<Seq<EntryView>>
    decreases ls.len(),
{
    if ls.len() == 0 {
        Some(Seq::empty())
    } else {
        match (description_entries(ls.drop_last(), separator), description_entry(ls.last(), separator)) {
            (Some(es), Some(e)) => Some(es.push(e)),
            _ => None,
        }
    }
}

/// The error a descriptions file with a line that lacks the separator gives.
pub open spec fn syntax_error(file_path: Seq<char>) -> Seq<char> {
    "Syntax error while retrieving a hashmap from a file, "@ + file_path
}

/// Whether reading the descriptions in `content` with `separator` can go
/// on past its first line: the description is what follows a `;`, so a
/// first line that holds another separator cannot be read.
pub open spec fn separator_usable(separator: char, content: Seq<char>) -> bool {
    separator == ';' || lines(content).len() == 0 || !lines(content)[0].contains(separator)
}

/// Reads the entries of a descriptions file whose text is `content`, one
/// per line; `file_path` names the file in the error.
pub fn parse_descriptions(separator: char, content: &str, file_path: &str) -> (res: Result<Vec<(String, String)>, String>)
    requires
        separator_usable(separator, content@),
    ensures
        match res {
            Ok(v) => description_entries(lines(content@), separator) == Some(pair_views(v@)),
            Err(e) => description_entries(lines(content@), separator) is None && e@ == syntax_error(file_path@),
        },
{
    let ls = lines_of(content);
    let ghost lv = lines(content@);
    let n = ls.len();
    let mut res: Vec<(String, String)> = Vec::new();
    let mut i: usize = 0;
    while i < n
        invariant
            i <= n,
            n == ls@.len(),
            str_views(ls@) == lv,
            lv == lines(content@),
            description_entries(lv.take(i as int), separator) == Some(pair_views(res@)),
        decreases n - i,
    {
        let line = ls[i];
        let ghost t = lv.take(i + 1);
        assert(t.drop_last() =~= lv.take(i as int));
        assert(t.last() == line@);
        match find_char(line, separator) {
            None => {
                let mut msg = String::from_str("Syntax error while retrieving a hashmap from a file, ");
                msg.append(file_path);
                proof {
                    lemma_entries_fail_extends(lv, i as int + 1, separator);
                    assert(lv.take(n as int) =~= lv);
                }
                return Err(msg);
            },
            Some(p) => {
                let len = line.unicode_len();
                let name = String::from_str(line.substring_char(0, p));
                let description = String::from_str(line.substring_char(p + 1, len));
                let ghost before = res@;
                res.push((name, description));
                proof {
                    assert(line@.take(p as int) =~= name@);
                    assert(line@.skip(p + 1) =~= description@);
                    assert(pair_views(res@) =~= pair_views(before).push((name@, description@)));
                }
            },
        }
        i = i + 1;
    }
    assert(lv.take(n as int) =~= lv);
    Ok(res)
}

/// A line `name;description` whose name holds no separator gives that name
/// and the whole rest of the line, commas and further separators included.
pub proof fn lemma_description_entry_split(name: Seq<char>, separator: char, description: Seq<char>)
    requires
        !name.contains(separator),
    ensures
        description_entry(name + seq![separator] + description, separator) == Some((name, description)),
{
    let line = name + seq![separator] + description;
    line.index_of_first_ensures(separator);
    assert(line[name.len() as int] == separator);
    let k = line.index_of_first(separator).unwrap();
    if k < name.len() {
        assert(line[k] == name[k]);
    }
    assert(k == name.len());
    assert(line.take(k) =~= name);
    assert(line.skip(k + 1) =~= description);
}

/// A descriptions file made of one row `name;description` reads as that
/// single entry, whatever the description holds.
pub proof fn lemma_description_file_of_one_row(name: Seq<char>, separator: char, description: Seq<char>)
    requires
        !name.contains(separator),
        crate::text::plain_line(name + seq![separator] + description),
    ensures
        description_entries(
            lines(crate::text::terminated(seq![name + seq![separator] + description])),
            separator,
        ) == Some(seq![(name, description)]),
{
    let row = name + seq![separator] + description;
    let rows = seq![row];
    assert forall|i: int| 0 <= i < rows.len() implies crate::text::plain_line(#[trigger] rows[i]) by {}
    crate::text::lemma_lines_of_terminated(rows);
    lemma_description_entry_split(name, separator, description);
    assert(rows.drop_last() =~= Seq::<Seq<char>>::empty());
    assert(rows.last() == row);
    assert(description_entries(rows.drop_last(), separator) == Some(Seq::<EntryView>::empty()));
    assert(Seq::<EntryView>::empty().push((name, description)) =~= seq![(name, description)]);
}

/// Once a prefix of the lines cannot be read, no longer prefix can.
proof fn lemma_entries_fail_extends(ls: Seq<Seq<char>>, k: int, separator: char)
    requires
        0 <= k <= ls.len(),
        description_entries(ls.take(k), separator) is None,
    ensures
        description_entries(ls, separator) is None,
    decreases ls.len() - k,
{
    if k < ls.len() {
        let t = ls.take(k + 1);
        assert(t.drop_last() =~= ls.take(k));
        lemma_entries_fail_extends(ls, k + 1, separator);
    } else {
        assert(ls.take(k) =~= ls);
    }
}


/// Replacing the description of a command that occurs once changes only
/// that command's entry of the map.
proof fn lemma_entries_map_update(es: Seq<EntryView>, j: int, v: Seq<char>)
    requires
        keys_unique(es),
        0 <= j < es.len(),
    ensures
        entries_map(es.update(j, (es[j].0, v))) == entries_map(es).insert(es[j].0, v),
    decreases es.len(),
{
    let k = es[j].0;
    let es2 = es.update(j, (k, v));
    if j == es.len() - 1 {
        assert(es2.drop_last() =~= es.drop_last());
        assert(entries_map(es2) =~= entries_map(es).insert(k, v));
    } else {
        assert(es2.drop_last() =~= es.drop_last().update(j, (k, v)));
        lemma_entries_map_update(es.drop_last(), j, v);
        assert(es.last().0 != k);
        assert(entries_map(es2) =~= entries_map(es).insert(k, v));
    }
}

/// When every command is described once, the described commands are
/// exactly the names of the entries, each with the description beside it:
/// `help` lists the whole map, once per command.
pub proof fn lemma_unique_entries_map(es: Seq<EntryView>)
    requires
        keys_unique(es),
    ensures
        forall|j: int| 0 <= j < es.len() ==> #[trigger] entries_map(es).contains_key(es[j].0)
            && entries_map(es)[es[j].0] == es[j].1,
        forall|k: Seq<char>| #[trigger] entries_map(es).contains_key(k) ==> exists|j: int|
            0 <= j < es.len() && es[j].0 == k,
    decreases es.len(),
{
    if es.len() > 0 {
        let p = es.drop_last();
        assert(keys_unique(p));
        lemma_unique_entries_map(p);
        assert forall|j: int| 0 <= j < es.len() implies #[trigger] entries_map(es).contains_key(es[j].0)
            && entries_map(es)[es[j].0] == es[j].1 by {
            if j < es.len() - 1 {
                assert(es[j] == p[j]);
                assert(es[j].0 != es.last().0);
                assert(entries_map(p).contains_key(p[j].0));
            }
        }
        assert forall|k: Seq<char>| #[trigger] entries_map(es).contains_key(k) implies exists|j: int|
            0 <= j < es.len() && es[j].0 == k by {
            if k != es.last().0 {
                assert(entries_map(p).contains_key(k));
                let j = choose|j: int| 0 <= j < p.len() && p[j].0 == k;
                assert(es[j] == p[j]);
            } else {
                assert(es[es.len() - 1].0 == k);
            }
        }
    }
}

/// The description a command ends up with is the one given last for it.
pub proof fn lemma_last_description_wins(es: Seq<EntryView>, name: Seq<char>, description: Seq<char>)
    ensures
        entries_map(es.push((name, description)))[name] == description,
        entries_map(es.push((name, description))).contains_key(name),
{
    assert(es.push((name, description)).drop_last() =~= es);
}

/// The descriptions of the commands, one entry per command name.
pub struct CommandDescriptions {
    descriptions: Vec<(String, String)>,
}

impl View for CommandDescriptions {
    type V = Seq<EntryView>;

    /// The entries, in the order `help` lists them.
    closed spec fn view(&self) -> Seq<EntryView> {
        pair_views(self.descriptions@)
    }
}

/// The lines `help` gives for the entries: the name, a colon and the
/// description in bold.
pub open spec fn description_lines(es: Seq<EntryView>) -> Seq<char>
    decreases es.len(),
{
    if es.len() == 0 {
        Seq::empty()
    } else {
        description_lines(es.drop_last()) + es.last().0 + ": "@ + bold(es.last().1) + newline()
    }
}

impl CommandDescriptions {
    /// No command is described twice.
    #[verifier::type_invariant]
    spec fn names_unique(self) -> bool {
        keys_unique(pair_views(self.descriptions@))
    }

    /// The descriptions given by `command_descriptions`, where a later entry
    /// for a command replaces an earlier one.
    pub fn new(command_descriptions: Vec<(String, String)>) -> (res: CommandDescriptions)
        ensures
            keys_unique(res@),
            entries_map(res@) == entries_map(pair_views(command_descriptions@)),
    {
        let ghost input = pair_views(command_descriptions@);
        let mut entries: Vec<(String, String)> = Vec::new();
        let n = command_descriptions.len();
        let mut i: usize = 0;
        while i < n
            invariant
                i <= n,
                n == command_descriptions@.len(),
                input == pair_views(command_descriptions@),
                keys_unique(pair_views(entries@)),
                entries_map(pair_views(entries@)) == entries_map(input.take(i as int)),
            decreases n - i,
        {
            let name = command_descriptions[i].0.clone();
            let description = command_descriptions[i].1.clone();
            let ghost es = pair_views(entries@);
            let ghost t = input.take(i + 1);
            assert(t.drop_last() =~= input.take(i as int));
            assert(t.last() == (name@, description@));
            let m = entries.len();
            let mut j: usize = 0;
            let mut found = false;
            while j < m && !found
                invariant
                    j <= m,
                    m == entries@.len(),
                    es == pair_views(entries@),
                    found ==> j < m && es[j as int].0 == name@,
                    forall|q: int| 0 <= q < j ==> es[q].0 != name@,
                decreases m - j + (if found { 0int } else { 1int }),
            {
                if entries[j].0 == name {
                    found = true;
                } else {
                    j = j + 1;
                }
            }
            if found {
                entries.set(j, (name, description));
                proof {
                    assert(es[j as int].0 == name@);
                    lemma_entries_map_update(es, j as int, description@);
                    assert(pair_views(entries@) =~= es.update(j as int, (name@, description@)));
                    assert(keys_unique(pair_views(entries@)));
                }
            } else {
                entries.push((name, description));
                assert(pair_views(entries@) =~= es.push((name@, description@)));
                assert(pair_views(entries@).drop_last() =~= es);
                assert(keys_unique(pair_views(entries@)));
            }
            i = i + 1;
        }
        assert(input.take(n as int) =~= input);
        CommandDescriptions { descriptions: entries }
    }

    /// What `help` answers: a heading, then one line per command.
    pub fn help_message(&self) -> (res: String)
        ensures
            res@ == "These are command descriptions: "@ + newline() + description_lines(self@),
    {
        let mut res = push_line(String::new(), "These are command descriptions: ");
        let ghost head = res@;
        let n = self.descriptions.len();
        let mut i: usize = 0;
        while i < n
            invariant
                i <= n,
                n == self.descriptions@.len(),
                res@ == head + description_lines(pair_views(self.descriptions@.take(i as int))),
            decreases n - i,
        {
            let entry = &self.descriptions[i];
            res = push(res, entry.0.as_str());
            res = push(res, ": ");
            res = push_bold_line(res, entry.1.as_str());
            proof {
                let es = pair_views(self.descriptions@.take(i + 1));
                assert(es.drop_last() =~= pair_views(self.descriptions@.take(i as int)));
                assert(es.last() == (entry.0@, entry.1@));
                assert(res@ =~= head + description_lines(es));
            }
            i = i + 1;
        }
        assert(self.descriptions@.take(n as int) =~= self.descriptions@);
        res
    }
}

} // verus!
