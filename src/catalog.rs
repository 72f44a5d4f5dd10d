//! Category browsing: the legacy numeric category labels, the positioned
//! category hierarchy with its static descriptions, and the listing of a
//! category's commands through its groups.

use vstd::prelude::*;
use vstd::seq_lib::*;
use vstd::string::*;
use crate::model::{
    ApiResponse, BasicCategory, BasicCategoryRow, BasicCommandRow, BasicGroupRow, Command,
};
use crate::order::{lemma_map_permutation, sort_by, sorted_by, total_preorder};
use crate::text::{
    chars_of, display_name, display_name_of, lemma_text_le_total, lemma_text_le_transitive,
    text_eq, text_le, text_le_exec,
};

verus! {

/// Display name of a legacy numeric category; unknown ids show as "Other".
pub open spec fn legacy_category_name(category: i64) -> Seq<char> {
    match category {
        1 => "Miscellaneous"@,
        2 => "System information"@,
        3 => "System control"@,
        4 => "Users & Groups"@,
        5 => "Files & Folders"@,
        6 => "Games"@,
        7 => "Input"@,
        8 => "Printing"@,
        9 => "JSON"@,
        10 => "Network"@,
        11 => "Search & Find"@,
        12 => "GIT"@,
        13 => "SSH"@,
        14 => "Video & Audio"@,
        15 => "Package manager"@,
        16 => "Hacking tools"@,
        17 => "Terminal games"@,
        18 => "Crypto currencies"@,
        19 => "VIM Texteditor"@,
        20 => "Emacs Texteditor"@,
        21 => "Nano Texteditor"@,
        22 => "Pico Texteditor"@,
        23 => "Micro Texteditor"@,
        _ => "Other"@,
    }
}

/// Display name of a legacy numeric category.
pub fn category_label(category: i64) -> (r: &'static str)
    ensures
        r@ == legacy_category_name(category),
{
    match category {
        1 => "Miscellaneous",
        2 => "System information",
        3 => "System control",
        4 => "Users & Groups",
        5 => "Files & Folders",
        6 => "Games",
        7 => "Input",
        8 => "Printing",
        9 => "JSON",
        10 => "Network",
        11 => "Search & Find",
        12 => "GIT",
        13 => "SSH",
        14 => "Video & Audio",
        15 => "Package manager",
        16 => "Hacking tools",
        17 => "Terminal games",
        18 => "Crypto currencies",
        19 => "VIM Texteditor",
        20 => "Emacs Texteditor",
        21 => "Nano Texteditor",
        22 => "Pico Texteditor",
        23 => "Micro Texteditor",
        _ => "Other",
    }
}

/// The static description of a browsing category with this title, if any.
pub open spec fn title_description(title: Seq<char>) -> Option<Seq<char>> {
    if title == "One-liners"@ {
        Some("Useful linux command line one liners"@)
    } else if title == "System information"@ {
        Some("System and battery/cpu/memory/disk usage info on Linux"@)
    } else if title == "System control"@ {
        Some("Lock, unlock, start/stop bluetooth/wifi, shutdown, reboot system"@)
    } else if title == "Users & Groups"@ {
        Some("Create, delete, user, group, list, info"@)
    } else if title == "Files & Folders"@ {
        Some("File and directory operations"@)
    } else if title == "Input"@ {
        Some("Move, click, mouse, type, text, xdotool, ydotool, read, copy, clipboard"@)
    } else if title == "Printing"@ {
        Some("Printer management and printing commands"@)
    } else if title == "JSON"@ {
        Some("JSON processing and manipulation tools"@)
    } else if title == "Network"@ {
        Some("Network configuration and tools"@)
    } else if title == "Search & Find"@ {
        Some("Search and find files and content"@)
    } else if title == "GIT"@ {
        Some("Git version control commands"@)
    } else if title == "SSH"@ {
        Some("SSH connection and key management"@)
    } else if title == "Video & Audio"@ {
        Some("Video and audio processing tools"@)
    } else if title == "Package manager"@ {
        Some("Package management commands"@)
    } else if title == "Hacking tools"@ {
        Some("Security testing and hacking tools"@)
    } else if title == "Terminal games"@ {
        Some("Games that run in the terminal"@)
    } else if title == "Crypto currencies"@ {
        Some("Cryptocurrency related commands"@)
    } else if title == "VIM Texteditor"@ {
        Some("VIM text editor commands and shortcuts"@)
    } else if title == "Emacs Texteditor"@ {
        Some("Emacs text editor commands and shortcuts"@)
    } else if title == "Nano Texteditor"@ {
        Some("Nano text editor commands and shortcuts"@)
    } else if title == "Pico Texteditor"@ {
        Some("Pico text editor commands and shortcuts"@)
    } else if title == "Micro Texteditor"@ {
        Some("Micro text editor commands and shortcuts"@)
    } else {
        None
    }
}

/// `d` is the static description of the title `t`, or absent where it has
/// none.
pub open spec fn describes(d: Option<String>, t: Seq<char>) -> bool {
    match d {
        Some(x) => title_description(t) == Some(x@),
        None => title_description(t) is None,
    }
}

fn is_title(t: &Vec<char>, title: &str) -> (r: bool)
    ensures
        r == (t@ == title@),
{
    text_eq(t, &chars_of(title))
}

/// The static description of a browsing category with this title, if any.
pub fn category_description(title: &str) -> (r: Option<String>)
    ensures
        describes(r, title@),
{
    let t = chars_of(title);
    if is_title(&t, "One-liners") {
        Some(String::from_str("Useful linux command line one liners"))
    } else if is_title(&t, "System information") {
        Some(String::from_str("System and battery/cpu/memory/disk usage info on Linux"))
    } else if is_title(&t, "System control") {
        Some(String::from_str("Lock, unlock, start/stop bluetooth/wifi, shutdown, reboot system"))
    } else if is_title(&t, "Users & Groups") {
        Some(String::from_str("Create, delete, user, group, list, info"))
    } else if is_title(&t, "Files & Folders") {
        Some(String::from_str("File and directory operations"))
    } else if is_title(&t, "Input") {
        Some(String::from_str("Move, click, mouse, type, text, xdotool, ydotool, read, copy, clipboard"))
    } else if is_title(&t, "Printing") {
        Some(String::from_str("Printer management and printing commands"))
    } else if is_title(&t, "JSON") {
        Some(String::from_str("JSON processing and manipulation tools"))
    } else if is_title(&t, "Network") {
        Some(String::from_str("Network configuration and tools"))
    } else if is_title(&t, "Search & Find") {
        Some(String::from_str("Search and find files and content"))
    } else if is_title(&t, "GIT") {
        Some(String::from_str("Git version control commands"))
    } else if is_title(&t, "SSH") {
        Some(String::from_str("SSH connection and key management"))
    } else if is_title(&t, "Video & Audio") {
        Some(String::from_str("Video and audio processing tools"))
    } else if is_title(&t, "Package manager") {
        Some(String::from_str("Package management commands"))
    } else if is_title(&t, "Hacking tools") {
        Some(String::from_str("Security testing and hacking tools"))
    } else if is_title(&t, "Terminal games") {
        Some(String::from_str("Games that run in the terminal"))
    } else if is_title(&t, "Crypto currencies") {
        Some(String::from_str("Cryptocurrency related commands"))
    } else if is_title(&t, "VIM Texteditor") {
        Some(String::from_str("VIM text editor commands and shortcuts"))
    } else if is_title(&t, "Emacs Texteditor") {
        Some(String::from_str("Emacs text editor commands and shortcuts"))
    } else if is_title(&t, "Nano Texteditor") {
        Some(String::from_str("Nano text editor commands and shortcuts"))
    } else if is_title(&t, "Pico Texteditor") {
        Some(String::from_str("Pico text editor commands and shortcuts"))
    } else if is_title(&t, "Micro Texteditor") {
        Some(String::from_str("Micro text editor commands and shortcuts"))
    } else {
        None
    }
}

/// Categories in ascending position.
pub open spec fn position_order() -> spec_fn(BasicCategoryRow, BasicCategoryRow) -> bool {
    |a: BasicCategoryRow, b: BasicCategoryRow| a.position <= b.position
}

/// `s` holds the rows of `rows` in ascending position.
pub open spec fn is_position_ordering(s: Seq<BasicCategoryRow>, rows: Seq<BasicCategoryRow>) -> bool {
    sorted_by(s, position_order()) && s.to_multiset() == rows.to_multiset()
}

fn rows_by_position(rows: &Vec<BasicCategoryRow>) -> (r: Vec<BasicCategoryRow>)
    ensures
        is_position_ordering(r@, rows@),
{
    let mut copy: Vec<BasicCategoryRow> = Vec::new();
    let mut i: usize = 0;
    while i < rows.len()
        invariant
            i <= rows@.len(),
            copy@ == rows@.take(i as int),
        decreases rows@.len() - i,
    {
        copy.push(rows[i].duplicate());
        i += 1;
        assert(copy@ =~= rows@.take(i as int));
    }
    assert(rows@.take(rows@.len() as int) =~= rows@);
    sort_by(
        copy,
        &(|a: &BasicCategoryRow, b: &BasicCategoryRow| -> (r: bool)
            ensures
                r == (a.position <= b.position),
            { a.position <= b.position }),
        Ghost(position_order()),
    )
}

/// The titles of the browsing categories, in ascending position.
pub fn category_titles(rows: &Vec<BasicCategoryRow>) -> (r: Vec<String>)
    ensures
        exists|s: Seq<BasicCategoryRow>|
            {
                &&& #[trigger] is_position_ordering(s, rows@)
                &&& r@.len() == s.len()
                &&& forall|i: int| 0 <= i < s.len() ==> (#[trigger] r@[i])@ == s[i].title@
            },
{
    let sorted = rows_by_position(rows);
    let mut titles: Vec<String> = Vec::new();
    let mut i: usize = 0;
    while i < sorted.len()
        invariant
            i <= sorted@.len(),
            titles@.len() == i,
            forall|k: int| 0 <= k < i ==> (#[trigger] titles@[k])@ == sorted@[k].title@,
        decreases sorted@.len() - i,
    {
        titles.push(sorted[i].title.clone());
        i += 1;
    }
    titles
}

/// `c` presents the category row `row`, with its static description and no
/// icon.
pub open spec fn presents(c: BasicCategory, row: BasicCategoryRow) -> bool {
    &&& c.id == row.id
    &&& c.title@ == row.title@
    &&& c.position == row.position
    &&& describes(c.description, row.title@)
    &&& c.icon is None
}

/// The browsing categories in ascending position, each with its static
/// description where its title has one, and no icon.
pub fn categories_detailed(rows: &Vec<BasicCategoryRow>) -> (r: Vec<BasicCategory>)
    ensures
        exists|s: Seq<BasicCategoryRow>|
            {
                &&& #[trigger] is_position_ordering(s, rows@)
                &&& r@.len() == s.len()
                &&& forall|i: int| 0 <= i < s.len() ==> presents(#[trigger] r@[i], s[i])
            },
{
    let sorted = rows_by_position(rows);
    let mut out: Vec<BasicCategory> = Vec::new();
    let mut i: usize = 0;
    while i < sorted.len()
        invariant
            i <= sorted@.len(),
            out@.len() == i,
            forall|k: int| 0 <= k < i ==> presents(#[trigger] out@[k], sorted@[k]),
        decreases sorted@.len() - i,
    {
        let row = &sorted[i];
        out.push(
            BasicCategory {
                id: row.id,
                title: row.title.clone(),
                position: row.position,
                description: category_description(row.title.as_str()),
                icon: None,
            },
        );
        i += 1;
    }
    out
}

/// The id of the first browsing category titled `title`, if any.
pub open spec fn category_id_for(rows: Seq<BasicCategoryRow>, title: Seq<char>) -> Option<i64>
    decreases rows.len(),
{
    if rows.len() == 0 {
        None
    } else if rows[0].title@ == title {
        Some(rows[0].id)
    } else {
        category_id_for(rows.drop_first(), title)
    }
}

/// The id of the first browsing category titled `title`, if any.
pub fn find_category_id(rows: &Vec<BasicCategoryRow>, title: &str) -> (r: Option<i64>)
    ensures
        r == category_id_for(rows@, title@),
{
    let t = chars_of(title);
    let mut i: usize = 0;
    assert(rows@.skip(0) =~= rows@);
    while i < rows.len()
        invariant
            i <= rows@.len(),
            t@ == title@,
            category_id_for(rows@, title@) == category_id_for(rows@.skip(i as int), title@),
        decreases rows@.len() - i,
    {
        assert(rows@.skip(i as int)[0] == rows@[i as int]);
        assert(rows@.skip(i as int).drop_first() =~= rows@.skip(i + 1));
        if text_eq(&chars_of(rows[i].title.as_str()), &t) {
            return Some(rows[i].id);
        }
        i += 1;
    }
    None
}

/// Joined row of a command and one of its groups.
pub type Entry = (BasicCommandRow, BasicGroupRow);

/// The groups that join `bc` under the category `cid`.
pub open spec fn group_test(bc: BasicCommandRow, cid: i64) -> spec_fn(BasicGroupRow) -> bool {
    |g: BasicGroupRow| g.id == bc.group_id && g.category_id == cid
}

/// Pairs `bc` with a group.
pub open spec fn pair_with(bc: BasicCommandRow) -> spec_fn(BasicGroupRow) -> Entry {
    |g: BasicGroupRow| (bc, g)
}

/// The commands of category `cid`, each paired with its group, in row
/// order.
pub open spec fn joined_rows(
    commands: Seq<BasicCommandRow>,
    groups: Seq<BasicGroupRow>,
    cid: i64,
) -> Seq<Entry>
    decreases commands.len(),
{
    if commands.len() == 0 {
        Seq::empty()
    } else {
        joined_rows(commands.drop_last(), groups, cid) + groups.filter(
            group_test(commands.last(), cid),
        ).map_values(pair_with(commands.last()))
    }
}

/// Entries in ascending order of their full command text.
pub open spec fn command_text_order() -> spec_fn(Entry, Entry) -> bool {
    |a: Entry, b: Entry| text_le(a.0.command@, b.0.command@)
}

/// `c` lists the entry `e`: the command's id, the first line of its text,
/// trimmed, as its name, the group's description, and no legacy category.
pub open spec fn lists_entry(c: Command, e: Entry) -> bool {
    &&& c.id == e.0.id
    &&& c.name@ == display_name(e.0.command@)
    &&& c.category == 0
    &&& c.description@ == e.1.description@
}

/// `r` lists `entries` in ascending order of command text.
pub open spec fn is_category_listing(r: Seq<Command>, entries: Seq<Entry>) -> bool {
    exists|s: Seq<Entry>|
        {
            &&& sorted_by(s, command_text_order())
            &&& #[trigger] s.to_multiset() == entries.to_multiset()
            &&& r.len() == s.len()
            &&& forall|i: int| 0 <= i < r.len() ==> lists_entry(#[trigger] r[i], s[i])
        }
}

/// The message of a browsing request for an unknown category.
pub open spec fn unknown_category_message(title: Seq<char>) -> Seq<char> {
    "Category '"@ + title + "' not found"@
}

struct Listed {
    key: Vec<char>,
    row: BasicCommandRow,
    group: BasicGroupRow,
}

spec fn entry_of() -> spec_fn(Listed) -> Entry {
    |x: Listed| (x.row, x.group)
}

spec fn listed_le(a: Listed, b: Listed) -> bool {
    text_le(a.key@, b.key@)
}

proof fn lemma_listed_le_total_preorder()
    ensures
        total_preorder(|a: Listed, b: Listed| listed_le(a, b)),
{
    assert forall|a: Listed, b: Listed| listed_le(a, b) || listed_le(b, a) by {
        lemma_text_le_total(a.key@, b.key@);
    }
    assert forall|a: Listed, b: Listed, c: Listed|
        listed_le(a, b) && listed_le(b, c) implies listed_le(a, c) by {
        lemma_text_le_transitive(a.key@, b.key@, c.key@);
    }
}

fn join_category(
    groups: &Vec<BasicGroupRow>,
    commands: &Vec<BasicCommandRow>,
    cid: i64,
) -> (r: Vec<Listed>)
    ensures
        r@.map_values(entry_of()) == joined_rows(commands@, groups@, cid),
        forall|k: int| 0 <= k < r@.len() ==> (#[trigger] r@[k]).key@ == r@[k].row.command@,
{
    let mut listed: Vec<Listed> = Vec::new();
    let mut i: usize = 0;
    while i < commands.len()
        invariant
            i <= commands@.len(),
            listed@.map_values(entry_of()) == joined_rows(commands@.take(i as int), groups@, cid),
            forall|k: int|
                0 <= k < listed@.len() ==> (#[trigger] listed@[k]).key@ == listed@[k].row.command@,
        decreases commands@.len() - i,
    {
        let bc = &commands[i];
        let ghost base = listed@.map_values(entry_of());
        let mut j: usize = 0;
        while j < groups.len()
            invariant
                j <= groups@.len(),
                *bc == commands@[i as int],
                listed@.map_values(entry_of()) == base + groups@.take(j as int).filter(
                    group_test(*bc, cid),
                ).map_values(pair_with(*bc)),
                forall|k: int|
                    0 <= k < listed@.len() ==> (#[trigger] listed@[k]).key@
                        == listed@[k].row.command@,
            decreases groups@.len() - j,
        {
            let g = &groups[j];
            let ghost prev = listed@;
            let ghost part = groups@.take(j as int).filter(group_test(*bc, cid));
            proof {
                assert(groups@.take(j + 1) =~= groups@.take(j as int).push(groups@[j as int]));
                groups@.take(j as int).lemma_filter_push(groups@[j as int], group_test(*bc, cid));
            }
            if g.id == bc.group_id && g.category_id == cid {
                listed.push(
                    Listed { key: chars_of(bc.command.as_str()), row: bc.duplicate(), group: g.duplicate() },
                );
                assert(listed@.map_values(entry_of()) =~= prev.map_values(entry_of()).push(
                    (*bc, *g),
                ));
                assert(part.push(*g).map_values(pair_with(*bc)) =~= part.map_values(
                    pair_with(*bc),
                ).push((*bc, *g)));
            }
            j += 1;
        }
        proof {
            assert(groups@.take(groups@.len() as int) =~= groups@);
            let t = commands@.take(i + 1);
            assert(t.drop_last() =~= commands@.take(i as int));
            assert(t.last() == commands@[i as int]);
        }
        i += 1;
    }
    assert(commands@.take(commands@.len() as int) =~= commands@);
    listed
}

/// The commands of the browsing category titled `title`: each command of
/// each of its groups, in ascending order of the command's full text, named
/// by the first line of that text, trimmed, and described by its group. An
/// unknown title is no error: the listing is empty and the message says
/// that the category was not found.
pub fn commands_by_category(
    title: &str,
    categories: &Vec<BasicCategoryRow>,
    groups: &Vec<BasicGroupRow>,
    commands: &Vec<BasicCommandRow>,
) -> (r: ApiResponse<Vec<Command>>)
    ensures
        r.success,
        r.data is Some,
        match category_id_for(categories@, title@) {
            None => {
                &&& r.data->0@.len() == 0
                &&& r.message is Some
                &&& r.message->0@ == unknown_category_message(title@)
            },
            Some(cid) => {
                &&& r.message is None
                &&& is_category_listing(r.data->0@, joined_rows(commands@, groups@, cid))
            },
        },
{
    broadcast use group_to_multiset_ensures;

    let cid = match find_category_id(categories, title) {
        Some(id) => id,
        None => {
            let mut message = String::from_str("Category '");
            message.append(title);
            message.append("' not found");
            return ApiResponse { success: true, data: Some(Vec::new()), message: Some(message) };
        },
    };
    let listed = join_category(groups, commands, cid);
    let ghost entries = listed@;
    proof {
        lemma_listed_le_total_preorder();
    }
    let sorted = sort_by(
        listed,
        &(|a: &Listed, b: &Listed| -> (r: bool)
            ensures
                r == listed_le(*a, *b),
            { text_le_exec(&a.key, &b.key) }),
        Ghost(|a: Listed, b: Listed| listed_le(a, b)),
    );
    let ghost ss = sorted@;
    let ghost s = ss.map_values(entry_of());
    proof {
        lemma_map_permutation(ss, entries, entry_of());
        assert forall|k: int| 0 <= k < ss.len() implies (#[trigger] ss[k]).key@
            == ss[k].row.command@ by {
            assert(ss.to_multiset().count(ss[k]) > 0);
            assert(entries.contains(ss[k]));
        }
        assert forall|p: int, q: int| 0 <= p < q < s.len() implies (command_text_order())(
            #[trigger] s[p],
            #[trigger] s[q],
        ) by {
            assert(ss[p].key@ == ss[p].row.command@ && ss[q].key@ == ss[q].row.command@);
            assert(listed_le(ss[p], ss[q]));
        }
    }
    let mut out: Vec<Command> = Vec::new();
    let mut k: usize = 0;
    while k < sorted.len()
        invariant
            k <= sorted@.len(),
            ss == sorted@,
            s == ss.map_values(entry_of()),
            out@.len() == k,
            forall|m: int| 0 <= m < k ==> lists_entry(#[trigger] out@[m], s[m]),
        decreases sorted@.len() - k,
    {
        let x = &sorted[k];
        out.push(
            Command {
                id: x.row.id,
                name: display_name_of(x.row.command.as_str()),
                category: 0,
                description: x.group.description.clone(),
            },
        );
        k += 1;
    }
    assert(is_category_listing(out@, joined_rows(commands@, groups@, cid)));
    ApiResponse::ok(out)
}

} // verus!
