//! Command readers: the alphabetical listing, the popular sample, and the
//! detail of one command with its sections and its TLDR text.

use vstd::prelude::*;
use vstd::seq_lib::*;
use vstd::string::*;
use crate::envelope::status_of;
use crate::model::{AppError, Command, CommandDetail, CommandSection, CommandSectionRow};
use crate::order::{lemma_map_permutation, sort_by, sorted_by};
use crate::text::{chars_of, lemma_text_le_total, lemma_text_le_transitive, text_eq, text_le, text_le_exec};

verus! {

/// Commands in ascending order of name.
pub open spec fn name_order() -> spec_fn(Command, Command) -> bool {
    |a: Command, b: Command| text_le(a.name@, b.name@)
}

struct Named {
    key: Vec<char>,
    command: Command,
}

spec fn command_of() -> spec_fn(Named) -> Command {
    |x: Named| x.command
}

spec fn named_le(a: Named, b: Named) -> bool {
    text_le(a.key@, b.key@)
}

/// Every command of `rows`, in ascending order of name.
pub fn all_commands(rows: &Vec<Command>) -> (r: Vec<Command>)
    ensures
        sorted_by(r@, name_order()),
        r@.to_multiset() == rows@.to_multiset(),
{
    broadcast use group_to_multiset_ensures;

    let mut keyed: Vec<Named> = Vec::new();
    let mut i: usize = 0;
    while i < rows.len()
        invariant
            i <= rows@.len(),
            keyed@.len() == i,
            forall|k: int|
                0 <= k < keyed@.len() ==> (#[trigger] keyed@[k]).key@ == keyed@[k].command.name@
                    && keyed@[k].command == rows@[k],
        decreases rows@.len() - i,
    {
        keyed.push(Named { key: chars_of(rows[i].name.as_str()), command: rows[i].duplicate() });
        i += 1;
    }
    assert(keyed@.map_values(command_of()) =~= rows@);
    let ghost before = keyed@;
    proof {
        assert forall|a: Named, b: Named| named_le(a, b) || named_le(b, a) by {
            lemma_text_le_total(a.key@, b.key@);
        }
        assert forall|a: Named, b: Named, c: Named|
            named_le(a, b) && named_le(b, c) implies named_le(a, c) by {
            lemma_text_le_transitive(a.key@, b.key@, c.key@);
        }
    }
    let sorted = sort_by(
        keyed,
        &(|a: &Named, b: &Named| -> (r: bool)
            ensures
                r == named_le(*a, *b),
            { text_le_exec(&a.key, &b.key) }),
        Ghost(|a: Named, b: Named| named_le(a, b)),
    );
    let ghost ss = sorted@;
    let ghost s = ss.map_values(command_of());
    proof {
        lemma_map_permutation(ss, before, command_of());
        assert forall|k: int| 0 <= k < ss.len() implies (#[trigger] ss[k]).key@
            == ss[k].command.name@ by {
            assert(ss.to_multiset().count(ss[k]) > 0);
            assert(before.contains(ss[k]));
        }
        assert forall|p: int, q: int| 0 <= p < q < s.len() implies (name_order())(
            #[trigger] s[p],
            #[trigger] s[q],
        ) by {
            assert(named_le(ss[p], ss[q]));
        }
    }
    let mut out: Vec<Command> = Vec::new();
    let mut k: usize = 0;
    while k < sorted.len()
        invariant
            k <= sorted@.len(),
            ss == sorted@,
            s == ss.map_values(command_of()),
            out@ == s.take(k as int),
        decreases sorted@.len() - k,
    {
        out.push(sorted[k].command.duplicate());
        k += 1;
        assert(out@ =~= s.take(k as int));
    }
    assert(s.take(s.len() as int) =~= s);
    out
}

/// Rows sampled for the popular listing at most.
pub const POPULAR_LIMIT: usize = 20;

/// Legacy categories that the popular listing samples from.
pub open spec fn is_popular_category(category: i64) -> bool {
    category == 1 || category == 3 || category == 5 || category == 10
}

/// Draws in ascending order.
pub open spec fn draw_order() -> spec_fn((i64, Command), (i64, Command)) -> bool {
    |a: (i64, Command), b: (i64, Command)| a.0 <= b.0
}

/// Rows of a popular category.
pub open spec fn popular_test() -> spec_fn((i64, Command)) -> bool {
    |p: (i64, Command)| is_popular_category(p.1.category)
}

/// The popular listing: the commands of the popular categories, each with
/// a random draw, taken in ascending order of draw, at most
/// `POPULAR_LIMIT` of them. With independent uniform draws this samples
/// uniformly at random.
pub fn popular_commands(drawn: &Vec<(i64, Command)>) -> (r: Vec<Command>)
    ensures
        exists|s: Seq<(i64, Command)>|
            {
                &&& sorted_by(s, draw_order())
                &&& #[trigger] s.to_multiset() == drawn@.filter(popular_test()).to_multiset()
                &&& r@.len() == if s.len() < POPULAR_LIMIT {
                    s.len() as int
                } else {
                    POPULAR_LIMIT as int
                }
                &&& forall|i: int| 0 <= i < r@.len() ==> #[trigger] r@[i] == s[i].1
            },
{
    let mut picked: Vec<(i64, Command)> = Vec::new();
    let mut i: usize = 0;
    while i < drawn.len()
        invariant
            i <= drawn@.len(),
            picked@ == drawn@.take(i as int).filter(popular_test()),
        decreases drawn@.len() - i,
    {
        let p = &drawn[i];
        proof {
            assert(drawn@.take(i + 1) =~= drawn@.take(i as int).push(drawn@[i as int]));
            drawn@.take(i as int).lemma_filter_push(drawn@[i as int], popular_test());
        }
        if p.1.category == 1 || p.1.category == 3 || p.1.category == 5 || p.1.category == 10 {
            picked.push((p.0, p.1.duplicate()));
        }
        i += 1;
    }
    assert(drawn@.take(drawn@.len() as int) =~= drawn@);
    let sorted = sort_by(
        picked,
        &(|a: &(i64, Command), b: &(i64, Command)| -> (r: bool)
            ensures
                r == (a.0 <= b.0),
            { a.0 <= b.0 }),
        Ghost(draw_order()),
    );
    let n = if sorted.len() < POPULAR_LIMIT {
        sorted.len()
    } else {
        POPULAR_LIMIT
    };
    let mut out: Vec<Command> = Vec::new();
    let mut k: usize = 0;
    while k < n
        invariant
            k <= n <= sorted@.len(),
            out@.len() == k,
            forall|m: int| 0 <= m < k ==> #[trigger] out@[m] == sorted@[m].1,
        decreases n - k,
    {
        out.push(sorted[k].1.duplicate());
        k += 1;
    }
    out
}

/// The first command of `rows` with this id, if any.
pub open spec fn command_for(rows: Seq<Command>, id: i64) -> Option<Command>
    decreases rows.len(),
{
    if rows.len() == 0 {
        None
    } else if rows[0].id == id {
        Some(rows[0])
    } else {
        command_for(rows.drop_first(), id)
    }
}

/// The first command of `rows` with this id, if any.
pub fn find_command(rows: &Vec<Command>, id: i64) -> (r: Option<Command>)
    ensures
        r == command_for(rows@, id),
{
    let mut i: usize = 0;
    assert(rows@.skip(0) =~= rows@);
    while i < rows.len()
        invariant
            i <= rows@.len(),
            command_for(rows@, id) == command_for(rows@.skip(i as int), id),
        decreases rows@.len() - i,
    {
        assert(rows@.skip(i as int)[0] == rows@[i as int]);
        assert(rows@.skip(i as int).drop_first() =~= rows@.skip(i + 1));
        if rows[i].id == id {
            return Some(rows[i].duplicate());
        }
        i += 1;
    }
    None
}

/// Sections in ascending order of their stored id.
pub open spec fn section_id_order() -> spec_fn(CommandSectionRow, CommandSectionRow) -> bool {
    |a: CommandSectionRow, b: CommandSectionRow| a.id <= b.id
}

/// Sections of the command `id`, without the one titled `NAME`, and
/// without the one titled `TLDR` where `skip_tldr` holds.
pub open spec fn section_test(id: i64, skip_tldr: bool) -> spec_fn(CommandSectionRow) -> bool {
    |s: CommandSectionRow|
        s.command_id == id && s.title@ != "NAME"@ && !(skip_tldr && s.title@ == "TLDR"@)
}

/// `r` shows the section rows `s`, in the same order.
pub open spec fn shows_sections(r: Seq<CommandSection>, s: Seq<CommandSectionRow>) -> bool {
    &&& r.len() == s.len()
    &&& forall|i: int|
        0 <= i < r.len() ==> (#[trigger] r[i]).title@ == s[i].title@ && r[i].content@
            == s[i].content@
}

/// `r` shows the sections of `rows` that pass `test`, in ascending id.
pub open spec fn is_section_listing(
    r: Seq<CommandSection>,
    rows: Seq<CommandSectionRow>,
    test: spec_fn(CommandSectionRow) -> bool,
) -> bool {
    exists|s: Seq<CommandSectionRow>|
        {
            &&& sorted_by(s, section_id_order())
            &&& #[trigger] s.to_multiset() == rows.filter(test).to_multiset()
            &&& shows_sections(r, s)
        }
}

fn sections_where(rows: &Vec<CommandSectionRow>, id: i64, skip_tldr: bool) -> (r: Vec<
    CommandSection,
>)
    ensures
        is_section_listing(r@, rows@, section_test(id, skip_tldr)),
{
    let name = chars_of("NAME");
    let tldr = chars_of("TLDR");
    let mut picked: Vec<CommandSectionRow> = Vec::new();
    let mut i: usize = 0;
    while i < rows.len()
        invariant
            i <= rows@.len(),
            name@ == "NAME"@,
            tldr@ == "TLDR"@,
            picked@ == rows@.take(i as int).filter(section_test(id, skip_tldr)),
        decreases rows@.len() - i,
    {
        let row = &rows[i];
        proof {
            assert(rows@.take(i + 1) =~= rows@.take(i as int).push(rows@[i as int]));
            rows@.take(i as int).lemma_filter_push(rows@[i as int], section_test(id, skip_tldr));
        }
        if row.command_id == id {
            let title = chars_of(row.title.as_str());
            if !text_eq(&title, &name) && !(skip_tldr && text_eq(&title, &tldr)) {
                picked.push(
                    CommandSectionRow {
                        id: row.id,
                        command_id: row.command_id,
                        title: row.title.clone(),
                        content: row.content.clone(),
                    },
                );
            }
        }
        i += 1;
    }
    assert(rows@.take(rows@.len() as int) =~= rows@);
    let sorted = sort_by(
        picked,
        &(|a: &CommandSectionRow, b: &CommandSectionRow| -> (r: bool)
            ensures
                r == (a.id <= b.id),
            { a.id <= b.id }),
        Ghost(section_id_order()),
    );
    let mut out: Vec<CommandSection> = Vec::new();
    let mut k: usize = 0;
    while k < sorted.len()
        invariant
            k <= sorted@.len(),
            out@.len() == k,
            forall|m: int|
                0 <= m < k ==> (#[trigger] out@[m]).title@ == sorted@[m].title@ && out@[m].content@
                    == sorted@[m].content@,
        decreases sorted@.len() - k,
    {
        out.push(
            CommandSection { title: sorted[k].title.clone(), content: sorted[k].content.clone() },
        );
        k += 1;
    }
    out
}

/// The sections of the command `id`, in ascending order of their stored id,
/// without the one titled `NAME`.
pub fn command_sections(rows: &Vec<CommandSectionRow>, id: i64) -> (r: Vec<CommandSection>)
    ensures
        is_section_listing(r@, rows@, section_test(id, false)),
{
    sections_where(rows, id, false)
}

/// The content of the first section of the command `id` titled `TLDR`, if
/// any.
pub open spec fn tldr_for(rows: Seq<CommandSectionRow>, id: i64) -> Option<Seq<char>>
    decreases rows.len(),
{
    if rows.len() == 0 {
        None
    } else if rows[0].command_id == id && rows[0].title@ == "TLDR"@ {
        Some(rows[0].content@)
    } else {
        tldr_for(rows.drop_first(), id)
    }
}

/// The content of the first section of the command `id` titled `TLDR`, if
/// any.
pub fn find_tldr(rows: &Vec<CommandSectionRow>, id: i64) -> (r: Option<String>)
    ensures
        match r {
            Some(t) => tldr_for(rows@, id) == Some(t@),
            None => tldr_for(rows@, id) is None,
        },
{
    let tldr = chars_of("TLDR");
    let mut i: usize = 0;
    assert(rows@.skip(0) =~= rows@);
    while i < rows.len()
        invariant
            i <= rows@.len(),
            tldr@ == "TLDR"@,
            tldr_for(rows@, id) == tldr_for(rows@.skip(i as int), id),
        decreases rows@.len() - i,
    {
        assert(rows@.skip(i as int)[0] == rows@[i as int]);
        assert(rows@.skip(i as int).drop_first() =~= rows@.skip(i + 1));
        if rows[i].command_id == id && text_eq(&chars_of(rows[i].title.as_str()), &tldr) {
            return Some(rows[i].content.clone());
        }
        i += 1;
    }
    None
}

/// The detail of the command `id`: its fields, its sections in ascending
/// stored id without those titled `NAME` or `TLDR`, and the content of its
/// `TLDR` section apart, when it has one. An id that no command has is
/// `CommandNotFound`.
pub fn command_detail(commands: &Vec<Command>, sections: &Vec<CommandSectionRow>, id: i64) -> (r:
    Result<CommandDetail, AppError>)
    ensures
        match command_for(commands@, id) {
            None => r == Err::<CommandDetail, AppError>(AppError::CommandNotFound) && status_of(
                AppError::CommandNotFound,
            ) == 404,
            Some(c) => match r {
                Ok(d) => {
                    &&& d.id == c.id
                    &&& d.name == c.name
                    &&& d.category == c.category
                    &&& d.description == c.description
                    &&& is_section_listing(d.sections@, sections@, section_test(id, true))
                    &&& forall|i: int|
                        0 <= i < d.sections@.len() ==> (#[trigger] d.sections@[i]).title@
                            != "NAME"@ && d.sections@[i].title@ != "TLDR"@
                    &&& match d.tldr {
                        Some(t) => tldr_for(sections@, id) == Some(t@),
                        None => tldr_for(sections@, id) is None,
                    }
                },
                Err(_) => false,
            },
        },
{
    let c = match find_command(commands, id) {
        Some(c) => c,
        None => return Err(AppError::CommandNotFound),
    };
    let shown = sections_where(sections, id, true);
    proof {
        let test = section_test(id, true);
        let s = choose|s: Seq<CommandSectionRow>|
            {
                &&& sorted_by(s, section_id_order())
                &&& #[trigger] s.to_multiset() == sections@.filter(test).to_multiset()
                &&& shows_sections(shown@, s)
            };
        assert forall|i: int| 0 <= i < shown@.len() implies (#[trigger] shown@[i]).title@
            != "NAME"@ && shown@[i].title@ != "TLDR"@ by {
            broadcast use group_to_multiset_ensures;

            assert(s.to_multiset().count(s[i]) > 0);
            let fs = sections@.filter(test);
            assert(fs.contains(s[i]));
            let j = choose|j: int| 0 <= j < fs.len() && fs[j] == s[i];
            sections@.filter_lemma(test);
            assert(test(fs[j]));
        }
    }
    let tldr = find_tldr(sections, id);
    Ok(
        CommandDetail {
            id: c.id,
            name: c.name,
            category: c.category,
            description: c.description,
            sections: shown,
            tldr,
        },
    )
}

} // verus!
