//! Free-text search: candidates are the commands whose name or description
//! contains the trimmed query, ranked by relevance tier and then by name,
//! and cut to the effective limit.

use vstd::prelude::*;
use vstd::seq_lib::*;
use vstd::string::*;
use crate::envelope::status_of;
use crate::model::{AppError, Command, SearchQuery};
use crate::order::{lemma_map_permutation, sort_by, sorted_by, total_preorder};
use crate::text::{
    chars_of, contains_folded, contains_folded_exec, lemma_text_le_total,
    lemma_text_le_transitive, starts_with_folded, starts_with_folded_exec, text_eq, text_le,
    text_le_exec, trim, trim_text,
};

verus! {

/// Rows returned when the caller names no limit.
pub const DEFAULT_LIMIT: i64 = 50;

/// Rows returned at most, whatever the caller asks.
pub const MAX_LIMIT: i64 = 100;

/// The number of rows a search may return: the default when none is asked,
/// and at most `MAX_LIMIT`; a negative limit asks for no limit.
pub open spec fn effective_limit(limit: Option<i64>) -> int {
    match limit {
        None => DEFAULT_LIMIT as int,
        Some(l) => if l < 0 || l > MAX_LIMIT {
            MAX_LIMIT as int
        } else {
            l as int
        },
    }
}

/// Every character of `s` is a decimal digit.
pub open spec fn all_digits(s: Seq<char>) -> bool {
    forall|i: int| 0 <= i < s.len() ==> '0' <= #[trigger] s[i] && s[i] <= '9'
}

/// The value of a string of decimal digits.
pub open spec fn digits_value(s: Seq<char>) -> int
    decreases s.len(),
{
    if s.len() == 0 {
        0
    } else {
        digits_value(s.drop_last()) * 10 + (s.last() as int - '0' as int)
    }
}

/// The integer that `s` writes: decimal digits with an optional sign.
pub open spec fn integer_text_value(s: Seq<char>) -> Option<int> {
    if s.len() > 1 && (s[0] == '-' || s[0] == '+') && all_digits(s.drop_first()) {
        if s[0] == '-' {
            Some(-digits_value(s.drop_first()))
        } else {
            Some(digits_value(s.drop_first()))
        }
    } else if s.len() > 0 && all_digits(s) {
        Some(digits_value(s))
    } else {
        None
    }
}

/// Relevance tier of a command with this name and description for the
/// query text `t`; the first tier that applies wins. The exact tier compares
/// case by case; the others ignore the case of ASCII letters, as `LIKE` does.
pub open spec fn relevance_of(name: Seq<char>, description: Seq<char>, t: Seq<char>) -> int {
    if name == t {
        100
    } else if starts_with_folded(name, t) {
        50
    } else if contains_folded(name, t) {
        30
    } else if starts_with_folded(description, t) {
        20
    } else if contains_folded(description, t) {
        10
    } else {
        0
    }
}

/// Relevance tier of `c` for the query text `t`.
pub open spec fn relevance(c: Command, t: Seq<char>) -> int {
    relevance_of(c.name@, c.description@, t)
}

/// `c` mentions the query text in its name or its description, ignoring
/// the case of ASCII letters.
pub open spec fn matches_query(c: Command, t: Seq<char>) -> bool {
    contains_folded(c.name@, t) || contains_folded(c.description@, t)
}

/// `c` passes the optional legacy category filter, given as text.
pub open spec fn in_category(c: Command, filter: Option<Seq<char>>) -> bool {
    match filter {
        None => true,
        Some(f) => integer_text_value(f) == Some(c.category as int),
    }
}

/// The test a row passes to be ranked by a search for `t` under `filter`.
pub open spec fn candidate_test(t: Seq<char>, filter: Option<Seq<char>>) -> spec_fn(
    Command,
) -> bool {
    |c: Command| matches_query(c, t) && in_category(c, filter)
}

/// The rows that a search for `t` under `filter` ranks, in row order.
pub open spec fn candidates(rows: Seq<Command>, t: Seq<char>, filter: Option<Seq<char>>) -> Seq<
    Command,
> {
    rows.filter(candidate_test(t, filter))
}

/// `a` may come before `b` in the results of a search for `t`: higher
/// relevance first, then names in ascending order.
pub open spec fn ranks_before(a: Command, b: Command, t: Seq<char>) -> bool {
    relevance(a, t) > relevance(b, t) || (relevance(a, t) == relevance(b, t) && text_le(
        a.name@,
        b.name@,
    ))
}

/// The result order of a search for `t`.
pub open spec fn rank_order(t: Seq<char>) -> spec_fn(Command, Command) -> bool {
    |a: Command, b: Command| ranks_before(a, b, t)
}

/// The category filter of a query, as text.
pub open spec fn category_text(query: SearchQuery) -> Option<Seq<char>> {
    match query.category {
        Some(s) => Some(s@),
        None => None,
    }
}

/// `s` holds the candidates of a search over `rows` for `t` under `filter`
/// in result order, and `r` is its first `limit` rows.
pub open spec fn ranks_as(
    s: Seq<Command>,
    r: Seq<Command>,
    rows: Seq<Command>,
    t: Seq<char>,
    filter: Option<Seq<char>>,
    limit: int,
) -> bool {
    &&& sorted_by(s, rank_order(t))
    &&& s.to_multiset() == candidates(rows, t, filter).to_multiset()
    &&& r == s.take(if limit < s.len() {
        limit
    } else {
        s.len() as int
    })
}

/// `r` is what a search over `rows` for `t` under `filter` returns: the
/// first `limit` candidates in result order.
pub open spec fn is_ranking(
    r: Seq<Command>,
    rows: Seq<Command>,
    t: Seq<char>,
    filter: Option<Seq<char>>,
    limit: int,
) -> bool {
    exists|s: Seq<Command>| #[trigger] ranks_as(s, r, rows, t, filter, limit)
}

/// Every command in a search result mentions the query text in its name or
/// its description, ignoring the case of ASCII letters.
pub proof fn lemma_results_mention_query(
    rows: Seq<Command>,
    t: Seq<char>,
    filter: Option<Seq<char>>,
    limit: Option<i64>,
    found: Seq<Command>,
)
    requires
        is_ranking(found, rows, t, filter, effective_limit(limit)),
    ensures
        forall|i: int|
            0 <= i < found.len() ==> contains_folded((#[trigger] found[i]).name@, t)
                || contains_folded(found[i].description@, t),
{
    broadcast use group_to_multiset_ensures;

    let s = choose|s: Seq<Command>| ranks_as(s, found, rows, t, filter, effective_limit(limit));
    assert(ranks_as(s, found, rows, t, filter, effective_limit(limit)));
    let n = if effective_limit(limit) < s.len() {
        effective_limit(limit)
    } else {
        s.len() as int
    };
    assert(found == s.take(n));
    assert forall|i: int| 0 <= i < found.len() implies contains_folded((#[trigger] found[i]).name@, t)
        || contains_folded(found[i].description@, t) by {
        let x = found[i];
        assert(s[i] == x);
        assert(s.to_multiset().count(x) > 0);
        let cs = candidates(rows, t, filter);
        assert(cs.contains(x));
        let j = choose|j: int| 0 <= j < cs.len() && cs[j] == x;
        rows.filter_lemma(candidate_test(t, filter));
        assert((candidate_test(t, filter))(cs[j]));
    }
}

/// A search result is in result order: relevance never increases, and
/// names ascend among equal relevance.
pub proof fn lemma_results_in_rank_order(
    rows: Seq<Command>,
    t: Seq<char>,
    filter: Option<Seq<char>>,
    limit: Option<i64>,
    found: Seq<Command>,
)
    requires
        is_ranking(found, rows, t, filter, effective_limit(limit)),
    ensures
        forall|i: int, j: int|
            0 <= i < j < found.len() ==> relevance(#[trigger] found[i], t) > relevance(
                #[trigger] found[j],
                t,
            ) || (relevance(found[i], t) == relevance(found[j], t) && text_le(
                found[i].name@,
                found[j].name@,
            )),
{
    let s = choose|s: Seq<Command>| ranks_as(s, found, rows, t, filter, effective_limit(limit));
    assert(ranks_as(s, found, rows, t, filter, effective_limit(limit)));
    let n = if effective_limit(limit) < s.len() {
        effective_limit(limit)
    } else {
        s.len() as int
    };
    assert(found == s.take(n));
    assert forall|i: int, j: int| 0 <= i < j < found.len() implies relevance(
        #[trigger] found[i],
        t,
    ) > relevance(#[trigger] found[j], t) || (relevance(found[i], t) == relevance(found[j], t)
        && text_le(found[i].name@, found[j].name@)) by {
        assert(found[i] == s[i] && found[j] == s[j]);
        assert((rank_order(t))(s[i], s[j]));
    }
}

/// A search never returns more rows than the effective limit, so never more
/// than `MAX_LIMIT`, whatever limit was asked for.
pub proof fn lemma_results_within_limit(
    rows: Seq<Command>,
    t: Seq<char>,
    filter: Option<Seq<char>>,
    limit: Option<i64>,
    found: Seq<Command>,
)
    requires
        is_ranking(found, rows, t, filter, effective_limit(limit)),
    ensures
        found.len() <= effective_limit(limit) <= MAX_LIMIT,
{
    let s = choose|s: Seq<Command>| ranks_as(s, found, rows, t, filter, effective_limit(limit));
}

/// The number of rows a search may return.
pub fn effective_limit_exec(limit: Option<i64>) -> (r: usize)
    ensures
        r as int == effective_limit(limit),
        r <= MAX_LIMIT,
{
    match limit {
        None => DEFAULT_LIMIT as usize,
        Some(l) => if l < 0 || l > MAX_LIMIT {
            MAX_LIMIT as usize
        } else {
            l as usize
        },
    }
}

/// The legacy category id that `s` writes, if it writes one that an `i64`
/// holds.
pub fn parse_category_id(s: &str) -> (r: Option<i64>)
    ensures
        forall|v: i64| r == Some(v) <==> integer_text_value(s@) == Some(v as int),
{
    let cs = chars_of(s);
    let n = cs.len();
    if n == 0 {
        return None;
    }
    let signed = cs[0] == '-' || cs[0] == '+';
    let start: usize = if signed {
        1
    } else {
        0
    };
    if start == n {
        assert(!('0' <= cs@[0] && cs@[0] <= '9'));
        return None;
    }
    let ghost digits = cs@.subrange(start as int, n as int);
    assert(signed ==> digits =~= cs@.drop_first());
    assert(!signed ==> digits =~= cs@);
    let cap: i128 = 0x8000_0000_0000_0001;
    let mut acc: i128 = 0;
    let mut i: usize = start;
    while i < n
        invariant
            start <= i <= n,
            n == cs@.len(),
            cs@ == s@,
            n > 0,
            signed == (cs@[0] == '-' || cs@[0] == '+'),
            start == (if signed {
                1usize
            } else {
                0usize
            }),
            digits == cs@.subrange(start as int, n as int),
            all_digits(cs@.subrange(start as int, i as int)),
            digits_value(cs@.subrange(start as int, i as int)) >= 0,
            0 <= acc <= cap,
            cap == 0x8000_0000_0000_0001,
            acc == if digits_value(cs@.subrange(start as int, i as int)) < cap {
                digits_value(cs@.subrange(start as int, i as int))
            } else {
                cap as int
            },
        decreases n - i,
    {
        let c = cs[i];
        if c < '0' || c > '9' {
            assert(digits[i - start] == c);
            assert(!all_digits(digits));
            assert(signed ==> digits =~= cs@.drop_first());
            assert(!all_digits(cs@)) by {
                if signed {
                    assert(cs@[0] == '-' || cs@[0] == '+');
                    assert('-' < '0' && '+' < '0');
                } else {
                    assert(cs@[i as int] == c);
                }
            }
            return None;
        }
        let ghost prev = cs@.subrange(start as int, i as int);
        let ghost next = cs@.subrange(start as int, i + 1);
        assert(next.drop_last() =~= prev);
        assert(next.last() == c);
        let d = (c as u32 - '0' as u32) as i128;
        assert(d == c as int - '0' as int);
        assert(digits_value(next) == digits_value(prev) * 10 + d);
        assert(all_digits(next)) by {
            assert forall|j: int| 0 <= j < next.len() implies '0' <= #[trigger] next[j] && next[j]
                <= '9' by {
                if j < prev.len() {
                    assert(next[j] == prev[j]);
                }
            }
        }
        acc = acc * 10 + d;
        if acc > cap {
            acc = cap;
        }
        i += 1;
    }
    assert(cs@.subrange(start as int, n as int) =~= digits);
    assert(all_digits(digits));
    assert(signed ==> !('0' <= cs@[0] && cs@[0] <= '9')) by {
        assert('-' < '0' && '+' < '0');
    }
    assert(signed ==> digits =~= cs@.drop_first());
    assert(!signed ==> digits =~= cs@);
    assert(signed ==> n > 1);
    let ghost dv = digits_value(digits);
    assert(integer_text_value(cs@) == if signed && cs@[0] == '-' {
        Some(-dv)
    } else {
        Some(dv)
    });
    if signed && cs[0] == '-' {
        if acc > 0x8000_0000_0000_0000 {
            return None;
        }
        Some((-acc) as i64)
    } else {
        if acc > 0x7fff_ffff_ffff_ffff {
            return None;
        }
        Some(acc as i64)
    }
}

/// Rejects a query that is empty once trimmed.
pub fn check_search_query(q: &str) -> (r: Result<(), AppError>)
    ensures
        match r {
            Ok(_) => trim(q@).len() > 0,
            Err(e) => trim(q@).len() == 0 && e is InvalidInput && status_of(e) == 400,
        },
{
    if trim_text(q).is_empty() {
        Err(AppError::InvalidInput(String::from_str("Search query cannot be empty")))
    } else {
        Ok(())
    }
}

/// Relevance tier of a command with this name and description for `t`.
pub fn relevance_exec(name: &Vec<char>, description: &Vec<char>, t: &Vec<char>) -> (r: u8)
    ensures
        r as int == relevance_of(name@, description@, t@),
{
    if text_eq(name, t) {
        100
    } else if starts_with_folded_exec(name, t) {
        50
    } else if contains_folded_exec(name, t) {
        30
    } else if starts_with_folded_exec(description, t) {
        20
    } else if contains_folded_exec(description, t) {
        10
    } else {
        0
    }
}

/// A candidate with its relevance and the characters of its name.
struct Ranked {
    score: u8,
    name: Vec<char>,
    command: Command,
}

spec fn ranked_well(x: Ranked, t: Seq<char>) -> bool {
    x.name@ == x.command.name@ && x.score as int == relevance(x.command, t)
}

spec fn ranked_le(a: Ranked, b: Ranked) -> bool {
    a.score > b.score || (a.score == b.score && text_le(a.name@, b.name@))
}

spec fn command_of() -> spec_fn(Ranked) -> Command {
    |x: Ranked| x.command
}

proof fn lemma_ranked_le_total_preorder()
    ensures
        total_preorder(|a: Ranked, b: Ranked| ranked_le(a, b)),
{
    assert forall|a: Ranked, b: Ranked| ranked_le(a, b) || ranked_le(b, a) by {
        lemma_text_le_total(a.name@, b.name@);
    }
    assert forall|a: Ranked, b: Ranked, c: Ranked|
        ranked_le(a, b) && ranked_le(b, c) implies ranked_le(a, c) by {
        if a.score == b.score && b.score == c.score {
            lemma_text_le_transitive(a.name@, b.name@, c.name@);
        }
    }
}

/// Searches `rows` for `query`: the commands whose name or description
/// contains the trimmed query text (and whose legacy category is the one
/// asked for, if any), by relevance and then name, at most the effective
/// limit of them. A query that is empty once trimmed is rejected.
pub fn search_commands(rows: &Vec<Command>, query: &SearchQuery) -> (r: Result<
    Vec<Command>,
    AppError,
>)
    ensures
        match r {
            Err(e) => trim(query.q@).len() == 0 && e is InvalidInput && status_of(e) == 400,
            Ok(found) => {
                let t = trim(query.q@);
                &&& t.len() > 0
                &&& is_ranking(
                    found@,
                    rows@,
                    t,
                    category_text(*query),
                    effective_limit(query.limit),
                )
                &&& forall|i: int|
                    0 <= i < found@.len() ==> #[trigger] matches_query(found@[i], t)
                &&& sorted_by(found@, rank_order(t))
                &&& found@.len() <= effective_limit(query.limit) <= MAX_LIMIT
            },
        },
{
    broadcast use group_to_multiset_ensures;

    if let Err(e) = check_search_query(query.q.as_str()) {
        return Err(e);
    }
    let t = trim_text(query.q.as_str());
    let tc = chars_of(t);
    let filter: Option<Option<i64>> = match &query.category {
        Some(s) => Some(parse_category_id(s.as_str())),
        None => None,
    };
    let ghost tv = t@;
    let ghost f = category_text(*query);
    let ghost pred = candidate_test(tv, f);
    let mut cands: Vec<Ranked> = Vec::new();
    let mut i: usize = 0;
    while i < rows.len()
        invariant
            i <= rows@.len(),
            tc@ == tv,
            tv == trim(query.q@),
            f == category_text(*query),
            pred == candidate_test(tv, f),
            match filter {
                None => f is None,
                Some(p) => f is Some && forall|v: i64|
                    p == Some(v) <==> integer_text_value(f->0) == Some(v as int),
            },
            cands@.map_values(command_of()) == rows@.take(i as int).filter(pred),
            forall|k: int| 0 <= k < cands@.len() ==> ranked_well(#[trigger] cands@[k], tv),
        decreases rows@.len() - i,
    {
        let c = &rows[i];
        let nc = chars_of(c.name.as_str());
        let dc = chars_of(c.description.as_str());
        let in_cat = match filter {
            None => true,
            Some(None) => false,
            Some(Some(v)) => c.category == v,
        };
        let ghost before = cands@;
        if in_cat && (contains_folded_exec(&nc, &tc) || contains_folded_exec(&dc, &tc)) {
            let score = relevance_exec(&nc, &dc, &tc);
            cands.push(Ranked { score, name: nc, command: c.duplicate() });
            assert(cands@.map_values(command_of()) =~= before.map_values(command_of()).push(rows@[i as int]));
        }
        proof {
            assert(rows@.take(i + 1) =~= rows@.take(i as int).push(rows@[i as int]));
            rows@.take(i as int).lemma_filter_push(rows@[i as int], pred);
        }
        i += 1;
    }
    assert(rows@.take(rows@.len() as int) =~= rows@);
    let ghost cand_seq = cands@;
    proof {
        lemma_ranked_le_total_preorder();
    }
    let sorted = sort_by(
        cands,
        &(|a: &Ranked, b: &Ranked| -> (r: bool)
            ensures
                r == ranked_le(*a, *b),
            { a.score > b.score || (a.score == b.score && text_le_exec(&a.name, &b.name)) }),
        Ghost(|a: Ranked, b: Ranked| ranked_le(a, b)),
    );
    let ghost ss = sorted@;
    let ghost s = ss.map_values(command_of());
    proof {
        lemma_map_permutation(ss, cand_seq, command_of());
        assert forall|k: int| 0 <= k < ss.len() implies ranked_well(#[trigger] ss[k], tv) by {
            assert(ss.to_multiset().count(ss[k]) > 0);
            assert(cand_seq.contains(ss[k]));
        }
        assert forall|p: int, q: int| 0 <= p < q < s.len() implies (rank_order(tv))(
            #[trigger] s[p],
            #[trigger] s[q],
        ) by {
            assert(ranked_well(ss[p], tv) && ranked_well(ss[q], tv));
            assert(ranked_le(ss[p], ss[q]));
        }
    }
    let limit = effective_limit_exec(query.limit);
    let n = if limit < sorted.len() {
        limit
    } else {
        sorted.len()
    };
    let mut found: Vec<Command> = Vec::new();
    let mut k: usize = 0;
    while k < n
        invariant
            n <= sorted@.len(),
            ss == sorted@,
            s == ss.map_values(command_of()),
            k <= n,
            found@ == s.take(k as int),
        decreases n - k,
    {
        found.push(sorted[k].command.duplicate());
        k += 1;
        assert(found@ =~= s.take(k as int));
    }
    proof {
        assert(s.to_multiset() == candidates(rows@, tv, f).to_multiset());
        assert(ranks_as(s, found@, rows@, tv, f, effective_limit(query.limit)));
        assert forall|i: int| 0 <= i < found@.len() implies #[trigger] matches_query(
            found@[i],
            tv,
        ) by {
            let x = found@[i];
            assert(s[i] == x);
            assert(s.to_multiset().count(x) > 0);
            let cs = candidates(rows@, tv, f);
            assert(cs.contains(x));
            let j = choose|j: int| 0 <= j < cs.len() && cs[j] == x;
            rows@.filter_lemma(pred);
            assert(pred(cs[j]));
        }
    }
    Ok(found)
}

} // verus!
