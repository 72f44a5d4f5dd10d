//! Autocompletion: the distinct command names that begin with what the
//! caller typed (ASCII case aside), in ascending order, at most `MAX_SUGGESTIONS` of them.

use vstd::prelude::*;
use vstd::seq_lib::*;
use vstd::string::*;
use crate::order::{lemma_map_permutation, sort_by, sorted_by};
use crate::text::{
    chars_of, lemma_text_le_antisymmetric, lemma_text_le_total, lemma_text_le_transitive,
    starts_with_folded, starts_with_folded_exec, text_eq, text_le, text_le_exec, text_lt, trim,
    trim_text, views,
};

verus! {

/// Suggestions returned at most.
pub const MAX_SUGGESTIONS: usize = 10;

/// Texts that begin with `q`, ignoring the case of ASCII letters.
pub open spec fn prefix_test(q: Seq<char>) -> spec_fn(Seq<char>) -> bool {
    |x: Seq<char>| starts_with_folded(x, q)
}

/// The names among `names` that begin with `q`, in row order, repeats
/// included.
pub open spec fn names_with_prefix(names: Seq<String>, q: Seq<char>) -> Seq<Seq<char>> {
    views(names).filter(prefix_test(q))
}

/// Each text of `s` comes strictly before every later one.
pub open spec fn strictly_ascending(s: Seq<Seq<char>>) -> bool {
    forall|i: int, j: int| 0 <= i < j < s.len() ==> text_lt(#[trigger] s[i], #[trigger] s[j])
}

struct Keyed {
    key: Vec<char>,
    name: String,
}

spec fn key_of() -> spec_fn(Keyed) -> Seq<char> {
    |k: Keyed| k.key@
}

spec fn keyed_le(a: Keyed, b: Keyed) -> bool {
    text_le(a.key@, b.key@)
}

/// Suggestions for what the caller typed, `q`: nothing when `q` is blank;
/// otherwise the distinct names that begin with `q` (ignoring the case of
/// ASCII letters), in ascending order, at
/// most `MAX_SUGGESTIONS` of them.
pub fn suggestions(names: &Vec<String>, q: &str) -> (r: Vec<String>)
    ensures
        trim(q@).len() == 0 ==> r@.len() == 0,
        trim(q@).len() > 0 ==> exists|all: Seq<Seq<char>>|
            {
                &&& strictly_ascending(all)
                &&& forall|x: Seq<char>|
                    #[trigger] all.contains(x) <==> names_with_prefix(names@, q@).contains(x)
                &&& r@.len() == if all.len() < MAX_SUGGESTIONS {
                    all.len() as int
                } else {
                    MAX_SUGGESTIONS as int
                }
                &&& forall|i: int| 0 <= i < r@.len() ==> (#[trigger] r@[i])@ == all[i]
            },
{
    broadcast use group_to_multiset_ensures;

    if trim_text(q).is_empty() {
        return Vec::new();
    }
    let qc = chars_of(q);
    let ghost qv = q@;
    let mut keyed: Vec<Keyed> = Vec::new();
    let mut i: usize = 0;
    while i < names.len()
        invariant
            i <= names@.len(),
            qc@ == qv,
            keyed@.map_values(key_of()) == views(names@.take(i as int)).filter(prefix_test(qv)),
            forall|k: int| 0 <= k < keyed@.len() ==> (#[trigger] keyed@[k]).key@ == keyed@[k].name@,
        decreases names@.len() - i,
    {
        let key = chars_of(names[i].as_str());
        proof {
            let t = names@.take(i as int);
            assert(names@.take(i + 1) =~= t.push(names@[i as int]));
            assert(views(t.push(names@[i as int])) =~= views(t).push(names@[i as int]@));
            views(t).lemma_filter_push(names@[i as int]@, prefix_test(qv));
        }
        let ghost prev = keyed@;
        if starts_with_folded_exec(&key, &qc) {
            keyed.push(Keyed { key, name: names[i].clone() });
            assert(keyed@.map_values(key_of()) =~= prev.map_values(key_of()).push(
                names@[i as int]@,
            ));
        }
        i += 1;
    }
    assert(names@.take(names@.len() as int) =~= names@);
    let ghost before = keyed@;
    proof {
        assert forall|a: Keyed, b: Keyed| keyed_le(a, b) || keyed_le(b, a) by {
            lemma_text_le_total(a.key@, b.key@);
        }
        assert forall|a: Keyed, b: Keyed, c: Keyed|
            keyed_le(a, b) && keyed_le(b, c) implies keyed_le(a, c) by {
            lemma_text_le_transitive(a.key@, b.key@, c.key@);
        }
    }
    let sorted = sort_by(
        keyed,
        &(|a: &Keyed, b: &Keyed| -> (r: bool)
            ensures
                r == keyed_le(*a, *b),
            { text_le_exec(&a.key, &b.key) }),
        Ghost(|a: Keyed, b: Keyed| keyed_le(a, b)),
    );
    let ghost ss = sorted@;
    let ghost sv = ss.map_values(key_of());
    let ghost matching = names_with_prefix(names@, qv);
    proof {
        lemma_map_permutation(ss, before, key_of());
        assert forall|x: Seq<char>| #[trigger] sv.contains(x) <==> matching.contains(x) by {
            assert(sv.contains(x) <==> sv.to_multiset().count(x) > 0);
            assert(matching.contains(x) <==> matching.to_multiset().count(x) > 0);
        }
        assert forall|k: int| 0 <= k < ss.len() implies (#[trigger] ss[k]).key@ == ss[k].name@ by {
            assert(ss.to_multiset().count(ss[k]) > 0);
            assert(before.contains(ss[k]));
        }
    }
    let mut uniq: Vec<Keyed> = Vec::new();
    let mut k: usize = 0;
    while k < sorted.len()
        invariant
            k <= sorted@.len(),
            ss == sorted@,
            sv == ss.map_values(key_of()),
            sorted_by(ss, |a: Keyed, b: Keyed| keyed_le(a, b)),
            forall|m: int| 0 <= m < ss.len() ==> (#[trigger] ss[m]).key@ == ss[m].name@,
            strictly_ascending(uniq@.map_values(key_of())),
            forall|m: int| 0 <= m < uniq@.len() ==> (#[trigger] uniq@[m]).key@ == uniq@[m].name@,
            forall|x: Seq<char>|
                #[trigger] uniq@.map_values(key_of()).contains(x) <==> sv.take(k as int).contains(x),
            k > 0 ==> uniq@.len() > 0 && uniq@.last().key@ == sv[k - 1],
            k == 0 ==> uniq@.len() == 0,
        decreases sorted@.len() - k,
    {
        let x = &sorted[k];
        let ghost u = uniq@.map_values(key_of());
        let ghost xv = sv[k as int];
        assert(sv.take(k + 1) =~= sv.take(k as int).push(xv));
        if uniq.len() > 0 && text_eq(&uniq[uniq.len() - 1].key, &x.key) {
            assert(u.last() == xv);
            assert forall|y: Seq<char>| #[trigger] u.contains(y) <==> sv.take(k + 1).contains(y) by {
                if y == xv {
                    assert(u[u.len() - 1] == y);
                }
            }
        } else {
            proof {
                if k > 0 {
                    let last = u.last();
                    assert(keyed_le(ss[k - 1], ss[k as int]));
                    assert(text_le(last, xv));
                    assert(last != xv);
                    assert forall|p: int| 0 <= p < u.len() implies text_lt(#[trigger] u[p], xv) by {
                        if p < u.len() - 1 {
                            assert(text_lt(u[p], u[u.len() - 1]));
                            lemma_text_le_transitive(u[p], last, xv);
                            if u[p] == xv {
                                lemma_text_le_antisymmetric(last, xv);
                            }
                        }
                    }
                }
            }
            uniq.push(Keyed { key: chars_of(x.name.as_str()), name: x.name.clone() });
            let ghost nu = uniq@.map_values(key_of());
            assert(nu =~= u.push(xv));
            assert forall|y: Seq<char>| #[trigger] nu.contains(y) <==> sv.take(k + 1).contains(y) by {
                if y == xv {
                    assert(nu[nu.len() - 1] == y);
                    assert(sv.take(k + 1)[k as int] == y);
                }
                if nu.contains(y) && y != xv {
                    let p = choose|p: int| 0 <= p < nu.len() && #[trigger] nu[p] == y;
                    assert(u[p] == y);
                    assert(u.contains(y));
                    assert(sv.take(k as int).contains(y));
                    let p2 = choose|p2: int| 0 <= p2 < k && #[trigger] sv.take(k as int)[p2] == y;
                    assert(sv.take(k + 1)[p2] == y);
                }
                if sv.take(k + 1).contains(y) && y != xv {
                    assert(sv.take(k + 1) == sv.take(k as int).push(xv));
                    assert(sv.take(k as int).contains(y));
                    assert(u.contains(y));
                    let p = choose|p: int| 0 <= p < u.len() && #[trigger] u[p] == y;
                    assert(nu[p] == y);
                }
            }
        }
        k += 1;
    }
    assert(sv.take(sv.len() as int) =~= sv);
    let ghost all = uniq@.map_values(key_of());
    let n = if uniq.len() < MAX_SUGGESTIONS {
        uniq.len()
    } else {
        MAX_SUGGESTIONS
    };
    let mut out: Vec<String> = Vec::new();
    let mut m: usize = 0;
    while m < n
        invariant
            m <= n <= uniq@.len(),
            all == uniq@.map_values(key_of()),
            forall|j: int| 0 <= j < uniq@.len() ==> (#[trigger] uniq@[j]).key@ == uniq@[j].name@,
            out@.len() == m,
            forall|j: int| 0 <= j < m ==> (#[trigger] out@[j])@ == all[j],
        decreases n - m,
    {
        out.push(uniq[m].name.clone());
        m += 1;
    }
    out
}

} // verus!
