//! The engine's bookkeeping rules: which symbols it tracks, how warm-up
//! requests are grouped, when a reload of strategy assignments is needed,
//! and how symbol lists travel as JSON.

use vstd::prelude::*;
use vstd::string::*;
use crate::keyed::KeyedMap;
use crate::text::{str_eq, texts};

verus! {

/// All symbols of all lists, in list order.
pub open spec fn all_listed(lists: Seq<Seq<Seq<char>>>) -> Seq<Seq<char>>
    decreases lists.len(),
{
    if lists.len() == 0 {
        Seq::empty()
    } else {
        all_listed(lists.drop_last()) + lists.last()
    }
}

/// `s` with every repeated element dropped after its first occurrence.
pub open spec fn first_occurrences(s: Seq<Seq<char>>) -> Seq<Seq<char>>
    decreases s.len(),
{
    if s.len() == 0 {
        Seq::empty()
    } else {
        let d = first_occurrences(s.drop_last());
        if d.contains(s.last()) {
            d
        } else {
            d.push(s.last())
        }
    }
}

/// The texts of a list of string lists.
pub open spec fn nested_texts(lists: Seq<Vec<String>>) -> Seq<Seq<Seq<char>>> {
    Seq::new(lists.len(), |i: int| texts(lists[i]@))
}

/// Whether `s` holds `x`, compared as text.
pub fn holds_text(s: &Vec<String>, x: &str) -> (b: bool)
    ensures
        b == texts(s@).contains(x@),
{
    let mut i: usize = 0;
    while i < s.len()
        invariant
            i <= s@.len(),
            forall|j: int| 0 <= j < i ==> s@[j]@ != x@,
        decreases s@.len() - i,
    {
        if str_eq(s[i].as_str(), x) {
            assert(texts(s@)[i as int] == x@);
            return true;
        }
        i = i + 1;
    }
    proof {
        if texts(s@).contains(x@) {
            let j = choose|j: int| 0 <= j < texts(s@).len() && texts(s@)[j] == x@;
            assert(s@[j]@ == x@);
        }
    }
    false
}

/// A non-empty sequence holds `x` exactly when its front part does or `x`
/// is its last element.
proof fn lemma_contains_split(s: Seq<Seq<char>>, x: Seq<char>)
    requires
        s.len() > 0,
    ensures
        s.contains(x) <==> (s.drop_last().contains(x) || x == s.last()),
{
    if s.contains(x) && x != s.last() {
        let j = choose|j: int| 0 <= j < s.len() && s[j] == x;
        assert(s.drop_last()[j] == x);
    }
    if s.drop_last().contains(x) {
        let j = choose|j: int| 0 <= j < s.drop_last().len() && s.drop_last()[j] == x;
        assert(s[j] == x);
    }
    if x == s.last() {
        assert(s[s.len() - 1] == x);
    }
}

/// Keeping first occurrences leaves no element twice and loses none.
pub proof fn lemma_first_occurrences(s: Seq<Seq<char>>)
    ensures
        first_occurrences(s).no_duplicates(),
        forall|x: Seq<char>| #[trigger] first_occurrences(s).contains(x) <==> s.contains(x),
    decreases s.len(),
{
    if s.len() > 0 {
        lemma_first_occurrences(s.drop_last());
        let d = first_occurrences(s.drop_last());
        assert forall|x: Seq<char>| #[trigger] first_occurrences(s).contains(x) <==> s.contains(x) by {
            lemma_contains_split(s, x);
            if !d.contains(s.last()) {
                lemma_contains_split(d.push(s.last()), x);
                assert(d.push(s.last()).drop_last() =~= d);
            }
        }
        if !d.contains(s.last()) {
            let e = d.push(s.last());
            assert forall|a: int, b: int| 0 <= a < e.len() && 0 <= b < e.len() && a != b implies e[a]
                != e[b] by {
                if a == d.len() {
                    assert(d[b] == e[b]);
                } else if b == d.len() {
                    assert(d[a] == e[a]);
                }
            }
        }
    }
}

/// Every symbol any strategy trades, each once, in order of first mention.
pub fn union_symbols(lists: &Vec<Vec<String>>) -> (symbols: Vec<String>)
    ensures
        texts(symbols@) == first_occurrences(all_listed(nested_texts(lists@))),
        texts(symbols@).no_duplicates(),
        forall|x: Seq<char>|
            #[trigger] texts(symbols@).contains(x) <==> all_listed(nested_texts(lists@)).contains(x),
{
    let mut symbols: Vec<String> = Vec::new();
    let mut i: usize = 0;
    while i < lists.len()
        invariant
            i <= lists@.len(),
            texts(symbols@) == first_occurrences(
                all_listed(nested_texts(lists@).take(i as int)),
            ),
        decreases lists@.len() - i,
    {
        let list = &lists[i];
        let ghost before = all_listed(nested_texts(lists@).take(i as int));
        let mut j: usize = 0;
        while j < list.len()
            invariant
                i < lists@.len(),
                *list == lists@[i as int],
                j <= list@.len(),
                texts(symbols@) == first_occurrences(before + texts(list@).take(j as int)),
            decreases list@.len() - j,
        {
            let ghost prefix = before + texts(list@).take(j as int);
            assert((before + texts(list@).take(j + 1)).drop_last() =~= prefix);
            assert((before + texts(list@).take(j + 1)).last() == list@[j as int]@);
            if !holds_text(&symbols, list[j].as_str()) {
                symbols.push(list[j].clone());
                assert(texts(symbols@) =~= first_occurrences(prefix).push(list@[j as int]@));
            }
            j = j + 1;
        }
        assert(texts(list@).take(list@.len() as int) =~= texts(list@));
        assert(nested_texts(lists@).take(i + 1).drop_last() =~= nested_texts(lists@).take(i as int));
        i = i + 1;
    }
    assert(nested_texts(lists@).take(lists@.len() as int) =~= nested_texts(lists@));
    proof {
        lemma_first_occurrences(all_listed(nested_texts(lists@)));
    }
    symbols
}

/// What one strategy asks for at warm-up: its bar timeframe and bar limit
/// (`None` for the engine default, 1-hour bars, 50 of them) and its symbols.
pub struct StartupPlan {
    pub startup: Option<(String, u32)>,
    pub symbols: Vec<String>,
}

/// One warm-up request: the symbols fetched with one timeframe and limit.
pub struct StartupGroup {
    pub timeframe: String,
    pub limit: u32,
    pub symbols: Vec<String>,
}

/// The timeframe and limit a plan warms up with.
pub open spec fn plan_key(p: StartupPlan) -> (Seq<char>, u32) {
    match p.startup {
        Some((timeframe, limit)) => (timeframe@, limit),
        None => ("1Hour"@, 50u32),
    }
}

/// A warm-up group as plain values: timeframe, limit, symbols.
pub open spec fn group_view(g: StartupGroup) -> ((Seq<char>, u32), Seq<Seq<char>>) {
    ((g.timeframe@, g.limit), texts(g.symbols@))
}

/// The groups as plain values.
pub open spec fn groups_view(gs: Seq<StartupGroup>) -> Seq<((Seq<char>, u32), Seq<Seq<char>>)> {
    Seq::new(gs.len(), |i: int| group_view(gs[i]))
}

/// Every (warm-up key, symbol) pair the plans name, plan by plan.
pub open spec fn plan_events(plans: Seq<StartupPlan>) -> Seq<((Seq<char>, u32), Seq<char>)>
    decreases plans.len(),
{
    if plans.len() == 0 {
        Seq::empty()
    } else {
        let p = plans.last();
        plan_events(plans.drop_last()) + Seq::new(
            p.symbols@.len(),
            |k: int| (plan_key(p), p.symbols@[k]@),
        )
    }
}

/// Whether some group carries this key.
pub open spec fn has_key(gs: Seq<((Seq<char>, u32), Seq<Seq<char>>)>, key: (Seq<char>, u32)) -> bool {
    exists|i: int| 0 <= i < gs.len() && gs[i].0 == key
}

/// The group carrying this key.
pub open spec fn key_position(gs: Seq<((Seq<char>, u32), Seq<Seq<char>>)>, key: (Seq<char>, u32)) -> int {
    choose|i: int| 0 <= i < gs.len() && gs[i].0 == key
}

/// The groups after one more (key, symbol) pair: pairs whose symbol was not
/// requested change nothing; a symbol joins the group of its key once; a key
/// without a group opens a new one at the end.
pub open spec fn add_event(
    gs: Seq<((Seq<char>, u32), Seq<Seq<char>>)>,
    e: ((Seq<char>, u32), Seq<char>),
    requested: Seq<Seq<char>>,
) -> Seq<((Seq<char>, u32), Seq<Seq<char>>)> {
    if !requested.contains(e.1) {
        gs
    } else if has_key(gs, e.0) {
        let i = key_position(gs, e.0);
        if gs[i].1.contains(e.1) {
            gs
        } else {
            gs.update(i, (gs[i].0, gs[i].1.push(e.1)))
        }
    } else {
        gs.push((e.0, seq![e.1]))
    }
}

/// The warm-up groups the pairs add up to.
pub open spec fn grouped(
    events: Seq<((Seq<char>, u32), Seq<char>)>,
    requested: Seq<Seq<char>>,
) -> Seq<((Seq<char>, u32), Seq<Seq<char>>)>
    decreases events.len(),
{
    if events.len() == 0 {
        Seq::empty()
    } else {
        add_event(grouped(events.drop_last(), requested), events.last(), requested)
    }
}

/// Well-formed groups: distinct keys, each group's symbols non-empty and
/// distinct.
pub open spec fn groups_wf(gs: Seq<((Seq<char>, u32), Seq<Seq<char>>)>) -> bool {
    &&& forall|a: int, b: int| 0 <= a < b < gs.len() ==> gs[a].0 != gs[b].0
    &&& forall|a: int| #![trigger gs[a]] 0 <= a < gs.len() ==> gs[a].1.len() > 0 && gs[a].1.no_duplicates()
}

/// Whether a requested symbol is named with this key by some pair.
pub open spec fn named_with(
    events: Seq<((Seq<char>, u32), Seq<char>)>,
    requested: Seq<Seq<char>>,
    key: (Seq<char>, u32),
    x: Seq<char>,
) -> bool {
    requested.contains(x) && events.contains((key, x))
}

proof fn lemma_key_position(gs: Seq<((Seq<char>, u32), Seq<Seq<char>>)>, key: (Seq<char>, u32), i: int)
    requires
        groups_wf(gs),
        0 <= i < gs.len(),
        gs[i].0 == key,
    ensures
        has_key(gs, key),
        key_position(gs, key) == i,
{
    let j = key_position(gs, key);
    if j != i {
        if j < i {
            assert(gs[j].0 != gs[i].0);
        } else {
            assert(gs[i].0 != gs[j].0);
        }
    }
}

/// The warm-up groups are well formed, and a requested symbol sits in the
/// group of a key exactly when some strategy with that key trades it; a key
/// has a group only if some requested symbol is traded with it.
pub proof fn law_grouped(events: Seq<((Seq<char>, u32), Seq<char>)>, requested: Seq<Seq<char>>)
    ensures
        groups_wf(grouped(events, requested)),
        forall|key: (Seq<char>, u32), x: Seq<char>| #[trigger] named_with(events, requested, key, x)
            ==> has_key(grouped(events, requested), key)
            && grouped(events, requested)[key_position(grouped(events, requested), key)].1.contains(x),
        forall|i: int, x: Seq<char>|
            0 <= i < grouped(events, requested).len()
                && #[trigger] grouped(events, requested)[i].1.contains(x) ==> named_with(
                events,
                requested,
                grouped(events, requested)[i].0,
                x,
            ),
    decreases events.len(),
{
    if events.len() > 0 {
        let prev = events.drop_last();
        let e = events.last();
        law_grouped(prev, requested);
        let g0 = grouped(prev, requested);
        let g1 = grouped(events, requested);
        assert(g1 == add_event(g0, e, requested));
        assert forall|q: ((Seq<char>, u32), Seq<char>)| #[trigger] events.contains(q) <==> (prev.contains(q) || q == e) by {
            if events.contains(q) && q != e {
                let j = choose|j: int| 0 <= j < events.len() && events[j] == q;
                assert(prev[j] == q);
            }
            if prev.contains(q) {
                let j = choose|j: int| 0 <= j < prev.len() && prev[j] == q;
                assert(events[j] == q);
            }
            if q == e {
                assert(events[events.len() - 1] == q);
            }
        }
        if !requested.contains(e.1) {
            assert forall|key: (Seq<char>, u32), x: Seq<char>| #[trigger] named_with(events, requested, key, x)
                implies has_key(g1, key) && g1[key_position(g1, key)].1.contains(x) by {
                assert(named_with(prev, requested, key, x));
            }
            assert forall|i: int, x: Seq<char>| 0 <= i < g1.len() && #[trigger] g1[i].1.contains(x)
                implies named_with(events, requested, g1[i].0, x) by {
                assert(named_with(prev, requested, g1[i].0, x));
            }
        } else if has_key(g0, e.0) {
            let i = key_position(g0, e.0);
            if g0[i].1.contains(e.1) {
                assert forall|key: (Seq<char>, u32), x: Seq<char>| #[trigger] named_with(events, requested, key, x)
                    implies has_key(g1, key) && g1[key_position(g1, key)].1.contains(x) by {
                    if (key, x) != e {
                        assert(named_with(prev, requested, key, x));
                    }
                }
                assert forall|a: int, x: Seq<char>| 0 <= a < g1.len() && #[trigger] g1[a].1.contains(x)
                    implies named_with(events, requested, g1[a].0, x) by {
                    assert(named_with(prev, requested, g1[a].0, x));
                }
            } else {
                let ng = g0[i].1.push(e.1);
                assert(g1 == g0.update(i, (g0[i].0, ng)));
                assert forall|a: int| 0 <= a < g1.len() implies #[trigger] g1[a].1.len() > 0 && g1[a].1.no_duplicates() by {
                    if a == i {
                        assert forall|p: int, r: int| 0 <= p < ng.len() && 0 <= r < ng.len() && p != r implies ng[p] != ng[r] by {
                            if p == g0[i].1.len() {
                                assert(g0[i].1[r] == ng[r]);
                            } else if r == g0[i].1.len() {
                                assert(g0[i].1[p] == ng[p]);
                            } else {
                                assert(g0[i].1.no_duplicates());
                            }
                        }
                    } else {
                        assert(g0[a].1.no_duplicates());
                    }
                }
                assert(g1.len() == g0.len());
                assert forall|a: int| 0 <= a < g1.len() && a != i implies g1[a] == g0[a] by {}
                assert forall|a: int, b: int| 0 <= a < b < g1.len() implies g1[a].0 != g1[b].0 by {
                    assert(g1[a].0 == g0[a].0);
                    assert(g1[b].0 == g0[b].0);
                }
                assert(groups_wf(g1));
                assert forall|key: (Seq<char>, u32), x: Seq<char>| #[trigger] named_with(events, requested, key, x)
                    implies has_key(g1, key) && g1[key_position(g1, key)].1.contains(x) by {
                    if (key, x) == e {
                        lemma_key_position(g1, key, i);
                        assert(ng[ng.len() - 1] == x);
                    } else {
                        assert(named_with(prev, requested, key, x));
                        let k = key_position(g0, key);
                        lemma_key_position(g1, key, k);
                        if k == i {
                            let m = choose|m: int| 0 <= m < g0[i].1.len() && g0[i].1[m] == x;
                            assert(ng[m] == x);
                        }
                    }
                }
                assert forall|a: int, x: Seq<char>| 0 <= a < g1.len() && #[trigger] g1[a].1.contains(x)
                    implies named_with(events, requested, g1[a].0, x) by {
                    if a == i {
                        let m = choose|m: int| 0 <= m < ng.len() && ng[m] == x;
                        if m < g0[i].1.len() {
                            assert(g0[i].1[m] == x);
                            assert(g0[i].1.contains(x));
                            assert(named_with(prev, requested, g0[i].0, x));
                        } else {
                            assert(events.contains(e));
                        }
                    } else {
                        assert(named_with(prev, requested, g0[a].0, x));
                    }
                }
            }
        } else {
            let n = g0.len();
            assert(g1 == g0.push((e.0, seq![e.1])));
            assert forall|a: int, b: int| 0 <= a < b < g1.len() implies g1[a].0 != g1[b].0 by {
                if b == n {
                    assert(g0[a].0 == g1[a].0);
                }
            }
            assert forall|a: int| 0 <= a < g1.len() implies #[trigger] g1[a].1.len() > 0 && g1[a].1.no_duplicates() by {
                if a < n {
                    assert(g0[a].1.no_duplicates());
                }
            }
            assert forall|key: (Seq<char>, u32), x: Seq<char>| #[trigger] named_with(events, requested, key, x)
                implies has_key(g1, key) && g1[key_position(g1, key)].1.contains(x) by {
                if (key, x) == e {
                    lemma_key_position(g1, key, n as int);
                    assert(g1[n as int].1[0] == x);
                } else {
                    assert(named_with(prev, requested, key, x));
                    assert(has_key(g0, key));
                    let k = key_position(g0, key);
                    assert(0 <= k < g0.len() && g0[k].0 == key);
                    assert(g1[k] == g0[k]);
                    lemma_key_position(g1, key, k);
                }
            }
            assert forall|a: int, x: Seq<char>| 0 <= a < g1.len() && #[trigger] g1[a].1.contains(x)
                implies named_with(events, requested, g1[a].0, x) by {
                if a == n {
                    let m = choose|m: int| 0 <= m < g1[a].1.len() && g1[a].1[m] == x;
                    assert(m == 0);
                    assert(events.contains(e));
                } else {
                    assert(named_with(prev, requested, g0[a].0, x));
                }
            }
        }
    }
}

/// The (key, symbol) pairs of one plan.
pub open spec fn events_of(p: StartupPlan) -> Seq<((Seq<char>, u32), Seq<char>)> {
    Seq::new(p.symbols@.len(), |k: int| (plan_key(p), p.symbols@[k]@))
}

/// Groups the symbols the engine warms up by the timeframe and bar limit
/// their strategies ask for. Only requested symbols are fetched; a symbol is
/// fetched once per (timeframe, limit), however many strategies trade it.
pub fn group_by_startup(plans: &Vec<StartupPlan>, requested: &Vec<String>) -> (groups: Vec<StartupGroup>)
    ensures
        groups_view(groups@) == grouped(plan_events(plans@), texts(requested@)),
{
    let ghost req = texts(requested@);
    let mut groups: Vec<StartupGroup> = Vec::new();
    let mut i: usize = 0;
    assert(groups_view(groups@) =~= grouped(plan_events(plans@.take(0)), req));
    while i < plans.len()
        invariant
            i <= plans@.len(),
            req == texts(requested@),
            groups_view(groups@) == grouped(plan_events(plans@.take(i as int)), req),
        decreases plans@.len() - i,
    {
        let plan = &plans[i];
        let (timeframe, limit): (&str, u32) = match &plan.startup {
            Some((tf, l)) => (tf.as_str(), *l),
            None => ("1Hour", 50),
        };
        let ghost key = plan_key(*plan);
        assert(key == (timeframe@, limit));
        let ghost before = plan_events(plans@.take(i as int));
        let mut j: usize = 0;
        assert(before + events_of(*plan).take(0) =~= before);
        while j < plan.symbols.len()
            invariant
                i < plans@.len(),
                *plan == plans@[i as int],
                key == plan_key(*plan),
                key == (timeframe@, limit),
                j <= plan.symbols@.len(),
                req == texts(requested@),
                groups_view(groups@) == grouped(before + events_of(*plan).take(j as int), req),
            decreases plan.symbols@.len() - j,
        {
            let symbol = &plan.symbols[j];
            let ghost evs = before + events_of(*plan).take(j as int);
            let ghost e = (key, symbol@);
            assert((before + events_of(*plan).take(j + 1)).drop_last() =~= evs);
            assert((before + events_of(*plan).take(j + 1)).last() == e);
            let ghost g0 = groups_view(groups@);
            proof {
                law_grouped(evs, req);
            }
            if holds_text(requested, symbol.as_str()) {
                let mut k: usize = 0;
                let mut found = false;
                while k < groups.len() && !found
                    invariant
                        k <= groups@.len(),
                        key == (timeframe@, limit),
                        g0 == groups_view(groups@),
                        found ==> k < groups@.len() && g0[k as int].0 == key,
                        !found ==> forall|m: int| 0 <= m < k ==> g0[m].0 != key,
                    decreases groups@.len() - k, if found { 0int } else { 1int },
                {
                    assert(g0[k as int] == group_view(groups@[k as int]));
                    if str_eq(groups[k].timeframe.as_str(), timeframe) && groups[k].limit == limit {
                        found = true;
                    } else {
                        k = k + 1;
                    }
                }
                if found {
                    assert(g0[k as int].0 == key);
                    proof {
                        lemma_key_position(g0, key, k as int);
                    }
                    if !holds_text(&groups[k].symbols, symbol.as_str()) {
                        let ghost old_groups = groups@;
                        let mut g = groups.remove(k);
                        let ghost old_syms = g.symbols@;
                        g.symbols.push(symbol.clone());
                        assert(texts(g.symbols@) =~= texts(old_syms).push(symbol@));
                        assert(group_view(g) == (g0[k as int].0, g0[k as int].1.push(symbol@)));
                        groups.insert(k, g);
                        assert(groups@ =~= old_groups.update(k as int, g));
                        assert(groups_view(groups@) =~= g0.update(k as int, (g0[k as int].0, g0[k as int].1.push(symbol@))));
                    }
                } else {
                    assert(!has_key(g0, key));
                    let mut syms: Vec<String> = Vec::new();
                    syms.push(symbol.clone());
                    groups.push(StartupGroup {
                        timeframe: String::from_str(timeframe),
                        limit,
                        symbols: syms,
                    });
                    assert(texts(syms@) =~= seq![symbol@]);
                    assert(groups_view(groups@) =~= g0.push((key, seq![symbol@])));
                }
            }
            j = j + 1;
        }
        assert(events_of(*plan).take(plan.symbols@.len() as int) =~= events_of(*plan));
        assert(plans@.take(i + 1).drop_last() =~= plans@.take(i as int));
        assert(plan_events(plans@.take(i + 1)) =~= before + events_of(*plan));
        i = i + 1;
    }
    assert(plans@.take(plans@.len() as int) =~= plans@);
    groups
}

/// `r` lists, in increasing order, exactly the indices below `n` at which
/// `pick` holds.
pub open spec fn selects(r: Seq<usize>, n: int, pick: spec_fn(int) -> bool) -> bool {
    &&& forall|a: int, b: int| 0 <= a < b < r.len() ==> r[a] < r[b]
    &&& forall|a: int| 0 <= a < r.len() ==> r[a] < n && pick(r[a] as int)
    &&& forall|i: int| #![trigger pick(i)] 0 <= i < n && pick(i) ==> r.contains(i as usize)
}

/// Whether a strategy warms up `x` with the bars fetched under `key`: its
/// own timeframe and limit are `key`, and it trades `x`.
pub open spec fn warms(p: StartupPlan, key: (Seq<char>, u32), x: Seq<char>) -> bool {
    plan_key(p) == key && texts(p.symbols@).contains(x)
}

/// Whether the bars of `x` fetched for group `g` go to strategy `p`: those
/// of any symbol the data feed returned, requested or not, go to every
/// strategy that trades it with the group's timeframe and limit.
pub open spec fn warmup_feeds(p: StartupPlan, g: ((Seq<char>, u32), Seq<Seq<char>>), x: Seq<char>) -> bool {
    warms(p, g.0, x)
}

/// Whether a plan warms up with this timeframe and limit.
fn plan_has_key(plan: &StartupPlan, timeframe: &str, limit: u32) -> (b: bool)
    ensures
        b == (plan_key(*plan) == (timeframe@, limit)),
{
    match &plan.startup {
        Some((tf, l)) => str_eq(tf.as_str(), timeframe) && *l == limit,
        None => {
            let d = "1Hour";
            proof {
                reveal_strlit("1Hour");
            }
            str_eq(d, timeframe) && limit == 50
        },
    }
}

/// The strategies (indices into `plans`, in order) that the warm-up bars of
/// `symbol` fetched for `group` are fed to: those that trade the symbol and
/// warm up with the group's own timeframe and limit.
pub fn warmup_targets(plans: &Vec<StartupPlan>, group: &StartupGroup, symbol: &str) -> (r: Vec<usize>)
    ensures
        selects(r@, plans@.len() as int, |i: int| warmup_feeds(plans@[i], group_view(*group), symbol@)),
{
    let mut r: Vec<usize> = Vec::new();
    let ghost pick = |i: int| warmup_feeds(plans@[i], group_view(*group), symbol@);
    let mut i: usize = 0;
    while i < plans.len()
        invariant
            i <= plans@.len(),
            pick == (|i: int| warmup_feeds(plans@[i], group_view(*group), symbol@)),
            forall|a: int, b: int| 0 <= a < b < r@.len() ==> r@[a] < r@[b],
            forall|a: int| 0 <= a < r@.len() ==> r@[a] < i && pick(r@[a] as int),
            forall|k: int| #![trigger pick(k)] 0 <= k < i && pick(k) ==> r@.contains(k as usize),
        decreases plans@.len() - i,
    {
        let plan = &plans[i];
        if plan_has_key(plan, group.timeframe.as_str(), group.limit) && holds_text(&plan.symbols, symbol) {
            let ghost old_r = r@;
            r.push(i);
            assert forall|k: int| #![trigger pick(k)] 0 <= k < i + 1 && pick(k) implies r@.contains(k as usize) by {
                if k == i {
                    assert(r@[old_r.len() as int] == i);
                } else {
                    let m = choose|m: int| 0 <= m < old_r.len() && old_r[m] == k as usize;
                    assert(r@[m] == k as usize);
                }
            }
        } else {
            assert(!pick(i as int));
        }
        i = i + 1;
    }
    r
}

/// Every (timeframe and limit, symbol) pair a plan names is among the
/// pairs of all plans.
proof fn lemma_plan_events_cover(plans: Seq<StartupPlan>, i: int, k: int)
    requires
        0 <= i < plans.len(),
        0 <= k < plans[i].symbols@.len(),
    ensures
        plan_events(plans).contains((plan_key(plans[i]), plans[i].symbols@[k]@)),
    decreases plans.len(),
{
    let e = (plan_key(plans[i]), plans[i].symbols@[k]@);
    let p = plans.last();
    let tail = Seq::new(p.symbols@.len(), |m: int| (plan_key(p), p.symbols@[m]@));
    let front = plan_events(plans.drop_last());
    assert(plan_events(plans) == front + tail);
    if i == plans.len() - 1 {
        assert((front + tail)[front.len() + k] == e);
    } else {
        assert(plans.drop_last()[i] == plans[i]);
        lemma_plan_events_cover(plans.drop_last(), i, k);
        let m = choose|m: int| 0 <= m < front.len() && front[m] == e;
        assert((front + tail)[m] == e);
    }
}

/// At warm-up each strategy gets the bars of each requested symbol it
/// trades from exactly one request: the one made with its own timeframe and
/// limit (and, as groups hold a symbol once, exactly once).
pub proof fn law_warmup_once(plans: Seq<StartupPlan>, requested: Seq<Seq<char>>, i: int, x: Seq<char>)
    requires
        0 <= i < plans.len(),
        requested.contains(x),
        texts(plans[i].symbols@).contains(x),
    ensures
        exists|a: int|
            0 <= a < grouped(plan_events(plans), requested).len()
                && #[trigger] warmup_feeds(plans[i], grouped(plan_events(plans), requested)[a], x)
                && grouped(plan_events(plans), requested)[a].0 == plan_key(plans[i])
                && grouped(plan_events(plans), requested)[a].1.contains(x),
        forall|a: int, b: int|
            0 <= a < grouped(plan_events(plans), requested).len()
                && 0 <= b < grouped(plan_events(plans), requested).len()
                && #[trigger] warmup_feeds(plans[i], grouped(plan_events(plans), requested)[a], x)
                && #[trigger] warmup_feeds(plans[i], grouped(plan_events(plans), requested)[b], x)
                ==> a == b,
        forall|a: int| 0 <= a < grouped(plan_events(plans), requested).len()
            ==> #[trigger] grouped(plan_events(plans), requested)[a].1.no_duplicates(),
{
    let events = plan_events(plans);
    let gs = grouped(events, requested);
    let key = plan_key(plans[i]);
    law_grouped(events, requested);
    let k = choose|k: int| 0 <= k < texts(plans[i].symbols@).len() && texts(plans[i].symbols@)[k] == x;
    lemma_plan_events_cover(plans, i, k);
    assert(named_with(events, requested, key, x));
    let a = key_position(gs, key);
    assert(warmup_feeds(plans[i], gs[a], x));
    assert forall|a: int, b: int|
        0 <= a < gs.len() && 0 <= b < gs.len()
            && #[trigger] warmup_feeds(plans[i], gs[a], x)
            && #[trigger] warmup_feeds(plans[i], gs[b], x)
        implies a == b by {
        if a < b {
            assert(gs[a].0 != gs[b].0);
        } else if b < a {
            assert(gs[b].0 != gs[a].0);
        }
    }
}

/// A strategy's identity as the reload check compares it: name, symbol list
/// JSON, parameter JSON.
pub open spec fn fingerprint_view(v: Seq<(String, String, String)>) -> Seq<(Seq<char>, Seq<char>, Seq<char>)> {
    Seq::new(v.len(), |i: int| (v[i].0@, v[i].1@, v[i].2@))
}

/// Whether the strategies stored for an account still match the running
/// ones, entry by entry; a reload is due when they do not.
pub fn fingerprints_match(stored: &Vec<(String, String, String)>, running: &Vec<(String, String, String)>) -> (b: bool)
    ensures
        b == (fingerprint_view(stored@) == fingerprint_view(running@)),
{
    if stored.len() != running.len() {
        assert(fingerprint_view(stored@).len() != fingerprint_view(running@).len());
        return false;
    }
    let mut i: usize = 0;
    while i < stored.len()
        invariant
            stored@.len() == running@.len(),
            i <= stored@.len(),
            forall|k: int| 0 <= k < i ==> fingerprint_view(stored@)[k] == fingerprint_view(running@)[k],
        decreases stored@.len() - i,
    {
        let a = &stored[i];
        let b = &running[i];
        if !(str_eq(a.0.as_str(), b.0.as_str()) && str_eq(a.1.as_str(), b.1.as_str()) && str_eq(
            a.2.as_str(),
            b.2.as_str(),
        )) {
            assert(fingerprint_view(stored@)[i as int] != fingerprint_view(running@)[i as int]);
            return false;
        }
        i = i + 1;
    }
    assert(fingerprint_view(stored@) =~= fingerprint_view(running@));
    true
}

/// The positions in a strategy's symbol list whose symbol has a bar this
/// tick, in list order: the strategy is fed each of those bars, as every
/// strategy subscribed to a symbol is fed its bar.
pub fn fed_symbols<V>(symbols: &Vec<String>, bars: &KeyedMap<V>) -> (r: Vec<usize>)
    ensures
        selects(r@, symbols@.len() as int, |i: int| bars.as_map().dom().contains(symbols@[i]@)),
{
    let ghost pick = |i: int| bars.as_map().dom().contains(symbols@[i]@);
    let mut r: Vec<usize> = Vec::new();
    let mut i: usize = 0;
    while i < symbols.len()
        invariant
            i <= symbols@.len(),
            pick == (|i: int| bars.as_map().dom().contains(symbols@[i]@)),
            forall|a: int, b: int| 0 <= a < b < r@.len() ==> r@[a] < r@[b],
            forall|a: int| 0 <= a < r@.len() ==> r@[a] < i && pick(r@[a] as int),
            forall|k: int| #![trigger pick(k)] 0 <= k < i && pick(k) ==> r@.contains(k as usize),
        decreases symbols@.len() - i,
    {
        if bars.contains_key(symbols[i].as_str()) {
            let ghost old_r = r@;
            r.push(i);
            assert forall|k: int| #![trigger pick(k)] 0 <= k < i + 1 && pick(k) implies r@.contains(k as usize) by {
                if k == i {
                    assert(r@[old_r.len() as int] == i);
                } else {
                    let m = choose|m: int| 0 <= m < old_r.len() && old_r[m] == k as usize;
                    assert(r@[m] == k as usize);
                }
            }
        } else {
            assert(!pick(i as int));
        }
        i = i + 1;
    }
    r
}

/// Whether an earlier stored entry (before `i`) already keeps running
/// strategy `j`.
pub open spec fn kept_before(reuse: Seq<Option<usize>>, i: int, j: int) -> bool {
    reuse.subrange(0, i).contains(Some(j as usize))
}

/// What a reload does with each stored strategy entry: `reuse[i] == Some(j)`
/// keeps running strategy `j`, whose name, symbols and params are those of
/// entry `i` (the first such one not kept by an earlier entry); `None`
/// rebuilds the entry, as no unchanged running strategy is left for it.
pub open spec fn reload_plan(
    stored: Seq<(Seq<char>, Seq<char>, Seq<char>)>,
    running: Seq<(Seq<char>, Seq<char>, Seq<char>)>,
    reuse: Seq<Option<usize>>,
) -> bool {
    &&& reuse.len() == stored.len()
    &&& forall|i: int| 0 <= i < reuse.len() ==> #[trigger] reload_entry(stored, running, reuse, i)
}

/// The rule of `reload_plan` for entry `i`.
pub open spec fn reload_entry(
    stored: Seq<(Seq<char>, Seq<char>, Seq<char>)>,
    running: Seq<(Seq<char>, Seq<char>, Seq<char>)>,
    reuse: Seq<Option<usize>>,
    i: int,
) -> bool {
    match reuse[i] {
        Some(j) => {
            &&& j < running.len()
            &&& running[j as int] == stored[i]
            &&& !kept_before(reuse, i, j as int)
            &&& forall|k: int| 0 <= k < j && running[k] == stored[i] ==> #[trigger] kept_before(reuse, i, k)
        },
        None => forall|k: int| 0 <= k < running.len() && running[k] == stored[i] ==> #[trigger] kept_before(reuse, i, k),
    }
}

/// Decides, per stored strategy entry, whether a reload keeps a running
/// strategy (with its price buffers) or rebuilds the entry: only entries
/// whose name, symbols or params changed are rebuilt.
pub fn reload_reuse(stored: &Vec<(String, String, String)>, running: &Vec<(String, String, String)>) -> (reuse: Vec<Option<usize>>)
    ensures
        reload_plan(fingerprint_view(stored@), fingerprint_view(running@), reuse@),
{
    let ghost sv = fingerprint_view(stored@);
    let ghost rv = fingerprint_view(running@);
    let mut used: Vec<bool> = Vec::new();
    let mut m: usize = 0;
    while m < running.len()
        invariant
            m <= running@.len(),
            used@.len() == m,
            forall|k: int| 0 <= k < m ==> !used@[k],
        decreases running@.len() - m,
    {
        used.push(false);
        m = m + 1;
    }
    let mut reuse: Vec<Option<usize>> = Vec::new();
    let mut i: usize = 0;
    while i < stored.len()
        invariant
            i <= stored@.len(),
            sv == fingerprint_view(stored@),
            rv == fingerprint_view(running@),
            used@.len() == running@.len(),
            reuse@.len() == i,
            forall|k: int| 0 <= k < running@.len() ==> (used@[k] <==> kept_before(reuse@, i as int, k)),
            reload_plan(sv.take(i as int), rv, reuse@),
        decreases stored@.len() - i,
    {
        let a = &stored[i];
        let mut j: usize = 0;
        let mut found = false;
        while j < running.len() && !found
            invariant
                i < stored@.len(),
                *a == stored@[i as int],
                sv == fingerprint_view(stored@),
                rv == fingerprint_view(running@),
                j <= running@.len(),
                used@.len() == running@.len(),
                found ==> j < running@.len() && !used@[j as int] && rv[j as int] == sv[i as int],
                forall|k: int| 0 <= k < j && rv[k] == sv[i as int] ==> used@[k],
            decreases running@.len() - j, if found { 0int } else { 1int },
        {
            let b = &running[j];
            if !used[j] && str_eq(a.0.as_str(), b.0.as_str()) && str_eq(a.1.as_str(), b.1.as_str())
                && str_eq(a.2.as_str(), b.2.as_str()) {
                found = true;
            } else {
                j = j + 1;
            }
        }
        let ghost old_reuse = reuse@;
        let ghost old_used = used@;
        let choice = if found { Some(j) } else { None };
        reuse.push(choice);
        if found {
            used.set(j, true);
        }
        proof {
            assert(reuse@.subrange(0, i as int) =~= old_reuse);
            assert forall|k: int| 0 <= k < running@.len() implies (used@[k] <==> kept_before(reuse@, i + 1, k)) by {
                let sub = reuse@.subrange(0, i + 1);
                assert(sub =~= old_reuse.push(choice));
                if kept_before(reuse@, i + 1, k) {
                    let m = choose|m: int| 0 <= m < sub.len() && sub[m] == Some(k as usize);
                    if m < i {
                        assert(old_reuse[m] == Some(k as usize));
                        assert(old_reuse.subrange(0, i as int) =~= old_reuse);
                    }
                }
                if used@[k] {
                    if found && k == j {
                        assert(sub[i as int] == Some(k as usize));
                    } else {
                        assert(kept_before(old_reuse, i as int, k));
                        assert(old_reuse.subrange(0, i as int) =~= old_reuse);
                        let m = choose|m: int| 0 <= m < old_reuse.len() && old_reuse[m] == Some(k as usize);
                        assert(sub[m] == Some(k as usize));
                    }
                }
            }
            assert(sv.take(i + 1).take(i as int) =~= sv.take(i as int));
            assert forall|q: int| 0 <= q < reuse@.len() implies #[trigger] reload_entry(sv.take(i + 1), rv, reuse@, q) by {
                assert(reuse@.subrange(0, q) =~= old_reuse.subrange(0, q));
                if q < i {
                    assert(reuse@[q] == old_reuse[q]);
                    assert(sv.take(i + 1)[q] == sv.take(i as int)[q]);
                    assert(reload_entry(sv.take(i as int), rv, old_reuse, q));
                    assert forall|k: int| #[trigger] kept_before(reuse@, q, k) == kept_before(old_reuse, q, k) by {}
                } else {
                    assert(sv.take(i + 1)[q] == sv[i as int]);
                    assert(reuse@[q] == choice);
                    assert forall|k: int| 0 <= k < rv.len() implies (kept_before(reuse@, q, k) <==> old_used[k]) by {
                        assert(kept_before(old_reuse, i as int, k) <==> old_used[k]);
                    }
                    if found {
                        assert(!old_used[j as int]);
                        assert(!kept_before(reuse@, q, j as int));
                        assert forall|k: int| 0 <= k < j && rv[k] == sv.take(i + 1)[q] implies #[trigger] kept_before(reuse@, q, k) by {
                            assert(old_used[k]);
                        }
                    } else {
                        assert forall|k: int| 0 <= k < rv.len() && rv[k] == sv.take(i + 1)[q] implies #[trigger] kept_before(reuse@, q, k) by {
                            assert(old_used[k]);
                        }
                    }
                }
            }
        }
        i = i + 1;
    }
    assert(sv.take(stored@.len() as int) =~= sv);
    reuse
}

proof fn lemma_unchanged_prefix(
    entries: Seq<(Seq<char>, Seq<char>, Seq<char>)>,
    reuse: Seq<Option<usize>>,
    n: int,
)
    requires
        reload_plan(entries, entries, reuse),
        entries.len() <= usize::MAX,
        0 <= n <= reuse.len(),
    ensures
        forall|i: int| 0 <= i < n ==> #[trigger] reuse[i] == Some(i as usize),
    decreases n,
{
    if n > 0 {
        let p = n - 1;
        lemma_unchanged_prefix(entries, reuse, p);
        assert forall|k: int| 0 <= k < entries.len() implies (kept_before(reuse, p, k) <==> k < p) by {
            let sub = reuse.subrange(0, p);
            if k < p {
                assert(sub[k] == Some(k as usize));
            }
            if kept_before(reuse, p, k) {
                let m = choose|m: int| 0 <= m < sub.len() && sub[m] == Some(k as usize);
                assert(reuse[m] == Some(m as usize));
            }
        }
        match reuse[p] {
            Some(j) => {
                assert(reload_entry(entries, entries, reuse, p));
                if (j as int) < p {
                    assert(kept_before(reuse, p, j as int));
                } else if (j as int) > p {
                    assert(kept_before(reuse, p, p));
                }
            },
            None => {
                assert(reload_entry(entries, entries, reuse, p));
                assert(kept_before(reuse, p, p));
            },
        }
    }
}

/// When nothing changed, a reload keeps every running strategy in place.
pub proof fn law_unchanged_reload_keeps_all(
    entries: Seq<(Seq<char>, Seq<char>, Seq<char>)>,
    reuse: Seq<Option<usize>>,
)
    requires
        reload_plan(entries, entries, reuse),
        entries.len() <= usize::MAX,
    ensures
        forall|i: int| 0 <= i < reuse.len() ==> #[trigger] reuse[i] == Some(i as usize),
{
    lemma_unchanged_prefix(entries, reuse, reuse.len() as int);
}

/// A reload never hands one running strategy to two stored entries.
pub proof fn law_reload_keeps_each_once(
    stored: Seq<(Seq<char>, Seq<char>, Seq<char>)>,
    running: Seq<(Seq<char>, Seq<char>, Seq<char>)>,
    reuse: Seq<Option<usize>>,
)
    requires
        reload_plan(stored, running, reuse),
    ensures
        forall|a: int, b: int|
            0 <= a < b < reuse.len() && #[trigger] reuse[a] is Some && #[trigger] reuse[b] is Some
                ==> reuse[a] != reuse[b],
{
    assert forall|a: int, b: int|
        0 <= a < b < reuse.len() && #[trigger] reuse[a] is Some && #[trigger] reuse[b] is Some
        implies reuse[a] != reuse[b] by {
        if reuse[a] == reuse[b] {
            assert(reload_entry(stored, running, reuse, b));
            let j = reuse[b]->0;
            assert(reuse.subrange(0, b)[a] == Some(j));
            assert(kept_before(reuse, b, j as int));
        }
    }
}

/// The list of strings `serde_json::from_str::<Vec<String>>` reads from a
/// text, or `None` where it reports an error.
pub uninterp spec fn json_strings_parsed(text: Seq<char>) -> Option<Seq<Seq<char>>>;

/// Reads a JSON array of strings with `serde_json::from_str`; the result is
/// named, not described: it depends on the text alone.
#[verifier::external_body]
fn decode_string_list(text: &str) -> (r: Option<Vec<String>>)
    ensures
        match r {
            Some(v) => json_strings_parsed(text@) == Some(texts(v@)),
            None => json_strings_parsed(text@) is None,
        },
{
    serde_json::from_str::<Vec<String>>(text).ok()
}

/// A lower-case hexadecimal digit.
pub open spec fn hex_digit(d: int) -> char {
    if d < 10 {
        (('0' as int) + d) as char
    } else {
        (('a' as int) + d - 10) as char
    }
}

/// How JSON writes one character inside a string: `"` and `\` escaped with
/// a backslash, the control characters backspace, form feed, line feed,
/// carriage return and tab as `\b`, `\f`, `\n`, `\r`, `\t`, the other
/// control characters below U+0020 as `\u00` and two lower-case hex
/// digits, and every other character as itself.
pub open spec fn json_escaped(c: char) -> Seq<char> {
    if c == '"' {
        seq!['\\', '"']
    } else if c == '\\' {
        seq!['\\', '\\']
    } else if c == '\u{8}' {
        seq!['\\', 'b']
    } else if c == '\u{c}' {
        seq!['\\', 'f']
    } else if c == '\n' {
        seq!['\\', 'n']
    } else if c == '\r' {
        seq!['\\', 'r']
    } else if c == '\t' {
        seq!['\\', 't']
    } else if (c as int) < 0x20 {
        seq!['\\', 'u', '0', '0', hex_digit((c as int) / 16), hex_digit((c as int) % 16)]
    } else {
        seq![c]
    }
}

/// The escaped characters of a string, in order.
pub open spec fn json_escaped_text(s: Seq<char>) -> Seq<char>
    decreases s.len(),
{
    if s.len() == 0 {
        Seq::empty()
    } else {
        json_escaped_text(s.drop_last()) + json_escaped(s.last())
    }
}

/// A JSON string literal.
pub open spec fn json_quoted(s: Seq<char>) -> Seq<char> {
    seq!['"'] + json_escaped_text(s) + seq!['"']
}

/// The string literals of the items, separated by commas.
pub open spec fn json_items(items: Seq<Seq<char>>) -> Seq<char>
    decreases items.len(),
{
    if items.len() == 0 {
        Seq::empty()
    } else if items.len() == 1 {
        json_quoted(items[0])
    } else {
        json_items(items.drop_last()) + seq![','] + json_quoted(items.last())
    }
}

/// The compact JSON array of strings: `[`, the items, `]`.
pub open spec fn json_string_list(items: Seq<Seq<char>>) -> Seq<char> {
    seq!['['] + json_items(items) + seq![']']
}

/// Writes a list of strings as a compact JSON array with
/// `serde_json::to_string`. Writing strings into memory cannot fail, so the
/// text is always the array `json_string_list` describes.
#[verifier::external_body]
fn encode_string_list(items: &Vec<String>) -> (s: String)
    ensures
        s@ == json_string_list(texts(items@)),
{
    serde_json::to_string(items).unwrap_or_default()
}

/// The symbols a stored assignment lists; an unreadable list counts as none.
pub fn parse_symbols(symbols_json: &str) -> (symbols: Vec<String>)
    ensures
        texts(symbols@) == match json_strings_parsed(symbols_json@) {
            Some(v) => v,
            None => Seq::<Seq<char>>::empty(),
        },
{
    match decode_string_list(symbols_json) {
        Some(v) => v,
        None => {
            let v: Vec<String> = Vec::new();
            assert(texts(v@) =~= Seq::<Seq<char>>::empty());
            v
        },
    }
}

/// The JSON a symbol list is stored as: a compact array of strings.
pub fn symbols_json(symbols: &Vec<String>) -> (json: String)
    ensures
        json@ == json_string_list(texts(symbols@)),
{
    encode_string_list(symbols)
}

/// A stored symbol list in the form the engine itself writes, so that
/// spacing or formatting differences do not count as a change; text that is
/// not such a list is kept as it is.
pub fn canonical_symbols(symbols_json: &str) -> (json: String)
    ensures
        json@ == match json_strings_parsed(symbols_json@) {
            Some(v) => json_string_list(v),
            None => symbols_json@,
        },
{
    match decode_string_list(symbols_json) {
        Some(v) => encode_string_list(&v),
        None => String::from_str(symbols_json),
    }
}

/// Where the handling of one buy or sell signal stands.
#[derive(Clone, Copy, Debug, PartialEq, Eq, Structural)]
pub enum SignalStage {
    /// Store the signal.
    RecordSignal,
    /// Read the account from the broker.
    FetchAccount,
    /// Read the positions from the broker.
    FetchPositions,
    /// Ask the risk manager for an order.
    Evaluate,
    /// Send the order to the broker.
    Submit,
    /// Store the filled trade.
    RecordTrade,
    /// Nothing more to do.
    Finished,
}

/// The stage after the current step succeeded or failed. Storing the signal
/// or the trade never stops the handling; a failed read, no order from the
/// risk manager, or a refused order ends it.
pub open spec fn signal_stage_after(stage: SignalStage, succeeded: bool) -> SignalStage {
    match stage {
        SignalStage::RecordSignal => SignalStage::FetchAccount,
        SignalStage::FetchAccount => if succeeded {
            SignalStage::FetchPositions
        } else {
            SignalStage::Finished
        },
        SignalStage::FetchPositions => if succeeded {
            SignalStage::Evaluate
        } else {
            SignalStage::Finished
        },
        SignalStage::Evaluate => if succeeded {
            SignalStage::Submit
        } else {
            SignalStage::Finished
        },
        SignalStage::Submit => if succeeded {
            SignalStage::RecordTrade
        } else {
            SignalStage::Finished
        },
        _ => SignalStage::Finished,
    }
}

/// At most how many steps remain.
pub open spec fn signal_steps_left(stage: SignalStage) -> nat {
    match stage {
        SignalStage::RecordSignal => 6,
        SignalStage::FetchAccount => 5,
        SignalStage::FetchPositions => 4,
        SignalStage::Evaluate => 3,
        SignalStage::Submit => 2,
        SignalStage::RecordTrade => 1,
        SignalStage::Finished => 0,
    }
}

impl SignalStage {
    /// Where handling starts: hold signals are not handled at all.
    pub fn first(is_hold: bool) -> (s: SignalStage)
        ensures
            s == (if is_hold {
                SignalStage::Finished
            } else {
                SignalStage::RecordSignal
            }),
    {
        if is_hold {
            SignalStage::Finished
        } else {
            SignalStage::RecordSignal
        }
    }

    /// The stage after the current step succeeded or failed.
    pub fn after(self, succeeded: bool) -> (s: SignalStage)
        ensures
            s == signal_stage_after(self, succeeded),
    {
        match self {
            SignalStage::RecordSignal => SignalStage::FetchAccount,
            SignalStage::FetchAccount => if succeeded {
                SignalStage::FetchPositions
            } else {
                SignalStage::Finished
            },
            SignalStage::FetchPositions => if succeeded {
                SignalStage::Evaluate
            } else {
                SignalStage::Finished
            },
            SignalStage::Evaluate => if succeeded {
                SignalStage::Submit
            } else {
                SignalStage::Finished
            },
            SignalStage::Submit => if succeeded {
                SignalStage::RecordTrade
            } else {
                SignalStage::Finished
            },
            _ => SignalStage::Finished,
        }
    }

    /// Whether a failure at this stage is reported as an error: failed
    /// broker calls are; storage writes are best-effort, and no order from
    /// the risk manager is no error.
    pub fn failure_is_reported(self) -> (b: bool)
        ensures
            b == (self is FetchAccount || self is FetchPositions || self is Submit),
    {
        match self {
            SignalStage::FetchAccount | SignalStage::FetchPositions | SignalStage::Submit => true,
            _ => false,
        }
    }
}

/// A trade is stored only right after the broker accepted the order, an
/// order is submitted only right after the risk manager produced one, and
/// handling ends after at most six steps.
pub proof fn law_signal_handling(stage: SignalStage, succeeded: bool)
    ensures
        signal_stage_after(stage, succeeded) == SignalStage::RecordTrade ==> stage
            == SignalStage::Submit && succeeded,
        signal_stage_after(stage, succeeded) == SignalStage::Submit ==> stage == SignalStage::Evaluate
            && succeeded,
        stage != SignalStage::Finished ==> signal_steps_left(signal_stage_after(stage, succeeded))
            < signal_steps_left(stage),
{
}

/// The handling of a buy or sell signal step by step: the signal is stored,
/// then the account and then the positions are read; with both in hand the
/// risk manager is asked; an order it produces is submitted to the broker,
/// and an order the broker accepts is stored as a trade, which ends the
/// handling. A failed read, no order, or a refused order ends it at once;
/// storing the signal goes on to the account whether or not it succeeded.
pub proof fn law_signal_steps(succeeded: bool)
    ensures
        signal_stage_after(SignalStage::RecordSignal, succeeded) == SignalStage::FetchAccount,
        signal_stage_after(SignalStage::FetchAccount, true) == SignalStage::FetchPositions,
        signal_stage_after(SignalStage::FetchPositions, true) == SignalStage::Evaluate,
        signal_stage_after(SignalStage::Evaluate, true) == SignalStage::Submit,
        signal_stage_after(SignalStage::Submit, true) == SignalStage::RecordTrade,
        signal_stage_after(SignalStage::RecordTrade, succeeded) == SignalStage::Finished,
        signal_stage_after(SignalStage::FetchAccount, false) == SignalStage::Finished,
        signal_stage_after(SignalStage::FetchPositions, false) == SignalStage::Finished,
        signal_stage_after(SignalStage::Evaluate, false) == SignalStage::Finished,
        signal_stage_after(SignalStage::Submit, false) == SignalStage::Finished,
        signal_stage_after(SignalStage::Finished, succeeded) == SignalStage::Finished,
{
}

/// The phases of one engine tick, in order; after waiting for the next
/// tick the engine starts over.
#[derive(Clone, Copy, Debug, PartialEq, Eq, Structural)]
pub enum TickPhase {
    Reload,
    UpdatePrices,
    FetchBars,
    FeedStrategies,
    ProcessSignals,
    Snapshot,
    SyncPositions,
    Wait,
}

/// The position of a phase within a tick.
pub open spec fn phase_index(p: TickPhase) -> int {
    match p {
        TickPhase::Reload => 0,
        TickPhase::UpdatePrices => 1,
        TickPhase::FetchBars => 2,
        TickPhase::FeedStrategies => 3,
        TickPhase::ProcessSignals => 4,
        TickPhase::Snapshot => 5,
        TickPhase::SyncPositions => 6,
        TickPhase::Wait => 7,
    }
}

impl TickPhase {
    /// The phase that follows. A phase that fails is reported and the tick
    /// goes on, so the successor does not depend on the outcome.
    pub fn next(self) -> (p: TickPhase)
        ensures
            phase_index(p) == (phase_index(self) + 1) % 8,
    {
        match self {
            TickPhase::Reload => TickPhase::UpdatePrices,
            TickPhase::UpdatePrices => TickPhase::FetchBars,
            TickPhase::FetchBars => TickPhase::FeedStrategies,
            TickPhase::FeedStrategies => TickPhase::ProcessSignals,
            TickPhase::ProcessSignals => TickPhase::Snapshot,
            TickPhase::Snapshot => TickPhase::SyncPositions,
            TickPhase::SyncPositions => TickPhase::Wait,
            TickPhase::Wait => TickPhase::Reload,
        }
    }
}

/// Within a tick the phases come in the declared order: reload, update
/// prices, fetch bars, feed the strategies, process their signals, snapshot,
/// sync positions, wait; so the signals a tick's bars produce are processed
/// in that same tick, and the tick after waiting starts with a reload.
pub proof fn law_tick_order()
    ensures
        phase_index(TickPhase::Reload) == 0,
        phase_index(TickPhase::Reload) < phase_index(TickPhase::UpdatePrices),
        phase_index(TickPhase::UpdatePrices) < phase_index(TickPhase::FetchBars),
        phase_index(TickPhase::FetchBars) < phase_index(TickPhase::FeedStrategies),
        phase_index(TickPhase::FeedStrategies) < phase_index(TickPhase::ProcessSignals),
        phase_index(TickPhase::ProcessSignals) < phase_index(TickPhase::Snapshot),
        phase_index(TickPhase::Snapshot) < phase_index(TickPhase::SyncPositions),
        phase_index(TickPhase::SyncPositions) < phase_index(TickPhase::Wait),
        phase_index(TickPhase::Wait) == 7,
        forall|a: TickPhase, b: TickPhase| phase_index(a) == phase_index(b) ==> a == b,
{
}

} // verus!
