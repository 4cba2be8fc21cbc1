//! Listing submissions: filtering by category, priority and free-text
//! search, ordering newest first, and cutting out one page.

use vstd::prelude::*;
use crate::model::Submission;
use crate::text::{
    contains_seq, contains_text, eq_ignore_ascii_case, eq_ignore_ascii_case_spec, is_blank,
    lowercase, to_lower, trim, trimmed,
};

verus! {

/// The query of a listing request; an absent parameter is `None`.
#[derive(Clone, Debug)]
pub struct ListParams {
    pub offset: Option<usize>,
    pub limit: Option<usize>,
    pub category: Option<String>,
    pub priority: Option<String>,
    pub search: Option<String>,
}

/// One page of a listing, with the number of submissions that matched.
#[derive(Clone, Debug)]
pub struct SubmissionListResponse {
    pub items: Vec<Submission>,
    pub total: usize,
    pub offset: usize,
    pub limit: usize,
}

/// The page start asked for (by default 0).
pub open spec fn offset_of(p: ListParams) -> usize {
    match p.offset {
        Some(o) => o,
        None => 0,
    }
}

/// The page size asked for (by default 10).
pub open spec fn limit_of(p: ListParams) -> usize {
    match p.limit {
        Some(l) => l,
        None => 10,
    }
}

/// The name filter in force for an optional parameter: the parameter as
/// given, unless it is absent or blank.
pub open spec fn name_filter(f: Option<String>) -> Option<Seq<char>> {
    match f {
        Some(f) => if trimmed(f@).len() == 0 {
            None
        } else {
            Some(f@)
        },
        None => None,
    }
}

/// The search text in force: the trimmed, lower-cased parameter, unless
/// it is absent or blank.
pub open spec fn search_needle(q: Option<String>) -> Option<Seq<char>> {
    match q {
        Some(q) => if trimmed(q@).len() == 0 {
            None
        } else {
            Some(lowercase(trimmed(q@)))
        },
        None => None,
    }
}

/// Whether a name passes a name filter: no filter, or the same name up to
/// ASCII case.
pub open spec fn name_passes(filter: Option<Seq<char>>, name: Seq<char>) -> bool {
    match filter {
        None => true,
        Some(f) => eq_ignore_ascii_case_spec(name, f),
    }
}

/// Whether a submission contains the search text (lower-cased) in its
/// title, its description or one of its tags.
pub open spec fn search_passes(needle: Option<Seq<char>>, s: Submission) -> bool {
    match needle {
        None => true,
        Some(n) => {
            ||| contains_seq(lowercase(s.title@), n)
            ||| contains_seq(lowercase(s.description@), n)
            ||| exists|i: int| 0 <= i < s.tags@.len() && contains_seq(lowercase(#[trigger] s.tags@[i]@), n)
        },
    }
}

/// Whether a submission is listed under these parameters.
pub open spec fn keeps(p: ListParams, s: Submission) -> bool {
    &&& name_passes(name_filter(p.category), s.category.name_spec())
    &&& name_passes(name_filter(p.priority), s.priority.name_spec())
    &&& search_passes(search_needle(p.search), s)
}

/// The submissions listed under these parameters, in their given order.
pub open spec fn filtered(subs: Seq<Submission>, p: ListParams) -> Seq<Submission> {
    subs.filter(|s: Submission| keeps(p, s))
}

struct Criteria {
    category: Option<String>,
    priority: Option<String>,
    needle: Option<String>,
}

fn name_filter_of(f: &Option<String>) -> (r: Option<String>)
    ensures
        match name_filter(*f) {
            Some(n) => r is Some && r->0@ == n,
            None => r is None,
        },
{
    match f {
        Some(f) => {
            if is_blank(f.as_str()) {
                None
            } else {
                Some(f.clone())
            }
        },
        None => None,
    }
}

fn criteria(p: &ListParams) -> (c: Criteria)
    ensures
        match name_filter(p.category) {
            Some(n) => c.category is Some && c.category->0@ == n,
            None => c.category is None,
        },
        match name_filter(p.priority) {
            Some(n) => c.priority is Some && c.priority->0@ == n,
            None => c.priority is None,
        },
        match search_needle(p.search) {
            Some(n) => c.needle is Some && c.needle->0@ == n,
            None => c.needle is None,
        },
{
    let needle = match &p.search {
        Some(q) => {
            let lowered = to_lower(trim(q.as_str()));
            if lowered.as_str().unicode_len() == 0 {
                None
            } else {
                Some(lowered)
            }
        },
        None => None,
    };
    Criteria {
        category: name_filter_of(&p.category),
        priority: name_filter_of(&p.priority),
        needle,
    }
}

fn text_has(text: &String, needle: &String) -> (r: bool)
    ensures
        r == contains_seq(lowercase(text@), needle@),
{
    let lowered = to_lower(text.as_str());
    contains_text(lowered.as_str(), needle.as_str())
}

#[verifier::loop_isolation(false)]
fn search_matches(needle: &Option<String>, s: &Submission) -> (r: bool)
    ensures
        r == search_passes(
            match needle {
                Some(n) => Some(n@),
                None => None,
            },
            *s,
        ),
{
    match needle {
        None => true,
        Some(n) => {
            if text_has(&s.title, n) {
                return true;
            }
            if text_has(&s.description, n) {
                return true;
            }
            let mut i: usize = 0;
            while i < s.tags.len()
                invariant
                    i <= s.tags@.len(),
                    forall|j: int| 0 <= j < i ==> !contains_seq(lowercase(#[trigger] s.tags@[j]@), n@),
                decreases s.tags@.len() - i,
            {
                if text_has(&s.tags[i], n) {
                    assert(contains_seq(lowercase(s.tags@[i as int]@), n@));
                    return true;
                }
                i = i + 1;
            }
            false
        },
    }
}

fn name_matches(filter: &Option<String>, name: &str) -> (r: bool)
    ensures
        r == name_passes(
            match filter {
                Some(f) => Some(f@),
                None => None,
            },
            name@,
        ),
{
    match filter {
        None => true,
        Some(f) => eq_ignore_ascii_case(name, f.as_str()),
    }
}

fn matches(c: &Criteria, s: &Submission, Ghost(p): Ghost<ListParams>) -> (r: bool)
    requires
        match name_filter(p.category) {
            Some(n) => c.category is Some && c.category->0@ == n,
            None => c.category is None,
        },
        match name_filter(p.priority) {
            Some(n) => c.priority is Some && c.priority->0@ == n,
            None => c.priority is None,
        },
        match search_needle(p.search) {
            Some(n) => c.needle is Some && c.needle->0@ == n,
            None => c.needle is None,
        },
    ensures
        r == keeps(p, *s),
{
    name_matches(&c.category, s.category.name()) && name_matches(&c.priority, s.priority.name())
        && search_matches(&c.needle, s)
}

/// The submissions listed under these parameters, in their given order.
#[verifier::loop_isolation(false)]
pub fn filter_submissions(subs: Vec<Submission>, params: &ListParams) -> (r: Vec<Submission>)
    ensures
        r@ == filtered(subs@, *params),
{
    let c = criteria(params);
    let ghost all = subs@;
    let ghost pred = |s: Submission| keeps(*params, s);
    let mut out: Vec<Submission> = Vec::new();
    assert(all.take(0).filter(pred) =~= Seq::<Submission>::empty());
    for s in it: subs.into_iter()
        invariant
            it.seq() == all,
            out@ == all.take(it.index() as int).filter(pred),
            match name_filter(params.category) {
                Some(n) => c.category is Some && c.category->0@ == n,
                None => c.category is None,
            },
            match name_filter(params.priority) {
                Some(n) => c.priority is Some && c.priority->0@ == n,
                None => c.priority is None,
            },
            match search_needle(params.search) {
                Some(n) => c.needle is Some && c.needle->0@ == n,
                None => c.needle is None,
            },
    {
        let ghost i = it.index();
        assert(all.take(i + 1).drop_last() =~= all.take(i as int));
        assert(all.take(i + 1).last() == s);
        let ghost before = all.take(i as int).filter(pred);
        reveal_with_fuel(Seq::<Submission>::filter, 1);
        assert(all.take(i + 1).filter(pred) == if pred(s) {
            before.push(s)
        } else {
            before
        });
        if matches(&c, &s, Ghost(*params)) {
            out.push(s);
        }
    }
    assert(all.take(all.len() as int) =~= all);
    out
}


/// `output` is `input` ordered newest first, where `perm` tells for each
/// position of `output` the position in `input` it came from: a
/// rearrangement, by creation time from latest to earliest, in which
/// submissions created at the same instant keep their relative order.
pub open spec fn newest_first_by(input: Seq<Submission>, output: Seq<Submission>, perm: Seq<int>) -> bool {
    &&& perm.len() == input.len()
    &&& output.len() == input.len()
    &&& forall|k: int| 0 <= k < output.len() ==> 0 <= #[trigger] perm[k] < input.len()
    &&& forall|k: int| 0 <= k < output.len() ==> #[trigger] output[k] == input[perm[k]]
    &&& forall|k: int, l: int| 0 <= k < l < output.len() ==> #[trigger] perm[k] != #[trigger] perm[l]
    &&& forall|k: int, l: int|
        0 <= k < l < output.len() ==> !(#[trigger] output[k]).created_at.before(
            (#[trigger] output[l]).created_at,
        )
    &&& forall|k: int, l: int|
        0 <= k < l < output.len() && output[k].created_at == output[l].created_at ==> #[trigger] perm[k]
            < #[trigger] perm[l]
}

/// `output` is `input` ordered newest first, stably (see `newest_first_by`).
pub open spec fn newest_first(input: Seq<Submission>, output: Seq<Submission>) -> bool {
    &&& output.to_multiset() == input.to_multiset()
    &&& exists|perm: Seq<int>| newest_first_by(input, output, perm)
}

proof fn lemma_insert_keeps_order(
    input: Seq<Submission>,
    prev: Seq<Submission>,
    prev_perm: Seq<int>,
    x: Submission,
    p: int,
)
    requires
        newest_first_by(input, prev, prev_perm),
        0 <= p <= prev.len(),
        forall|q: int| 0 <= q < p ==> !(#[trigger] prev[q]).created_at.before(x.created_at),
        forall|q: int| p <= q < prev.len() ==> (#[trigger] prev[q]).created_at.before(x.created_at),
    ensures
        newest_first_by(input.push(x), prev.insert(p, x), prev_perm.insert(p, input.len() as int)),
{
    let out = prev.insert(p, x);
    let perm = prev_perm.insert(p, input.len() as int);
    let full = input.push(x);
    let i = input.len() as int;
    assert forall|k: int| 0 <= k < out.len() implies 0 <= #[trigger] perm[k] < full.len() && out[k]
        == full[perm[k]] by {
        if k < p {
            assert(perm[k] == prev_perm[k]);
            assert(out[k] == prev[k]);
        } else if k > p {
            assert(perm[k] == prev_perm[k - 1]);
            assert(out[k] == prev[k - 1]);
        }
    }
    assert forall|k: int, l: int| 0 <= k < l < out.len() implies #[trigger] perm[k]
        != #[trigger] perm[l] by {
        if k < p && l < p {
        } else if k < p && l == p {
        } else if k < p && l > p {
            assert(perm[l] == prev_perm[l - 1]);
        } else if k == p {
            assert(perm[l] == prev_perm[l - 1]);
        } else {
            assert(perm[k] == prev_perm[k - 1]);
            assert(perm[l] == prev_perm[l - 1]);
        }
    }
    assert forall|k: int, l: int| 0 <= k < l < out.len() implies !(#[trigger] out[k]).created_at.before(
        (#[trigger] out[l]).created_at,
    ) by {
        if l < p {
            assert(out[k] == prev[k] && out[l] == prev[l]);
        } else if l == p {
            assert(out[k] == prev[k]);
        } else if k < p {
            assert(out[k] == prev[k] && out[l] == prev[l - 1]);
        } else if k == p {
            assert(out[l] == prev[l - 1]);
        } else {
            assert(out[k] == prev[k - 1] && out[l] == prev[l - 1]);
        }
    }
    assert forall|k: int, l: int|
        0 <= k < l < out.len() && out[k].created_at == out[l].created_at implies #[trigger] perm[k]
        < #[trigger] perm[l] by {
        if l < p {
            assert(out[k] == prev[k] && out[l] == prev[l]);
            assert(perm[k] == prev_perm[k] && perm[l] == prev_perm[l]);
        } else if l == p {
            assert(perm[k] == prev_perm[k]);
        } else if k < p {
            assert(out[l] == prev[l - 1]);
        } else if k == p {
            assert(out[l] == prev[l - 1]);
        } else {
            assert(out[k] == prev[k - 1] && out[l] == prev[l - 1]);
            assert(perm[k] == prev_perm[k - 1] && perm[l] == prev_perm[l - 1]);
        }
    }
}

proof fn lemma_insert_multiset(prev: Seq<Submission>, x: Submission, p: int)
    requires
        0 <= p <= prev.len(),
    ensures
        prev.insert(p, x).to_multiset() == prev.to_multiset().insert(x),
{
    broadcast use vstd::seq_lib::group_to_multiset_ensures;

    let out = prev.insert(p, x);
    assert(out.remove(p) =~= prev);
    assert(out[p] == x);
    assert(out.to_multiset().count(x) > 0);
    assert(out.to_multiset() =~= prev.to_multiset().insert(x));
}

proof fn lemma_perm_onto(input: Seq<Submission>, output: Seq<Submission>, perm: Seq<int>, b: int)
    requires
        newest_first_by(input, output, perm),
        0 <= b < input.len(),
    ensures
        exists|k: int| 0 <= k < perm.len() && perm[k] == b,
{
    let n = input.len() as int;
    assert(perm.no_duplicates()) by {
        assert forall|i: int, j: int| 0 <= i < perm.len() && 0 <= j < perm.len() && i != j implies perm[i]
            != perm[j] by {
            if i < j {
                assert(perm[i] != perm[j]);
            } else {
                assert(perm[j] != perm[i]);
            }
        }
    }
    perm.unique_seq_to_set();
    let range = vstd::set_lib::set_int_range(0, n);
    vstd::set_lib::lemma_int_range(0, n);
    assert(perm.to_set().subset_of(range)) by {
        assert forall|x: int| perm.to_set().contains(x) implies range.contains(x) by {
            let k = choose|k: int| 0 <= k < perm.len() && perm[k] == x;
            assert(0 <= perm[k] < n);
        }
    }
    vstd::set_lib::lemma_subset_equality(perm.to_set(), range);
    assert(range.contains(b));
    assert(perm.to_set().contains(b));
}

proof fn lemma_same_prefix(
    input: Seq<Submission>,
    o1: Seq<Submission>,
    p1: Seq<int>,
    o2: Seq<Submission>,
    p2: Seq<int>,
    k: int,
)
    requires
        newest_first_by(input, o1, p1),
        newest_first_by(input, o2, p2),
        0 <= k <= input.len(),
    ensures
        forall|j: int| 0 <= j < k ==> p1[j] == p2[j],
    decreases k,
{
    if k > 0 {
        lemma_same_prefix(input, o1, p1, o2, p2, k - 1);
        let m = k - 1;
        let a = p1[m];
        let b = p2[m];
        if a != b {
            lemma_perm_onto(input, o1, p1, b);
            lemma_perm_onto(input, o2, p2, a);
            let k1 = choose|q: int| 0 <= q < p1.len() && p1[q] == b;
            let k2 = choose|q: int| 0 <= q < p2.len() && p2[q] == a;
            if k1 < m {
                assert(p2[k1] == b);
                assert(p2[k1] != p2[m]);
            }
            if k2 < m {
                assert(p1[k2] == a);
                assert(p1[k2] != p1[m]);
            }
            assert(k1 > m);
            assert(k2 > m);
            assert(!o1[m].created_at.before(o1[k1].created_at));
            assert(!o2[m].created_at.before(o2[k2].created_at));
            assert(o1[m] == input[a] && o1[k1] == input[b]);
            assert(o2[m] == input[b] && o2[k2] == input[a]);
            assert(input[a].created_at == input[b].created_at);
            assert(p1[m] < p1[k1]);
            assert(p2[m] < p2[k2]);
            assert(false);
        }
    }
}

/// There is only one newest-first order of a list: `newest_first` pins the
/// result down.
pub proof fn newest_first_is_unique(input: Seq<Submission>, o1: Seq<Submission>, o2: Seq<Submission>)
    requires
        newest_first(input, o1),
        newest_first(input, o2),
    ensures
        o1 == o2,
{
    let p1 = choose|p: Seq<int>| newest_first_by(input, o1, p);
    let p2 = choose|p: Seq<int>| newest_first_by(input, o2, p);
    lemma_same_prefix(input, o1, p1, o2, p2, input.len() as int);
    assert forall|k: int| 0 <= k < o1.len() implies o1[k] == o2[k] by {
        assert(o1[k] == input[p1[k]]);
        assert(o2[k] == input[p2[k]]);
    }
    assert(o1 =~= o2);
}

/// Orders submissions by creation time, latest first; submissions created
/// at the same instant keep their order.
#[verifier::loop_isolation(false)]
pub fn sort_newest_first(subs: Vec<Submission>) -> (r: Vec<Submission>)
    ensures
        newest_first(subs@, r@),
{
    broadcast use vstd::seq_lib::group_to_multiset_ensures;

    let ghost all = subs@;
    let mut out: Vec<Submission> = Vec::new();
    let ghost mut perm: Seq<int> = Seq::empty();
    assert(newest_first_by(all.take(0), out@, perm));
    assert(all.take(0) =~= Seq::<Submission>::empty());
    assert(out@ =~= Seq::<Submission>::empty());
    for s in it: subs.into_iter()
        invariant
            it.seq() == all,
            newest_first_by(all.take(it.index() as int), out@, perm),
            out@.to_multiset() == all.take(it.index() as int).to_multiset(),
    {
        let ghost i: int = it.index() as int;
        let ghost prev = out@;
        let ghost prev_perm = perm;
        assert(all.take(i + 1) == all.take(i).push(s));
        let t = s.created_at;
        let mut p: usize = 0;
        while p < out.len() && !out[p].created_at.is_before(&t)
            invariant
                out@ == prev,
                p <= out@.len(),
                forall|q: int| 0 <= q < p ==> !(#[trigger] out@[q]).created_at.before(t),
            decreases out@.len() - p,
        {
            p = p + 1;
        }
        assert forall|q: int| p <= q < out@.len() implies (#[trigger] out@[q]).created_at.before(t) by {
            if q > p {
                assert(!out@[p as int].created_at.before(out@[q].created_at));
            }
        }
        out.insert(p, s);
        proof {
            lemma_insert_keeps_order(all.take(i), prev, prev_perm, s, p as int);
            lemma_insert_multiset(prev, s, p as int);
            perm = prev_perm.insert(p as int, i);
        }
    }
    assert(all.take(all.len() as int) =~= all);
    out
}

/// The first position of the page: the offset, or the end when the offset
/// lies past it.
pub open spec fn page_start(total: int, offset: int) -> int {
    if offset < total {
        offset
    } else {
        total
    }
}

/// The position after the page: `limit` past its start, or the end.
pub open spec fn page_end(total: int, offset: int, limit: int) -> int {
    if page_start(total, offset) + limit < total {
        page_start(total, offset) + limit
    } else {
        total
    }
}

/// Whether the end of the page can be computed for this many submissions;
/// where it cannot, the computation of the page end overflows.
pub open spec fn page_fits(total: int, offset: int, limit: int) -> bool {
    page_start(total, offset) + limit <= usize::MAX
}

/// The page of `items` that starts at `offset` and holds up to `limit`.
pub open spec fn page(items: Seq<Submission>, offset: int, limit: int) -> Seq<Submission> {
    items.subrange(page_start(items.len() as int, offset), page_end(items.len() as int, offset, limit))
}

/// Without a category, priority or search parameter, every submission is
/// listed.
pub proof fn no_filter_keeps_all(subs: Seq<Submission>, p: ListParams)
    requires
        p.category is None,
        p.priority is None,
        p.search is None,
    ensures
        filtered(subs, p) == subs,
    decreases subs.len(),
{
    reveal_with_fuel(Seq::<Submission>::filter, 1);
    if subs.len() > 0 {
        no_filter_keeps_all(subs.drop_last(), p);
        assert(subs.drop_last().push(subs.last()) =~= subs);
    }
}

/// A submission added after the others is listed, after the ones listed
/// before, exactly when the parameters keep it.
pub proof fn new_submission_listed_iff_kept(subs: Seq<Submission>, s: Submission, p: ListParams)
    ensures
        filtered(subs.push(s), p) == if keeps(p, s) {
            filtered(subs, p).push(s)
        } else {
            filtered(subs, p)
        },
{
    reveal_with_fuel(Seq::<Submission>::filter, 1);
    assert(subs.push(s).drop_last() =~= subs);
}

/// Every listed submission is one that the parameters keep, and the
/// listing keeps their order.
pub proof fn filtered_are_kept(subs: Seq<Submission>, p: ListParams)
    ensures
        forall|i: int| 0 <= i < filtered(subs, p).len() ==> keeps(p, #[trigger] filtered(subs, p)[i]),
        filtered(subs, p).len() <= subs.len(),
{
    let pred = |s: Submission| keeps(p, s);
    subs.lemma_filter_len(pred);
    assert forall|i: int| 0 <= i < filtered(subs, p).len() implies keeps(p, #[trigger] filtered(subs, p)[i]) by {
        subs.lemma_filter_pred(pred, i);
    }
}

/// Every listed submission is one of the given ones and meets each filter
/// on its own: its category name equals a non-blank category parameter up
/// to ASCII case, its priority name equals a non-blank priority parameter
/// up to ASCII case, and the trimmed, lower-cased non-blank search text
/// occurs in its lower-cased title, description or one of its tags.
pub proof fn listed_submissions_meet_every_filter(subs: Seq<Submission>, p: ListParams, k: int)
    requires
        0 <= k < filtered(subs, p).len(),
    ensures
        subs.contains(filtered(subs, p)[k]),
        (p.category matches Some(f) && trimmed(f@).len() > 0) ==> eq_ignore_ascii_case_spec(
            filtered(subs, p)[k].category.name_spec(),
            p.category->0@,
        ),
        (p.priority matches Some(f) && trimmed(f@).len() > 0) ==> eq_ignore_ascii_case_spec(
            filtered(subs, p)[k].priority.name_spec(),
            p.priority->0@,
        ),
        (p.search matches Some(q) && trimmed(q@).len() > 0) ==> {
            let s = filtered(subs, p)[k];
            let n = lowercase(trimmed(p.search->0@));
            ||| contains_seq(lowercase(s.title@), n)
            ||| contains_seq(lowercase(s.description@), n)
            ||| exists|i: int| 0 <= i < s.tags@.len() && contains_seq(lowercase(#[trigger] s.tags@[i]@), n)
        },
{
    let pred = |x: Submission| keeps(p, x);
    filtered_are_kept(subs, p);
    let s = filtered(subs, p)[k];
    assert(keeps(p, s));
    assert(subs.filter(pred).contains(s));
    subs.lemma_filter_contains_rev(pred, s);
}

/// Every given submission that meets each filter on its own is listed:
/// its category name equals the category parameter up to ASCII case unless
/// that is absent or blank, likewise for the priority, and, unless the
/// search parameter is absent or blank, its trimmed, lower-cased text occurs
/// in the lower-cased title, description or any one of the tags.
pub proof fn submissions_meeting_every_filter_are_listed(subs: Seq<Submission>, p: ListParams, j: int)
    requires
        0 <= j < subs.len(),
        p.category is None || trimmed(p.category->0@).len() == 0 || eq_ignore_ascii_case_spec(
            subs[j].category.name_spec(),
            p.category->0@,
        ),
        p.priority is None || trimmed(p.priority->0@).len() == 0 || eq_ignore_ascii_case_spec(
            subs[j].priority.name_spec(),
            p.priority->0@,
        ),
        p.search is None || trimmed(p.search->0@).len() == 0 || ({
            let n = lowercase(trimmed(p.search->0@));
            ||| contains_seq(lowercase(subs[j].title@), n)
            ||| contains_seq(lowercase(subs[j].description@), n)
            ||| exists|i: int|
                0 <= i < subs[j].tags@.len() && contains_seq(lowercase(#[trigger] subs[j].tags@[i]@), n)
        }),
    ensures
        filtered(subs, p).contains(subs[j]),
{
    let pred = |x: Submission| keeps(p, x);
    assert(keeps(p, subs[j]));
    subs.lemma_filter_contains(pred, j);
}

/// A newest-first order holds the same submissions as its input, and
/// each one was created no earlier (by seconds, then nanoseconds) than
/// every one after it.
pub proof fn newest_first_orders_by_time(input: Seq<Submission>, output: Seq<Submission>)
    requires
        newest_first(input, output),
    ensures
        output.len() == input.len(),
        forall|k: int, l: int|
            0 <= k < l < output.len() ==> (#[trigger] output[k]).created_at.secs > (
            #[trigger] output[l]).created_at.secs || (output[k].created_at.secs
                == output[l].created_at.secs && output[k].created_at.nanos
                >= output[l].created_at.nanos),
        forall|k: int| 0 <= k < output.len() ==> input.contains(#[trigger] output[k]),
        forall|j: int| 0 <= j < input.len() ==> output.contains(#[trigger] input[j]),
{
    broadcast use vstd::seq_lib::group_to_multiset_ensures;

    let perm = choose|perm: Seq<int>| newest_first_by(input, output, perm);
    assert forall|k: int, l: int| 0 <= k < l < output.len() implies (#[trigger] output[k]).created_at.secs > (
    #[trigger] output[l]).created_at.secs || (output[k].created_at.secs
        == output[l].created_at.secs && output[k].created_at.nanos
        >= output[l].created_at.nanos) by {
        assert(!output[k].created_at.before(output[l].created_at));
    }
    assert forall|k: int| 0 <= k < output.len() implies input.contains(#[trigger] output[k]) by {
        assert(output.to_multiset().count(output[k]) > 0);
    }
    assert forall|j: int| 0 <= j < input.len() implies output.contains(#[trigger] input[j]) by {
        assert(input.to_multiset().count(input[j]) > 0);
    }
}

/// The shape of a listing answer: page start 0 and size 10 by default; as
/// many items as the page size allows from the offset on (none past the
/// end); each item one that matches; items newest first.
pub proof fn listing_page_shape(subs: Seq<Submission>, p: ListParams, r: SubmissionListResponse)
    requires
        listing_answer(subs, p, Some(r)),
    ensures
        p.offset is None ==> r.offset == 0,
        p.offset matches Some(o) ==> r.offset == o,
        p.limit is None ==> r.limit == 10,
        p.limit matches Some(l) ==> r.limit == l,
        r.items@.len() == if r.offset < r.total {
            if r.limit <= r.total - r.offset {
                r.limit as int
            } else {
                r.total - r.offset
            }
        } else {
            0
        },
        forall|k: int| 0 <= k < r.items@.len() ==> filtered(subs, p).contains(#[trigger] r.items@[k]),
        forall|k: int, l: int|
            0 <= k < l < r.items@.len() ==> (#[trigger] r.items@[k]).created_at.secs > (
            #[trigger] r.items@[l]).created_at.secs || (r.items@[k].created_at.secs
                == r.items@[l].created_at.secs && r.items@[k].created_at.nanos
                >= r.items@[l].created_at.nanos),
{
    let matching = filtered(subs, p);
    let sorted = choose|sorted: Seq<Submission>|
        newest_first(matching, sorted) && r.items@ == #[trigger] page(
            sorted,
            offset_of(p) as int,
            limit_of(p) as int,
        );
    newest_first_orders_by_time(matching, sorted);
    let st = page_start(sorted.len() as int, offset_of(p) as int);
    assert forall|k: int| 0 <= k < r.items@.len() implies matching.contains(#[trigger] r.items@[k]) by {
        assert(r.items@[k] == sorted[st + k]);
    }
    assert forall|k: int, l: int|
        0 <= k < l < r.items@.len() implies (#[trigger] r.items@[k]).created_at.secs > (
        #[trigger] r.items@[l]).created_at.secs || (r.items@[k].created_at.secs
            == r.items@[l].created_at.secs && r.items@[k].created_at.nanos
            >= r.items@[l].created_at.nanos) by {
        assert(r.items@[k] == sorted[st + k]);
        assert(r.items@[l] == sorted[st + l]);
    }
}

/// A page holds at most `limit` submissions, and two consecutive pages
/// together are the page of their combined size.
pub proof fn pages_tile(items: Seq<Submission>, offset: nat, a: nat, b: nat)
    ensures
        page(items, offset as int, a as int).len() <= a,
        page(items, offset as int, a as int) + page(items, (offset + a) as int, b as int) == page(
            items,
            offset as int,
            (a + b) as int,
        ),
{
    assert(page(items, offset as int, a as int) + page(items, (offset + a) as int, b as int) =~= page(
        items,
        offset as int,
        (a + b) as int,
    ));
}

/// The page of `items` that starts at `offset` and holds up to `limit`
/// submissions.
pub fn paginate(items: Vec<Submission>, offset: usize, limit: usize) -> (r: Vec<Submission>)
    requires
        page_fits(items@.len() as int, offset as int, limit as int),
    ensures
        r@ == page(items@, offset as int, limit as int),
{
    let total = items.len();
    let start = if offset < total {
        offset
    } else {
        total
    };
    let end = if start + limit < total {
        start + limit
    } else {
        total
    };
    let mut v = items;
    v.truncate(end);
    let r = v.split_off(start);
    r
}

/// The answer to a listing whose filtered submissions are `matching`: the
/// page of them, ordered newest first, that the parameters ask for.
pub fn page_of(matching: Vec<Submission>, params: &ListParams) -> (r: SubmissionListResponse)
    requires
        page_fits(matching@.len() as int, offset_of(*params) as int, limit_of(*params) as int),
    ensures
        r.total == matching@.len(),
        r.offset == offset_of(*params),
        r.limit == limit_of(*params),
        exists|sorted: Seq<Submission>|
            newest_first(matching@, sorted) && r.items@ == #[trigger] page(
                sorted,
                offset_of(*params) as int,
                limit_of(*params) as int,
            ),
{
    let offset = match params.offset {
        Some(o) => o,
        None => 0,
    };
    let limit = match params.limit {
        Some(l) => l,
        None => 10,
    };
    let total = matching.len();
    let sorted = sort_newest_first(matching);
    let ghost sv = sorted@;
    let items = paginate(sorted, offset, limit);
    assert(page(sv, offset as int, limit as int) == items@);
    SubmissionListResponse { items, total, offset, limit }
}

/// The answer of the listing endpoint for these submissions and
/// parameters: `None` where the end of the page cannot be computed, and
/// otherwise the number of submissions the parameters keep and the page of
/// them, ordered newest first, that the parameters ask for.
pub open spec fn listing_answer(
    subs: Seq<Submission>,
    params: ListParams,
    r: Option<SubmissionListResponse>,
) -> bool {
    let matching = filtered(subs, params);
    match r {
        None => !page_fits(matching.len() as int, offset_of(params) as int, limit_of(params) as int),
        Some(resp) => {
            &&& page_fits(matching.len() as int, offset_of(params) as int, limit_of(params) as int)
            &&& resp.total == matching.len()
            &&& resp.offset == offset_of(params)
            &&& resp.limit == limit_of(params)
            &&& exists|sorted: Seq<Submission>|
                newest_first(matching, sorted) && resp.items@ == #[trigger] page(
                    sorted,
                    offset_of(params) as int,
                    limit_of(params) as int,
                )
        },
    }
}

/// A filter parameter that is blank acts as an absent one: `p1` and `p2`
/// have the same value, or `p1` has a blank text where `p2` has none.
pub open spec fn same_or_blank(p1: Option<String>, p2: Option<String>) -> bool {
    ||| p1 == p2
    ||| (p2 is None && (p1 matches Some(x) && trimmed(x@).len() == 0))
}

/// A blank category, priority or search parameter is ignored: it lists the
/// same submissions and gives the same answer as leaving it out.
pub proof fn blank_filters_are_ignored(
    subs: Seq<Submission>,
    p1: ListParams,
    p2: ListParams,
    r: Option<SubmissionListResponse>,
)
    requires
        p1.offset == p2.offset,
        p1.limit == p2.limit,
        same_or_blank(p1.category, p2.category),
        same_or_blank(p1.priority, p2.priority),
        same_or_blank(p1.search, p2.search),
    ensures
        filtered(subs, p1) == filtered(subs, p2),
        listing_answer(subs, p1, r) == listing_answer(subs, p2, r),
{
    assert(name_filter(p1.category) == name_filter(p2.category));
    assert(name_filter(p1.priority) == name_filter(p2.priority));
    assert(search_needle(p1.search) == search_needle(p2.search));
    let f1 = |s: Submission| keeps(p1, s);
    let f2 = |s: Submission| keeps(p2, s);
    assert(f1 =~= f2);
}

/// Lists submissions as the listing endpoint does: those the parameters
/// keep, newest first, one page of them. `None` where the end of the page
/// cannot be computed (an offset and limit that overflow), on which the
/// listing fails.
pub fn list_submissions(subs: Vec<Submission>, params: &ListParams) -> (r: Option<
    SubmissionListResponse,
>)
    ensures
        listing_answer(subs@, *params, r),
{
    let matching = filter_submissions(subs, params);
    let offset = match params.offset {
        Some(o) => o,
        None => 0,
    };
    let limit = match params.limit {
        Some(l) => l,
        None => 10,
    };
    let total = matching.len();
    let start = if offset < total {
        offset
    } else {
        total
    };
    if limit > usize::MAX - start {
        return None;
    }
    Some(page_of(matching, params))
}

} // verus!
