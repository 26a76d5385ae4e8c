//! Searching a text for the lines that hold a query.

use vstd::prelude::*;
use crate::lines::{lines, split_lines, texts};
use crate::lowercase::{lowercase_of, to_lowercase};
use crate::pattern::{contains, occurs_at, occurs_in};

verus! {

/// Whether `line` matches `query`. With `ignore_case` unset, the line has to
/// hold the query as it is written. With `ignore_case` set, the lowercase
/// form of the line has to hold the lowercase form of the query.
pub open spec fn line_matches(query: Seq<char>, line: Seq<char>, ignore_case: bool) -> bool {
    if ignore_case {
        occurs_in(lowercase_of(query), lowercase_of(line))
    } else {
        occurs_in(query, line)
    }
}

/// The lines of `contents` that match `query`, in the order in which they
/// stand in `contents`.
pub open spec fn matching_lines(query: Seq<char>, contents: Seq<char>, ignore_case: bool) -> Seq<
    Seq<char>,
> {
    split_lines(contents).filter(|line: Seq<char>| line_matches(query, line, ignore_case))
}

/// Number of matching lines of `contents` that stand in front of its line
/// number `i`, counting lines from 0.
pub open spec fn matches_before(
    query: Seq<char>,
    contents: Seq<char>,
    ignore_case: bool,
    i: int,
) -> nat {
    split_lines(contents).take(i).filter(
        |line: Seq<char>| line_matches(query, line, ignore_case),
    ).len()
}

/// Every text of `found` is a line of `contents` and matches `query`.
pub open spec fn only_matching_lines(
    found: Seq<Seq<char>>,
    query: Seq<char>,
    contents: Seq<char>,
    ignore_case: bool,
) -> bool {
    forall|k: int|
        0 <= k < found.len() ==> split_lines(contents).contains(#[trigger] found[k])
            && line_matches(query, found[k], ignore_case)
}

/// Every matching line of `contents` stands in `found`, at the position that
/// is the number of matching lines in front of it; so of two matching lines,
/// the one that comes first in `contents` comes first in `found`.
pub open spec fn order_kept(
    found: Seq<Seq<char>>,
    query: Seq<char>,
    contents: Seq<char>,
    ignore_case: bool,
) -> bool {
    let all = split_lines(contents);
    &&& forall|i: int|
        0 <= i < all.len() && line_matches(query, #[trigger] all[i], ignore_case) ==> {
            &&& matches_before(query, contents, ignore_case, i) < found.len()
            &&& found[matches_before(query, contents, ignore_case, i) as int] == all[i]
        }
    &&& forall|i: int, j: int|
        0 <= i < j < all.len() && line_matches(query, #[trigger] all[i], ignore_case)
            && line_matches(query, #[trigger] all[j], ignore_case) ==> matches_before(
            query,
            contents,
            ignore_case,
            i,
        ) < matches_before(query, contents, ignore_case, j)
}

/// A search returns nothing but lines of the contents that match the query.
pub proof fn lemma_only_matching_lines(query: Seq<char>, contents: Seq<char>, ignore_case: bool)
    ensures
        only_matching_lines(
            matching_lines(query, contents, ignore_case),
            query,
            contents,
            ignore_case,
        ),
{
    let keep = |line: Seq<char>| line_matches(query, line, ignore_case);
    lemma_filter_passes(split_lines(contents), keep);
}

/// The empty query is held by every line: searching for it, with exact
/// comparison, returns all lines of the contents in their order.
pub proof fn lemma_empty_query_finds_every_line(query: Seq<char>, contents: Seq<char>)
    requires
        query.len() == 0,
    ensures
        matching_lines(query, contents, false) == split_lines(contents),
{
    let keep = |line: Seq<char>| line_matches(query, line, false);
    let all = split_lines(contents);
    assert forall|i: int| 0 <= i < all.len() implies keep(#[trigger] all[i]) by {
        assert(all[i].subrange(0, 0) =~= query);
        assert(occurs_at(query, all[i], 0));
    }
    lemma_filter_keeps_all(all, keep);
}

/// Empty contents have no line, so no search finds anything in them.
pub proof fn lemma_empty_contents_hold_nothing(
    query: Seq<char>,
    contents: Seq<char>,
    ignore_case: bool,
)
    requires
        contents.len() == 0,
    ensures
        matching_lines(query, contents, ignore_case).len() == 0,
{
    reveal(Seq::filter);
}

/// A search returns the matching lines in the order in which they stand in
/// the contents.
pub proof fn lemma_order_kept(query: Seq<char>, contents: Seq<char>, ignore_case: bool)
    ensures
        order_kept(matching_lines(query, contents, ignore_case), query, contents, ignore_case),
{
    let keep = |line: Seq<char>| line_matches(query, line, ignore_case);
    let all = split_lines(contents);
    let found = all.filter(keep);
    assert forall|i: int| 0 <= i < all.len() && keep(#[trigger] all[i]) implies {
        &&& all.take(i).filter(keep).len() < found.len()
        &&& found[all.take(i).filter(keep).len() as int] == all[i]
    } by {
        lemma_filter_places(all, keep, i);
    }
    assert forall|i: int, j: int|
        0 <= i < j < all.len() && keep(#[trigger] all[i]) && keep(#[trigger] all[j]) implies all.take(
        i,
    ).filter(keep).len() < all.take(j).filter(keep).len() by {
        lemma_filter_places(all.take(j), keep, i);
        assert(all.take(j).take(i) =~= all.take(i));
    }
}

/// Where lowercasing keeps the query inside every line of the contents that
/// holds it, a search that ignores case returns every line that the exact
/// search returns, as many times: the exact result is the part of the other
/// result that holds the query as it is written.
pub proof fn lemma_ignoring_case_finds_no_less(query: Seq<char>, contents: Seq<char>)
    requires
        forall|i: int|
            0 <= i < split_lines(contents).len() && line_matches(
                query,
                #[trigger] split_lines(contents)[i],
                false,
            ) ==> line_matches(query, split_lines(contents)[i], true),
    ensures
        matching_lines(query, contents, false) == matching_lines(query, contents, true).filter(
            |line: Seq<char>| line_matches(query, line, false),
        ),
        matching_lines(query, contents, false).len() <= matching_lines(query, contents, true).len(),
        matching_lines(query, contents, false).to_multiset().subset_of(
            matching_lines(query, contents, true).to_multiset(),
        ),
{
    let exact = |line: Seq<char>| line_matches(query, line, false);
    let loose = |line: Seq<char>| line_matches(query, line, true);
    let all = split_lines(contents);
    lemma_filter_twice(all, loose, exact);
    all.filter(loose).lemma_filter_len(exact);
    lemma_filter_is_part(all.filter(loose), exact);
}

/// What a filter lets through went in, and passes the filter.
proof fn lemma_filter_passes<A>(s: Seq<A>, keep: spec_fn(A) -> bool)
    ensures
        forall|k: int|
            0 <= k < s.filter(keep).len() ==> s.contains(#[trigger] s.filter(keep)[k]) && keep(
                s.filter(keep)[k],
            ),
    decreases s.len(),
{
    reveal(Seq::filter);
    if s.len() > 0 {
        let init = s.drop_last();
        lemma_filter_passes(init, keep);
        assert forall|k: int| 0 <= k < s.filter(keep).len() implies s.contains(
            #[trigger] s.filter(keep)[k],
        ) && keep(s.filter(keep)[k]) by {
            if k < init.filter(keep).len() {
                let x = init.filter(keep)[k];
                assert(init.contains(x));
                let at = choose|at: int| 0 <= at < init.len() && init[at] == x;
                assert(s[at] == x);
            } else {
                assert(s[s.len() - 1] == s.last());
            }
        }
    }
}

/// A filter that every element passes changes nothing.
proof fn lemma_filter_keeps_all<A>(s: Seq<A>, keep: spec_fn(A) -> bool)
    requires
        forall|i: int| 0 <= i < s.len() ==> keep(#[trigger] s[i]),
    ensures
        s.filter(keep) == s,
    decreases s.len(),
{
    reveal(Seq::filter);
    if s.len() > 0 {
        lemma_filter_keeps_all(s.drop_last(), keep);
        assert(s.drop_last().push(s.last()) =~= s);
    }
}

/// An element that passes a filter stands in the result behind the passing
/// elements that stand in front of it.
proof fn lemma_filter_places<A>(s: Seq<A>, keep: spec_fn(A) -> bool, i: int)
    requires
        0 <= i < s.len(),
        keep(s[i]),
    ensures
        s.take(i).filter(keep).len() < s.filter(keep).len(),
        s.filter(keep)[s.take(i).filter(keep).len() as int] == s[i],
{
    let front = s.take(i + 1);
    let back = s.skip(i + 1);
    assert(s =~= front + back);
    Seq::filter_distributes_over_add(front, back, keep);
    s.lemma_take_succ_push(i);
    s.take(i).lemma_filter_push(s[i], keep);
}

/// Filtering by `first` and then by `second` keeps what filtering by `second`
/// keeps, where `second` holds only of elements of which `first` holds.
proof fn lemma_filter_twice<A>(s: Seq<A>, first: spec_fn(A) -> bool, second: spec_fn(A) -> bool)
    requires
        forall|i: int| 0 <= i < s.len() && second(#[trigger] s[i]) ==> first(s[i]),
    ensures
        s.filter(first).filter(second) == s.filter(second),
    decreases s.len(),
{
    reveal(Seq::filter);
    if s.len() > 0 {
        let init = s.drop_last();
        lemma_filter_twice(init, first, second);
        if first(s.last()) {
            init.filter(first).lemma_filter_push(s.last(), second);
        }
    }
}

/// What passes a filter is part of what went in, element by element.
proof fn lemma_filter_is_part<A>(s: Seq<A>, keep: spec_fn(A) -> bool)
    ensures
        s.filter(keep).to_multiset().subset_of(s.to_multiset()),
    decreases s.len(),
{
    reveal(Seq::filter);
    if s.len() > 0 {
        let init = s.drop_last();
        lemma_filter_is_part(init, keep);
        assert(init.push(s.last()) =~= s);
        vstd::seq_lib::to_multiset_build(init, s.last());
        if keep(s.last()) {
            vstd::seq_lib::to_multiset_build(init.filter(keep), s.last());
        }
    }
}

/// Adds `line` to `found` where `text` holds `query`, and leaves `found` as
/// it is where it does not. `text` is what the query is compared with: the
/// line itself, or its lowercase form.
pub fn push_if_holds<'a>(found: &mut Vec<&'a str>, line: &'a str, text: &str, query: &str)
    ensures
        final(found)@ == if occurs_in(query@, text@) {
            old(found)@.push(line)
        } else {
            old(found)@
        },
{
    if contains(text, query) {
        found.push(line);
    }
}

/// The lines of `contents` that hold `query`, compared exactly, in their
/// order in `contents`. Each line returned is a slice of `contents`.
pub fn search<'a>(query: &str, contents: &'a str) -> (found: Vec<&'a str>)
    ensures
        texts(found@) == matching_lines(query@, contents@, false),
        only_matching_lines(texts(found@), query@, contents@, false),
        order_kept(texts(found@), query@, contents@, false),
        query@.len() == 0 ==> texts(found@) == split_lines(contents@),
        contents@.len() == 0 ==> found@.len() == 0,
{
    proof {
        lemma_only_matching_lines(query@, contents@, false);
        lemma_order_kept(query@, contents@, false);
        if query@.len() == 0 {
            lemma_empty_query_finds_every_line(query@, contents@);
        }
        if contents@.len() == 0 {
            lemma_empty_contents_hold_nothing(query@, contents@, false);
        }
    }
    let all = lines(contents);
    let ghost keep = |line: Seq<char>| line_matches(query@, line, false);
    let mut found: Vec<&'a str> = Vec::new();
    let mut i: usize = 0;
    assert(texts(all@).take(0).filter(keep) =~= texts(found@)) by {
        reveal(Seq::filter);
    }
    while i < all.len()
        invariant
            i <= all@.len(),
            keep == |line: Seq<char>| line_matches(query@, line, false),
            texts(found@) == texts(all@).take(i as int).filter(keep),
        decreases all@.len() - i,
    {
        let line = all[i];
        let ghost before = found@;
        push_if_holds(&mut found, line, line, query);
        proof {
            texts(all@).lemma_take_succ_push(i as int);
            texts(all@).take(i as int).lemma_filter_push(line@, keep);
            if keep(line@) {
                assert(texts(found@) =~= texts(before).push(line@));
            }
        }
        i += 1;
    }
    assert(texts(all@).take(i as int) =~= texts(all@));
    found
}

/// The lines of `contents` whose lowercase form holds the lowercase form of
/// `query`, in their order in `contents`. Each line returned is a slice of
/// `contents`, in its own case.
pub fn search_case_insensitive<'a>(query: &str, contents: &'a str) -> (found: Vec<&'a str>)
    ensures
        texts(found@) == matching_lines(query@, contents@, true),
        only_matching_lines(texts(found@), query@, contents@, true),
        order_kept(texts(found@), query@, contents@, true),
        contents@.len() == 0 ==> found@.len() == 0,
{
    proof {
        lemma_only_matching_lines(query@, contents@, true);
        lemma_order_kept(query@, contents@, true);
        if contents@.len() == 0 {
            lemma_empty_contents_hold_nothing(query@, contents@, true);
        }
    }
    let lowered_query = to_lowercase(query);
    let all = lines(contents);
    let ghost keep = |line: Seq<char>| line_matches(query@, line, true);
    let mut found: Vec<&'a str> = Vec::new();
    let mut i: usize = 0;
    assert(texts(all@).take(0).filter(keep) =~= texts(found@)) by {
        reveal(Seq::filter);
    }
    while i < all.len()
        invariant
            i <= all@.len(),
            lowered_query@ == lowercase_of(query@),
            keep == |line: Seq<char>| line_matches(query@, line, true),
            texts(found@) == texts(all@).take(i as int).filter(keep),
        decreases all@.len() - i,
    {
        let line = all[i];
        let lowered_line = to_lowercase(line);
        let ghost before = found@;
        push_if_holds(&mut found, line, lowered_line.as_str(), lowered_query.as_str());
        proof {
            texts(all@).lemma_take_succ_push(i as int);
            texts(all@).take(i as int).lemma_filter_push(line@, keep);
            if keep(line@) {
                assert(texts(found@) =~= texts(before).push(line@));
            }
        }
        i += 1;
    }
    assert(texts(all@).take(i as int) =~= texts(all@));
    found
}

} // verus!
