//! Lists of headers as maps: a name that is given twice counts with the value given last.
//!
//! Headers travel as a list, in the order in which they were written. What is handed to the
//! webview is the list with every name once.

use crate::protocol::{header_views, Header, HeaderView};
use vstd::prelude::*;

verus! {

/// The value that counts for `name`: that of the last header with this name.
pub open spec fn last_value(headers: Seq<HeaderView>, name: Seq<char>) -> Option<Seq<char>>
    decreases headers.len(),
{
    if headers.len() == 0 {
        None
    } else if headers.last().name == name {
        Some(headers.last().value)
    } else {
        last_value(headers.drop_last(), name)
    }
}

/// True when no name occurs twice.
pub open spec fn names_distinct(headers: Seq<HeaderView>) -> bool {
    forall|i: int, j: int|
        0 <= i < j < headers.len() ==> (#[trigger] headers[i]).name != (#[trigger] headers[j]).name
}

/// The index of the header called `name`, looked for from `from` on.
pub open spec fn position(headers: Seq<HeaderView>, name: Seq<char>, from: int) -> Option<int>
    decreases headers.len() - from,
{
    if from < 0 || from >= headers.len() {
        None
    } else if headers[from].name == name {
        Some(from)
    } else {
        position(headers, name, from + 1)
    }
}

/// The list with one more header taken in: its value replaces that of a header of the same
/// name, and it is added at the end where there is none.
pub open spec fn taken_in(merged: Seq<HeaderView>, header: HeaderView) -> Seq<HeaderView> {
    match position(merged, header.name, 0) {
        Some(at) => merged.update(at, header),
        None => merged.push(header),
    }
}

/// The headers with every name once: in the order in which the names first occur, each with
/// the value that was given last.
pub open spec fn merged(headers: Seq<HeaderView>) -> Seq<HeaderView>
    decreases headers.len(),
{
    if headers.len() == 0 {
        Seq::empty()
    } else {
        taken_in(merged(headers.drop_last()), headers.last())
    }
}

/// What a search finds is a header of that name, the first from where the search began.
proof fn lemma_position(headers: Seq<HeaderView>, name: Seq<char>, from: int)
    requires
        0 <= from,
    ensures
        match position(headers, name, from) {
            Some(at) => from <= at < headers.len() && headers[at].name == name,
            None => forall|j: int| from <= j < headers.len() ==> (#[trigger] headers[j]).name != name,
        },
    decreases headers.len() - from,
{
    if from < headers.len() && headers[from].name != name {
        lemma_position(headers, name, from + 1);
    }
}

/// Where no header has the name, no value counts for it.
proof fn lemma_no_header_no_value(headers: Seq<HeaderView>, name: Seq<char>)
    requires
        forall|j: int| 0 <= j < headers.len() ==> (#[trigger] headers[j]).name != name,
    ensures
        last_value(headers, name) is None,
    decreases headers.len(),
{
    if headers.len() > 0 {
        let earlier = headers.drop_last();
        assert(headers[headers.len() - 1].name != name);
        assert forall|j: int| 0 <= j < earlier.len() implies (#[trigger] earlier[j]).name
            != name by {
            assert(earlier[j] == headers[j]);
        }
        lemma_no_header_no_value(earlier, name);
    }
}

/// Where no name occurs twice, the value that counts for a name is that of the one header
/// that has it.
proof fn lemma_one_header_one_value(headers: Seq<HeaderView>, at: int)
    requires
        names_distinct(headers),
        0 <= at < headers.len(),
    ensures
        last_value(headers, headers[at].name) == Some(headers[at].value),
    decreases headers.len(),
{
    if at < headers.len() - 1 {
        let earlier = headers.drop_last();
        assert(headers[at].name != headers[headers.len() - 1].name);
        assert(earlier[at] == headers[at]);
        assert forall|i: int, j: int| 0 <= i < j < earlier.len() implies (#[trigger] earlier[i]).name
            != (#[trigger] earlier[j]).name by {
            assert(earlier[i] == headers[i]);
            assert(earlier[j] == headers[j]);
        }
        lemma_one_header_one_value(earlier, at);
    }
}

/// Taking a header in keeps the names distinct, makes its value count for its name, and
/// leaves every other name with the value it had.
proof fn lemma_taken_in(list: Seq<HeaderView>, header: HeaderView, name: Seq<char>)
    requires
        names_distinct(list),
    ensures
        names_distinct(taken_in(list, header)),
        last_value(taken_in(list, header), name) == if name == header.name {
            Some(header.value)
        } else {
            last_value(list, name)
        },
{
    let next = taken_in(list, header);
    lemma_position(list, header.name, 0);
    match position(list, header.name, 0) {
        None => {
            assert(next.drop_last() == list);
            assert forall|i: int, j: int| 0 <= i < j < next.len() implies (#[trigger] next[i]).name
                != (#[trigger] next[j]).name by {
                assert(next[i] == list[i]);
                if j < list.len() {
                    assert(next[j] == list[j]);
                }
            }
        },
        Some(at) => {
            assert forall|i: int, j: int| 0 <= i < j < next.len() implies (#[trigger] next[i]).name
                != (#[trigger] next[j]).name by {
                assert(next[i].name == list[i].name);
                assert(next[j].name == list[j].name);
            }
            if name == header.name {
                lemma_one_header_one_value(next, at);
            } else if exists|k: int| 0 <= k < list.len() && list[k].name == name {
                let k = choose|k: int| 0 <= k < list.len() && list[k].name == name;
                assert(next[k] == list[k]);
                lemma_one_header_one_value(list, k);
                lemma_one_header_one_value(next, k);
            } else {
                assert forall|j: int| 0 <= j < next.len() implies (#[trigger] next[j]).name
                    != name by {
                    assert(next[j].name == list[j].name);
                }
                lemma_no_header_no_value(list, name);
                lemma_no_header_no_value(next, name);
            }
        },
    }
}

/// Merging keeps what the list means and makes it a map: no name occurs twice in the merged
/// list, and for every name the value that counts is the one that counted before.
pub proof fn lemma_merged_is_a_map(headers: Seq<HeaderView>, name: Seq<char>)
    ensures
        names_distinct(merged(headers)),
        last_value(merged(headers), name) == last_value(headers, name),
    decreases headers.len(),
{
    if headers.len() > 0 {
        lemma_merged_is_a_map(headers.drop_last(), name);
        lemma_taken_in(merged(headers.drop_last()), headers.last(), name);
    }
}

/// The index of the header called `name`.
fn find_header(list: &Vec<Header>, name: &String) -> (r: Option<usize>)
    ensures
        match r {
            Some(at) => position(header_views(list@), name@, 0) == Some(at as int) && at
                < list@.len(),
            None => position(header_views(list@), name@, 0) is None,
        },
{
    let ghost all = header_views(list@);
    let mut at: usize = 0;
    while at < list.len()
        invariant
            all == header_views(list@),
            position(all, name@, 0) == position(all, name@, at as int),
        decreases list@.len() - at,
    {
        assert(all[at as int] == list@[at as int]@);
        if list[at].name == *name {
            return Some(at);
        }
        at = at + 1;
    }
    None
}

/// The headers with every name once, each with the value that was given last.
pub fn merge_headers(headers: Vec<Header>) -> (r: Vec<Header>)
    ensures
        header_views(r@) == merged(header_views(headers@)),
        names_distinct(header_views(r@)),
{
    let ghost all = header_views(headers@);
    let mut list: Vec<Header> = Vec::new();
    let mut headers = headers;
    let total = headers.len();
    let mut i: usize = 0;
    assert(all.take(0) == Seq::<HeaderView>::empty());
    assert(header_views(list@) == Seq::<HeaderView>::empty());
    while i < total
        invariant
            i <= total,
            total == headers@.len(),
            all.len() == total,
            forall|k: int| i <= k < total ==> (#[trigger] headers@[k])@ == all[k],
            header_views(list@) == merged(all.take(i as int)),
        decreases total - i,
    {
        let ghost before = headers@;
        let ghost earlier = header_views(list@);
        let mut header = Header { name: String::new(), value: String::new() };
        std::mem::swap(&mut headers[i], &mut header);
        proof {
            assert(header@ == all[i as int]);
            assert forall|k: int| i < k < total implies (#[trigger] headers@[k])@ == all[k] by {
                assert(headers@[k] == before[k]);
            }
            assert(all.take(i + 1).drop_last() == all.take(i as int));
            assert(all.take(i + 1).last() == header@);
        }
        match find_header(&list, &header.name) {
            Some(at) => {
                list[at] = header;
                assert(header_views(list@) == earlier.update(at as int, header@));
            },
            None => {
                list.push(header);
                assert(header_views(list@) == earlier.push(header@));
            },
        }
        i = i + 1;
    }
    proof {
        assert(all.take(total as int) == all);
        lemma_merged_is_a_map(all, Seq::empty());
    }
    list
}

} // verus!
