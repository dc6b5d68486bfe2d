//! Listing pages and the collection of opening ids across pages.

use vstd::prelude::*;

verus! {

/// One opening summary as the listing endpoint reports it.
pub struct OpeningsListResponseItem {
    pub opening_id: u32,
    pub title: String,
    pub quota: u32,
}

/// Pagination metadata of the listing endpoint.
pub struct OpeningsListResponseMeta {
    pub total_item: u32,
    pub items_per_page: u32,
    pub total_page: u32,
}

/// One page of the opening listing.
pub struct OpeningsListResponse {
    pub items: Vec<OpeningsListResponseItem>,
    pub meta: OpeningsListResponseMeta,
}

/// The opening id of every item of one listing page, in page order.
pub fn get_opening_ids(opening_response: &OpeningsListResponse) -> (ids: Vec<u32>)
    ensures
        ids@ == opening_response.items@.map_values(
            |item: OpeningsListResponseItem| item.opening_id,
        ),
{
    let n = opening_response.items.len();
    let mut ids: Vec<u32> = Vec::new();
    for i in 0..n
        invariant
            n == opening_response.items@.len(),
            ids@ == opening_response.items@.subrange(0, i as int).map_values(
                |item: OpeningsListResponseItem| item.opening_id,
            ),
    {
        ids.push(opening_response.items[i].opening_id);
        assert(opening_response.items@.subrange(0, i + 1).map_values(
            |item: OpeningsListResponseItem| item.opening_id,
        ) =~= opening_response.items@.subrange(0, i as int).map_values(
            |item: OpeningsListResponseItem| item.opening_id,
        ).push(opening_response.items@[i as int].opening_id));
    }
    assert(opening_response.items@.subrange(0, n as int) =~= opening_response.items@);
    ids
}

/// The pages that remain after page 1, in the order their fetches are
/// submitted: 2, 3, ..., total_page. Empty when the listing has one page.
pub fn remaining_pages(total_page: u32) -> (pages: Vec<u32>)
    ensures
        pages@.len() == (if total_page >= 2 {
            total_page - 1
        } else {
            0int
        }),
        forall|i: int| 0 <= i < pages@.len() ==> pages@[i] == 2 + i,
{
    let count: u32 = if total_page >= 2 {
        total_page - 1
    } else {
        0
    };
    let mut pages: Vec<u32> = Vec::new();
    for i in 0..count
        invariant
            count <= 0xffff_fffe,
            pages@.len() == i,
            forall|j: int| 0 <= j < i ==> pages@[j] == 2 + j,
    {
        pages.push(2 + i);
    }
    pages
}

/// The id sequences of pages laid end to end, each page's ids in order.
pub open spec fn flatten_pages(pages: Seq<Vec<u32>>) -> Seq<u32> {
    pages.map_values(|page: Vec<u32>| page@).flatten()
}

/// The ids of page 1 followed by the ids of every later page, page by page,
/// each page's ids kept in their own order.
pub fn concat_id_pages(first: Vec<u32>, rest: &Vec<Vec<u32>>) -> (all: Vec<u32>)
    ensures
        all@ == first@ + flatten_pages(rest@),
{
    let ghost first_ids = first@;
    let mut all = first;
    let n = rest.len();
    for i in 0..n
        invariant
            n == rest@.len(),
            all@ == first_ids + flatten_pages(rest@.subrange(0, i as int)),
    {
        let m = rest[i].len();
        for j in 0..m
            invariant
                n == rest@.len(),
                i < n,
                m == rest@[i as int]@.len(),
                all@ == first_ids + flatten_pages(rest@.subrange(0, i as int))
                    + rest@[i as int]@.subrange(0, j as int),
        {
            all.push(rest[i][j]);
            assert(rest@[i as int]@.subrange(0, j + 1) =~= rest@[i as int]@.subrange(
                0,
                j as int,
            ).push(rest@[i as int]@[j as int]));
        }
        proof {
            let views = |page: Vec<u32>| page@;
            let prefix = rest@.subrange(0, i as int).map_values(views);
            prefix.lemma_flatten_push(rest@[i as int]@);
            assert(rest@.subrange(0, i + 1).map_values(views) =~= prefix.push(
                rest@[i as int]@,
            ));
            assert(rest@[i as int]@.subrange(0, m as int) =~= rest@[i as int]@);
        }
    }
    proof {
        assert(rest@.subrange(0, n as int) =~= rest@);
    }
    all
}

/// Law: collecting page 1 first and then appending the pages fetched
/// concurrently, joined back in their submission order 2..N, yields the same
/// id sequence as walking all pages 1..N one after the other.
pub proof fn lemma_join_order(first: Seq<u32>, rest: Seq<Seq<u32>>)
    ensures
        first + rest.flatten() == (seq![first] + rest).flatten(),
{
    let whole = seq![first] + rest;
    assert(whole.len() > 0);
    assert(whole.first() == first);
    assert(whole.drop_first() =~= rest);
    assert(whole.flatten() == first + rest.flatten());
}

} // verus!
