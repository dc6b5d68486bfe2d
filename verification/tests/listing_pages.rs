use opening_report::listing::{
    concat_id_pages, get_opening_ids, remaining_pages, OpeningsListResponse,
    OpeningsListResponseItem, OpeningsListResponseMeta,
};

fn page(ids: &[u32]) -> OpeningsListResponse {
    OpeningsListResponse {
        items: ids
            .iter()
            .map(|&id| OpeningsListResponseItem {
                opening_id: id,
                title: format!("opening {}", id),
                quota: 1,
            })
            .collect(),
        meta: OpeningsListResponseMeta {
            total_item: ids.len() as u32,
            items_per_page: 20,
            total_page: 1,
        },
    }
}

#[test]
fn ids_come_out_in_page_order() {
    let ids = get_opening_ids(&page(&[5, 3, 9]));
    assert_eq!(ids, vec![5, 3, 9]);
}

#[test]
fn one_page_listing_needs_no_more_fetches() {
    assert_eq!(remaining_pages(1), Vec::<u32>::new());
    assert_eq!(remaining_pages(0), Vec::<u32>::new());
}

#[test]
fn remaining_pages_run_from_two_in_submission_order() {
    assert_eq!(remaining_pages(4), vec![2, 3, 4]);
}

#[test]
fn concatenation_matches_a_sequential_walk() {
    let first = vec![1, 2];
    let rest = vec![vec![3, 4], vec![], vec![5]];
    let all = concat_id_pages(first, &rest);
    assert_eq!(all, vec![1, 2, 3, 4, 5]);
}

#[test]
fn single_page_concatenates_to_itself() {
    let all = concat_id_pages(vec![7, 8], &Vec::new());
    assert_eq!(all, vec![7, 8]);
}
