use read_api::listings::{
    get_dynamic_field_object_id, get_dynamic_fields, get_objects_owned_by_address,
    get_transactions, FieldSummary, ListingError, ObjectSummary,
};
use read_api::pagination::{cap_page_limit, paginate, Page, MAX_PAGE_SIZE};

fn owned(ids: &[u64]) -> Vec<ObjectSummary> {
    ids.iter().map(|&id| ObjectSummary { object_id: id, version: 1, owner: 9 }).collect()
}

#[test]
fn cap_page_limit_clamps_into_range() {
    assert_eq!(cap_page_limit(None), MAX_PAGE_SIZE);
    assert_eq!(cap_page_limit(Some(0)), MAX_PAGE_SIZE);
    assert_eq!(cap_page_limit(Some(7)), 7);
    assert_eq!(cap_page_limit(Some(1)), 1);
    assert_eq!(cap_page_limit(Some(MAX_PAGE_SIZE)), MAX_PAGE_SIZE);
    assert_eq!(cap_page_limit(Some(MAX_PAGE_SIZE + 1)), MAX_PAGE_SIZE);
}

#[test]
fn five_owned_objects_limit_two_pages_as_two_two_one() {
    let ids = [10u64, 20, 30, 40, 50];

    let page1 = get_objects_owned_by_address(owned(&ids), None, Some(2));
    let keys1: Vec<u64> = page1.data.iter().map(|o| o.object_id).collect();
    assert_eq!(keys1, vec![10, 20]);
    assert_eq!(page1.next_cursor, Some(20));

    let page2 = get_objects_owned_by_address(owned(&ids), page1.next_cursor, Some(2));
    let keys2: Vec<u64> = page2.data.iter().map(|o| o.object_id).collect();
    assert_eq!(keys2, vec![30, 40]);
    assert_eq!(page2.next_cursor, Some(40));

    let page3 = get_objects_owned_by_address(owned(&ids), page2.next_cursor, Some(2));
    let keys3: Vec<u64> = page3.data.iter().map(|o| o.object_id).collect();
    assert_eq!(keys3, vec![50]);
    assert_eq!(page3.next_cursor, None);
}

#[test]
fn following_cursors_reconstructs_the_source_exactly_once() {
    let ids: Vec<u64> = (1..=23).map(|i| i * 3).collect();
    let mut seen: Vec<u64> = Vec::new();
    let mut cursor: Option<u64> = None;
    loop {
        let page: Page<u64> = paginate(ids.clone(), cursor, Some(4), false);
        assert!(page.data.len() <= 4);
        seen.extend(page.data.iter().copied());
        match page.next_cursor {
            Some(c) => {
                assert_eq!(c, *seen.last().unwrap());
                cursor = Some(c);
            }
            None => break,
        }
    }
    assert_eq!(seen, ids);
}

#[test]
fn oversized_limit_is_clamped_to_the_maximum_page_size() {
    let ids: Vec<u64> = (1..=60).collect();
    let page = get_objects_owned_by_address(owned(&ids), None, Some(100));
    assert_eq!(page.data.len(), MAX_PAGE_SIZE);
    assert_eq!(page.next_cursor, Some(50));
}

#[test]
fn zero_limit_falls_back_to_the_maximum_page_size() {
    let ids: Vec<u64> = (1..=60).collect();
    let page = get_objects_owned_by_address(owned(&ids), None, Some(0));
    assert_eq!(page.data.len(), MAX_PAGE_SIZE);
}

#[test]
fn empty_source_yields_empty_page_without_cursor() {
    let page = get_objects_owned_by_address(Vec::new(), None, Some(3));
    assert!(page.data.is_empty());
    assert_eq!(page.next_cursor, None);
}

#[test]
fn cursor_on_absent_key_resumes_at_the_ordering_boundary() {
    let page = paginate(vec![2u64, 4, 6, 8], Some(5), Some(10), false);
    assert_eq!(page.data, vec![6, 8]);
    assert_eq!(page.next_cursor, None);
}

#[test]
fn descending_listing_pages_in_reverse_order() {
    let digests = vec![90u64, 70, 50, 30, 10];
    let page1 = get_transactions(digests.clone(), None, Some(2), Some(true));
    assert_eq!(page1.data, vec![90, 70]);
    assert_eq!(page1.next_cursor, Some(70));
    let page2 = get_transactions(digests, Some(70), Some(2), Some(true));
    assert_eq!(page2.data, vec![50, 30]);
    assert_eq!(page2.next_cursor, Some(30));
}

#[test]
fn ascending_is_the_default_transaction_order() {
    let digests = vec![1u64, 2, 3];
    let page = get_transactions(digests, None, None, None);
    assert_eq!(page.data, vec![1, 2, 3]);
    assert_eq!(page.next_cursor, None);
}

#[test]
fn dynamic_fields_page_and_resolve_by_name() {
    let fields = vec![
        FieldSummary { object_id: 100, name_key: 7 },
        FieldSummary { object_id: 101, name_key: 8 },
        FieldSummary { object_id: 102, name_key: 9 },
    ];
    let page = get_dynamic_fields(fields.clone(), None, Some(2));
    assert_eq!(page.data.len(), 2);
    assert_eq!(page.data[0].object_id, 100);
    assert_eq!(page.next_cursor, Some(101));

    match get_dynamic_field_object_id(55, &fields, 8) {
        Ok(id) => assert_eq!(id, 101),
        Err(_) => panic!("expected the field to resolve"),
    }
}

#[test]
fn dynamic_field_lookup_reports_missing_name() {
    let fields = vec![FieldSummary { object_id: 100, name_key: 7 }];
    match get_dynamic_field_object_id(55, &fields, 9) {
        Err(ListingError::DynamicFieldNotFound { parent, name_key }) => {
            assert_eq!(parent, 55);
            assert_eq!(name_key, 9);
        }
        _ => panic!("expected a dynamic-field not-found error"),
    }
    match get_dynamic_field_object_id(55, &fields, 7) {
        Ok(id) => assert_eq!(id, 100),
        Err(_) => panic!("expected the field to resolve"),
    }
}
