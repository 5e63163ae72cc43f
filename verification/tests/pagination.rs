use integrations_api::api::jobs::get_jobs;
use integrations_api::api::types::{ApiResponseList, Limit, Order, PaginationQuery};
use integrations_api::db::jobs::JobStore;
use integrations_api::models::job::{Job, JobStatus};
use integrations_api::types::Cursor;
use uuid::Uuid;

struct Item {
    id: String,
}

impl Cursor for Item {
    fn spec_cursor(&self) -> vstd::seq::Seq<char> {
        unreachable!()
    }

    fn cursor(&self) -> String {
        self.id.to_string()
    }
}

fn limit_of(value: u64) -> Limit {
    match Limit::try_from(value) {
        Ok(l) => l,
        Err(_) => panic!("limit rejected"),
    }
}

fn job(id: u128) -> Job {
    Job {
        id,
        registry: "crates".to_string(),
        package_name: format!("pkg-{}", id),
        status: JobStatus::Processing,
        trace_id: None,
        created_at: id as i64,
    }
}

fn store_with(ids: &[u128]) -> JobStore {
    let mut store = JobStore::new();
    for &id in ids {
        store.insert_job(job(id)).expect("insert failed");
    }
    store
}

#[test]
fn test_api_response_list_returns_no_next_cursor() {
    // Arrange
    let items: Vec<Item> = (0..100)
        .map(|i| Item {
            id: Uuid::from_u64_pair(i as u64, 0).to_string(),
        })
        .collect();
    assert_eq!(items.len(), 100);

    // Act
    let list = ApiResponseList::new(items, limit_of(100));

    // Assert
    assert_eq!(list.next_cursor, None);
    assert_eq!(list.data.len(), 100);
}

#[test]
fn test_api_response_list_returns_next_cursor() {
    // Arrange
    let items: Vec<Item> = (0..=100)
        .map(|i| Item {
            id: Uuid::from_u64_pair(i as u64, 0).to_string(),
        })
        .collect();
    assert_eq!(items.len(), 101);

    // Act
    let list = ApiResponseList::new(items, limit_of(100));

    // Assert
    assert_eq!(list.data.len(), 100);
    assert_eq!(
        list.next_cursor,
        Some(Uuid::from_u64_pair(99, 0).to_string())
    );
}

#[test]
fn pages_of_four_ascending_then_cursor() {
    // ids [1..5]; limit=4 asc gives [1,2,3,4] with next_cursor "4";
    // following with after=4 gives [5] and no cursor.
    let store = store_with(&[1, 2, 3, 4, 5]);
    let page = get_jobs(
        &store,
        PaginationQuery { limit: Some(4), after: None, order: Order::Asc },
    )
    .expect("listing failed");
    let ids: Vec<u128> = page.data.iter().map(|j| j.id).collect();
    assert_eq!(ids, vec![1, 2, 3, 4]);
    assert_eq!(page.next_cursor, Some("4".to_string()));

    let page2 = get_jobs(
        &store,
        PaginationQuery { limit: Some(4), after: Some(4), order: Order::Asc },
    )
    .expect("listing failed");
    let ids2: Vec<u128> = page2.data.iter().map(|j| j.id).collect();
    assert_eq!(ids2, vec![5]);
    assert_eq!(page2.next_cursor, None);
}

#[test]
fn walking_pages_visits_every_id_once_ascending() {
    let all: Vec<u128> = (1..=23).collect();
    let store = store_with(&all);
    let mut seen: Vec<u128> = Vec::new();
    let mut after: Option<u128> = None;
    loop {
        let page = get_jobs(
            &store,
            PaginationQuery { limit: Some(5), after, order: Order::Asc },
        )
        .expect("listing failed");
        for j in &page.data {
            seen.push(j.id);
        }
        match page.next_cursor {
            Some(c) => after = Some(c.parse::<u128>().expect("cursor not numeric")),
            None => break,
        }
    }
    assert_eq!(seen, all);
}

#[test]
fn walking_pages_visits_every_id_once_descending() {
    let all: Vec<u128> = (1..=23).collect();
    let store = store_with(&all);
    let mut seen: Vec<u128> = Vec::new();
    let mut after: Option<u128> = None;
    loop {
        let page = get_jobs(
            &store,
            PaginationQuery { limit: Some(4), after, order: Order::Desc },
        )
        .expect("listing failed");
        for j in &page.data {
            seen.push(j.id);
        }
        match page.next_cursor {
            Some(c) => after = Some(c.parse::<u128>().expect("cursor not numeric")),
            None => break,
        }
    }
    let mut expected = all.clone();
    expected.reverse();
    assert_eq!(seen, expected);
}

#[test]
fn limit_equal_to_result_set_gives_no_cursor() {
    let store = store_with(&[1, 2, 3]);
    let page = get_jobs(
        &store,
        PaginationQuery { limit: Some(3), after: None, order: Order::Asc },
    )
    .expect("listing failed");
    assert_eq!(page.data.len(), 3);
    assert_eq!(page.next_cursor, None);
}

#[test]
fn limit_one_less_than_result_set_gives_last_returned_cursor() {
    let store = store_with(&[1, 2, 3]);
    let page = get_jobs(
        &store,
        PaginationQuery { limit: Some(2), after: None, order: Order::Asc },
    )
    .expect("listing failed");
    assert_eq!(page.data.len(), 2);
    assert_eq!(page.data.last().unwrap().id, 2);
    assert_eq!(page.next_cursor, Some("2".to_string()));
}

#[test]
fn cursor_past_the_end_gives_empty_page() {
    let store = store_with(&[1, 2, 3]);
    let page = get_jobs(
        &store,
        PaginationQuery { limit: Some(10), after: Some(3), order: Order::Asc },
    )
    .expect("listing failed");
    assert!(page.data.is_empty());
    assert_eq!(page.next_cursor, None);
}

#[test]
fn empty_store_gives_empty_page() {
    let store = JobStore::new();
    let page = get_jobs(
        &store,
        PaginationQuery { limit: None, after: None, order: Order::Desc },
    )
    .expect("listing failed");
    assert!(page.data.is_empty());
    assert_eq!(page.next_cursor, None);
}

#[test]
fn limit_above_the_bound_is_invalid_input() {
    let store = store_with(&[1]);
    let err = get_jobs(
        &store,
        PaginationQuery { limit: Some(101), after: None, order: Order::Asc },
    )
    .expect_err("limit should be rejected");
    assert_eq!(err.status_code(), 400);
}
