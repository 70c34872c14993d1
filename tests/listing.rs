use zfs_updater::{head_ref, BranchLister, FetchError, ListStep, PageResponse, PAGE_SIZE};

fn page(prefix: &str, n: usize) -> PageResponse {
    PageResponse::Received {
        status: 200,
        names: Some((0..n).map(|i| format!("{}-{}", prefix, i)).collect()),
    }
}

/// Feeds `responses` in order; returns the final step and the pages asked for.
fn drive(responses: Vec<PageResponse>) -> (ListStep, Vec<u64>) {
    let mut lister = BranchLister::new();
    let mut asked = Vec::new();
    let mut responses = responses.into_iter();
    loop {
        asked.push(lister.page());
        let response = responses.next().expect("asked for a page that was not planned");
        match lister.on_response(response) {
            ListStep::Continue(next) => lister = next,
            other => return (other, asked),
        }
    }
}

#[test]
fn full_pages_then_short_page_collect_everything() {
    let size = PAGE_SIZE as usize;
    let (step, asked) = drive(vec![page("a", size), page("b", size), page("c", 7)]);
    assert_eq!(asked, vec![1, 2, 3]);
    match step {
        ListStep::Done(all) => {
            assert_eq!(all.len(), 2 * size + 7);
            assert_eq!(all[0], "a-0");
            assert_eq!(all[size - 1], format!("a-{}", size - 1));
            assert_eq!(all[size], "b-0");
            assert_eq!(all[2 * size], "c-0");
            assert_eq!(all[2 * size + 6], "c-6");
        }
        _ => panic!("listing did not complete"),
    }
}

#[test]
fn full_pages_then_empty_page_take_one_extra_request() {
    let size = PAGE_SIZE as usize;
    let (step, asked) = drive(vec![page("a", size), page("b", 0)]);
    assert_eq!(asked, vec![1, 2]);
    match step {
        ListStep::Done(all) => assert_eq!(all.len(), size),
        _ => panic!("listing did not complete"),
    }
}

#[test]
fn single_short_page_is_one_request() {
    let (step, asked) = drive(vec![page("x", 3)]);
    assert_eq!(asked, vec![1]);
    match step {
        ListStep::Done(all) => assert_eq!(all, vec!["x-0", "x-1", "x-2"]),
        _ => panic!("listing did not complete"),
    }
}

#[test]
fn empty_first_page_gives_empty_listing() {
    let (step, asked) = drive(vec![page("x", 0)]);
    assert_eq!(asked, vec![1]);
    match step {
        ListStep::Done(all) => assert!(all.is_empty()),
        _ => panic!("listing did not complete"),
    }
}

#[test]
fn error_status_after_full_page_aborts() {
    let size = PAGE_SIZE as usize;
    let failing = PageResponse::Received { status: 404, names: Some(vec!["z".to_string()]) };
    let (step, asked) = drive(vec![page("a", size), failing]);
    assert_eq!(asked, vec![1, 2]);
    assert!(matches!(step, ListStep::Failed(FetchError::UpstreamStatus(404))));
}

#[test]
fn redirect_status_is_not_success() {
    let response = PageResponse::Received { status: 302, names: Some(Vec::new()) };
    let (step, _) = drive(vec![response]);
    assert!(matches!(step, ListStep::Failed(FetchError::UpstreamStatus(302))));
}

#[test]
fn transport_failure_aborts() {
    let (step, _) = drive(vec![PageResponse::TransportFailed]);
    assert!(matches!(step, ListStep::Failed(FetchError::Transport)));
}

#[test]
fn malformed_body_aborts() {
    let response = PageResponse::Received { status: 200, names: None };
    let (step, _) = drive(vec![response]);
    assert!(matches!(step, ListStep::Failed(FetchError::MalformedResponse)));
}

#[test]
fn request_carries_page_size_and_credential() {
    let lister = BranchLister::new();
    let anonymous = lister.request(None);
    assert_eq!(anonymous.page, 1);
    assert_eq!(anonymous.per_page, 100);
    assert!(anonymous.authorization.is_none());
    let signed = lister.request(Some("abc123"));
    assert_eq!(signed.authorization.as_deref(), Some("token abc123"));
}

#[test]
fn next_request_is_for_the_following_page() {
    let lister = BranchLister::new();
    match lister.on_response(page("a", PAGE_SIZE as usize)) {
        ListStep::Continue(next) => assert_eq!(next.request(None).page, 2),
        _ => panic!("a full page must ask for another"),
    }
}

#[test]
fn head_ref_prefixes_the_branch() {
    assert_eq!(head_ref("zfs-2.2.1-cachyos"), "refs/heads/zfs-2.2.1-cachyos");
}

#[test]
fn oversized_page_keeps_listing() {
    let size = PAGE_SIZE as usize;
    let (step, asked) = drive(vec![page("a", size + 5), page("b", 1)]);
    assert_eq!(asked, vec![1, 2]);
    match step {
        ListStep::Done(all) => assert_eq!(all.len(), size + 6),
        _ => panic!("listing did not complete"),
    }
}
