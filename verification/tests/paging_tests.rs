use media_organizer::paging::{session_cookie, Page, PagedFetch};

#[test]
fn fetch_starts_at_the_base_address() {
    let f: PagedFetch<u32> = PagedFetch::start(String::from("https://api.example/album/1/tracks"));
    assert_eq!(f.next_url(), Some("https://api.example/album/1/tracks"));
    assert_eq!(f.finish(), Vec::<u32>::new());
}

#[test]
fn pages_are_gathered_in_order_until_no_cursor_is_left() {
    let mut f: PagedFetch<u32> = PagedFetch::start(String::from("p1"));
    f.absorb(Page { data: Some(vec![1, 2]), next: Some(String::from("p2")) });
    assert_eq!(f.next_url(), Some("p2"));
    f.absorb(Page { data: Some(vec![]), next: Some(String::from("p3")) });
    assert_eq!(f.next_url(), Some("p3"));
    f.absorb(Page { data: Some(vec![3]), next: None });
    assert_eq!(f.next_url(), None);
    assert_eq!(f.finish(), vec![1, 2, 3]);
}

#[test]
fn page_without_items_adds_nothing() {
    let mut f: PagedFetch<&str> = PagedFetch::start(String::from("p1"));
    f.absorb(Page { data: Some(vec!["a"]), next: Some(String::from("p2")) });
    f.absorb(Page { data: None, next: Some(String::from("p3")) });
    assert_eq!(f.next_url(), Some("p3"));
    f.absorb(Page { data: None, next: None });
    assert_eq!(f.next_url(), None);
    assert_eq!(f.finish(), vec!["a"]);
}

#[test]
fn following_the_cursor_visits_every_page_once() {
    let pages = vec![
        (vec![10, 11], Some("1")),
        (vec![12], Some("2")),
        (vec![13, 14, 15], None),
    ];
    let mut f: PagedFetch<i32> = PagedFetch::start(String::from("0"));
    let mut visited = Vec::new();
    loop {
        let url = match f.next_url() {
            Some(u) => String::from(u),
            None => break,
        };
        visited.push(url.clone());
        let index: usize = url.parse().unwrap();
        let (items, next) = pages[index].clone();
        f.absorb(Page { data: Some(items), next: next.map(String::from) });
    }
    assert_eq!(visited, vec!["0", "1", "2"]);
    assert_eq!(f.finish(), vec![10, 11, 12, 13, 14, 15]);
}

#[test]
fn session_cookie_has_the_three_values() {
    assert_eq!(session_cookie("A1", "S2", "R3"), "arl=A1; sid=S2; refresh-token=R3;");
    assert_eq!(session_cookie("", "", ""), "arl=; sid=; refresh-token=;");
}
