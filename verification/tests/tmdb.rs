use dvrreview::tmdb::{
    parse_title, pick_best_result, RateLimiter, Reply, SearchResponse, SearchResult, SearchStep,
    TmdbClient,
};

fn hit(id: i32, kind: &str, name: &str) -> SearchResult {
    SearchResult {
        id,
        media_type: Some(kind.to_string()),
        name: Some(name.to_string()),
        title: None,
        first_air_date: None,
        release_date: None,
    }
}

#[test]
fn parse_title_with_year() {
    let result = parse_title("Friends (1994)");
    assert_eq!(result.clean_title, "Friends");
    assert_eq!(result.year, Some(1994));
}

#[test]
fn parse_title_without_year() {
    let result = parse_title("SpongeBob SquarePants");
    assert_eq!(result.clean_title, "SpongeBob SquarePants");
    assert_eq!(result.year, None);
}

#[test]
fn parse_title_with_non_year_parens() {
    let result = parse_title("Some Show (UK)");
    assert_eq!(result.clean_title, "Some Show (UK)");
    assert_eq!(result.year, None);
}

#[test]
fn parse_title_trims_whitespace() {
    let result = parse_title("  The Office  (2005) ");
    assert_eq!(result.clean_title, "The Office");
    assert_eq!(result.year, Some(2005));
}

#[test]
fn titles_at_the_edges_of_the_form() {
    assert_eq!(parse_title("(1994)").year, None);
    assert_eq!(parse_title("(1994)").clean_title, "(1994)");
    assert_eq!(parse_title(" (1994)").year, Some(1994));
    assert_eq!(parse_title(" (1994)").clean_title, "");
    assert_eq!(parse_title("A\n(1994)\n").year, Some(1994));
    assert_eq!(parse_title("A\nB (1994)").year, None);
    assert_eq!(parse_title("\n(1994)").year, None);
    assert_eq!(parse_title("A (19945)").year, None);
    assert_eq!(parse_title("A (194)").year, None);
    assert_eq!(parse_title("A (1994) B").year, None);
    assert_eq!(parse_title("A (1990) (1994)").clean_title, "A (1990)");
    assert_eq!(parse_title("A(0007)\t\r\n").year, Some(7));
    assert_eq!(parse_title("A (1994)\u{a0}").year, None);
    assert_eq!(parse_title("\u{a0}\u{e9} \u{a0}(1994)").clean_title, "\u{e9}");
}

#[test]
fn pick_prefers_tv_when_has_season() {
    let results = vec![
        SearchResult {
            id: 100,
            media_type: Some("movie".to_string()),
            name: None,
            title: Some("Friends Movie".to_string()),
            first_air_date: None,
            release_date: Some("2020-01-01".to_string()),
        },
        SearchResult {
            id: 1668,
            media_type: Some("tv".to_string()),
            name: Some("Friends".to_string()),
            title: None,
            first_air_date: Some("1994-09-22".to_string()),
            release_date: None,
        },
    ];

    let result = pick_best_result(&results, true).unwrap();
    assert_eq!(result.id, 1668);
    assert_eq!(result.media_type, "tv");
    assert_eq!(result.title, "Friends");
    assert_eq!(result.year, Some(1994));
}

#[test]
fn pick_takes_first_when_no_preference() {
    let results = vec![SearchResult {
        id: 100,
        media_type: Some("movie".to_string()),
        name: None,
        title: Some("Inception".to_string()),
        first_air_date: None,
        release_date: Some("2010-07-16".to_string()),
    }];

    let result = pick_best_result(&results, false).unwrap();
    assert_eq!(result.id, 100);
    assert_eq!(result.media_type, "movie");
}

#[test]
fn pick_skips_person_results() {
    let results = vec![SearchResult {
        id: 999,
        media_type: Some("person".to_string()),
        name: Some("Someone".to_string()),
        title: None,
        first_air_date: None,
        release_date: None,
    }];

    assert!(pick_best_result(&results, false).is_none());
}

#[test]
fn pick_empty_results() {
    assert!(pick_best_result(&[], false).is_none());
}

#[test]
fn pick_falls_back_to_a_movie() {
    let results = vec![hit(1, "person", "a"), hit(2, "movie", "b"), hit(3, "movie", "c")];
    assert_eq!(pick_best_result(&results, true).unwrap().id, 2);
    let results = vec![hit(2, "movie", "b"), hit(3, "tv", "c"), hit(4, "tv", "d")];
    assert_eq!(pick_best_result(&results, true).unwrap().id, 3);
    assert_eq!(pick_best_result(&results, false).unwrap().id, 2);
}

#[test]
fn titles_and_years_of_hits() {
    let mut h = hit(1, "tv", "Name");
    h.title = Some("Title".to_string());
    assert_eq!(h.display_title(), "Name");
    h.name = None;
    assert_eq!(h.display_title(), "Title");
    h.title = None;
    assert_eq!(h.display_title(), "");
    assert_eq!(h.year(), None);
    h.release_date = Some("2001".to_string());
    assert_eq!(h.year(), Some(2001));
    h.first_air_date = Some("".to_string());
    assert_eq!(h.year(), None);
    h.first_air_date = Some("-5-6".to_string());
    assert_eq!(h.year(), None);
    assert_eq!(h.resolved_media_type(), Some("tv"));
    h.media_type = None;
    assert_eq!(h.resolved_media_type(), None);
}

#[test]
fn a_client_needs_a_key() {
    assert_eq!(TmdbClient::new(String::new()).unwrap_err(), "TMDB API key is empty");
    let client = TmdbClient::new("key".to_string()).unwrap();
    assert_eq!(client.limiter.max_requests, 35);
    assert_eq!(client.limiter.window, 10_000_000_000);
}

#[test]
fn answers_are_remembered_by_title_year_and_season() {
    let mut client = TmdbClient::new("key".to_string()).unwrap();
    match client.search("Friends", Some(1994), true) {
        SearchStep::Ask(request) => {
            assert_eq!(request.url, "https://api.themoviedb.org/3/search/multi");
            assert_eq!(
                request.query,
                vec![
                    ("query".to_string(), "Friends".to_string()),
                    ("year".to_string(), "1994".to_string())
                ]
            );
            assert_eq!(request.bearer, "key");
        }
        SearchStep::Answer(_) => panic!("nothing was asked yet"),
    }
    let found = Reply::Found(SearchResponse { results: vec![hit(1668, "tv", "Friends")] });
    let result = client.receive("Friends", Some(1994), true, &found).unwrap();
    assert_eq!(result.unwrap().id, 1668);
    match client.search("Friends", Some(1994), true) {
        SearchStep::Answer(Some(r)) => assert_eq!((r.id, r.title.as_str()), (1668, "Friends")),
        _ => panic!("the answer was forgotten"),
    }
    assert!(matches!(client.search("Friends", Some(1994), false), SearchStep::Ask(_)));
    assert!(matches!(client.search("Friends", None, true), SearchStep::Ask(_)));
    assert!(matches!(client.search("Friend", Some(1994), true), SearchStep::Ask(_)));
    let nothing = Reply::Found(SearchResponse { results: vec![] });
    assert!(client.receive("X", None, false, &nothing).unwrap().is_none());
    assert!(matches!(client.search("X", None, false), SearchStep::Answer(None)));
}

#[test]
fn errors_are_not_remembered() {
    let mut client = TmdbClient::new("key".to_string()).unwrap();
    assert_eq!(
        client.receive("X", None, false, &Reply::Failed).unwrap_err(),
        "TMDB API request failed"
    );
    let refused = Reply::Refused { status: "401 Unauthorized".to_string(), body: "no".to_string() };
    assert_eq!(
        client.receive("X", None, false, &refused).unwrap_err(),
        "TMDB API returned 401 Unauthorized: no"
    );
    assert_eq!(
        client.receive("X", None, false, &Reply::Unreadable).unwrap_err(),
        "Failed to parse TMDB response"
    );
    match client.search("X", None, false) {
        SearchStep::Ask(request) => {
            assert_eq!(request.query, vec![("query".to_string(), "X".to_string())])
        }
        SearchStep::Answer(_) => panic!("an error was remembered"),
    }
}

#[test]
fn the_limiter_lets_go_when_the_oldest_request_leaves() {
    let mut limiter = RateLimiter::new(2, 100);
    assert_eq!(limiter.acquire(1000), None);
    limiter.record(1000);
    assert_eq!(limiter.acquire(1010), None);
    limiter.record(1010);
    assert_eq!(limiter.acquire(1030), Some(70));
    limiter.resume(1100);
    assert_eq!(limiter.timestamps, vec![1010]);
    limiter.record(1100);
    assert_eq!(limiter.acquire(1100), Some(10));
    assert_eq!(limiter.acquire(1110), None);
    assert_eq!(limiter.timestamps, vec![1100]);
}

#[test]
fn no_window_sees_more_requests_than_are_admitted() {
    let mut limiter = RateLimiter::new(3, 1000);
    let mut now: u64 = 0;
    let mut noted: Vec<u64> = Vec::new();
    for i in 0..50u64 {
        now += (i * 37) % 211;
        if let Some(wait) = limiter.acquire(now) {
            now += wait;
            limiter.resume(now);
        }
        limiter.record(now);
        noted.push(now);
    }
    for k in 3..noted.len() {
        assert!(noted[k] - noted[k - 3] >= 1000);
    }
}
