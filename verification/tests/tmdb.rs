use media_library::tmdb::{
    find_episode, first_true, genre_list_url, genre_names, is_no_match, match_candidates,
    movie_search_url, pick_match, poster_url, season_url, series_search_name, tv_search_url,
    Candidate, Genre,
};

fn candidate(title: &str, original_title: &str) -> Candidate {
    Candidate { title: title.to_string(), original_title: original_title.to_string() }
}

fn genre(id: Option<i64>, name: Option<&str>) -> Genre {
    Genre { id, name: name.map(|n| n.to_string()) }
}

#[test]
fn addresses_are_spelled_out() {
    assert_eq!(
        movie_search_url("KEY", "The Matrix"),
        "https://api.themoviedb.org/3/search/movie?api_key=KEY&query=The Matrix&language=zh-CN"
    );
    assert_eq!(
        tv_search_url("KEY", "三体"),
        "https://api.themoviedb.org/3/search/tv?api_key=KEY&query=三体&language=zh-CN"
    );
    assert_eq!(
        season_url(1399, 2, "KEY"),
        "https://api.themoviedb.org/3/tv/1399/season/2?api_key=KEY&language=zh-CN"
    );
    assert_eq!(
        season_url(i64::MIN, -1, ""),
        "https://api.themoviedb.org/3/tv/-9223372036854775808/season/-1?api_key=&language=zh-CN"
    );
    assert_eq!(
        genre_list_url("KEY"),
        "https://api.themoviedb.org/3/genre/movie/list?api_key=KEY&language=zh-CN"
    );
    assert_eq!(poster_url(Some("/abc.jpg")), "https://image.tmdb.org/t/p/w500/abc.jpg");
    assert_eq!(poster_url(None), "");
}

#[test]
fn a_series_is_searched_with_spaces_for_dots() {
    assert_eq!(series_search_name("Breaking.Bad"), "Breaking Bad");
    assert_eq!(series_search_name("a..b."), "a  b ");
    assert_eq!(series_search_name(""), "");
    assert_eq!(series_search_name("三体"), "三体");
}

#[test]
fn an_empty_or_null_match_is_none() {
    assert!(is_no_match(""));
    assert!(is_no_match("null"));
    assert!(is_no_match("NULL"));
    assert!(!is_no_match("{}"));
    assert!(!is_no_match(" null"));
}

#[test]
fn an_exact_title_is_preferred() {
    let candidates = vec![
        candidate("The Matrix Reloaded", "The Matrix Reloaded"),
        candidate("黑客帝国", "the matrix"),
        candidate("The Matrix", "The Matrix"),
    ];
    assert_eq!(match_candidates(&candidates, "The Matrix"), Some(1));
}

#[test]
fn a_title_that_holds_the_name_comes_second() {
    let candidates = vec![
        candidate("Other", "Other"),
        candidate("THE MATRIX RELOADED", ""),
        candidate("", "the matrix revolutions"),
    ];
    assert_eq!(match_candidates(&candidates, "The Matrix"), Some(1));
    let candidates = vec![candidate("Other", ""), candidate("ÉCOLE buissonnière", "")];
    assert_eq!(match_candidates(&candidates, "école"), Some(1));
}

#[test]
fn the_first_answer_is_the_last_resort() {
    let candidates = vec![candidate("A", "B"), candidate("C", "D")];
    assert_eq!(match_candidates(&candidates, "zzz"), Some(0));
    assert_eq!(match_candidates(&vec![], "zzz"), None);
}

#[test]
fn picking_goes_by_the_flags() {
    assert_eq!(first_true(&vec![false, true, true]), Some(1));
    assert_eq!(first_true(&vec![false, false]), None);
    assert_eq!(first_true(&vec![]), None);
    assert_eq!(pick_match(&vec![false, false, true], &vec![true, false, false]), Some(2));
    assert_eq!(pick_match(&vec![false, false, false], &vec![false, true, true]), Some(1));
    assert_eq!(pick_match(&vec![false, false], &vec![false, false]), Some(0));
    assert_eq!(pick_match(&vec![], &vec![]), None);
}

#[test]
fn genres_are_named_in_the_order_of_the_list() {
    let genres = vec![
        genre(Some(28), Some("动作")),
        genre(Some(12), Some("冒险")),
        genre(None, Some("无")),
        genre(Some(16), None),
        genre(Some(35), Some("喜剧")),
    ];
    assert_eq!(genre_names(&genres, &vec![35, 28, 16]), "动作、喜剧");
    assert_eq!(genre_names(&genres, &vec![12]), "冒险");
    assert_eq!(genre_names(&genres, &vec![]), "");
    assert_eq!(genre_names(&vec![], &vec![1]), "");
    let genres = vec![genre(Some(1), Some("")), genre(Some(2), Some("b"))];
    assert_eq!(genre_names(&genres, &vec![1, 2]), "、b");
}

#[test]
fn an_episode_is_found_by_its_number() {
    let numbers = vec![Some(1), None, Some(3), Some(3)];
    assert_eq!(find_episode(&numbers, 3), Some(2));
    assert_eq!(find_episode(&numbers, 1), Some(0));
    assert_eq!(find_episode(&numbers, 2), None);
    assert_eq!(find_episode(&vec![Some(u64::MAX)], u32::MAX), None);
    assert_eq!(find_episode(&vec![], 1), None);
}
