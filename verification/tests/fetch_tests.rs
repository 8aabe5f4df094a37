use gacha_export::fetch::{
    apply_page, collect_history, fetch_start, next_page_url, FetchOutcome,
};
use gacha_export::model::{Envelope, PageData, PullRecord};

fn pull(id: &str) -> PullRecord {
    PullRecord {
        uid: String::from("100000001"),
        gacha_type: String::from("301"),
        item_id: String::from("15502"),
        count: String::from("1"),
        time: String::from("2021-01-01 00:00:00"),
        name: String::from("item"),
        lang: String::from("zh-cn"),
        item_type: String::from("Weapon"),
        rank_type: String::from("3"),
        id: String::from(id),
    }
}

fn page_env(list: Vec<PullRecord>) -> Envelope<PageData> {
    Envelope {
        retcode: 0,
        message: String::from("OK"),
        data: Some(PageData {
            page: String::from("1"),
            size: String::from("20"),
            total: String::from("9999"),
            list,
            region: String::from("cn_gf01"),
        }),
    }
}

fn err_env(msg: &str) -> Envelope<PageData> {
    Envelope { retcode: -101, message: String::from(msg), data: None }
}

#[test]
fn start_state_uses_sentinel_cursor() {
    let st = fetch_start();
    assert_eq!(st.cursor, "0");
    assert_eq!(st.page_number, 1);
    assert!(st.pages.is_empty());
    assert!(!st.finished);
}

#[test]
fn cursor_advances_to_last_record_of_each_page() {
    let mut st = fetch_start();
    let done = apply_page(&mut st, page_env(vec![pull("1005"), pull("1003"), pull("1001")]))
        .unwrap();
    assert!(!done);
    assert_eq!(st.cursor, "1001");
    assert_eq!(st.page_number, 2);
    let done = apply_page(&mut st, page_env(vec![pull("990"), pull("980")])).unwrap();
    assert!(!done);
    assert_eq!(st.cursor, "980");
    assert_eq!(st.page_number, 3);
    assert_eq!(st.pages.len(), 2);
}

#[test]
fn empty_page_is_the_sole_termination_signal() {
    let mut st = fetch_start();
    let done = apply_page(&mut st, page_env(vec![pull("1005")])).unwrap();
    assert!(!done);
    // The vendor advertises a huge total; only the empty page ends the loop.
    let done = apply_page(&mut st, page_env(Vec::new())).unwrap();
    assert!(done);
    assert!(st.finished);
    assert_eq!(st.pages.len(), 1);
}

#[test]
fn vendor_error_leaves_state_unchanged() {
    let mut st = fetch_start();
    let r = apply_page(&mut st, err_env("authkey timeout"));
    let e = r.unwrap_err();
    assert_eq!(e.message, "authkey timeout");
    assert_eq!(st.cursor, "0");
    assert_eq!(st.page_number, 1);
    assert!(st.pages.is_empty());
}

#[test]
fn empty_category_yields_zero_pages() {
    match collect_history(vec![page_env(Vec::new())]) {
        FetchOutcome::Exhausted(pages) => assert!(pages.is_empty()),
        _ => panic!("expected a completed empty history"),
    }
}

#[test]
fn error_on_second_page_discards_the_category() {
    let responses = vec![
        page_env(vec![pull("1005"), pull("1003")]),
        err_env("visit too frequently"),
    ];
    match collect_history(responses) {
        FetchOutcome::Failed(e) => assert_eq!(e.message, "visit too frequently"),
        _ => panic!("expected the vendor error to surface"),
    }
}

#[test]
fn full_run_collects_pages_up_to_the_empty_one() {
    let responses = vec![
        page_env(vec![pull("1005"), pull("1003")]),
        page_env(vec![pull("990")]),
        page_env(Vec::new()),
    ];
    match collect_history(responses) {
        FetchOutcome::Exhausted(pages) => {
            assert_eq!(pages.len(), 2);
            assert_eq!(pages[0].len(), 2);
            assert_eq!(pages[1].len(), 1);
            assert_eq!(pages[1][0].id, "990");
        },
        _ => panic!("expected a completed history"),
    }
}

#[test]
fn stream_without_terminator_is_not_a_complete_history() {
    match collect_history(vec![page_env(vec![pull("1005")])]) {
        FetchOutcome::Truncated(pages) => assert_eq!(pages.len(), 1),
        _ => panic!("expected a truncated outcome"),
    }
}

#[test]
fn page_url_carries_size_page_category_locale_and_cursor() {
    let st = fetch_start();
    let base: Vec<u8> = "https://example.com/api/getGachaLog?authkey=abc".as_bytes().to_vec();
    let url = next_page_url(&st, &base, "301").unwrap();
    assert_eq!(
        url,
        "https://example.com/api/getGachaLog?authkey=abc&size=20&page=1&gacha_type=301&lang=zh-cn&end_id=0"
    );
}

#[test]
fn page_url_supplies_previous_last_record_as_cursor() {
    let mut st = fetch_start();
    apply_page(&mut st, page_env(vec![pull("1005"), pull("1001")])).unwrap();
    let base: Vec<u8> = "https://example.com/api/getGachaLog?authkey=abc".as_bytes().to_vec();
    let url = next_page_url(&st, &base, "302").unwrap();
    assert_eq!(
        url,
        "https://example.com/api/getGachaLog?authkey=abc&size=20&page=2&gacha_type=302&lang=zh-cn&end_id=1001"
    );
}

#[test]
fn whole_pipeline_counts_and_displays_newest_first() {
    // Two fetched pages (newest first), a top-rarity pull in the middle of
    // the older page, then the terminating empty page.
    let mut old_page = vec![pull("1003"), pull("1002"), pull("1001")];
    old_page[1].rank_type = String::from("5");
    let responses = vec![
        page_env(vec![pull("1005"), pull("1004")]),
        page_env(old_page),
        page_env(Vec::new()),
    ];
    let pages = match gacha_export::fetch::collect_history(responses) {
        FetchOutcome::Exhausted(pages) => pages,
        _ => panic!("expected a completed history"),
    };
    let rows = gacha_export::aggregate::display_order(
        gacha_export::aggregate::annotate_history(pages),
    );
    let ids: Vec<&str> = rows.iter().map(|r| r.record.id.as_str()).collect();
    assert_eq!(ids, vec!["1005", "1004", "1003", "1002", "1001"]);
    let pity: Vec<u64> = rows.iter().map(|r| r.pity_index).collect();
    // Chronological pity is 1,2,1,2,3; displayed newest first.
    assert_eq!(pity, vec![3, 2, 1, 2, 1]);
    let seq: Vec<u64> = rows.iter().map(|r| r.sequence_index).collect();
    assert_eq!(seq, vec![5, 4, 3, 2, 1]);
}

#[test]
fn page_url_of_unparsable_base_is_nothing() {
    let st = fetch_start();
    let base: Vec<u8> = "not a url at all".as_bytes().to_vec();
    assert!(next_page_url(&st, &base, "301").is_none());
}
