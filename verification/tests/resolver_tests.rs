use gacha_export::model::ResolutionError;
use gacha_export::resolver::{config_list_url, resolve_endpoint};

fn as_lines(v: &[&str]) -> Vec<Vec<u8>> {
    v.iter().map(|s| s.as_bytes().to_vec()).collect()
}

#[test]
fn resolves_url_from_marker_line() {
    let lines = as_lines(&[
        "some unrelated line",
        "OnGetWebViewPageFinish:https://webstatic.mihoyo.com/ys/event/index.html?v=1&authkey=XYZ#/log",
        "another line",
    ]);
    let url = resolve_endpoint(&lines).unwrap();
    assert_eq!(
        String::from_utf8(url).unwrap(),
        "https://hk4e-api.mihoyo.com/event/gacha_info/api/getGachaLog?v=1&authkey=XYZ#/log"
    );
}

#[test]
fn later_marker_line_supersedes_earlier_one() {
    let lines = as_lines(&[
        "OnGetWebViewPageFinish:https://first.example/x?a=1#/log",
        "noise in between",
        "OnGetWebViewPageFinish:https://second.example/y?b=2#/log",
    ]);
    let url = resolve_endpoint(&lines).unwrap();
    assert_eq!(
        String::from_utf8(url).unwrap(),
        "https://hk4e-api.mihoyo.com/event/gacha_info/api/getGachaLog?b=2#/log"
    );
}

#[test]
fn no_marker_line_is_a_resolution_failure() {
    let lines = as_lines(&["nothing here", "OnGetWebViewPageFinish:but wrong anchor"]);
    assert_eq!(resolve_endpoint(&lines), Err(ResolutionError::NoTraceEntry));
    assert_eq!(resolve_endpoint(&Vec::new()), Err(ResolutionError::NoTraceEntry));
}

#[test]
fn marker_needs_both_prefix_and_anchor() {
    // The anchor alone, or the prefix alone, does not make a usable line.
    let lines = as_lines(&["https://x.example/?a=1#/log", "OnGetWebViewPageFinish:https://x.example/?a=1"]);
    assert_eq!(resolve_endpoint(&lines), Err(ResolutionError::NoTraceEntry));
}

#[test]
fn marker_line_without_query_is_malformed() {
    let lines = as_lines(&["OnGetWebViewPageFinish:https-no-query#/log"]);
    assert_eq!(resolve_endpoint(&lines), Err(ResolutionError::MalformedTraceEntry));
}

#[test]
fn resolution_failure_tells_the_user_what_to_do() {
    let m = ResolutionError::NoTraceEntry.user_message();
    assert_eq!(
        m,
        "no pull-history request found in the trace; open the pull history panel in the game once, then export again"
    );
    let m = ResolutionError::MalformedTraceEntry.user_message();
    assert_eq!(m, "the trace entry for the pull history holds no recognizable query URL");
}

#[test]
fn catalog_url_swaps_the_path_segment() {
    let url: Vec<u8> =
        "https://hk4e-api.mihoyo.com/event/gacha_info/api/getGachaLog?authkey=XYZ".as_bytes().to_vec();
    let sibling = config_list_url(&url);
    assert_eq!(
        String::from_utf8(sibling).unwrap(),
        "https://hk4e-api.mihoyo.com/event/gacha_info/api/getConfigList?authkey=XYZ"
    );
}

#[test]
fn catalog_url_of_unrelated_url_is_unchanged() {
    let url: Vec<u8> = "https://example.com/other/path?x=1".as_bytes().to_vec();
    let sibling = config_list_url(&url);
    assert_eq!(String::from_utf8(sibling).unwrap(), "https://example.com/other/path?x=1");
}
