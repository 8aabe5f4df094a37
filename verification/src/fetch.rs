use vstd::prelude::*;

use crate::aggregate::{ids_decreasing, record_id_val};
use crate::decimal::{dec_chars, dec_val};
use crate::model::{ApiError, Envelope, PageData, PullRecord};

verus! {

/// The fixed page size of every history query.
pub const PAGE_SIZE: u64 = 20;

/// The serialized URL that the `url` crate (re-exported by `reqwest`) builds
/// from a base URL and query pairs, or nothing when the base bytes are not
/// UTF-8 or do not parse as an absolute URL. Named only: the parsing and
/// percent-encoding rules are that crate's own, and the result is a function
/// of the arguments alone.
pub uninterp spec fn url_params_of(base: Seq<u8>, params: Seq<(Seq<char>, Seq<char>)>) -> Option<
    Seq<char>,
>;

/// Relies on `reqwest::Url::parse_with_params` (the `url` crate): parses the
/// base as a URL and appends each pair to its query, percent-encoded, then
/// serializes the result.
#[verifier::external_body]
fn url_with_params(base: &Vec<u8>, params: &Vec<(String, String)>) -> (r: Option<String>)
    ensures
        r.deep_view() == url_params_of(base@, params.deep_view()),
{
    let base = match std::str::from_utf8(base) {
        Ok(s) => s,
        Err(_) => return None,
    };
    let pairs = params.iter().map(|p| (p.0.as_str(), p.1.as_str()));
    match reqwest::Url::parse_with_params(base, pairs) {
        Ok(u) => Some(String::from(u)),
        Err(_) => None,
    }
}

/// Relies on `u64`'s std `Display`: the decimal digits of the value, most
/// significant first, with no leading zeros.
#[verifier::external_body]
fn u64_to_string(n: u64) -> (r: String)
    ensures
        r@ == dec_chars(n as nat),
{
    n.to_string()
}

/// The cursor-pagination state for one category: the number of the next page
/// to request, the cursor to request it with, and the pages fetched so far.
pub struct FetchState {
    pub page_number: u64,
    pub cursor: String,
    pub pages: Vec<Vec<PullRecord>>,
    pub finished: bool,
}

impl FetchState {
    /// The cursor discipline: the next page number follows the count of
    /// fetched pages, every fetched page is non-empty, and the cursor is the
    /// identifier of the last (oldest) record of the last fetched page — or
    /// the sentinel "0" before any page arrived.
    pub open spec fn wf(self) -> bool {
        &&& self.page_number == self.pages@.len() + 1
        &&& (forall|i: int| 0 <= i < self.pages@.len() ==> (#[trigger] self.pages@[i])@.len() > 0)
        &&& if self.pages@.len() == 0 {
            self.cursor@ == "0"@
        } else {
            self.cursor@ == self.pages@.last()@.last().id@
        }
    }
}

/// The state before the first request of a category: page 1, cursor at the
/// "start from the newest record" sentinel, no pages, not finished.
pub fn fetch_start() -> (st: FetchState)
    ensures
        st.wf(),
        st.page_number == 1,
        st.cursor@ == "0"@,
        st.pages@.len() == 0,
        !st.finished,
{
    FetchState { page_number: 1, cursor: "0".to_owned(), pages: Vec::new(), finished: false }
}

/// The query URL for the next page of `gacha_type`: the fixed page size, the
/// state's page number, the locale, and the state's cursor as the exclusive
/// lower bound `end_id` — so the cursor supplied for page N+1 is exactly the
/// identifier of the last record of page N.
pub fn next_page_url(st: &FetchState, base: &Vec<u8>, gacha_type: &str) -> (r: Option<String>)
    ensures
        r.deep_view() == url_params_of(
            base@,
            seq![
                ("size"@, dec_chars(PAGE_SIZE as nat)),
                ("page"@, dec_chars(st.page_number as nat)),
                ("gacha_type"@, gacha_type@),
                ("lang"@, "zh-cn"@),
                ("end_id"@, st.cursor@),
            ],
        ),
{
    let mut params: Vec<(String, String)> = Vec::new();
    params.push(("size".to_owned(), u64_to_string(PAGE_SIZE)));
    params.push(("page".to_owned(), u64_to_string(st.page_number)));
    params.push(("gacha_type".to_owned(), gacha_type.to_owned()));
    params.push(("lang".to_owned(), "zh-cn".to_owned()));
    params.push(("end_id".to_owned(), st.cursor.clone()));
    let r = url_with_params(base, &params);
    proof {
        assert(params.deep_view() =~= seq![
            ("size"@, dec_chars(PAGE_SIZE as nat)),
            ("page"@, dec_chars(st.page_number as nat)),
            ("gacha_type"@, gacha_type@),
            ("lang"@, "zh-cn"@),
            ("end_id"@, st.cursor@),
        ]);
    }
    r
}

/// One step of the fetch loop, fed the response envelope for the page the
/// state is at. A missing payload surfaces the vendor's message verbatim and
/// leaves the state unchanged, so a caller can never mistake a partial
/// history for a complete one. An empty page finishes the fetch: emptiness
/// is the sole success termination signal, whatever the vendor advertises as
/// the total. Otherwise the page is appended, the cursor advances to the
/// identifier of the page's last (oldest) record, and the page number
/// advances by one.
pub fn apply_page(st: &mut FetchState, env: Envelope<PageData>) -> (r: Result<bool, ApiError>)
    requires
        old(st).wf(),
        !old(st).finished,
        old(st).pages@.len() + 2 <= u64::MAX,
    ensures
        final(st).wf(),
        match r {
            Ok(done) => {
                &&& env.data is Some
                &&& done == (env.data->Some_0.list@.len() == 0)
                &&& done == final(st).finished
                &&& if done {
                    &&& final(st).pages == old(st).pages
                    &&& final(st).cursor == old(st).cursor
                    &&& final(st).page_number == old(st).page_number
                } else {
                    &&& final(st).pages@ == old(st).pages@.push(env.data->Some_0.list)
                    &&& final(st).cursor@ == env.data->Some_0.list@.last().id@
                    &&& final(st).page_number == old(st).page_number + 1
                }
            },
            Err(e) => {
                &&& env.data is None
                &&& e.message == env.message
                &&& *final(st) == *old(st)
            },
        },
{
    match env.data {
        None => Err(ApiError { message: env.message }),
        Some(d) => {
            if d.list.len() == 0 {
                st.finished = true;
                Ok(true)
            } else {
                let last_idx = d.list.len() - 1;
                st.cursor = d.list[last_idx].id.clone();
                st.page_number = st.page_number + 1;
                st.pages.push(d.list);
                Ok(false)
            }
        },
    }
}

/// Cursor monotonicity: in a well-formed state whose collected records carry
/// strictly decreasing identifiers (the vendor's reverse-chronological
/// guarantee), the cursor holds the least identifier seen so far. The
/// `end_id` bound supplied for the next page therefore lies strictly below
/// every record already collected: the fetch continues strictly into the
/// past, with no overlap, even if new pulls (all with greater identifiers)
/// are appended between calls.
pub proof fn lemma_cursor_below_collected(st: FetchState)
    requires
        st.wf(),
        st.pages@.len() > 0,
        ids_decreasing(st.pages@.map_values(|p: Vec<PullRecord>| p@).flatten()),
    ensures
        ({
            let flat = st.pages@.map_values(|p: Vec<PullRecord>| p@).flatten();
            &&& flat.len() > 0
            &&& dec_val(st.cursor@) == record_id_val(flat.last())
            &&& forall|i: int|
                0 <= i < flat.len() - 1 ==> record_id_val(#[trigger] flat[i]) > dec_val(
                    st.cursor@,
                )
        }),
{
    let pv = st.pages@.map_values(|p: Vec<PullRecord>| p@);
    let flat = pv.flatten();
    pv.lemma_flatten_and_flatten_alt_are_equivalent();
    assert(pv.last() == st.pages@.last()@);
    assert(pv.last().len() > 0);
    assert(pv.flatten_alt() == pv.drop_last().flatten_alt() + pv.last());
    assert(flat.last() == pv.last().last());
    assert(dec_val(st.cursor@) == record_id_val(flat.last()));
    assert forall|i: int|
        0 <= i < flat.len() - 1 implies record_id_val(#[trigger] flat[i]) > dec_val(
        st.cursor@,
    ) by {
        assert(record_id_val(flat[i]) > record_id_val(flat[flat.len() - 1]));
    }
}

/// Whether a response stops the fetch loop: a vendor error (no payload) or
/// an empty page.
pub open spec fn is_stop(env: Envelope<PageData>) -> bool {
    env.data is None || env.data->Some_0.list@.len() == 0
}

/// The index of the first response that stops the fetch loop, or the length
/// when none does.
pub open spec fn first_stop(rs: Seq<Envelope<PageData>>) -> int
    decreases rs.len(),
{
    if rs.len() == 0 {
        0
    } else if is_stop(rs.first()) {
        0
    } else {
        1 + first_stop(rs.drop_first())
    }
}

/// `first_stop` is exactly the position of the first stopping response.
pub proof fn lemma_first_stop_is(rs: Seq<Envelope<PageData>>, k: int)
    requires
        0 <= k <= rs.len(),
        forall|j: int| 0 <= j < k ==> !is_stop(#[trigger] rs[j]),
        k < rs.len() ==> is_stop(rs[k]),
    ensures
        first_stop(rs) == k,
    decreases rs.len(),
{
    if rs.len() > 0 {
        if is_stop(rs.first()) {
            assert(k == 0) by {
                if k > 0 {
                    assert(!is_stop(rs[0]));
                }
            }
        } else {
            assert(k > 0) by {
                if k == 0 {
                    assert(is_stop(rs[0]));
                }
            }
            assert(forall|j: int|
                0 <= j < k - 1 ==> !is_stop(#[trigger] rs.drop_first()[j]) && rs.drop_first()[j]
                    == rs[j + 1]);
            assert(k - 1 < rs.drop_first().len() ==> is_stop(rs.drop_first()[k - 1]));
            lemma_first_stop_is(rs.drop_first(), k - 1);
        }
    }
}

/// The outcome of replaying a category's fetch loop over the responses the
/// vendor returned.
pub enum FetchOutcome {
    /// An empty page arrived: the history before it is complete.
    Exhausted(Vec<Vec<PullRecord>>),
    /// The vendor reported an error; the partial history is discarded.
    Failed(ApiError),
    /// The response stream ran out before any empty page or error, so the
    /// pages seen are not known to be the whole history.
    Truncated(Vec<Vec<PullRecord>>),
}

/// Runs the whole fetch loop of one category over its responses, in the
/// order the vendor returned them. Pages accumulate until the first stopping
/// response: an empty page completes the history — the sole success
/// termination condition, whatever the vendor advertises as the total — and
/// a vendor error discards it, surfacing the vendor's message verbatim.
#[verifier::loop_isolation(false)]
pub fn collect_history(responses: Vec<Envelope<PageData>>) -> (r: FetchOutcome)
    requires
        responses@.len() + 2 <= u64::MAX,
    ensures
        ({
            let k = first_stop(responses@);
            match r {
                FetchOutcome::Exhausted(pages) => {
                    &&& k < responses@.len()
                    &&& responses@[k].data is Some
                    &&& pages@ == responses@.take(k).map_values(
                        |e: Envelope<PageData>| e.data->Some_0.list,
                    )
                },
                FetchOutcome::Failed(e) => {
                    &&& k < responses@.len()
                    &&& responses@[k].data is None
                    &&& e.message == responses@[k].message
                },
                FetchOutcome::Truncated(pages) => {
                    &&& k == responses@.len()
                    &&& pages@ == responses@.map_values(
                        |e: Envelope<PageData>| e.data->Some_0.list,
                    )
                },
            }
        }),
{
    let ghost orig = responses@;
    let mut st = fetch_start();
    let mut rest = responses;
    while rest.len() > 0
        invariant
            st.wf(),
            !st.finished,
            orig.len() + 2 <= u64::MAX,
            st.pages@.len() <= orig.len(),
            rest@ =~= orig.skip(st.pages@.len() as int),
            forall|j: int| 0 <= j < st.pages@.len() ==> !is_stop(#[trigger] orig[j]),
            st.pages@ =~= orig.take(st.pages@.len() as int).map_values(
                |e: Envelope<PageData>| e.data->Some_0.list,
            ),
        decreases rest.len(),
    {
        let ghost i0 = st.pages@.len() as int;
        let env = rest.remove(0);
        proof {
            assert(env == orig[i0]);
            assert(rest@ =~= orig.skip(i0 + 1));
        }
        match apply_page(&mut st, env) {
            Err(e) => {
                proof {
                    lemma_first_stop_is(orig, i0);
                }
                return FetchOutcome::Failed(e);
            },
            Ok(true) => {
                proof {
                    lemma_first_stop_is(orig, i0);
                    assert(st.pages@ =~= orig.take(i0).map_values(
                        |e: Envelope<PageData>| e.data->Some_0.list,
                    ));
                }
                return FetchOutcome::Exhausted(st.pages);
            },
            Ok(false) => {
                proof {
                    assert(orig.take(i0 + 1) =~= orig.take(i0).push(orig[i0]));
                    assert(orig.take(i0 + 1).map_values(
                        |e: Envelope<PageData>| e.data->Some_0.list,
                    ) =~= orig.take(i0).map_values(
                        |e: Envelope<PageData>| e.data->Some_0.list,
                    ).push(orig[i0].data->Some_0.list));
                }
            },
        }
    }
    proof {
        lemma_first_stop_is(orig, st.pages@.len() as int);
        assert(orig.take(orig.len() as int) =~= orig);
    }
    FetchOutcome::Truncated(st.pages)
}

} // verus!
