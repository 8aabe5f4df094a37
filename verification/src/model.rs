use vstd::prelude::*;

verus! {

/// One acquisition event as the vendor reports it. Every field is carried as
/// the vendor's own string encoding; `rank_type` is the rarity tier as a
/// numeric string, and `id` is the vendor-assigned record identifier that
/// strictly decreases in reverse-chronological order and doubles as the
/// pagination cursor.
#[derive(Debug, Clone, PartialEq, Eq)]
pub struct PullRecord {
    pub uid: String,
    pub gacha_type: String,
    pub item_id: String,
    pub count: String,
    pub time: String,
    pub name: String,
    pub lang: String,
    pub item_type: String,
    pub rank_type: String,
    pub id: String,
}

/// One pull category of the vendor's catalog; `key` is the value of the
/// `gacha_type` query parameter.
#[derive(Debug, Clone, PartialEq, Eq)]
pub struct Category {
    pub id: String,
    pub key: String,
    pub name: String,
}

/// The payload of one history-page response. `list` is the page itself,
/// newest record first; the advertised `total` is never consulted.
#[derive(Debug, Clone, PartialEq, Eq)]
pub struct PageData {
    pub page: String,
    pub size: String,
    pub total: String,
    pub list: Vec<PullRecord>,
    pub region: String,
}

/// The payload of the category-catalog response.
#[derive(Debug, Clone, PartialEq, Eq)]
pub struct CatalogData {
    pub gacha_type_list: Vec<Category>,
}

/// The vendor's response envelope. The payload is present exactly when the
/// call succeeded; an absent payload is the sole error signal, and `message`
/// is then the vendor's own description of the failure.
#[derive(Debug, Clone, PartialEq, Eq)]
pub struct Envelope<T> {
    pub retcode: i64,
    pub message: String,
    pub data: Option<T>,
}

/// A pull together with its two derived counters: `sequence_index` is its
/// 1-based position in chronological order, `pity_index` the 1-based count of
/// pulls since the most recent top-rarity pull.
#[derive(Debug, Clone, PartialEq, Eq)]
pub struct AnnotatedRecord {
    pub record: PullRecord,
    pub sequence_index: u64,
    pub pity_index: u64,
}

/// A vendor-reported failure: the envelope carried no payload. The vendor's
/// own message is kept verbatim.
#[derive(Debug, Clone, PartialEq, Eq)]
pub struct ApiError {
    pub message: String,
}

/// Failure to find a usable entry in the trace source.
#[derive(Debug, Clone, PartialEq, Eq, Structural)]
pub enum ResolutionError {
    /// No line of the trace matches the history-page marker.
    NoTraceEntry,
    /// The last matching line holds no recognizable embedded query URL.
    MalformedTraceEntry,
}

impl ResolutionError {
    /// A user-actionable description of the failure.
    pub fn user_message(&self) -> (m: String)
        ensures
            *self == ResolutionError::NoTraceEntry ==> m@
                == "no pull-history request found in the trace; open the pull history panel in the game once, then export again"@,
            *self == ResolutionError::MalformedTraceEntry ==> m@
                == "the trace entry for the pull history holds no recognizable query URL"@,
    {
        match self {
            ResolutionError::NoTraceEntry => "no pull-history request found in the trace; open the pull history panel in the game once, then export again".to_owned(),
            ResolutionError::MalformedTraceEntry => "the trace entry for the pull history holds no recognizable query URL".to_owned(),
        }
    }
}

/// Checks the vendor envelope: succeeds exactly when the payload is present,
/// and otherwise surfaces the vendor's message verbatim.
pub fn check_result<T>(env: &Envelope<T>) -> (r: Result<(), ApiError>)
    ensures
        r is Ok <==> env.data is Some,
        r is Err ==> r->Err_0.message == env.message,
{
    match &env.data {
        Some(_) => Ok(()),
        None => Err(ApiError { message: env.message.clone() }),
    }
}

/// Takes the payload out of a vendor envelope: the payload exactly when it is
/// present, and otherwise the vendor's message verbatim.
pub fn envelope_data<T>(env: Envelope<T>) -> (r: Result<T, ApiError>)
    ensures
        env.data is Some ==> r == Ok::<T, ApiError>(env.data->Some_0),
        env.data is None ==> r is Err && r->Err_0.message == env.message,
{
    match env.data {
        Some(d) => Ok(d),
        None => Err(ApiError { message: env.message }),
    }
}

} // verus!
