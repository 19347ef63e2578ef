//! GameBrain lookups as sequences of steps. Each step takes what the last action brought
//! back (a cache read, a name suggestion, a request, a save) and names the next action or
//! the result. A game's GameBrain id comes from the fresh cache, else from the service's
//! name suggestions, else from stale cache; its similar games and its media come from the
//! fresh cache, else from the service, else, when the service cannot be reached, from
//! stale cache.
use vstd::prelude::*;
use crate::tag_service::truncated;
use crate::text::{concat_str, trim};

verus! {

// ---------------------------------------------------------------------------
// The GameBrain id of a game
// ---------------------------------------------------------------------------

/// What the id lookup waits for.
#[derive(PartialEq, Eq, Structural, Clone, Copy, Debug)]
pub enum IdStage {
    /// The id, read from the fresh cache.
    AwaitFreshId,
    /// The id found by the service's name suggestions.
    AwaitSuggestion,
    /// The id read from the cache, however old.
    AwaitStaleId,
    /// The suggested id has been saved.
    AwaitIdSaved(u64),
    /// The lookup has its result.
    Finished,
}

/// The state of an id lookup.
pub struct IdLookup {
    pub game_name: String,
    pub stage: IdStage,
    /// The error to give when no stale id is found.
    pub error: String,
}

/// What an action of the id lookup brought back. A cache read that fails gives `Err`.
pub enum IdEvent {
    FreshId(Result<Option<u64>, String>),
    Suggested(Result<Option<u64>, String>),
    StaleId(Result<Option<u64>, String>),
    IdSaved,
}

/// The next thing the id lookup asks for, or its result.
pub enum IdAction {
    ReadFreshId,
    Suggest,
    ReadStaleId,
    SaveId(u64),
    Found(u64),
    Fail(String),
}

/// The event is the one the stage waits for.
pub open spec fn id_accepts(stage: IdStage, e: IdEvent) -> bool {
    match stage {
        IdStage::AwaitFreshId => e is FreshId,
        IdStage::AwaitSuggestion => e is Suggested,
        IdStage::AwaitStaleId => e is StaleId,
        IdStage::AwaitIdSaved(_) => e is IdSaved,
        IdStage::Finished => false,
    }
}

/// The stage after an accepted event.
pub open spec fn id_next_stage(stage: IdStage, e: IdEvent) -> IdStage {
    match e {
        IdEvent::FreshId(Ok(None)) => IdStage::AwaitSuggestion,
        IdEvent::Suggested(Ok(Some(id))) => IdStage::AwaitIdSaved(id),
        IdEvent::Suggested(_) => IdStage::AwaitStaleId,
        _ => IdStage::Finished,
    }
}

/// The action fails with this message.
pub open spec fn id_fails_with(a: IdAction, msg: Seq<char>) -> bool {
    a matches IdAction::Fail(m) && m@ == msg
}

/// Starts an id lookup: without an API key (blank once trimmed) it fails at once;
/// otherwise it first reads the id from the fresh cache.
pub fn start_id_lookup(api_key: &str, game_name: String) -> (r: (IdLookup, IdAction))
    ensures
        r.0.game_name@ == game_name@,
        crate::text::trim_seq(api_key@).len() == 0 ==> r.0.stage == IdStage::Finished && id_fails_with(r.1, "GameBrain API key não configurada"@),
        crate::text::trim_seq(api_key@).len() > 0 ==> r.0.stage == IdStage::AwaitFreshId && r.1 == IdAction::ReadFreshId,
{
    let t = trim(api_key);
    if t.as_str().is_empty() {
        let msg = crate::text::copy_string("GameBrain API key não configurada");
        (IdLookup { game_name, stage: IdStage::Finished, error: String::new() }, IdAction::Fail(msg))
    } else {
        (IdLookup { game_name, stage: IdStage::AwaitFreshId, error: String::new() }, IdAction::ReadFreshId)
    }
}

/// One step of the id lookup: a fresh cached id is found; without one the suggestions
/// are asked; a suggested id is saved, then found; no suggestion, or a failed one, falls
/// back to the stale cached id, and without it the lookup fails (the game is not found,
/// or with the service's error). A cache read that fails ends the lookup with its error.
pub fn step_id_lookup(lookup: &mut IdLookup, event: IdEvent) -> (r: IdAction)
    requires
        id_accepts(old(lookup).stage, event),
    ensures
        final(lookup).game_name@ == old(lookup).game_name@,
        final(lookup).stage == id_next_stage(old(lookup).stage, event),
        match event {
            IdEvent::FreshId(Ok(Some(id))) => r == IdAction::Found(id),
            IdEvent::FreshId(Ok(None)) => r == IdAction::Suggest,
            IdEvent::Suggested(Ok(Some(id))) => r == IdAction::SaveId(id),
            IdEvent::Suggested(Ok(None)) => r == IdAction::ReadStaleId
                && final(lookup).error@ == "Jogo '"@ + old(lookup).game_name@ + "' não encontrado na GameBrain"@,
            IdEvent::Suggested(Err(e)) => r == IdAction::ReadStaleId && final(lookup).error@ == e@,
            IdEvent::StaleId(Ok(Some(id))) => r == IdAction::Found(id),
            IdEvent::StaleId(Ok(None)) => id_fails_with(r, old(lookup).error@),
            IdEvent::IdSaved => match old(lookup).stage {
                IdStage::AwaitIdSaved(id) => r == IdAction::Found(id),
                _ => false,
            },
            IdEvent::FreshId(Err(e)) => id_fails_with(r, e@),
            IdEvent::StaleId(Err(e)) => id_fails_with(r, e@),
        },
{
    match event {
        IdEvent::FreshId(Ok(Some(id))) | IdEvent::StaleId(Ok(Some(id))) => {
            lookup.stage = IdStage::Finished;
            IdAction::Found(id)
        },
        IdEvent::FreshId(Ok(None)) => {
            lookup.stage = IdStage::AwaitSuggestion;
            IdAction::Suggest
        },
        IdEvent::Suggested(Ok(Some(id))) => {
            lookup.stage = IdStage::AwaitIdSaved(id);
            IdAction::SaveId(id)
        },
        IdEvent::Suggested(Ok(None)) => {
            let a = concat_str("Jogo '", lookup.game_name.as_str());
            lookup.error = concat_str(a.as_str(), "' não encontrado na GameBrain");
            lookup.stage = IdStage::AwaitStaleId;
            IdAction::ReadStaleId
        },
        IdEvent::Suggested(Err(e)) => {
            lookup.error = e;
            lookup.stage = IdStage::AwaitStaleId;
            IdAction::ReadStaleId
        },
        IdEvent::StaleId(Ok(None)) => {
            lookup.stage = IdStage::Finished;
            IdAction::Fail(lookup.error.clone())
        },
        IdEvent::IdSaved => {
            let id = match lookup.stage {
                IdStage::AwaitIdSaved(id) => id,
                _ => 0,
            };
            lookup.stage = IdStage::Finished;
            IdAction::Found(id)
        },
        IdEvent::FreshId(Err(e)) | IdEvent::StaleId(Err(e)) => {
            lookup.stage = IdStage::Finished;
            IdAction::Fail(e)
        },
    }
}

// ---------------------------------------------------------------------------
// Data of a known id: similar games, media
// ---------------------------------------------------------------------------

/// What a data lookup waits for.
#[derive(PartialEq, Eq, Structural, Clone, Copy, Debug)]
pub enum DataStage {
    /// The data of the id, read from the fresh cache.
    AwaitFresh,
    /// The data from the service.
    AwaitFetch,
    /// The data read from the cache, however old.
    AwaitStale,
    /// The data from the service has been saved.
    AwaitSaved,
    /// The lookup has its result.
    Finished,
}

/// Why the service gave no data: it could not be reached or answered with an error
/// status, or its reply could not be read.
pub enum FetchError {
    Unreachable(String),
    Unreadable(String),
}

/// What an action of a data lookup brought back. A cache read that fails gives `Err`.
pub enum DataEvent<P> {
    Fresh(Result<Option<P>, String>),
    Fetched(Result<P, FetchError>),
    Stale(Result<Option<P>, String>),
    /// The saved data, handed back.
    Saved(P),
}

/// The next thing a data lookup asks for, or its result.
pub enum DataAction<P> {
    ReadFresh(u64),
    Fetch(u64),
    ReadStale(u64),
    Save(u64, P),
    Finish(Result<P, String>),
}

/// Which data a lookup is for: the similar games (a list, cut to a limit; any failure of
/// the service falls back to stale cache) or the media of a game (only a service that
/// cannot be reached falls back to stale cache).
#[derive(PartialEq, Eq, Structural, Clone, Copy, Debug)]
pub enum DataKind {
    Similar,
    Media,
}

/// The state of a data lookup.
pub struct DataLookup {
    pub id: u64,
    pub kind: DataKind,
    pub stage: DataStage,
    /// The error to give when no stale data is found.
    pub error: String,
}

/// The event is the one the stage waits for.
pub open spec fn data_accepts<P>(stage: DataStage, e: DataEvent<P>) -> bool {
    match stage {
        DataStage::AwaitFresh => e is Fresh,
        DataStage::AwaitFetch => e is Fetched,
        DataStage::AwaitStale => e is Stale,
        DataStage::AwaitSaved => e is Saved,
        DataStage::Finished => false,
    }
}

/// The failure falls back to stale cache for this kind of data.
pub open spec fn falls_back(kind: DataKind, e: FetchError) -> bool {
    kind == DataKind::Similar || e is Unreachable
}

/// The message of a failure.
pub open spec fn fetch_message(e: FetchError) -> Seq<char> {
    match e {
        FetchError::Unreachable(m) => m@,
        FetchError::Unreadable(m) => m@,
    }
}

/// The stage after an accepted event.
pub open spec fn data_next_stage<P>(kind: DataKind, e: DataEvent<P>) -> DataStage {
    match e {
        DataEvent::Fresh(Ok(None)) => DataStage::AwaitFetch,
        DataEvent::Fetched(Ok(_)) => DataStage::AwaitSaved,
        DataEvent::Fetched(Err(f)) => if falls_back(kind, f) {
            DataStage::AwaitStale
        } else {
            DataStage::Finished
        },
        _ => DataStage::Finished,
    }
}

/// The data lookup ends with this data.
pub open spec fn finishes_with<P>(a: DataAction<P>, data: P) -> bool {
    a matches DataAction::Finish(Ok(v)) && v == data
}

/// The data lookup ends with this error.
pub open spec fn data_fails_with<P>(a: DataAction<P>, msg: Seq<char>) -> bool {
    a matches DataAction::Finish(Err(m)) && m@ == msg
}

/// Starts the lookup of a kind of data of an id: first the fresh cache.
pub fn start_data_lookup<P>(id: u64, kind: DataKind) -> (r: (DataLookup, DataAction<P>))
    ensures
        r.0.id == id,
        r.0.kind == kind,
        r.0.stage == DataStage::AwaitFresh,
        r.1 == DataAction::<P>::ReadFresh(id),
{
    (DataLookup { id, kind, stage: DataStage::AwaitFresh, error: String::new() }, DataAction::ReadFresh(id))
}

/// One step of a data lookup: fresh cached data is the result; without it the service is
/// asked, and what it gives is saved and is the result; when it fails in a way that falls
/// back, stale cached data is the result, and without it the service's error is; other
/// failures are the result at once. A cache read that fails ends the lookup with its error.
pub fn step_data_lookup<P>(lookup: &mut DataLookup, event: DataEvent<P>) -> (r: DataAction<P>)
    requires
        data_accepts(old(lookup).stage, event),
    ensures
        final(lookup).id == old(lookup).id,
        final(lookup).kind == old(lookup).kind,
        final(lookup).stage == data_next_stage(old(lookup).kind, event),
        match event {
            DataEvent::Fresh(Ok(Some(d))) => finishes_with(r, d),
            DataEvent::Fresh(Ok(None)) => r == DataAction::<P>::Fetch(old(lookup).id),
            DataEvent::Fetched(Ok(d)) => r == DataAction::<P>::Save(old(lookup).id, d),
            DataEvent::Fetched(Err(f)) => if falls_back(old(lookup).kind, f) {
                r == DataAction::<P>::ReadStale(old(lookup).id) && final(lookup).error@ == fetch_message(f)
            } else {
                data_fails_with(r, fetch_message(f))
            },
            DataEvent::Stale(Ok(Some(d))) => finishes_with(r, d),
            DataEvent::Stale(Ok(None)) => data_fails_with(r, old(lookup).error@),
            DataEvent::Saved(d) => finishes_with(r, d),
            DataEvent::Fresh(Err(e)) => data_fails_with(r, e@),
            DataEvent::Stale(Err(e)) => data_fails_with(r, e@),
        },
{
    match event {
        DataEvent::Fresh(Ok(Some(d))) | DataEvent::Stale(Ok(Some(d))) | DataEvent::Saved(d) => {
            lookup.stage = DataStage::Finished;
            DataAction::Finish(Ok(d))
        },
        DataEvent::Fresh(Ok(None)) => {
            lookup.stage = DataStage::AwaitFetch;
            DataAction::Fetch(lookup.id)
        },
        DataEvent::Fetched(Ok(d)) => {
            lookup.stage = DataStage::AwaitSaved;
            DataAction::Save(lookup.id, d)
        },
        DataEvent::Fetched(Err(f)) => {
            let fall_back = match &f {
                FetchError::Unreachable(_) => true,
                FetchError::Unreadable(_) => lookup.kind == DataKind::Similar,
            };
            let msg = match f {
                FetchError::Unreachable(m) => m,
                FetchError::Unreadable(m) => m,
            };
            if fall_back {
                lookup.error = msg;
                lookup.stage = DataStage::AwaitStale;
                DataAction::ReadStale(lookup.id)
            } else {
                lookup.stage = DataStage::Finished;
                DataAction::Finish(Err(msg))
            }
        },
        DataEvent::Stale(Ok(None)) => {
            lookup.stage = DataStage::Finished;
            DataAction::Finish(Err(lookup.error.clone()))
        },
        DataEvent::Fresh(Err(e)) | DataEvent::Stale(Err(e)) => {
            lookup.stage = DataStage::Finished;
            DataAction::Finish(Err(e))
        },
    }
}

/// Similar games returned when the caller gives no limit.
pub const DEFAULT_SIMILAR_LIMIT: u32 = 10;

/// The similar games returned for a request: the first `limit` of the list (ten when no
/// limit is given), in order.
pub fn similar_limit<T>(list: Vec<T>, limit: Option<u32>) -> (r: Vec<T>)
    ensures
        r@ == truncated(
            list@,
            match limit {
                Some(l) => l as nat,
                None => DEFAULT_SIMILAR_LIMIT as nat,
            },
        ),
{
    let l = match limit {
        Some(l) => l,
        None => DEFAULT_SIMILAR_LIMIT,
    };
    let mut list = list;
    if (l as usize) < list.len() {
        list.truncate(l as usize);
    }
    list
}

// ---------------------------------------------------------------------------
// Laws
// ---------------------------------------------------------------------------

/// How many steps an id lookup can still take at most.
pub open spec fn id_steps_left(stage: IdStage) -> nat {
    match stage {
        IdStage::AwaitFreshId => 3,
        IdStage::AwaitSuggestion => 2,
        IdStage::AwaitStaleId => 1,
        IdStage::AwaitIdSaved(_) => 1,
        IdStage::Finished => 0,
    }
}

/// How many steps a data lookup can still take at most.
pub open spec fn data_steps_left(stage: DataStage) -> nat {
    match stage {
        DataStage::AwaitFresh => 3,
        DataStage::AwaitFetch => 2,
        DataStage::AwaitStale => 1,
        DataStage::AwaitSaved => 1,
        DataStage::Finished => 0,
    }
}

/// The lookups always end: every step they accept brings them closer to their result,
/// so an id lookup finishes after at most three steps and a data lookup after at most
/// three; and the similar games returned are never more than the limit, the first of the
/// list, in order.
pub proof fn lemma_lookups_end<P, T>(
    id_stage: IdStage,
    id_event: IdEvent,
    kind: DataKind,
    data_stage: DataStage,
    data_event: DataEvent<P>,
    list: Seq<T>,
    limit: nat,
)
    ensures
        id_accepts(id_stage, id_event) ==> id_steps_left(id_next_stage(id_stage, id_event)) < id_steps_left(id_stage),
        data_accepts(data_stage, data_event) ==> data_steps_left(data_next_stage(kind, data_event)) < data_steps_left(data_stage),
        truncated(list, limit).len() <= limit,
        forall|i: int| 0 <= i < truncated(list, limit).len() ==> #[trigger] truncated(list, limit)[i] == list[i],
{
}

} // verus!
