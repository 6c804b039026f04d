//! The decision cores of the time-trial routes: what each request must
//! look like, which requests are rejected, and how stored rows are
//! rendered for callers. The surrounding program only moves bytes and
//! runs the oracle.

use vstd::prelude::*;
use vstd::string::StrSliceExecFns;
use vstd::string::StringExecFns;

use crate::records::{passes_filters, RecordStore, TimeTrialEntry};
use crate::blobs::BlobStore;
use crate::text::{dec_chars_of, u64_to_dec_string};
use crate::tt::TtInfoOutcome;
use crate::user::{contains_user_id, UserStore};
use crate::uuid::{is_uuid_str, parse_uuid, uuid_chars_of, uuid_to_string, uuid_value_of};

verus! {

/// The metadata field of a replay upload.
#[derive(Debug)]
pub struct UploadTTMetadata {
    pub car_id: String,
    pub stage_id: String,
}

/// Check and parse the identifiers of an upload's metadata.
pub fn validate_upload_tt_metadata(metadata: &UploadTTMetadata) -> (r: Result<(u128, u128), String>)
    ensures
        r is Ok <==> (is_uuid_str(metadata.car_id@) && is_uuid_str(metadata.stage_id@)),
        r is Ok ==> (r->Ok_0.0 as int == uuid_value_of(metadata.car_id@) && r->Ok_0.1 as int
            == uuid_value_of(metadata.stage_id@)),
        !is_uuid_str(metadata.car_id@) ==> (r->Err_0)@ == "Invalid car_id UUID"@,
        is_uuid_str(metadata.car_id@) && !is_uuid_str(metadata.stage_id@) ==> (r->Err_0)@
            == "Invalid stage_id UUID"@,
{
    let car_uuid = match parse_uuid(metadata.car_id.as_str()) {
        Some(v) => v,
        None => {
            return Err("Invalid car_id UUID".to_owned());
        },
    };
    let stage_uuid = match parse_uuid(metadata.stage_id.as_str()) {
        Some(v) => v,
        None => {
            return Err("Invalid stage_id UUID".to_owned());
        },
    };
    Ok((car_uuid, stage_uuid))
}

/// A record search, by username and/or car and/or stage.
#[derive(Debug)]
pub struct SearchTTRequest {
    pub username: Option<String>,
    /// Hyphenated uuid, parsed before use.
    pub car_id: Option<String>,
    /// Hyphenated uuid, parsed before use.
    pub stage_id: Option<String>,
}

/// A search must narrow by something: at least one filter is required.
pub fn validate_search_tt_request(req: &SearchTTRequest) -> (r: Result<(), String>)
    ensures
        r is Ok <==> !(req.username is None && req.car_id is None && req.stage_id is None),
        r is Err ==> (r->Err_0)@ == "At least one search parameter must be provided"@,
{
    if req.username.is_none() && req.car_id.is_none() && req.stage_id.is_none() {
        return Err("At least one search parameter must be provided".to_owned());
    }
    Ok(())
}

/// One row of a search result, rendered for the wire.
#[derive(Debug)]
pub struct SearchTTResponse {
    /// Decimal record id.
    pub id: String,
    pub ticks: i32,
    pub username: String,
    /// Hyphenated lowercase uuid.
    pub car_id: String,
    /// Hyphenated lowercase uuid.
    pub stage_id: String,
    /// Decimal seconds since the epoch, or empty when never stamped.
    pub created_at: String,
}

/// How a stored row is rendered: ids in their textual forms, the
/// submitting user's name alongside.
pub open spec fn response_matches(r: SearchTTResponse, e: TimeTrialEntry, username: Seq<char>) -> bool {
    &&& r.id@ == dec_chars_of(e.id as nat)
    &&& r.ticks == e.total_ticks
    &&& r.username@ == username
    &&& r.car_id@ == uuid_chars_of(e.car_id)
    &&& r.stage_id@ == uuid_chars_of(e.stage_id)
    &&& r.created_at@ == match e.created_at {
        Some(t) => dec_chars_of(t as nat),
        None => Seq::<char>::empty(),
    }
}

impl SearchTTResponse {
    /// Render one stored row under the given display name.
    pub fn from_time_trial_entry(entry: &TimeTrialEntry, username: String) -> (r: SearchTTResponse)
        ensures
            response_matches(r, *entry, username@),
    {
        let created_at = match entry.created_at {
            Some(t) => u64_to_dec_string(t),
            None => String::new(),
        };
        SearchTTResponse {
            id: u64_to_dec_string(entry.id),
            ticks: entry.total_ticks,
            username,
            car_id: uuid_to_string(entry.car_id),
            stage_id: uuid_to_string(entry.stage_id),
            created_at,
        }
    }
}

/// The display name search results carry for a row, given who is known
/// to the identity store: the account's username, or "Unknown" for a
/// row whose submitter is gone.
pub open spec fn display_name_for(users: Seq<crate::user::User>, user_id: i32) -> Seq<char> {
    if contains_user_id(users, user_id) {
        crate::user::spec_username_of(users, user_id)
    } else {
        "Unknown"@
    }
}

/// Why a search was refused.
#[derive(Debug, PartialEq, Eq, Structural, Clone, Copy)]
pub enum SearchError {
    /// No filter was supplied.
    MissingParameters,
    /// The car filter is not a well-formed uuid.
    InvalidCarId,
    /// The stage filter is not a well-formed uuid.
    InvalidStageId,
    /// The username filter names no account.
    UserNotFound,
}

/// Search the ledger. Every supplied filter narrows; the rows come back
/// in storage order, each rendered with its submitter's display name.
pub fn search_tt(users: &UserStore, records: &RecordStore, req: &SearchTTRequest) -> (r: Result<
    Vec<SearchTTResponse>,
    SearchError,
>)
    requires
        users.wf(),
    ensures
        ({
            let all_none = req.username is None && req.car_id is None && req.stage_id is None;
            let car_bad = match req.car_id {
                Some(c) => !is_uuid_str(c@),
                None => false,
            };
            let stage_bad = match req.stage_id {
                Some(s) => !is_uuid_str(s@),
                None => false,
            };
            let user_missing = match req.username {
                Some(u) => !crate::user::contains_username(users@, u@),
                None => false,
            };
            &&& (r is Err && r->Err_0 == SearchError::MissingParameters) <==> all_none
            &&& (r is Err && r->Err_0 == SearchError::InvalidCarId) <==> (!all_none && car_bad)
            &&& (r is Err && r->Err_0 == SearchError::InvalidStageId) <==> (!all_none && !car_bad
                && stage_bad)
            &&& (r is Err && r->Err_0 == SearchError::UserNotFound) <==> (!all_none && !car_bad
                && !stage_bad && user_missing)
            &&& r is Ok <==> (!all_none && !car_bad && !stage_bad && !user_missing)
        }),
        r is Ok ==> {
            let uid = match req.username {
                Some(u) => Some(crate::user::user_for(users@, u@).id),
                None => None,
            };
            let cid = match req.car_id {
                Some(c) => Some((uuid_value_of(c@) as u128)),
                None => None,
            };
            let sid = match req.stage_id {
                Some(s) => Some((uuid_value_of(s@) as u128)),
                None => None,
            };
            let hits = records@.filter(|e: TimeTrialEntry| passes_filters(e, uid, cid, sid));
            &&& r->Ok_0@.len() == hits.len()
            &&& forall|i: int|
                0 <= i < hits.len() ==> response_matches(
                    #[trigger] r->Ok_0@[i],
                    hits[i],
                    display_name_for(users@, hits[i].user_id),
                )
        },
{
    if validate_search_tt_request(req).is_err() {
        return Err(SearchError::MissingParameters);
    }
    let car_uuid: Option<u128> = match &req.car_id {
        Some(c) => match parse_uuid(c.as_str()) {
            Some(v) => Some(v),
            None => {
                return Err(SearchError::InvalidCarId);
            },
        },
        None => None,
    };
    let stage_uuid: Option<u128> = match &req.stage_id {
        Some(s) => match parse_uuid(s.as_str()) {
            Some(v) => Some(v),
            None => {
                return Err(SearchError::InvalidStageId);
            },
        },
        None => None,
    };
    let user_id: Option<i32> = match &req.username {
        Some(u) => match users.get_id_from_username(u.as_str()) {
            Some(id) => Some(id),
            None => {
                return Err(SearchError::UserNotFound);
            },
        },
        None => None,
    };
    let raw = records.filter(user_id, car_uuid, stage_uuid);
    let ghost hits = records@.filter(
        |e: TimeTrialEntry| passes_filters(e, user_id, car_uuid, stage_uuid),
    );
    let mut out: Vec<SearchTTResponse> = Vec::new();
    let n = raw.len();
    let mut k: usize = 0;
    while k < n
        invariant
            users.wf(),
            n == raw@.len(),
            raw@ == hits,
            0 <= k <= n,
            out@.len() == k,
            forall|i: int|
                0 <= i < k ==> response_matches(
                    #[trigger] out@[i],
                    hits[i],
                    display_name_for(users@, hits[i].user_id),
                ),
        decreases n - k,
    {
        let entry = &raw[k];
        let username: String = match users.get_by_user_id(entry.user_id) {
            Some(u) => u.username.clone(),
            None => "Unknown".to_owned(),
        };
        proof {
            if contains_user_id(users@, entry.user_id) {
                let w = choose|i: int|
                    0 <= i < users@.len() && (#[trigger] users@[i]).id == entry.user_id;
            }
        }
        out.push(SearchTTResponse::from_time_trial_entry(entry, username));
        k = k + 1;
    }
    Ok(out)
}

/// Where the replay bytes of a record live on disk:
/// `root/tt/<record id>.timetrial`.
pub fn get_tt_file_path(root: &str, tt_id: u64) -> (r: String)
    ensures
        r@ == root@ + "/tt/"@ + dec_chars_of(tt_id as nat) + ".timetrial"@,
{
    let mut out = root.to_owned();
    out.append("/tt/");
    let id = u64_to_dec_string(tt_id);
    out.append(id.as_str());
    out.append(".timetrial");
    out
}

/// What the multipart fields of a new archive item decode to, before
/// the gates run.
#[derive(Debug)]
pub struct NewArchiveItemFields {
    pub item_type: Option<crate::archive::ArchiveItemType>,
    /// The item's textual metadata body.
    pub data: Option<String>,
    /// The client-chosen identifier, already parsed.
    pub id: Option<u128>,
    pub st_name: Option<String>,
    pub st_data: Option<Vec<u8>>,
}

/// Why a new archive item was refused before its body was even parsed.
#[derive(Debug, PartialEq, Eq, Structural, Clone, Copy)]
pub enum CreateItemRejection {
    /// A soundtrack may only accompany a stage.
    SoundtrackForNonStage,
    MissingType,
    MissingData,
    MissingId,
    /// Present but empty data.
    EmptyData,
}

/// The gates a new archive item must pass before its metadata body is
/// parsed, in order: no soundtrack outside stages, then type, data and
/// id must be present, and the data must be non-empty.
pub fn validate_new_archive_item(fields: &NewArchiveItemFields) -> (r: Result<
    (),
    CreateItemRejection,
>)
    ensures
        ({
            let misuse = (fields.st_name is Some || fields.st_data is Some) && fields.item_type
                is Some && !(fields.item_type->0 is Stage);
            &&& (r is Err && r->Err_0 == CreateItemRejection::SoundtrackForNonStage) <==> misuse
            &&& (r is Err && r->Err_0 == CreateItemRejection::MissingType) <==> (!misuse
                && fields.item_type is None)
            &&& (r is Err && r->Err_0 == CreateItemRejection::MissingData) <==> (!misuse
                && fields.item_type is Some && fields.data is None)
            &&& (r is Err && r->Err_0 == CreateItemRejection::MissingId) <==> (!misuse
                && fields.item_type is Some && fields.data is Some && fields.id is None)
            &&& (r is Err && r->Err_0 == CreateItemRejection::EmptyData) <==> (!misuse
                && fields.item_type is Some && fields.data is Some && fields.id is Some && (
            fields.data->0)@.len() == 0)
            &&& r is Ok <==> (!misuse && fields.item_type is Some && fields.data is Some
                && fields.id is Some && (fields.data->0)@.len() > 0)
        }),
{
    if (fields.st_name.is_some() || fields.st_data.is_some()) && fields.item_type.is_some() {
        let is_stage = match fields.item_type {
            Some(t) => matches!(t, crate::archive::ArchiveItemType::Stage),
            None => false,
        };
        if !is_stage {
            return Err(CreateItemRejection::SoundtrackForNonStage);
        }
    }
    if fields.item_type.is_none() {
        return Err(CreateItemRejection::MissingType);
    }
    let data = match &fields.data {
        Some(d) => d,
        None => {
            return Err(CreateItemRejection::MissingData);
        },
    };
    if fields.id.is_none() {
        return Err(CreateItemRejection::MissingId);
    }
    if data.as_str().unicode_len() == 0 {
        return Err(CreateItemRejection::EmptyData);
    }
    Ok(())
}

/// A fetch of one stored replay by record id.
#[derive(Debug)]
pub struct FetchTTRequest {
    /// Decimal record id.
    pub tt_id: String,
}

/// The display metadata of a fetched replay, as the oracle's cheap
/// query form reports it.
#[derive(Debug, PartialEq, Eq, Structural, Clone, Copy)]
pub struct FetchTTMetadata {
    pub checkpoint_count: i32,
    pub tick_count: i32,
    pub replay_version: i32,
    pub backend_version: i32,
}

/// Why a fetch was refused.
#[derive(Debug, PartialEq, Eq, Structural, Clone, Copy)]
pub enum FetchError {
    /// The id is not a decimal record id.
    InvalidId,
    /// No blob is stored under the id.
    NotFound,
    /// The oracle could not read the stored replay.
    InfoFailed,
}

/// Look a stored replay up by the id its fetch request names.
pub fn fetch_tt_bytes<'a>(blobs: &'a BlobStore, req: &FetchTTRequest) -> (r: Result<
    &'a Vec<u8>,
    FetchError,
>)
    requires
        blobs.wf(),
    ensures
        match r {
            Ok(bytes) => {
                let id = crate::text::parsed_u64(req.tt_id@);
                id is Some && blobs@.dom().contains(id->0) && bytes@ == blobs@[id->0]
            },
            Err(e) => match e {
                FetchError::InvalidId => crate::text::parsed_u64(req.tt_id@) is None,
                FetchError::NotFound => {
                    let id = crate::text::parsed_u64(req.tt_id@);
                    id is Some && !blobs@.dom().contains(id->0)
                },
                FetchError::InfoFailed => false,
            },
        },
{
    let id = match crate::text::parse_u64_dec(req.tt_id.as_str()) {
        Some(v) => v,
        None => {
            return Err(FetchError::InvalidId);
        },
    };
    match blobs.read(id) {
        Some(bytes) => Ok(bytes),
        None => Err(FetchError::NotFound),
    }
}

/// Turn the oracle's metadata answer for a fetched replay into the
/// response body, rejecting an answer the oracle could not give.
pub fn fetch_tt_metadata(info: &TtInfoOutcome) -> (r: Result<FetchTTMetadata, FetchError>)
    ensures
        r is Ok <==> !info.has_error,
        r is Ok ==> r->Ok_0 == (FetchTTMetadata {
            checkpoint_count: info.checkpoint_count,
            tick_count: info.tick_count,
            replay_version: info.replay_version,
            backend_version: info.backend_version,
        }),
        r is Err ==> r->Err_0 == FetchError::InfoFailed,
{
    if info.has_error {
        return Err(FetchError::InfoFailed);
    }
    Ok(
        FetchTTMetadata {
            checkpoint_count: info.checkpoint_count,
            tick_count: info.tick_count,
            replay_version: info.replay_version,
            backend_version: info.backend_version,
        },
    )
}

} // verus!
