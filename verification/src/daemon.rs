//! What the daemon does with a request: who may ask for it, what it takes to answer
//! it, and what the answer is.
//!
//! Reading and writing files, looking up users, the socket and the threads that own
//! the camera and the models are outside; what came of each is handed in here.

use vstd::prelude::*;
use vstd::string::*;

use crate::camera::{CameraInfo, CameraInfoView};
use crate::encoding::{to_encoding, Encoding};
use crate::error::ErrorView;
use crate::ipc::{
    add_capped, capped_sum, daemon_load_outcome, from_line, opted_out_text, says_opted_out,
    to_line, CameraDescriptor,
    DescriptorView, Exchange, Request, Response, ResponseView, ServiceEntry, ServiceView,
};
use crate::model::{
    concatenated, decode_model, law_encodings_are_batches, load_model, load_model_from_json,
    load_or_create_model, load_outcome, model_path, model_path_text, patterns, save_model,
    CameraId, CameraIdView, FaceModel, FaceModelDisk, FileRead, ModelView, SavePlan, StoredModel,
};
use crate::services::{
    defaults_path, defaults_path_text, distinct, find, find_entry, is_storable, is_valid_name,
    law_set_keeps_distinct, law_set_then_find,
    law_user_overrides_defaults, list_text, merge_services, merged, opt_path,
    opt_path_text, opted_in, opted_out, opts_text,
    parse_list, parse_opts, set_entry, storable, valid_name, with_entry,
};
use crate::text::{
    concat2, concat3, contains, decimal, decimal_text, law_contains_part, starts_with, trim,
};

verus! {

fn failure(message: String) -> (r: Response)
    ensures
        r@ == ResponseView::Failure(message@),
{
    Response::Failure { message }
}

// ---------------------------------------------------------------------------
// Connections
// ---------------------------------------------------------------------------

/// The caller's user number and the JSON text of its request, or what to answer
/// instead. `peer` is who the kernel says is calling; `line` is what was read, if
/// reading did not fail.
pub fn request_line(peer: Option<u32>, line: Option<String>) -> (r: Result<
    (u32, String),
    Response,
>)
    ensures
        match (peer, line) {
            (None, _) => r matches Err(e) && e@ == ResponseView::Failure(
                "failed to determine caller identity"@,
            ),
            (Some(uid), Some(text)) if text@.len() > 0 => r matches Ok(got) && got.0 == uid
                && got.1@ == trim(text@),
            _ => r matches Err(e) && e@ == ResponseView::Failure("failed to read request"@),
        },
{
    match peer {
        None => Err(failure(String::from_str("failed to determine caller identity"))),
        Some(uid) => match line {
            Some(text) => {
                if text.as_str().is_empty() {
                    Err(failure(String::from_str("failed to read request")))
                } else {
                    Ok((uid, from_line(text.as_str())))
                }
            },
            None => Err(failure(String::from_str("failed to read request"))),
        },
    }
}

/// The request in a JSON text, or what to answer instead, given what parsing came
/// to.
pub fn parsed_request(parsed: Result<Request, String>) -> (r: Result<Request, Response>)
    ensures
        match parsed {
            Ok(request) => r == Ok::<Request, Response>(request),
            Err(m) => r matches Err(e) && e@ == ResponseView::Failure("malformed request: "@ + m@),
        },
{
    match parsed {
        Ok(request) => Ok(request),
        Err(m) => Err(failure(concat2("malformed request: ", m.as_str()))),
    }
}

/// What is sent where a response cannot be turned into JSON.
pub const SERIALIZATION_ERROR: &'static str =
    "{\"status\":\"Err\",\"message\":\"serialization error\"}";

/// The line to send back, given the JSON text of the response if there is one.
pub fn reply_line(json: Option<String>) -> (r: String)
    ensures
        r@ == (match json {
            Some(text) => text@,
            None => SERIALIZATION_ERROR@,
        }) + "\n"@,
{
    match json {
        Some(text) => to_line(text.as_str()),
        None => to_line(SERIALIZATION_ERROR),
    }
}

// ---------------------------------------------------------------------------
// Authorization
// ---------------------------------------------------------------------------

/// The message for a user whom the system does not know.
pub open spec fn unknown_user_text(username: Seq<char>) -> Seq<char> {
    "unknown user '"@ + username + "'"@
}

fn unknown_user(username: &str) -> (r: String)
    ensures
        r@ == unknown_user_text(username@),
{
    concat3("unknown user '", username, "'")
}

/// Why `peer_uid` may not act for `username`, if it may not. `owner` is the user
/// number of `username`, if the system knows the user.
pub open spec fn denial(username: Seq<char>, peer_uid: u32, owner: Option<u32>) -> Option<
    Seq<char>,
> {
    if peer_uid == 0 || owner == Some(peer_uid) {
        None
    } else if owner is None {
        Some(unknown_user_text(username))
    } else {
        Some("permission denied: you are not '"@ + username + "'"@)
    }
}

/// What to answer if `peer_uid` may not act for `username`: only the user and root
/// may.
pub fn authorize(username: &str, peer_uid: u32, owner: Option<u32>) -> (r: Option<Response>)
    ensures
        match denial(username@, peer_uid, owner) {
            None => r is None,
            Some(m) => r matches Some(e) && e@ == ResponseView::Failure(m),
        },
{
    if peer_uid == 0 {
        return None;
    }
    match owner {
        Some(uid) => {
            if uid == peer_uid {
                None
            } else {
                Some(failure(concat3("permission denied: you are not '", username, "'")))
            }
        },
        None => Some(failure(unknown_user(username))),
    }
}

// ---------------------------------------------------------------------------
// Dispatch
// ---------------------------------------------------------------------------

/// A request to the thread that owns the models.
pub enum ModelMsg {
    /// Read a user's model file.
    Load { username: String },
    /// Append an enrollment batch to a user's model.
    Enroll { username: String, camera_index: u32, batch: Vec<Encoding> },
    /// Remove a user's model, or one batch of it.
    Clear { username: String, index: Option<usize> },
}

/// A request to watch the camera for an enrolled face.
pub struct AuthRequest {
    pub face_model: FaceModel,
    pub timeout_secs: u64,
}

/// A request to wait for a single face.
pub struct CaptureRequest {
    pub camera_index: u32,
    pub timeout_secs: u64,
}

/// What it takes to answer a request.
pub enum Dispatch {
    /// Nothing more.
    Reply(Response),
    /// Change a model.
    Store(ModelMsg),
    /// Read a model.
    Fetch(ModelMsg),
    /// Read a model, then watch the camera for so many seconds.
    FetchForAuth { load: ModelMsg, timeout_secs: u64 },
    /// Wait for a single face.
    Capture { request: CaptureRequest, wait_secs: u64 },
    /// Look which cameras there are.
    ListCameras,
    /// Read the service lists for a user.
    GetServices { username: String },
    /// Change a user's service list.
    SetOpt { username: String, service: String, allowed: bool },
    /// Look a service up for a user.
    CheckService { username: String, service: String },
    /// Add a service to everybody's list.
    RecordCaller { service: String },
}

/// The user whom a request names.
pub open spec fn user_named(request: Request) -> Option<Seq<char>> {
    match request {
        Request::CheckService { username, .. } => Some(username@),
        _ => acts_for(request),
    }
}

/// The user whom a request names, if it names one.
pub fn named_user(request: &Request) -> (r: Option<String>)
    ensures
        r.deep_view() == user_named(*request),
{
    match request {
        Request::Enroll { username, .. } => Some(username.clone()),
        Request::Clear { username, .. } => Some(username.clone()),
        Request::LoadModel { username } => Some(username.clone()),
        Request::Authenticate { username, .. } => Some(username.clone()),
        Request::GetServices { username } => Some(username.clone()),
        Request::SetOpt { username, .. } => Some(username.clone()),
        Request::CheckService { username, .. } => Some(username.clone()),
        Request::CaptureEncoding { .. } | Request::ListCameras | Request::RecordCaller {
            ..
        } => None,
    }
}

/// Every encoding has 128 numbers.
pub open spec fn well_sized(encodings: Seq<Vec<u32>>) -> bool {
    forall|i: int| 0 <= i < encodings.len() ==> (#[trigger] encodings[i])@.len() == 128
}

/// The dispatch answers at once, with this failure.
pub open spec fn refuses(r: Dispatch, m: Seq<char>) -> bool {
    r matches Dispatch::Reply(e) && e@ == ResponseView::Failure(m)
}

/// `r` is what it takes to answer `request` of `peer_uid`. `owner` is the user
/// number of the user whom the request names, if the system knows the user.
pub open spec fn dispatched(
    request: Request,
    peer_uid: u32,
    owner: Option<u32>,
    r: Dispatch,
) -> bool {
    match request {
        Request::Enroll { username, camera_index, encodings } => match denial(
            username@,
            peer_uid,
            owner,
        ) {
            Some(m) => refuses(r, m),
            None => if well_sized(encodings@) {
                r matches Dispatch::Store(
                    ModelMsg::Enroll { username: u, camera_index: c, batch },
                ) && u == username && c == camera_index && patterns(batch@)
                    == encodings@.map_values(|e: Vec<u32>| e@)
            } else {
                refuses(r, "each encoding must be exactly 128 floats"@)
            },
        },
        Request::LoadModel { username } => match denial(username@, peer_uid, owner) {
            Some(m) => refuses(r, m),
            None => r == Dispatch::Fetch(ModelMsg::Load { username }),
        },
        Request::Clear { username, index } => match denial(username@, peer_uid, owner) {
            Some(m) => refuses(r, m),
            None => r == Dispatch::Store(ModelMsg::Clear { username, index }),
        },
        Request::Authenticate { username, timeout_secs } => match denial(
            username@,
            peer_uid,
            owner,
        ) {
            Some(m) => refuses(r, m),
            None => r == (Dispatch::FetchForAuth {
                load: ModelMsg::Load { username },
                timeout_secs,
            }),
        },
        Request::CaptureEncoding { camera_index, timeout_secs } => r == (Dispatch::Capture {
            request: CaptureRequest { camera_index, timeout_secs },
            wait_secs: capped_sum(timeout_secs, 60),
        }),
        Request::ListCameras => r is ListCameras,
        Request::GetServices { username } => match denial(username@, peer_uid, owner) {
            Some(m) => refuses(r, m),
            None => r == (Dispatch::GetServices { username }),
        },
        Request::SetOpt { username, service, allowed } => match denial(
            username@,
            peer_uid,
            owner,
        ) {
            Some(m) => refuses(r, m),
            None => r == (Dispatch::SetOpt { username, service, allowed }),
        },
        Request::CheckService { username, service } => r == (Dispatch::CheckService {
            username,
            service,
        }),
        Request::RecordCaller { service } => r == (Dispatch::RecordCaller { service }),
    }
}

/// The batch of encodings in a request, if each has 128 numbers.
fn to_batch(encodings: &Vec<Vec<u32>>) -> (r: Option<Vec<Encoding>>)
    ensures
        match r {
            Some(batch) => well_sized(encodings@) && patterns(batch@) == encodings@.map_values(
                |e: Vec<u32>| e@,
            ),
            None => !well_sized(encodings@),
        },
{
    let mut batch: Vec<Encoding> = Vec::new();
    let mut i: usize = 0;
    while i < encodings.len()
        invariant
            i <= encodings.len(),
            batch@.len() == i,
            forall|j: int|
                0 <= j < i ==> (#[trigger] encodings@[j])@.len() == 128 && batch@[j]@
                    == encodings@[j]@,
        decreases encodings.len() - i,
    {
        match to_encoding(&encodings[i]) {
            Some(enc) => {
                batch.push(enc);
            },
            None => {
                proof {
                    assert(encodings@[i as int]@.len() != 128);
                }
                return None;
            },
        }
        i = i + 1;
    }
    proof {
        assert(patterns(batch@) =~= encodings@.map_values(|e: Vec<u32>| e@));
    }
    Some(batch)
}

/// What it takes to answer `request` of `peer_uid`. `owner` is the user number of
/// the user whom the request names, if it names one whom the system knows.
pub fn handle_request(request: Request, peer_uid: u32, owner: Option<u32>) -> (r: Dispatch)
    ensures
        dispatched(request, peer_uid, owner, r),
{
    match request {
        Request::Enroll { username, camera_index, encodings } => {
            if let Some(denied) = authorize(username.as_str(), peer_uid, owner) {
                return Dispatch::Reply(denied);
            }
            match to_batch(&encodings) {
                Some(batch) => Dispatch::Store(ModelMsg::Enroll { username, camera_index, batch }),
                None => Dispatch::Reply(
                    failure(String::from_str("each encoding must be exactly 128 floats")),
                ),
            }
        },
        Request::LoadModel { username } => {
            if let Some(denied) = authorize(username.as_str(), peer_uid, owner) {
                return Dispatch::Reply(denied);
            }
            Dispatch::Fetch(ModelMsg::Load { username })
        },
        Request::Clear { username, index } => {
            if let Some(denied) = authorize(username.as_str(), peer_uid, owner) {
                return Dispatch::Reply(denied);
            }
            Dispatch::Store(ModelMsg::Clear { username, index })
        },
        Request::Authenticate { username, timeout_secs } => {
            if let Some(denied) = authorize(username.as_str(), peer_uid, owner) {
                return Dispatch::Reply(denied);
            }
            Dispatch::FetchForAuth { load: ModelMsg::Load { username }, timeout_secs }
        },
        Request::CaptureEncoding { camera_index, timeout_secs } => Dispatch::Capture {
            request: CaptureRequest { camera_index, timeout_secs },
            wait_secs: add_capped(timeout_secs, 60),
        },
        Request::ListCameras => Dispatch::ListCameras,
        Request::GetServices { username } => {
            if let Some(denied) = authorize(username.as_str(), peer_uid, owner) {
                return Dispatch::Reply(denied);
            }
            Dispatch::GetServices { username }
        },
        Request::SetOpt { username, service, allowed } => {
            if let Some(denied) = authorize(username.as_str(), peer_uid, owner) {
                return Dispatch::Reply(denied);
            }
            Dispatch::SetOpt { username, service, allowed }
        },
        Request::CheckService { username, service } => Dispatch::CheckService {
            username,
            service,
        },
        Request::RecordCaller { service } => Dispatch::RecordCaller { service },
    }
}

/// The user for whom a request acts, if it is one that only the user and root may
/// make.
pub open spec fn acts_for(request: Request) -> Option<Seq<char>> {
    match request {
        Request::Enroll { username, .. } => Some(username@),
        Request::Clear { username, .. } => Some(username@),
        Request::LoadModel { username } => Some(username@),
        Request::Authenticate { username, .. } => Some(username@),
        Request::GetServices { username } => Some(username@),
        Request::SetOpt { username, .. } => Some(username@),
        _ => None,
    }
}

/// Nobody but the user and root gets past the daemon's door with a request that acts
/// for the user: it is answered with a failure at once, and reaches neither models
/// nor camera.
pub proof fn law_strangers_are_refused(
    request: Request,
    peer_uid: u32,
    owner: Option<u32>,
    r: Dispatch,
)
    requires
        dispatched(request, peer_uid, owner, r),
        acts_for(request) is Some,
        peer_uid != 0,
        owner != Some(peer_uid),
    ensures
        r matches Dispatch::Reply(answer) && answer@ is Failure,
{
}

/// The user and root are never refused for want of permission.
pub proof fn law_owner_and_root_are_heard(
    request: Request,
    peer_uid: u32,
    owner: Option<u32>,
    r: Dispatch,
)
    requires
        dispatched(request, peer_uid, owner, r),
        peer_uid == 0 || owner == Some(peer_uid),
    ensures
        r is Reply ==> (request matches Request::Enroll { encodings, .. } && !well_sized(
            encodings@,
        )),
{
}

// ---------------------------------------------------------------------------
// Answers
// ---------------------------------------------------------------------------

/// What came of asking the thread that owns the models.
pub enum ModelReply<T> {
    /// The thread is gone.
    Unavailable,
    /// It failed, for this reason.
    Failed(String),
    Done(T),
}

/// What the thread that owns the models answered, or what to tell the client
/// instead.
pub fn model_call<T>(reply: ModelReply<T>) -> (r: Result<T, Response>)
    ensures
        match reply {
            ModelReply::Unavailable => r matches Err(e) && e@ == ResponseView::Failure(
                "model actor unavailable"@,
            ),
            ModelReply::Failed(m) => r matches Err(e) && e@ == ResponseView::Failure(m@),
            ModelReply::Done(v) => r == Ok::<T, Response>(v),
        },
{
    match reply {
        ModelReply::Unavailable => Err(failure(String::from_str("model actor unavailable"))),
        ModelReply::Failed(m) => Err(failure(m)),
        ModelReply::Done(v) => Ok(v),
    }
}

/// The answer to a request that changes a model.
pub fn store_response(reply: ModelReply<()>) -> (r: Response)
    ensures
        r@ == match reply {
            ModelReply::Unavailable => ResponseView::Failure("model actor unavailable"@),
            ModelReply::Failed(m) => ResponseView::Failure(m@),
            ModelReply::Done(_) => ResponseView::Success,
        },
{
    match model_call(reply) {
        Ok(_) => Response::Success,
        Err(e) => e,
    }
}

/// The answer to a request for a model.
pub fn fetch_response(reply: ModelReply<String>) -> (r: Response)
    ensures
        r@ == match reply {
            ModelReply::Unavailable => ResponseView::Failure("model actor unavailable"@),
            ModelReply::Failed(m) => ResponseView::Failure(m@),
            ModelReply::Done(json) => ResponseView::Model(json@),
        },
{
    match model_call(reply) {
        Ok(json) => Response::Model { json },
        Err(e) => e,
    }
}

/// What to ask of the camera, and how many seconds to wait for it, once the model to
/// compare with was read and parsed; or what to answer instead.
pub fn auth_request(
    reply: ModelReply<Result<FaceModelDisk, String>>,
    timeout_secs: u64,
) -> (r: Result<(AuthRequest, u64), Response>)
    ensures
        match reply {
            ModelReply::Unavailable => r matches Err(e) && e@ == ResponseView::Failure(
                "model actor unavailable"@,
            ),
            ModelReply::Failed(m) => r matches Err(e) && e@ == ResponseView::Failure(m@),
            ModelReply::Done(Err(m)) => r matches Err(e) && e@ == ResponseView::Failure(
                ErrorView::Json(m@).text(),
            ),
            ModelReply::Done(Ok(disk)) => match decode_model(disk@) {
                Err(want) => r matches Err(e) && e@ == ResponseView::Failure(want.text()),
                Ok(m) => r matches Ok(got) && got.0.face_model.wf() && got.0.face_model@ == m
                    && got.0.timeout_secs == timeout_secs && got.1 == capped_sum(timeout_secs, 60),
            },
        },
{
    match model_call(reply) {
        Err(e) => Err(e),
        Ok(parsed) => match load_model_from_json(parsed) {
            Err(e) => Err(failure(e.message())),
            Ok(face_model) => Ok(
                (AuthRequest { face_model, timeout_secs }, add_capped(timeout_secs, 60)),
            ),
        },
    }
}

/// What came of asking the thread that owns the camera.
pub enum CameraReply<T> {
    /// The thread is gone.
    Unavailable,
    /// It did not answer in time.
    TimedOut,
    /// It failed, for this reason.
    Failed(String),
    Done(T),
}

/// The answer to a request to authenticate.
pub fn auth_response(reply: CameraReply<()>) -> (r: Response)
    ensures
        r@ == match reply {
            CameraReply::Unavailable => ResponseView::Failure("camera actor unavailable"@),
            CameraReply::TimedOut => ResponseView::Failure(
                "authentication timed out waiting for camera"@,
            ),
            CameraReply::Failed(m) => ResponseView::Failure(m@),
            CameraReply::Done(_) => ResponseView::Success,
        },
{
    match reply {
        CameraReply::Unavailable => failure(String::from_str("camera actor unavailable")),
        CameraReply::TimedOut => failure(
            String::from_str("authentication timed out waiting for camera"),
        ),
        CameraReply::Failed(m) => failure(m),
        CameraReply::Done(_) => Response::Success,
    }
}

/// The answer to a request for an encoding.
pub fn capture_response(reply: CameraReply<Vec<u32>>) -> (r: Response)
    ensures
        r@ == match reply {
            CameraReply::Unavailable => ResponseView::Failure("camera actor unavailable"@),
            CameraReply::TimedOut => ResponseView::Failure("capture timed out waiting for camera"@),
            CameraReply::Failed(m) => ResponseView::Failure(m@),
            CameraReply::Done(data) => ResponseView::Encoding(data@),
        },
{
    match reply {
        CameraReply::Unavailable => failure(String::from_str("camera actor unavailable")),
        CameraReply::TimedOut => failure(String::from_str("capture timed out waiting for camera")),
        CameraReply::Failed(m) => failure(m),
        CameraReply::Done(data) => Response::Encoding { data },
    }
}

/// A camera as the daemon describes it.
pub open spec fn descriptor(camera: CameraInfoView) -> DescriptorView {
    DescriptorView {
        index: camera.index,
        name: camera.name,
        suitability: camera.suitability(),
    }
}

/// The answer to a request for the cameras, in the order in which they are listed.
pub fn cameras_response(cameras: &Vec<CameraInfo>) -> (r: Response)
    ensures
        r@ == ResponseView::Cameras(
            cameras.deep_view().map_values(|c: CameraInfoView| descriptor(c)),
        ),
{
    let mut out: Vec<CameraDescriptor> = Vec::new();
    let mut i: usize = 0;
    while i < cameras.len()
        invariant
            i <= cameras.len(),
            out@.len() == i,
            forall|j: int| 0 <= j < i ==> (#[trigger] out@[j])@ == descriptor(cameras@[j]@),
        decreases cameras.len() - i,
    {
        let camera: &CameraInfo = &cameras[i];
        out.push(
            CameraDescriptor {
                index: camera.index,
                name: camera.name.clone(),
                suitability: camera.suitability(),
            },
        );
        i = i + 1;
    }
    proof {
        assert(out.deep_view() =~= cameras.deep_view().map_values(
            |c: CameraInfoView| descriptor(c),
        ));
    }
    Response::Cameras { cameras: out }
}

// ---------------------------------------------------------------------------
// Models
// ---------------------------------------------------------------------------

/// What came of reading a text file.
pub enum TextFile {
    /// There is no such file.
    Missing,
    /// It could not be read, for this reason.
    Failed(String),
    Contents(String),
}

/// The message for a user without a model.
pub open spec fn no_model_text(username: Seq<char>) -> Seq<char> {
    "no model enrolled for '"@ + username + "'"@
}

/// The contents of a user's model file, or why there are none. `uid` is the user's
/// number, if the system knows the user.
pub fn do_load(username: &str, uid: Option<u32>, file: TextFile) -> (r: Result<String, String>)
    ensures
        match (uid, file) {
            (None, _) => r matches Err(m) && m@ == unknown_user_text(username@),
            (_, TextFile::Missing) => r matches Err(m) && m@ == no_model_text(username@),
            (_, TextFile::Failed(why)) => r == Err::<String, String>(why),
            (_, TextFile::Contents(json)) => r == Ok::<String, String>(json),
        },
{
    match uid {
        None => Err(unknown_user(username)),
        Some(_) => match file {
            TextFile::Missing => Err(concat3("no model enrolled for '", username, "'")),
            TextFile::Failed(why) => Err(why),
            TextFile::Contents(json) => Ok(json),
        },
    }
}

/// The message for an enrollment with another camera than the stored one.
pub open spec fn camera_conflict_text(stored: u32) -> Seq<char> {
    "model already uses /dev/video"@ + decimal(stored as nat)
        + "; use 'faceauth clear' first to change cameras"@
}

/// A user's model before an enrollment: the stored one, or a fresh one where there
/// is no file.
pub open spec fn model_before(
    username: Seq<char>,
    camera: CameraIdView,
    file: Option<FileRead>,
) -> Result<ModelView, ErrorView> {
    match file {
        None => Ok(ModelView::fresh(username, camera)),
        Some(read) => load_outcome(username, Some(read)),
    }
}

/// A user's model after an enrollment. The camera is that of the first enrollment;
/// a model without encodings takes the camera of the next one.
pub open spec fn model_after(before: ModelView, camera: CameraIdView, batch: Seq<Seq<u32>>) -> Result<
    ModelView,
    Seq<char>,
> {
    if concatenated(before.batches).len() == 0 {
        Ok((ModelView { camera, ..before }).with_batch(batch))
    } else if before.camera.index != camera.index {
        Err(camera_conflict_text(before.camera.index))
    } else {
        Ok(before.with_batch(batch))
    }
}

/// How to store a user's model with one more batch, or why it cannot be. `uid` is
/// the user's number, if the system knows the user; `file` is what came of reading
/// the model file, if there is one.
pub fn do_enroll(
    username: &str,
    camera: CameraId,
    batch: &Vec<Encoding>,
    uid: Option<u32>,
    file: Option<FileRead>,
) -> (r: Result<SavePlan, String>)
    ensures
        match uid {
            None => r matches Err(m) && m@ == unknown_user_text(username@),
            Some(uid) => match model_before(username@, camera@, file) {
                Err(e) => r matches Err(m) && m@ == e.text(),
                Ok(before) => match model_after(before, camera@, patterns(batch@)) {
                    Err(why) => r matches Err(m) && m@ == why,
                    Ok(after) => r matches Ok(plan) && plan.stores(after, uid),
                },
            },
        },
        uid is Some && file is None ==> (r matches Ok(plan) && decode_model(plan.disk@) == Ok::<
            ModelView,
            ErrorView,
        >(
            ModelView {
                version: 1,
                username: username@,
                camera: camera@,
                batches: seq![patterns(batch@)],
            },
        )),
        r matches Ok(plan) ==> (decode_model(plan.disk@) matches Ok(m) && m.batches.len() > 0
            && m.batches.last() == patterns(batch@)),
{
    proof {
        law_model_before(username@, camera@, FileRead::Missing, patterns(batch@));
    }
    let uid: u32 = match uid {
        None => {
            return Err(unknown_user(username));
        },
        Some(uid) => uid,
    };
    let stored: StoredModel = match file {
        None => StoredModel::Absent,
        Some(read) => StoredModel::Present(read),
    };
    let mut model: FaceModel = match load_or_create_model(username, camera.clone(), stored) {
        Err(e) => {
            return Err(e.message());
        },
        Ok(model) => model,
    };
    let ghost before = model@;
    proof {
        law_encodings_are_batches(model);
    }
    if model.encodings.len() == 0 {
        model.camera = camera;
        proof {
            assert(model@ == (ModelView { camera: camera@, ..before }));
        }
    } else if model.camera.index != camera.index {
        return Err(
            concat3(
                "model already uses /dev/video",
                decimal_text(model.camera.index as u64).as_str(),
                "; use 'faceauth clear' first to change cameras",
            ),
        );
    }
    model.add_batch(batch);
    match save_model(&model, Some(uid)) {
        Ok(plan) => Ok(plan),
        Err(e) => Err(e.message()),
    }
}

/// An enrollment adds its batch behind the ones that are there, and changes nothing
/// else but the camera of a model without encodings.
pub proof fn law_enroll_appends(before: ModelView, camera: CameraIdView, batch: Seq<Seq<u32>>)
    ensures
        model_after(before, camera, batch) matches Ok(after) ==> after.batches
            == before.batches.push(batch) && after.username == before.username && after.version
            == before.version && (concatenated(before.batches).len() > 0 ==> after.camera
            == before.camera),
        model_after(before, camera, batch) is Err <==> concatenated(before.batches).len() > 0
            && before.camera.index != camera.index,
{
}

/// What to do to clear a model.
pub enum ClearPlan {
    /// There is nothing to clear.
    Nothing,
    /// Delete the file at this path.
    Delete(String),
    /// Store what is left.
    Save(SavePlan),
}

/// The message for a batch that is not there.
pub open spec fn out_of_range_text(index: nat, have: nat) -> Seq<char> {
    "batch index "@ + decimal(index) + " out of range (have "@ + decimal(have) + ")"@
}

/// `r` removes batch `index` of the model `m`, and the file if no batch remains.
pub open spec fn removes_batch(
    r: Result<ClearPlan, String>,
    m: ModelView,
    index: nat,
    uid: u32,
) -> bool {
    if index >= m.batches.len() {
        r matches Err(why) && why@ == out_of_range_text(index, m.batches.len())
    } else if m.batches.len() == 1 {
        r matches Ok(ClearPlan::Delete(path)) && path@ == model_path_text(uid)
    } else {
        r matches Ok(ClearPlan::Save(plan)) && plan.stores(m.without_batch(index as int), uid)
    }
}

/// What to do to clear a user's model: delete its file or, given an index, remove
/// that batch only. `uid` is the user's number, if the system knows the user; `file`
/// is what came of reading the model file, if there is one.
pub fn do_clear(
    username: &str,
    index: Option<usize>,
    uid: Option<u32>,
    file: Option<FileRead>,
) -> (r: Result<ClearPlan, String>)
    ensures
        match (uid, file) {
            (None, _) => r matches Err(m) && m@ == unknown_user_text(username@),
            (Some(_), None) => r matches Ok(ClearPlan::Nothing),
            (Some(uid), Some(read)) => match index {
                None => r matches Ok(ClearPlan::Delete(path)) && path@ == model_path_text(uid),
                Some(i) => match load_outcome(username@, Some(read)) {
                    Err(e) => r matches Err(m) && m@ == e.text(),
                    Ok(m) => removes_batch(r, m, i as nat, uid),
                },
            },
        },
        uid is Some ==> (file matches Some(read) ==> (index matches Some(i) ==> (load_outcome(
            username@,
            Some(read),
        ) matches Ok(m) ==> (i < m.batches.len() && m.batches.len() > 1 ==> (r matches Ok(
            ClearPlan::Save(plan),
        ) && decode_model(plan.disk@) == Ok::<ModelView, ErrorView>(
            ModelView { batches: m.batches.remove(i as int), ..m },
        )))))),
{
    let uid: u32 = match uid {
        None => {
            return Err(unknown_user(username));
        },
        Some(uid) => uid,
    };
    let read: FileRead = match file {
        None => {
            return Ok(ClearPlan::Nothing);
        },
        Some(read) => read,
    };
    let i: usize = match index {
        None => {
            return Ok(ClearPlan::Delete(model_path(uid)));
        },
        Some(i) => i,
    };
    let mut model: FaceModel = match load_model(username, Some(read)) {
        Err(e) => {
            return Err(e.message());
        },
        Ok(model) => model,
    };
    let have: usize = model.batch_count();
    if i >= have {
        let mut m: String = concat2("batch index ", decimal_text(i as u64).as_str());
        m.append(" out of range (have ");
        m.append(decimal_text(have as u64).as_str());
        m.append(")");
        return Err(m);
    }
    if have == 1 {
        return Ok(ClearPlan::Delete(model_path(uid)));
    }
    model.remove_batch(i);
    match save_model(&model, Some(uid)) {
        Ok(plan) => Ok(ClearPlan::Save(plan)),
        Err(e) => Err(e.message()),
    }
}

/// A client takes the daemon's answer for a user without a model as just that.
pub proof fn law_missing_model_is_recognised(
    username: Seq<char>,
    answer: Response,
    parsed: Result<FaceModelDisk, String>,
)
    requires
        answer@ == ResponseView::Failure(no_model_text(username)),
    ensures
        daemon_load_outcome(username, Exchange::Answer(answer), parsed) == Err::<
            ModelView,
            ErrorView,
        >(ErrorView::ModelNotFound(username)),
{
    reveal_strlit("no model enrolled for '");
    reveal_strlit("no model");
    let text = no_model_text(username);
    assert(text.subrange(0, 8) =~= "no model"@);
}

// ---------------------------------------------------------------------------
// Services
// ---------------------------------------------------------------------------

/// The list that the text of a file holds; a file that is not there holds nothing.
pub open spec fn list_in(text: Option<String>) -> Seq<ServiceView> {
    match text {
        Some(t) => parse_list(t@),
        None => Seq::empty(),
    }
}

/// The answer to a request for the services known to a user. `uid` is the user's
/// number, if the system knows the user; `defaults` and `user` are the texts of
/// everybody's list and the user's.
pub fn services_response(
    username: &str,
    uid: Option<u32>,
    defaults: &Option<String>,
    user: &Option<String>,
) -> (r: Response)
    ensures
        r@ == match uid {
            None => ResponseView::Failure(unknown_user_text(username@)),
            Some(_) => ResponseView::Services(merged(list_in(*defaults), list_in(*user))),
        },
{
    match uid {
        None => failure(unknown_user(username)),
        Some(_) => Response::Services {
            services: merge_services(&parse_opts(defaults), &parse_opts(user)),
        },
    }
}

/// A service list to be written.
#[derive(Debug)]
pub struct ListPlan {
    pub path: String,
    pub text: String,
}

/// How to change what a user's list says of one service, or what to answer instead.
/// `user` is the text of the list so far.
pub fn set_opt(
    username: &str,
    service: &str,
    allowed: bool,
    uid: Option<u32>,
    user: &Option<String>,
) -> (r: Result<ListPlan, Response>)
    ensures
        match uid {
            None => r matches Err(e) && e@ == ResponseView::Failure(unknown_user_text(username@)),
            Some(uid) => if !storable(service@) {
                r matches Err(e) && e@ == ResponseView::Failure(
                    "invalid service name '"@ + service@ + "'"@,
                )
            } else {
                r matches Ok(plan) && plan.path@ == opt_path_text(uid) && plan.text@ == list_text(
                    with_entry(list_in(*user), service@, allowed),
                )
            },
        },
{
    let uid: u32 = match uid {
        None => {
            return Err(failure(unknown_user(username)));
        },
        Some(uid) => uid,
    };
    if !is_storable(service) {
        return Err(failure(concat3("invalid service name '", service, "'")));
    }
    let mut list: Vec<ServiceEntry> = parse_opts(user);
    set_entry(&mut list, service, allowed);
    Ok(ListPlan { path: opt_path(uid), text: opts_text(&list) })
}

/// The answer to whether face authentication may be used for a service and a user. It
/// tells a service that is opted out from one that no list speaks of.
pub fn check_service_response(
    username: &str,
    service: &str,
    uid: Option<u32>,
    defaults: &Option<String>,
    user: &Option<String>,
) -> (r: Response)
    ensures
        r@ == if uid is None {
            ResponseView::Failure(unknown_user_text(username@))
        } else if opted_in(list_in(*defaults), list_in(*user), service@) {
            ResponseView::Success
        } else if opted_out(list_in(*defaults), list_in(*user), service@) {
            ResponseView::Failure(opted_out_text(service@))
        } else {
            ResponseView::Failure("service '"@ + service@ + "' is not opted in"@)
        },
{
    if uid.is_none() {
        return failure(unknown_user(username));
    }
    let all: Vec<ServiceEntry> = merge_services(&parse_opts(defaults), &parse_opts(user));
    match find_entry(&all, service) {
        Some(true) => Response::Success,
        Some(false) => failure(concat3("service '", service, "' is opted out")),
        None => failure(concat3("service '", service, "' is not opted in")),
    }
}

/// The files of which one is there for a real PAM service.
pub fn pam_service_paths(service: &str) -> (r: (String, String))
    ensures
        r.0@ == "/etc/pam.d/"@ + service@,
        r.1@ == "/usr/lib/pam.d/"@ + service@,
{
    (concat2("/etc/pam.d/", service), concat2("/usr/lib/pam.d/", service))
}

/// How to add a service to everybody's list as forbidden, nothing if it is listed
/// already, or what to answer instead. `is_real` says whether there is a PAM service
/// of that name; `defaults` is the text of the list so far.
pub fn record_caller(service: &str, is_real: bool, defaults: &Option<String>) -> (r: Result<
    Option<ListPlan>,
    Response,
>)
    ensures
        if !is_real || !valid_name(service@) {
            r matches Err(e) && e@ == ResponseView::Failure(
                "unknown PAM service '"@ + service@ + "'"@,
            )
        } else if find(list_in(*defaults), service@) is Some {
            r matches Ok(None)
        } else {
            r matches Ok(Some(plan)) && plan.path@ == defaults_path_text() && plan.text@
                == list_text(with_entry(list_in(*defaults), service@, false))
        },
{
    if !is_real || !is_valid_name(service) {
        return Err(failure(concat3("unknown PAM service '", service, "'")));
    }
    let mut list: Vec<ServiceEntry> = parse_opts(defaults);
    let known: Option<bool> = find_entry(&list, service);
    if known.is_some() {
        return Ok(None);
    }
    set_entry(&mut list, service, false);
    Ok(Some(ListPlan { path: defaults_path(), text: opts_text(&list) }))
}

/// A service that was recorded shows in every user's list, and recording it allows
/// face authentication to no service that it was not allowed to before.
pub proof fn law_recording_only_lists(
    defaults: Seq<ServiceView>,
    user: Seq<ServiceView>,
    service: Seq<char>,
    other: Seq<char>,
)
    requires
        distinct(user),
        find(defaults, service) is None,
    ensures
        find(merged(with_entry(defaults, service, false), user), service) is Some,
        opted_in(with_entry(defaults, service, false), user, other) == opted_in(
            defaults,
            user,
            other,
        ),
{
    let after = with_entry(defaults, service, false);
    law_user_overrides_defaults(after, user, service);
    law_user_overrides_defaults(after, user, other);
    law_user_overrides_defaults(defaults, user, other);
    law_set_then_find(defaults, service, false, service);
    law_set_then_find(defaults, service, false, other);
}

/// What a user sets for a service holds for that user from then on, whatever
/// everybody's list says; for other services nothing changes.
pub proof fn law_set_opt_decides(
    defaults: Seq<ServiceView>,
    user: Seq<ServiceView>,
    service: Seq<char>,
    allowed: bool,
    other: Seq<char>,
)
    requires
        distinct(user),
    ensures
        opted_in(defaults, with_entry(user, service, allowed), service) == allowed,
        other != service ==> opted_in(defaults, with_entry(user, service, allowed), other)
            == opted_in(defaults, user, other),
{
    law_set_keeps_distinct(user, service, allowed);
    law_user_overrides_defaults(defaults, with_entry(user, service, allowed), service);
    law_user_overrides_defaults(defaults, with_entry(user, service, allowed), other);
    law_user_overrides_defaults(defaults, user, other);
    law_set_then_find(user, service, allowed, service);
    law_set_then_find(user, service, allowed, other);
}

/// A client takes the daemon's answer for what it says of opting out: it finds a name
/// opted out exactly if the lists say so.
pub proof fn law_opting_out_is_recognised(
    defaults: Seq<ServiceView>,
    user: Seq<ServiceView>,
    name: Seq<char>,
    answer: Response,
)
    requires
        answer@ == if opted_in(defaults, user, name) {
            ResponseView::Success
        } else if opted_out(defaults, user, name) {
            ResponseView::Failure(opted_out_text(name))
        } else {
            ResponseView::Failure("service '"@ + name + "' is not opted in"@)
        },
    ensures
        says_opted_out(name, Exchange::Answer(answer)) == opted_out(defaults, user, name),
{
    reveal_strlit("' is opted out");
    reveal_strlit("' is not opted in");
    if !opted_in(defaults, user, name) && !opted_out(defaults, user, name) {
        let text = "service '"@ + name + "' is not opted in"@;
        assert(text.len() != opted_out_text(name).len());
    }
}

/// A service that no list speaks of is not opted in.
pub proof fn law_services_are_opt_in(
    defaults: Seq<ServiceView>,
    user: Seq<ServiceView>,
    service: Seq<char>,
)
    requires
        distinct(user),
        find(defaults, service) is None,
        find(user, service) is None,
    ensures
        !opted_in(defaults, user, service),
{
    law_user_overrides_defaults(defaults, user, service);
}

// ---------------------------------------------------------------------------
// Laws of requests
// ---------------------------------------------------------------------------

/// Enrolling, clearing, loading, authenticating, listing services and changing one are
/// for the user and root alone: anyone else is answered with a failure at once.
pub proof fn law_guarded_requests(request: Request, peer_uid: u32, owner: Option<u32>, r: Dispatch)
    requires
        dispatched(request, peer_uid, owner, r),
        request is Enroll || request is Clear || request is LoadModel || request is Authenticate
            || request is GetServices || request is SetOpt,
        peer_uid != 0,
        owner != Some(peer_uid),
    ensures
        r matches Dispatch::Reply(answer) && answer@ is Failure,
{
}

/// Permission is a matter of the two numbers alone: root and the user have it, whatever
/// the name, and nobody else has.
pub proof fn law_denial(username: Seq<char>, peer_uid: u32, owner: Option<u32>)
    ensures
        denial(username, peer_uid, owner) is None <==> peer_uid == 0 || owner == Some(peer_uid),
        peer_uid != 0 && owner is None ==> denial(username, peer_uid, owner) == Some(
            unknown_user_text(username),
        ),
        peer_uid != 0 && owner is Some && owner != Some(peer_uid) ==> denial(
            username,
            peer_uid,
            owner,
        ) is Some && starts_with(denial(username, peer_uid, owner)->0, "permission denied"@),
{
    reveal_strlit("permission denied: you are not '");
    reveal_strlit("permission denied");
    if peer_uid != 0 && owner is Some && owner != Some(peer_uid) {
        let m = denial(username, peer_uid, owner)->0;
        assert(m.subrange(0, 17) =~= "permission denied"@);
    }
}

/// A permitted request is carried out for the user it names, with what it asks for.
pub proof fn law_permitted_requests(
    request: Request,
    peer_uid: u32,
    owner: Option<u32>,
    r: Dispatch,
)
    requires
        dispatched(request, peer_uid, owner, r),
        peer_uid == 0 || owner == Some(peer_uid),
    ensures
        request matches Request::LoadModel { username } ==> (r matches Dispatch::Fetch(
            ModelMsg::Load { username: u },
        ) && u == username),
        request matches Request::Clear { username, index } ==> (r matches Dispatch::Store(
            ModelMsg::Clear { username: u, index: i },
        ) && u == username && i == index),
        request matches Request::Authenticate { username, timeout_secs } ==> (
        r matches Dispatch::FetchForAuth { load: ModelMsg::Load { username: u }, timeout_secs: t }
            && u == username && t == timeout_secs),
        request matches Request::GetServices { username } ==> (r matches Dispatch::GetServices {
            username: u,
        } && u == username),
        request matches Request::SetOpt { username, service, allowed } ==> (
        r matches Dispatch::SetOpt { username: u, service: s, allowed: a } && u == username && s
            == service && a == allowed),
        request matches Request::Enroll { username, camera_index, encodings } ==> (if forall|
            i: int,
        |
            0 <= i < encodings@.len() ==> (#[trigger] encodings@[i])@.len() == 128 {
            r matches Dispatch::Store(ModelMsg::Enroll { username: u, camera_index: c, batch }) && u
                == username && c == camera_index && batch@.len() == encodings@.len() && forall|
                i: int,
            |
                0 <= i < encodings@.len() ==> (#[trigger] batch@[i])@ == encodings@[i]@
        } else {
            r matches Dispatch::Reply(answer) && answer@ is Failure
        }),
{
    if let Request::Enroll { username, camera_index, encodings } = request {
        if well_sized(encodings@) {
            let batch = r->Store_0->batch;
            let want = encodings@.map_values(|e: Vec<u32>| e@);
            assert(patterns(batch@).len() == want.len());
            assert forall|i: int| 0 <= i < encodings@.len() implies (#[trigger] batch@[i])@
                == encodings@[i]@ by {
                assert(patterns(batch@)[i] == want[i]);
            }
        }
    }
}

/// What anyone may ask is never refused, whoever asks and whomever it names.
pub proof fn law_open_requests(request: Request, peer_uid: u32, owner: Option<u32>, r: Dispatch)
    requires
        dispatched(request, peer_uid, owner, r),
    ensures
        request matches Request::CaptureEncoding { camera_index, timeout_secs } ==> (
        r matches Dispatch::Capture { request: c, wait_secs } && c.camera_index == camera_index
            && c.timeout_secs == timeout_secs && wait_secs >= timeout_secs && (timeout_secs + 60
            <= u64::MAX ==> wait_secs == timeout_secs + 60)),
        request is ListCameras ==> r is ListCameras,
        request matches Request::CheckService { username, service } ==> (
        r matches Dispatch::CheckService { username: u, service: s } && u == username && s
            == service),
        request matches Request::RecordCaller { service } ==> (r matches Dispatch::RecordCaller {
            service: s,
        } && s == service),
{
}

/// The user whose number the daemon looks up is the one whom the request names.
pub proof fn law_named_user(request: Request)
    ensures
        request matches Request::Enroll { username, .. } ==> user_named(request) == Some(username@),
        request matches Request::Clear { username, .. } ==> user_named(request) == Some(username@),
        request matches Request::LoadModel { username } ==> user_named(request) == Some(username@),
        request matches Request::Authenticate { username, .. } ==> user_named(request) == Some(
            username@,
        ),
        request matches Request::GetServices { username } ==> user_named(request) == Some(username@),
        request matches Request::SetOpt { username, .. } ==> user_named(request) == Some(username@),
        request matches Request::CheckService { username, .. } ==> user_named(request) == Some(
            username@,
        ),
        request is CaptureEncoding || request is ListCameras || request is RecordCaller
            ==> user_named(request) is None,
{
}

// ---------------------------------------------------------------------------
// Laws of enrolling and clearing
// ---------------------------------------------------------------------------

/// A user without a model file starts from nothing, with the camera at hand; one with a
/// file starts from what is in it.
pub proof fn law_model_before(
    username: Seq<char>,
    camera: CameraIdView,
    read: FileRead,
    batch: Seq<Seq<u32>>,
)
    ensures
        model_before(username, camera, None) matches Ok(m) && m.username == username && m.camera
            == camera && m.batches.len() == 0 && m.version == 1,
        model_before(username, camera, Some(read)) == load_outcome(username, Some(read)),
        model_after(model_before(username, camera, None)->Ok_0, camera, batch) matches Ok(m)
            && m.username == username && m.camera == camera && m.version == 1 && m.batches
            == seq![batch],
{
    assert(Seq::<Seq<Seq<u32>>>::empty().push(batch) =~= seq![batch]);
    assert(concatenated(Seq::<Seq<Seq<u32>>>::empty()).len() == 0);
}

/// An enrollment into a model without encodings, a new one included, records the camera
/// that was used with its stable names and its number; one into a model with encodings
/// keeps the camera that is recorded, and is refused with another number.
pub proof fn law_enrolled_camera_is_recorded(
    before: ModelView,
    camera: CameraIdView,
    batch: Seq<Seq<u32>>,
)
    ensures
        (forall|b: int| 0 <= b < before.batches.len() ==> (#[trigger] before.batches[b]).len() == 0)
            ==> (model_after(before, camera, batch) matches Ok(after) && after.camera.by_id
            == camera.by_id && after.camera.by_path == camera.by_path && after.camera.index
            == camera.index),
        (exists|b: int| 0 <= b < before.batches.len() && (#[trigger] before.batches[b]).len() > 0)
            && before.camera.index == camera.index ==> (model_after(
            before,
            camera,
            batch,
        ) matches Ok(after) && after.camera == before.camera),
        (exists|b: int| 0 <= b < before.batches.len() && (#[trigger] before.batches[b]).len() > 0)
            && before.camera.index != camera.index ==> model_after(before, camera, batch) is Err,
{
    lemma_concatenated_empty(before.batches);
}

proof fn lemma_concatenated_empty<A>(runs: Seq<Seq<A>>)
    ensures
        concatenated(runs).len() == 0 <==> forall|b: int|
            0 <= b < runs.len() ==> (#[trigger] runs[b]).len() == 0,
    decreases runs.len(),
{
    if runs.len() > 0 {
        let front = runs.drop_last();
        lemma_concatenated_empty(front);
        if concatenated(runs).len() == 0 {
            assert forall|b: int| 0 <= b < runs.len() implies (#[trigger] runs[b]).len() == 0 by {
                if b < front.len() {
                    assert(front[b] == runs[b]);
                }
            }
        }
        if forall|b: int| 0 <= b < runs.len() ==> (#[trigger] runs[b]).len() == 0 {
            assert forall|b: int| 0 <= b < front.len() implies (#[trigger] front[b]).len() == 0 by {
                assert(runs[b].len() == 0);
            }
            assert(runs[runs.len() - 1].len() == 0);
        }
    }
}

/// Enrolling twice keeps both batches, one behind the other, and what was there before
/// in front of them.
pub proof fn law_enrollments_add_up(
    before: ModelView,
    camera: CameraIdView,
    first: Seq<Seq<u32>>,
    second: Seq<Seq<u32>>,
)
    ensures
        model_after(before, camera, first) matches Ok(m) ==> (model_after(
            m,
            camera,
            second,
        ) matches Ok(after) && after.batches == before.batches.push(first).push(second)
            && after.username == before.username),
{
}

/// Clearing one batch keeps every other, in order: whenever another batch is there, what
/// is stored is the model without that batch. The file goes only if no other is there,
/// and a batch that is not there is an error.
pub proof fn law_clearing_keeps_the_rest(
    r: Result<ClearPlan, String>,
    m: ModelView,
    index: nat,
    uid: u32,
    j: int,
)
    requires
        removes_batch(r, m, index, uid),
        0 <= j < m.batches.len(),
        j != index,
    ensures
        index < m.batches.len() ==> (r matches Ok(ClearPlan::Save(plan)) && decode_model(
            plan.disk@,
        ) is Ok && ({
            let left = decode_model(plan.disk@)->Ok_0;
            &&& left.batches.len() == m.batches.len() - 1
            &&& left.batches[if j < index {
                j
            } else {
                j - 1
            }] == m.batches[j]
            &&& left.username == m.username
            &&& left.camera == m.camera
            &&& left.version == m.version
        }) && plan.path@ == model_path_text(uid) && plan.owner == uid),
        index >= m.batches.len() ==> r is Err,
{
}

/// The file of a model is deleted only with its one batch, and it is that user's file.
pub proof fn law_last_batch_takes_the_file(
    r: Result<ClearPlan, String>,
    m: ModelView,
    index: nat,
    uid: u32,
)
    requires
        removes_batch(r, m, index, uid),
    ensures
        r matches Ok(ClearPlan::Delete(_)) <==> index == 0 && m.batches.len() == 1,
        r matches Ok(ClearPlan::Delete(path)) ==> path@ == model_path_text(uid),
        r is Err <==> index >= m.batches.len(),
        !(r matches Ok(ClearPlan::Nothing)),
{
}

/// The daemon describes a camera by its number, its name and its points.
pub proof fn law_descriptor(camera: CameraInfoView)
    ensures
        descriptor(camera).index == camera.index,
        descriptor(camera).name == camera.name,
        descriptor(camera).suitability == camera.suitability(),
        descriptor(camera).suitability <= 2,
{
}

/// A list that is not there says nothing of any service.
pub proof fn law_missing_list(name: Seq<char>, text: String)
    ensures
        find(list_in(None), name) is None,
        list_in(Some(text)) == parse_list(text@),
{
}

/// The messages that name a user hold the name as it was given.
pub proof fn law_messages_name_the_user(username: Seq<char>)
    ensures
        contains(unknown_user_text(username), username),
        contains(no_model_text(username), username),
        starts_with(no_model_text(username), "no model"@),
        starts_with(unknown_user_text(username), "unknown user"@),
{
    law_contains_part("unknown user '"@, username, "'"@, username);
    law_contains_part("no model enrolled for '"@, username, "'"@, username);
    reveal_strlit("no model enrolled for '");
    reveal_strlit("no model");
    reveal_strlit("unknown user '");
    reveal_strlit("unknown user");
    assert(no_model_text(username).subrange(0, 8) =~= "no model"@);
    assert(unknown_user_text(username).subrange(0, 12) =~= "unknown user"@);
}

/// A refusal of the daemon tells what stands in the way: the camera that is recorded, or
/// how many batches there are.
pub proof fn law_refusals_tell_why(stored: u32, index: nat, have: nat, r: Dispatch, m: Seq<char>)
    ensures
        contains(camera_conflict_text(stored), decimal(stored as nat)),
        contains(out_of_range_text(index, have), decimal(index)),
        contains(out_of_range_text(index, have), decimal(have)),
        refuses(r, m) ==> (r matches Dispatch::Reply(Response::Failure { message }) && message@
            == m),
{
    let d = decimal(stored as nat);
    law_contains_part(
        "model already uses /dev/video"@,
        d,
        "; use 'faceauth clear' first to change cameras"@,
        d,
    );
    let i = decimal(index);
    let h = decimal(have);
    let front = "batch index "@ + i + " out of range (have "@;
    law_contains_part(front, h, ")"@, h);
    law_contains_part("batch index "@, i, " out of range (have "@ + h + ")"@, i);
    assert(out_of_range_text(index, have) =~= "batch index "@ + i + (" out of range (have "@ + h
        + ")"@));
}

}
