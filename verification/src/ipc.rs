//! The protocol between the daemon and its clients.
//!
//! A client connects to the daemon's socket, sends one request and reads one
//! response, each a JSON object on a line of its own. The daemon learns the caller's
//! user number from the kernel.
//!
//! The numbers of an encoding stand here as the bit patterns of 32-bit floats.

use vstd::prelude::*;
use vstd::string::*;

use crate::encoding::{to_encoding, Encoding};
use crate::error::{ErrorView, FaceAuthError};
use crate::model::{
    decode_model, load_model_from_json, model_result, FaceModel, FaceModelDisk, ModelView,
};
use crate::text::{
    concat2, concat3, has_prefix, is_whitespace, law_prefix, lemma_trim_end, lemma_trim_start,
    same_text, starts_with, trim, trim_end, trim_start, trimmed,
};

verus! {

/// The path of the daemon's socket.
pub const SOCKET_PATH: &'static str = "/run/faceauth/faceauth.sock";

/// A camera as the daemon describes it.
#[derive(Debug)]
pub struct CameraDescriptor {
    pub index: u32,
    pub name: String,
    /// 0 for a colour webcam, 1 for a possible infrared camera, 2 for a recommended
    /// one.
    pub suitability: u8,
}

/// A [`CameraDescriptor`] as a mathematical value.
#[verifier::ext_equal]
pub struct DescriptorView {
    pub index: u32,
    pub name: Seq<char>,
    pub suitability: u8,
}

impl View for CameraDescriptor {
    type V = DescriptorView;

    open spec fn view(&self) -> DescriptorView {
        DescriptorView { index: self.index, name: self.name@, suitability: self.suitability }
    }
}

impl DeepView for CameraDescriptor {
    type V = DescriptorView;

    open spec fn deep_view(&self) -> DescriptorView {
        self@
    }
}

/// Whether face authentication may be used for one service.
#[derive(Debug)]
pub struct ServiceEntry {
    pub name: String,
    pub allowed: bool,
}

/// A [`ServiceEntry`] as a mathematical value.
#[verifier::ext_equal]
pub struct ServiceView {
    pub name: Seq<char>,
    pub allowed: bool,
}

impl View for ServiceEntry {
    type V = ServiceView;

    open spec fn view(&self) -> ServiceView {
        ServiceView { name: self.name@, allowed: self.allowed }
    }
}

impl DeepView for ServiceEntry {
    type V = ServiceView;

    open spec fn deep_view(&self) -> ServiceView {
        self@
    }
}

/// A request from a client to the daemon.
#[derive(Debug)]
pub enum Request {
    /// Append an enrollment batch to a user's model.
    Enroll { username: String, camera_index: u32, encodings: Vec<Vec<u32>> },
    /// Delete a user's model, or remove one batch of it. Without an index the whole
    /// model file goes; with one only that batch, counted from 0, and the file too
    /// if no batch remains.
    Clear { username: String, index: Option<usize> },
    /// Read a user's model file. The caller must be the user or root.
    LoadModel { username: String },
    /// Compare what the camera sees with a user's model, for this many seconds at
    /// most. The caller must be the user or root.
    Authenticate { username: String, timeout_secs: u64 },
    /// Wait until a camera sees exactly one face, and hand out its encoding. Any
    /// local user may ask this.
    CaptureEncoding { camera_index: u32, timeout_secs: u64 },
    /// List the cameras, the most suitable first. Anyone may ask this.
    ListCameras,
    /// List the services that are known to a user, each with whether face
    /// authentication may be used for it. The caller must be the user or root.
    GetServices { username: String },
    /// Allow or forbid face authentication for a service, for one user. The caller
    /// must be the user or root.
    SetOpt { username: String, service: String, allowed: bool },
    /// Ask whether face authentication may be used for a service and a user.
    /// Anyone may ask this.
    CheckService { username: String, service: String },
    /// Note that a service has asked for face authentication, so that it shows in
    /// every user's list. It must be the name of a real PAM service. Anyone may
    /// ask this.
    RecordCaller { service: String },
}

/// A response from the daemon to a client.
#[derive(Debug)]
pub enum Response {
    /// The request was carried out, or the answer to it is yes.
    Success,
    /// It was not, for this reason, or the answer to it is no.
    Failure { message: String },
    /// The contents of a model file.
    Model { json: String },
    /// A face encoding.
    Encoding { data: Vec<u32> },
    /// The cameras that can be used.
    Cameras { cameras: Vec<CameraDescriptor> },
    /// The services known to a user.
    Services { services: Vec<ServiceEntry> },
}

/// A [`Response`] as a mathematical value.
#[verifier::ext_equal]
pub enum ResponseView {
    Success,
    Failure(Seq<char>),
    Model(Seq<char>),
    Encoding(Seq<u32>),
    Cameras(Seq<DescriptorView>),
    Services(Seq<ServiceView>),
}

impl View for Response {
    type V = ResponseView;

    open spec fn view(&self) -> ResponseView {
        match self {
            Response::Success => ResponseView::Success,
            Response::Failure { message } => ResponseView::Failure(message@),
            Response::Model { json } => ResponseView::Model(json@),
            Response::Encoding { data } => ResponseView::Encoding(data@),
            Response::Cameras { cameras } => ResponseView::Cameras(cameras.deep_view()),
            Response::Services { services } => ResponseView::Services(services.deep_view()),
        }
    }
}

// ---------------------------------------------------------------------------
// Lines
// ---------------------------------------------------------------------------

/// A JSON text as it is sent: on a line of its own.
pub fn to_line(json: &str) -> (r: String)
    ensures
        r@ == json@ + "\n"@,
{
    concat2(json, "\n")
}

/// The JSON text in a received line.
pub fn from_line(line: &str) -> (r: String)
    ensures
        r@ == trim(line@),
{
    trimmed(line)
}

/// A JSON text that neither begins nor ends with white space is received as it was
/// sent.
pub proof fn law_line_carries_json(json: Seq<char>)
    requires
        trim(json) == json,
    ensures
        trim(json + "\n"@) == json,
{
    reveal_strlit("\n");
    let line = json + "\n"@;
    assert(line =~= json.push('\n'));
    if json.len() == 0 {
        assert(line.drop_first() =~= Seq::empty());
        assert(trim_start(line) == trim_start(line.drop_first()));
        assert(trim_start(line) =~= Seq::empty());
        assert(json =~= Seq::empty());
    } else {
        if is_whitespace(json[0]) {
            lemma_trim_start(json);
            lemma_trim_end(trim_start(json));
            lemma_trim_start(json.drop_first());
        }
        assert(line[0] == json[0]);
        assert(trim_start(line) == line);
        assert(line.drop_last() =~= json);
        assert(trim_end(line) == trim_end(json));
        assert(trim_start(json) == json);
    }
}

// ---------------------------------------------------------------------------
// Requests through the daemon
// ---------------------------------------------------------------------------

/// What came of sending a request to the daemon.
pub enum Exchange {
    /// The socket could not be reached, written or read.
    Unreachable(String),
    /// A message could not be turned into JSON or back.
    Malformed(String),
    /// The daemon's answer.
    Answer(Response),
}

/// `n + more`, or the largest number if that is too large.
pub open spec fn capped_sum(n: u64, more: u64) -> u64 {
    if n + more > u64::MAX {
        u64::MAX
    } else {
        (n + more) as u64
    }
}

/// `n + more`, or the largest number if that is too large.
pub fn add_capped(n: u64, more: u64) -> (r: u64)
    ensures
        r == capped_sum(n, more),
{
    n.saturating_add(more)
}

/// The request for a face encoding, and how many seconds to wait for the answer:
/// ten more than the daemon takes at most.
pub fn capture_encoding_request(camera_index: u32, timeout_secs: u64) -> (r: (Request, u64))
    ensures
        r.0 == (Request::CaptureEncoding { camera_index, timeout_secs }),
        r.1 == capped_sum(timeout_secs, 10),
{
    (Request::CaptureEncoding { camera_index, timeout_secs }, add_capped(timeout_secs, 10))
}

fn unexpected_response() -> (r: FaceAuthError)
    ensures
        r@ == ErrorView::Storage("unexpected response from faceauth daemon"@),
{
    FaceAuthError::Storage(String::from_str("unexpected response from faceauth daemon"))
}

/// The face encoding that the daemon captured, or what went wrong.
pub fn capture_encoding_via_daemon(exchange: Exchange) -> (r: Result<Encoding, FaceAuthError>)
    ensures
        match exchange {
            Exchange::Unreachable(m) => r matches Err(e) && e@ == ErrorView::Storage(m@),
            Exchange::Malformed(m) => r matches Err(e) && e@ == ErrorView::Json(m@),
            Exchange::Answer(answer) => match answer@ {
                ResponseView::Encoding(data) => if data.len() == 128 {
                    r matches Ok(enc) && enc@ == data
                } else {
                    r matches Err(e) && e@ == ErrorView::Dlib(
                        "encoding from daemon must be exactly 128 floats"@,
                    )
                },
                ResponseView::Failure(m) => r matches Err(e) && e@ == ErrorView::Camera(m),
                _ => r matches Err(e) && e@ == ErrorView::Storage(
                    "unexpected response from faceauth daemon"@,
                ),
            },
        },
{
    match exchange {
        Exchange::Unreachable(m) => Err(FaceAuthError::Storage(m)),
        Exchange::Malformed(m) => Err(FaceAuthError::Json(m)),
        Exchange::Answer(Response::Encoding { data }) => match to_encoding(&data) {
            Some(enc) => Ok(enc),
            None => Err(
                FaceAuthError::Dlib(
                    String::from_str("encoding from daemon must be exactly 128 floats"),
                ),
            ),
        },
        Exchange::Answer(Response::Failure { message }) => Err(FaceAuthError::Camera(message)),
        Exchange::Answer(_) => Err(unexpected_response()),
    }
}

/// The request for a user's model.
pub fn load_model_request(username: &str) -> (r: Request)
    ensures
        r matches Request::LoadModel { username: name } && name@ == username@,
{
    Request::LoadModel { username: String::from_str(username) }
}

/// What a load through the daemon comes to. `parsed` is what parsing the JSON text
/// in the answer came to.
pub open spec fn daemon_load_outcome(
    username: Seq<char>,
    exchange: Exchange,
    parsed: Result<FaceModelDisk, String>,
) -> Result<ModelView, ErrorView> {
    match exchange {
        Exchange::Unreachable(m) => Err(ErrorView::Storage(m@)),
        Exchange::Malformed(m) => Err(ErrorView::Json(m@)),
        Exchange::Answer(answer) => match answer@ {
            ResponseView::Model(_) => match parsed {
                Err(m) => Err(ErrorView::Json(m@)),
                Ok(disk) => decode_model(disk@),
            },
            ResponseView::Failure(m) => if starts_with(m, "no model"@) {
                Err(ErrorView::ModelNotFound(username))
            } else {
                Err(ErrorView::Storage(m))
            },
            _ => Err(ErrorView::Storage("unexpected response from faceauth daemon"@)),
        },
    }
}

/// The model of `username` as the daemon handed it out, or what went wrong.
/// `parsed` is what parsing the JSON text in the answer came to; it does not matter
/// where the answer holds none.
pub fn load_model_via_daemon(
    username: &str,
    exchange: Exchange,
    parsed: Result<FaceModelDisk, String>,
) -> (r: Result<FaceModel, FaceAuthError>)
    ensures
        model_result(r, daemon_load_outcome(username@, exchange, parsed)),
{
    match exchange {
        Exchange::Unreachable(m) => Err(FaceAuthError::Storage(m)),
        Exchange::Malformed(m) => Err(FaceAuthError::Json(m)),
        Exchange::Answer(Response::Model { json: _ }) => load_model_from_json(parsed),
        Exchange::Answer(Response::Failure { message }) => {
            if has_prefix(message.as_str(), "no model") {
                Err(FaceAuthError::ModelNotFound(String::from_str(username)))
            } else {
                Err(FaceAuthError::Storage(message))
            }
        },
        Exchange::Answer(_) => Err(unexpected_response()),
    }
}

/// The request to authenticate a user, and how many seconds to wait for the answer:
/// sixty more than the attempt takes, as it may have to queue behind another.
pub fn authenticate_request(username: &str, timeout_secs: u64) -> (r: (Request, u64))
    ensures
        r.0 matches Request::Authenticate { username: name, timeout_secs: secs } && name@
            == username@ && secs == timeout_secs,
        r.1 == capped_sum(timeout_secs, 60),
{
    (
        Request::Authenticate { username: String::from_str(username), timeout_secs },
        add_capped(timeout_secs, 60),
    )
}

/// What an authentication through the daemon comes to.
pub open spec fn authenticate_outcome(exchange: Exchange) -> Result<(), ErrorView> {
    match exchange {
        Exchange::Unreachable(m) => Err(ErrorView::Storage(m@)),
        Exchange::Malformed(m) => Err(ErrorView::Json(m@)),
        Exchange::Answer(answer) => match answer@ {
            ResponseView::Success => Ok(()),
            ResponseView::Failure(m) => Err(ErrorView::Camera(m)),
            _ => Err(ErrorView::Storage("unexpected response from faceauth daemon"@)),
        },
    }
}

/// Whether the daemon authenticated the user, or what went wrong.
pub fn authenticate_via_daemon(exchange: Exchange) -> (r: Result<(), FaceAuthError>)
    ensures
        match authenticate_outcome(exchange) {
            Ok(_) => r is Ok,
            Err(want) => r matches Err(e) && e@ == want,
        },
{
    match exchange {
        Exchange::Unreachable(m) => Err(FaceAuthError::Storage(m)),
        Exchange::Malformed(m) => Err(FaceAuthError::Json(m)),
        Exchange::Answer(Response::Success) => Ok(()),
        Exchange::Answer(Response::Failure { message }) => Err(FaceAuthError::Camera(message)),
        Exchange::Answer(_) => Err(unexpected_response()),
    }
}

/// A user counts as authenticated only if the daemon answered so.
pub proof fn law_only_success_authenticates(exchange: Exchange)
    ensures
        authenticate_outcome(exchange) is Ok <==> (exchange matches Exchange::Answer(answer)
            && answer@ == ResponseView::Success),
{
}

/// The request whether face authentication may be used for a service.
pub fn check_service_request(username: &str, service: &str) -> (r: Request)
    ensures
        r matches Request::CheckService { username: name, service: s } && name@ == username@ && s@
            == service@,
{
    Request::CheckService {
        username: String::from_str(username),
        service: String::from_str(service),
    }
}

/// Whether the daemon allows face authentication for a service. Without an answer
/// it does not.
pub fn check_service_via_daemon(exchange: &Exchange) -> (r: bool)
    ensures
        r == (exchange matches Exchange::Answer(answer) && answer@ == ResponseView::Success),
{
    matches!(exchange, Exchange::Answer(Response::Success))
}

/// The daemon's answer for a name that a list opts out.
pub open spec fn opted_out_text(name: Seq<char>) -> Seq<char> {
    "service '"@ + name + "' is opted out"@
}

/// The daemon answered that `name` is opted out.
pub open spec fn says_opted_out(name: Seq<char>, exchange: Exchange) -> bool {
    exchange matches Exchange::Answer(answer) && answer@ == ResponseView::Failure(
        opted_out_text(name),
    )
}

/// Whether the daemon says that `name`, of a service or of a program that starts one,
/// is opted out of face authentication. Without an answer it does not.
pub fn opted_out_via_daemon(name: &str, exchange: &Exchange) -> (r: bool)
    ensures
        r == says_opted_out(name@, *exchange),
{
    match exchange {
        Exchange::Answer(Response::Failure { message }) => same_text(
            message.as_str(),
            concat3("service '", name, "' is opted out").as_str(),
        ),
        _ => false,
    }
}

/// The request to note that a service has asked for face authentication. What the
/// daemon answers does not matter.
pub fn record_caller_request(service: &str) -> (r: Request)
    ensures
        r matches Request::RecordCaller { service: s } && s@ == service@,
{
    Request::RecordCaller { service: String::from_str(service) }
}

// ---------------------------------------------------------------------------
// Laws
// ---------------------------------------------------------------------------

/// A sum is exact where it fits, and otherwise the largest number there is; it never
/// falls below what is added to.
pub proof fn law_capped_sum(n: u64, more: u64)
    ensures
        n <= u64::MAX - more ==> capped_sum(n, more) == n + more,
        n > u64::MAX - more ==> capped_sum(n, more) == 0xffff_ffff_ffff_ffff,
        capped_sum(n, more) >= n && capped_sum(n, more) >= more,
{
}

/// What the daemon says of a failed attempt is the reason; without an answer the reason
/// is why there is none.
pub proof fn law_why_not_authenticated(exchange: Exchange)
    ensures
        exchange matches Exchange::Answer(Response::Failure { message }) ==> authenticate_outcome(
            exchange,
        ) == Err::<(), ErrorView>(ErrorView::Camera(message@)),
        exchange matches Exchange::Unreachable(m) ==> authenticate_outcome(exchange) == Err::<
            (),
            ErrorView,
        >(ErrorView::Storage(m@)),
        exchange matches Exchange::Malformed(m) ==> authenticate_outcome(exchange) == Err::<
            (),
            ErrorView,
        >(ErrorView::Json(m@)),
        authenticate_outcome(exchange) is Ok <==> (exchange matches Exchange::Answer(
            Response::Success,
        )),
{
}

/// A model comes through the daemon only in an answer that holds one and that parses;
/// that a user has none is told by the front of the message, any other failure is passed
/// on as it is.
pub proof fn law_load_through_daemon(
    username: Seq<char>,
    exchange: Exchange,
    parsed: Result<FaceModelDisk, String>,
    rest: Seq<char>,
)
    ensures
        daemon_load_outcome(username, exchange, parsed) is Ok <==> (exchange matches Exchange::Answer(
            Response::Model { json: _ },
        )) && (parsed matches Ok(disk) && decode_model(disk@) is Ok),
        daemon_load_outcome(username, exchange, parsed) matches Ok(m) ==> decode_model(
            parsed->Ok_0@,
        ) == Ok::<ModelView, ErrorView>(m),
        exchange matches Exchange::Answer(Response::Failure { message }) ==> (if message@
            == "no model"@ + rest {
            daemon_load_outcome(username, exchange, parsed) == Err::<ModelView, ErrorView>(
                ErrorView::ModelNotFound(username),
            )
        } else {
            starts_with(message@, "no model"@) || daemon_load_outcome(username, exchange, parsed)
                == Err::<ModelView, ErrorView>(ErrorView::Storage(message@))
        }),
        exchange matches Exchange::Unreachable(m) ==> daemon_load_outcome(
            username,
            exchange,
            parsed,
        ) == Err::<ModelView, ErrorView>(ErrorView::Storage(m@)),
{
    law_prefix("no model"@, rest, "no model"@ + rest);
}

/// An answer says what it is made of: two that say the same are of one kind and hold the
/// same.
pub proof fn law_answers_by_contents(a: Response, b: Response)
    ensures
        a@ == b@ ==> match (a, b) {
            (Response::Success, Response::Success) => true,
            (Response::Failure { message: x }, Response::Failure { message: y }) => x@ == y@,
            (Response::Model { json: x }, Response::Model { json: y }) => x@ == y@,
            (Response::Encoding { data: x }, Response::Encoding { data: y }) => x@ == y@,
            (Response::Cameras { cameras: x }, Response::Cameras { cameras: y }) => x@.len()
                == y@.len() && forall|i: int|
                0 <= i < x@.len() ==> (#[trigger] x@[i]).index == y@[i].index && x@[i].name@
                    == y@[i].name@ && x@[i].suitability == y@[i].suitability,
            (Response::Services { services: x }, Response::Services { services: y }) => x@.len()
                == y@.len() && forall|i: int|
                0 <= i < x@.len() ==> (#[trigger] x@[i]).name@ == y@[i].name@ && x@[i].allowed
                    == y@[i].allowed,
            _ => false,
        },
{
    if a@ == b@ {
        match (a, b) {
            (Response::Cameras { cameras: x }, Response::Cameras { cameras: y }) => {
                assert(x.deep_view().len() == x@.len() && y.deep_view().len() == y@.len());
                assert(x.deep_view() == y.deep_view());
                assert forall|i: int| 0 <= i < x@.len() implies (#[trigger] x@[i]).index
                    == y@[i].index && x@[i].name@ == y@[i].name@ && x@[i].suitability
                    == y@[i].suitability by {
                    assert(x.deep_view()[i] == x@[i]@ && y.deep_view()[i] == y@[i]@);
                }
            },
            (Response::Services { services: x }, Response::Services { services: y }) => {
                assert(x.deep_view().len() == x@.len() && y.deep_view().len() == y@.len());
                assert(x.deep_view() == y.deep_view());
                assert forall|i: int| 0 <= i < x@.len() implies (#[trigger] x@[i]).name@
                    == y@[i].name@ && x@[i].allowed == y@[i].allowed by {
                    assert(x.deep_view()[i] == x@[i]@ && y.deep_view()[i] == y@[i]@);
                }
            },
            _ => {},
        }
    }
}

}
