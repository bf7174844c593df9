//! The loops that watch a camera: until one face is in sight, for enrollment, or
//! until an enrolled face is, for authentication.
//!
//! The camera, the face encoder and the clock are outside; each round of a loop is
//! handed here as what the round brought, and the answer is what to do next.

use vstd::prelude::*;
use vstd::string::*;

use crate::encoding::{encoding_to_vec, matches_model, Encoding, DISTANCE_THRESHOLD};
use crate::error::{ErrorView, FaceAuthError};
use crate::model::{CameraId, FaceModel};
use crate::text::concat2;

verus! {

// ---------------------------------------------------------------------------
// Time
// ---------------------------------------------------------------------------

/// A span of time.
#[derive(Debug, Clone, Copy, PartialEq, Eq, Structural)]
pub struct Duration {
    pub secs: u64,
    /// Less than a second.
    pub nanos: u32,
}

impl Duration {
    pub open spec fn wf(self) -> bool {
        self.nanos < 1_000_000_000
    }

    /// How many nanoseconds long the span is.
    pub open spec fn total(self) -> nat {
        self.secs as nat * 1_000_000_000 + self.nanos as nat
    }

    pub fn from_secs(secs: u64) -> (r: Duration)
        ensures
            r.wf(),
            r.secs == secs,
            r.total() == secs * 1_000_000_000,
    {
        Duration { secs, nanos: 0 }
    }

    pub fn from_millis(millis: u64) -> (r: Duration)
        ensures
            r.wf(),
            r.total() == millis * 1_000_000,
    {
        Duration { secs: millis / 1000, nanos: (millis % 1000) as u32 * 1_000_000 }
    }

    /// Whether this span is longer than `other`.
    pub fn exceeds(self, other: Duration) -> (r: bool)
        requires
            self.wf(),
            other.wf(),
        ensures
            r == (self.total() > other.total()),
    {
        self.secs > other.secs || (self.secs == other.secs && self.nanos > other.nanos)
    }
}

/// How long to attempt authentication, and how often to look.
#[derive(Debug, Clone, Copy, PartialEq, Eq, Structural)]
pub struct AuthConfig {
    /// How long to look for a match before giving up.
    pub timeout: Duration,
    /// How long to pause between two frames.
    pub frame_interval: Duration,
}

impl Default for AuthConfig {
    fn default() -> (r: AuthConfig)
        ensures
            r.timeout == (Duration { secs: 5, nanos: 0 }),
            r.frame_interval == (Duration { secs: 0, nanos: 100_000_000 }),
    {
        AuthConfig { timeout: Duration::from_secs(5), frame_interval: frame_interval() }
    }
}

impl AuthConfig {
    /// The default, but for the time to look for a match.
    pub fn with_timeout(timeout_secs: u64) -> (r: AuthConfig)
        ensures
            r.timeout == (Duration { secs: timeout_secs, nanos: 0 }),
            r.frame_interval == (Duration { secs: 0, nanos: 100_000_000 }),
    {
        AuthConfig { timeout: Duration::from_secs(timeout_secs), ..AuthConfig::default() }
    }
}

/// The pause between two frames: a tenth of a second.
pub fn frame_interval() -> (r: Duration)
    ensures
        r == (Duration { secs: 0, nanos: 100_000_000 }),
{
    Duration::from_millis(100)
}

// ---------------------------------------------------------------------------
// Rounds
// ---------------------------------------------------------------------------

/// What one round brought; `T` is what is known of each face in sight.
pub enum Moment<T> {
    /// The time is up.
    Over,
    /// The camera could not be read, for this reason.
    NoFrame(FaceAuthError),
    /// A frame came that could not be decoded.
    Garbled,
    /// The encoder failed on the frame, for this reason.
    Unreadable(FaceAuthError),
    /// The faces in the frame.
    Faces(Vec<T>),
}

/// What a loop has learnt of the camera so far.
pub enum Watch {
    /// Nothing yet.
    Fresh,
    /// No frame came, last for this reason.
    Unread(FaceAuthError),
    /// A frame came.
    Seen,
}

/// A [`Watch`] as a mathematical value.
pub enum WatchView {
    Fresh,
    Unread(ErrorView),
    Seen,
}

impl View for Watch {
    type V = WatchView;

    open spec fn view(&self) -> WatchView {
        match self {
            Watch::Fresh => WatchView::Fresh,
            Watch::Unread(e) => WatchView::Unread(e@),
            Watch::Seen => WatchView::Seen,
        }
    }
}

impl WatchView {
    /// What is known of the camera after one more round.
    pub open spec fn after<T>(self, moment: Moment<T>) -> WatchView {
        match moment {
            Moment::Over => self,
            Moment::NoFrame(e) => if self is Seen {
                self
            } else {
                WatchView::Unread(e@)
            },
            _ => WatchView::Seen,
        }
    }

    /// What a loop reports when the time is up: the camera's error if it never could
    /// be read, else a timeout.
    pub open spec fn at_the_end(self, timeout: Duration) -> ErrorView {
        match self {
            WatchView::Unread(e) => e,
            _ => ErrorView::Timeout(timeout.secs),
        }
    }
}

impl Watch {
    /// What is known of the camera after it could not be read.
    fn lost(self, e: FaceAuthError) -> (r: Watch)
        ensures
            r@ == if self@ is Seen {
                WatchView::Seen
            } else {
                WatchView::Unread(e@)
            },
    {
        match self {
            Watch::Seen => Watch::Seen,
            _ => Watch::Unread(e),
        }
    }

    /// What a loop reports when the time is up.
    fn report(self, timeout: Duration) -> (r: FaceAuthError)
        ensures
            r@ == self@.at_the_end(timeout),
    {
        match self {
            Watch::Unread(e) => e,
            _ => FaceAuthError::Timeout(timeout.secs),
        }
    }
}

/// What to do after a round.
pub enum Step<T> {
    /// Stop the camera; this came of it.
    Stop(Result<T, FaceAuthError>),
    /// Pause, then look again, knowing this of the camera.
    Wait { pause: Duration, watch: Watch },
}

/// What is known of the camera after the first `n` of `moments`.
pub open spec fn watch_at<T>(watch: WatchView, moments: Seq<Moment<T>>, n: int) -> WatchView
    decreases n,
{
    if n <= 0 {
        watch
    } else {
        watch_at(watch, moments, n - 1).after(moments[n - 1])
    }
}

proof fn lemma_watch_skips_first<T>(watch: WatchView, moments: Seq<Moment<T>>, n: int)
    requires
        0 <= n < moments.len(),
    ensures
        watch_at(watch, moments, n + 1) == watch_at(
            watch.after(moments[0]),
            moments.drop_first(),
            n,
        ),
    decreases n,
{
    if n > 0 {
        lemma_watch_skips_first(watch, moments, n - 1);
        assert(moments.drop_first()[n - 1] == moments[n]);
    } else {
        assert(watch_at(watch, moments, 0) == watch);
    }
}

/// The time is up in round `i`: the error is the camera's if none of the rounds before
/// brought a frame, and that of the last of them, else a timeout.
pub open spec fn given_up<T>(moments: Seq<Moment<T>>, i: int, timeout: Duration) -> ErrorView {
    if i > 0 && forall|j: int| 0 <= j < i ==> #[trigger] moments[j] is NoFrame {
        moments[i - 1]->NoFrame_0@
    } else {
        ErrorView::Timeout(timeout.secs)
    }
}

proof fn lemma_given_up<T>(moments: Seq<Moment<T>>, i: int, timeout: Duration)
    requires
        0 <= i <= moments.len(),
        forall|j: int| 0 <= j < i ==> !(#[trigger] moments[j] is Over),
    ensures
        watch_at(WatchView::Fresh, moments, i).at_the_end(timeout) == given_up(moments, i, timeout),
        watch_at(WatchView::Fresh, moments, i) is Seen <==> exists|j: int|
            0 <= j < i && !(#[trigger] moments[j] is NoFrame),
    decreases i,
{
    if i > 0 {
        lemma_given_up(moments, i - 1, timeout);
        let before = watch_at(WatchView::Fresh, moments, i - 1);
        if moments[i - 1] is NoFrame {
            if before is Seen {
                let j = choose|j: int| 0 <= j < i - 1 && !(#[trigger] moments[j] is NoFrame);
                assert(!(moments[j] is NoFrame));
            } else {
                assert forall|j: int| 0 <= j < i implies #[trigger] moments[j] is NoFrame by {
                    if j < i - 1 && !(moments[j] is NoFrame) {
                        assert(before is Seen);
                    }
                }
            }
        } else {
            assert(!(moments[i - 1] is NoFrame));
        }
    }
}

/// Where a property fails of some item, it fails of a first one.
proof fn lemma_first<A>(items: Seq<A>, holds: spec_fn(A) -> bool, k: int) -> (i: int)
    requires
        0 <= k < items.len(),
        !holds(items[k]),
    ensures
        0 <= i <= k,
        !holds(items[i]),
        forall|j: int| 0 <= j < i ==> holds(#[trigger] items[j]),
    decreases k,
{
    if forall|j: int| 0 <= j < k ==> holds(#[trigger] items[j]) {
        k
    } else {
        let j = choose|j: int| 0 <= j < k && !holds(#[trigger] items[j]);
        lemma_first(items, holds, j)
    }
}

// ---------------------------------------------------------------------------
// Capture
// ---------------------------------------------------------------------------

/// The end that a round brings to a capture, if it brings one: the time is up, or
/// exactly one face is in sight. A frame that is lost, or that decoding or the encoder
/// fails on, is passed over.
pub open spec fn capture_end(
    watch: WatchView,
    moment: Moment<Encoding>,
    timeout: Duration,
) -> Option<Result<Seq<u32>, ErrorView>> {
    match moment {
        Moment::Over => Some(Err(watch.at_the_end(timeout))),
        Moment::Faces(faces) => if faces@.len() == 1 {
            Some(Ok(faces@[0]@))
        } else {
            None
        },
        _ => None,
    }
}

/// What to do after a round of waiting for a single face. `watch` is what was known of
/// the camera before.
pub fn capture_with_encoder(watch: Watch, moment: Moment<Encoding>, timeout: Duration) -> (r: Step<
    Encoding,
>)
    ensures
        match capture_end(watch@, moment, timeout) {
            Some(Ok(enc)) => r matches Step::Stop(Ok(got)) && got@ == enc,
            Some(Err(e)) => r matches Step::Stop(Err(got)) && got@ == e,
            None => r matches Step::Wait { pause, watch: next } && pause == (Duration {
                secs: 0,
                nanos: 100_000_000,
            }) && next@ == watch@.after(moment),
        },
        moment matches Moment::Faces(faces) ==> (if faces@.len() == 1 {
            r matches Step::Stop(Ok(got)) && got@ == faces@[0]@
        } else {
            r is Wait
        }),
        r is Stop <==> moment is Over || (moment matches Moment::Faces(faces) && faces@.len() == 1),
{
    let pause: Duration = frame_interval();
    match moment {
        Moment::Over => Step::Stop(Err(watch.report(timeout))),
        Moment::NoFrame(e) => Step::Wait { pause, watch: watch.lost(e) },
        Moment::Garbled => Step::Wait { pause, watch: Watch::Seen },
        Moment::Unreadable(_) => Step::Wait { pause, watch: Watch::Seen },
        Moment::Faces(faces) => {
            if faces.len() == 1 {
                Step::Stop(Ok(faces[0]))
            } else {
                Step::Wait { pause, watch: Watch::Seen }
            }
        },
    }
}

/// What a capture comes to that sees `moments` one after another; `None` while none
/// of them ends it.
pub open spec fn capture_run(
    watch: WatchView,
    moments: Seq<Moment<Encoding>>,
    timeout: Duration,
) -> Option<Result<Seq<u32>, ErrorView>>
    decreases moments.len(),
{
    if moments.len() == 0 {
        None
    } else {
        match capture_end(watch, moments[0], timeout) {
            Some(end) => Some(end),
            None => capture_run(watch.after(moments[0]), moments.drop_first(), timeout),
        }
    }
}

/// A frame with exactly one face.
pub open spec fn shows_one_face(moment: Moment<Encoding>) -> bool {
    moment matches Moment::Faces(faces) && faces@.len() == 1
}

/// Round `i` is reached: before it the time is not up, and no frame shows exactly one
/// face.
pub open spec fn capture_reaches(moments: Seq<Moment<Encoding>>, i: int) -> bool {
    &&& 0 <= i < moments.len()
    &&& forall|j: int|
        0 <= j < i ==> !(#[trigger] moments[j] is Over) && !shows_one_face(moments[j])
}

proof fn lemma_capture_run(
    watch: WatchView,
    moments: Seq<Moment<Encoding>>,
    timeout: Duration,
    i: int,
)
    requires
        capture_reaches(moments, i),
        moments[i] is Over || shows_one_face(moments[i]),
    ensures
        capture_run(watch, moments, timeout) == capture_end(
            watch_at(watch, moments, i),
            moments[i],
            timeout,
        ),
    decreases i,
{
    if i > 0 {
        let rest = moments.drop_first();
        assert(capture_end(watch, moments[0], timeout) is None);
        assert forall|j: int| 0 <= j < i - 1 implies !(#[trigger] rest[j] is Over)
            && !shows_one_face(rest[j]) by {
            assert(rest[j] == moments[j + 1]);
        }
        assert(rest[i - 1] == moments[i]);
        lemma_capture_run(watch.after(moments[0]), rest, timeout, i - 1);
        lemma_watch_skips_first(watch, moments, i - 1);
    }
}

proof fn lemma_capture_goes_on(
    watch: WatchView,
    moments: Seq<Moment<Encoding>>,
    timeout: Duration,
)
    requires
        forall|j: int|
            0 <= j < moments.len() ==> !(#[trigger] moments[j] is Over) && !shows_one_face(
                moments[j],
            ),
    ensures
        capture_run(watch, moments, timeout) is None,
    decreases moments.len(),
{
    if moments.len() > 0 {
        let rest = moments.drop_first();
        assert(capture_end(watch, moments[0], timeout) is None);
        assert forall|j: int| 0 <= j < rest.len() implies !(#[trigger] rest[j] is Over)
            && !shows_one_face(rest[j]) by {
            assert(rest[j] == moments[j + 1]);
        }
        lemma_capture_goes_on(watch.after(moments[0]), rest, timeout);
    }
}

/// A capture yields the face of the first frame that shows exactly one, if that comes
/// before the time is up, whatever the other rounds before it brought. If none does,
/// the capture ends when the time is up: in a timeout, or in the camera's error if no
/// round brought a frame.
pub proof fn law_capture_sees_one_face(moments: Seq<Moment<Encoding>>, timeout: Duration)
    ensures
        capture_run(WatchView::Fresh, moments, timeout) is Some <==> exists|i: int|
            0 <= i < moments.len() && (#[trigger] moments[i] is Over || shows_one_face(moments[i])),
        capture_run(WatchView::Fresh, moments, timeout) matches Some(Ok(_)) <==> exists|i: int|
            #[trigger] capture_reaches(moments, i) && shows_one_face(moments[i]),
        forall|i: int| #[trigger]
            capture_reaches(moments, i) && shows_one_face(moments[i]) ==> capture_run(
                WatchView::Fresh,
                moments,
                timeout,
            ) == Some(Ok::<Seq<u32>, ErrorView>(moments[i]->Faces_0@[0]@)),
        forall|i: int| #[trigger]
            capture_reaches(moments, i) && moments[i] is Over ==> capture_run(
                WatchView::Fresh,
                moments,
                timeout,
            ) == Some(Err::<Seq<u32>, ErrorView>(given_up(moments, i, timeout))),
{
    let goes_on = |m: Moment<Encoding>| !(m is Over) && !shows_one_face(m);
    assert forall|i: int| #[trigger] capture_reaches(moments, i) && (moments[i] is Over
        || shows_one_face(moments[i])) implies capture_run(WatchView::Fresh, moments, timeout)
        == Some(
        if moments[i] is Over {
            Err::<Seq<u32>, ErrorView>(given_up(moments, i, timeout))
        } else {
            Ok::<Seq<u32>, ErrorView>(moments[i]->Faces_0@[0]@)
        },
    ) by {
        lemma_capture_run(WatchView::Fresh, moments, timeout, i);
        lemma_given_up(moments, i, timeout);
    }
    if exists|k: int| 0 <= k < moments.len() && !goes_on(#[trigger] moments[k]) {
        let k = choose|k: int| 0 <= k < moments.len() && !goes_on(#[trigger] moments[k]);
        let i = lemma_first(moments, goes_on, k);
        assert forall|j: int| 0 <= j < i implies !(#[trigger] moments[j] is Over)
            && !shows_one_face(moments[j]) by {
            assert(goes_on(moments[j]));
        }
        assert(capture_reaches(moments, i));
        assert(moments[i] is Over || shows_one_face(moments[i]));
    } else {
        assert forall|j: int| 0 <= j < moments.len() implies !(#[trigger] moments[j] is Over)
            && !shows_one_face(moments[j]) by {
            assert(goes_on(moments[j]));
        }
        lemma_capture_goes_on(WatchView::Fresh, moments, timeout);
    }
}

// ---------------------------------------------------------------------------
// Authentication
// ---------------------------------------------------------------------------

/// The camera to watch for a user, from the user's model. There is nothing to
/// compare with in a model that holds no encodings.
pub fn enrolled_camera(model: &FaceModel) -> (r: Result<CameraId, FaceAuthError>)
    ensures
        if model.encodings@.len() == 0 {
            r matches Err(e) && e@ == ErrorView::ModelNotFound(model.username@)
        } else {
            r == Ok::<CameraId, FaceAuthError>(model.camera)
        },
{
    if model.encodings.len() == 0 {
        Err(FaceAuthError::ModelNotFound(model.username.clone()))
    } else {
        Ok(model.camera.clone())
    }
}

/// A face, given by the distances from it to the enrolled encodings, is one of the
/// enrolled.
pub open spec fn is_enrolled(distances: Seq<u64>) -> bool {
    exists|i: int| 0 <= i < distances.len() && #[trigger] distances[i] < DISTANCE_THRESHOLD
}

/// One of the faces is enrolled.
pub open spec fn any_enrolled(faces: Seq<Vec<u64>>) -> bool {
    exists|i: int| 0 <= i < faces.len() && is_enrolled(#[trigger] faces[i]@)
}

/// The end that a round brings to an authentication, if it brings one: the time is up,
/// the encoder fails, or an enrolled face is in sight. A frame that is lost, or that
/// decoding fails on, is passed over.
pub open spec fn auth_end(watch: WatchView, moment: Moment<Vec<u64>>, timeout: Duration) -> Option<
    Result<(), ErrorView>,
> {
    match moment {
        Moment::Over => Some(Err(watch.at_the_end(timeout))),
        Moment::Unreadable(e) => Some(Err(e@)),
        Moment::Faces(faces) => if any_enrolled(faces@) {
            Some(Ok(()))
        } else {
            None
        },
        _ => None,
    }
}

fn any_matches(faces: &Vec<Vec<u64>>) -> (r: bool)
    ensures
        r == any_enrolled(faces@),
        r <==> exists|i: int, k: int|
            0 <= i < faces@.len() && 0 <= k < faces@[i]@.len() && #[trigger] faces@[i]@[k]
                < DISTANCE_THRESHOLD,
{
    proof {
        law_any_face_any_encoding(faces@);
    }
    let mut i: usize = 0;
    while i < faces.len()
        invariant
            i <= faces.len(),
            forall|j: int| 0 <= j < i ==> !is_enrolled(#[trigger] faces@[j]@),
        decreases faces.len() - i,
    {
        if matches_model(&faces[i]) {
            proof {
                assert(is_enrolled(faces@[i as int]@));
            }
            return true;
        }
        i = i + 1;
    }
    false
}

/// What to do after a round of watching for an enrolled face. Each face in sight is
/// given by the distances, as bit patterns, from it to the enrolled encodings; `watch`
/// is what was known of the camera before.
pub fn authenticate_with_encoder(
    watch: Watch,
    moment: Moment<Vec<u64>>,
    config: &AuthConfig,
) -> (r: Step<()>)
    ensures
        match auth_end(watch@, moment, config.timeout) {
            Some(Ok(_)) => r matches Step::Stop(Ok(_)),
            Some(Err(e)) => r matches Step::Stop(Err(got)) && got@ == e,
            None => r matches Step::Wait { pause, watch: next } && pause == config.frame_interval
                && next@ == watch@.after(moment),
        },
        moment matches Moment::Faces(faces) ==> ((exists|i: int, k: int|
            0 <= i < faces@.len() && 0 <= k < faces@[i]@.len() && #[trigger] faces@[i]@[k]
                < DISTANCE_THRESHOLD) <==> r matches Step::Stop(Ok(_))),
        !(moment is Faces) ==> !(r matches Step::Stop(Ok(_))),
{
    let pause: Duration = config.frame_interval;
    match moment {
        Moment::Over => Step::Stop(Err(watch.report(config.timeout))),
        Moment::NoFrame(e) => Step::Wait { pause, watch: watch.lost(e) },
        Moment::Garbled => Step::Wait { pause, watch: Watch::Seen },
        Moment::Unreadable(e) => Step::Stop(Err(e)),
        Moment::Faces(faces) => {
            proof {
                law_any_face_any_encoding(faces@);
            }
            if any_matches(&faces) {
                Step::Stop(Ok(()))
            } else {
                Step::Wait { pause, watch: Watch::Seen }
            }
        },
    }
}

/// What an authentication comes to that sees `moments` one after another; `None`
/// while none of them ends it.
pub open spec fn auth_run(
    watch: WatchView,
    moments: Seq<Moment<Vec<u64>>>,
    timeout: Duration,
) -> Option<Result<(), ErrorView>>
    decreases moments.len(),
{
    if moments.len() == 0 {
        None
    } else {
        match auth_end(watch, moments[0], timeout) {
            Some(end) => Some(end),
            None => auth_run(watch.after(moments[0]), moments.drop_first(), timeout),
        }
    }
}

/// A frame with an enrolled face, among others or alone.
pub open spec fn shows_enrolled_face(moment: Moment<Vec<u64>>) -> bool {
    moment matches Moment::Faces(faces) && any_enrolled(faces@)
}

/// The attempt goes on after a round that brought this.
pub open spec fn auth_goes_on(moment: Moment<Vec<u64>>) -> bool {
    !(moment is Over) && !(moment is Unreadable) && !shows_enrolled_face(moment)
}

/// Round `i` is in time: no round before it finds the time up or the encoder failing.
pub open spec fn in_time(moments: Seq<Moment<Vec<u64>>>, i: int) -> bool {
    &&& 0 <= i < moments.len()
    &&& forall|j: int|
        0 <= j < i ==> !(#[trigger] moments[j] is Over) && !(moments[j] is Unreadable)
}

/// Round `i` is reached: the attempt goes on after each round before it.
pub open spec fn auth_reaches(moments: Seq<Moment<Vec<u64>>>, i: int) -> bool {
    &&& 0 <= i < moments.len()
    &&& forall|j: int| 0 <= j < i ==> auth_goes_on(#[trigger] moments[j])
}

proof fn lemma_auth_run(
    watch: WatchView,
    moments: Seq<Moment<Vec<u64>>>,
    timeout: Duration,
    i: int,
)
    requires
        auth_reaches(moments, i),
        !auth_goes_on(moments[i]),
    ensures
        auth_run(watch, moments, timeout) == auth_end(
            watch_at(watch, moments, i),
            moments[i],
            timeout,
        ),
    decreases i,
{
    if i > 0 {
        let rest = moments.drop_first();
        assert(auth_goes_on(moments[0]));
        assert(auth_end(watch, moments[0], timeout) is None);
        assert forall|j: int| 0 <= j < i - 1 implies auth_goes_on(#[trigger] rest[j]) by {
            assert(rest[j] == moments[j + 1]);
        }
        assert(rest[i - 1] == moments[i]);
        lemma_auth_run(watch.after(moments[0]), rest, timeout, i - 1);
        lemma_watch_skips_first(watch, moments, i - 1);
    }
}

proof fn lemma_auth_goes_on(
    watch: WatchView,
    moments: Seq<Moment<Vec<u64>>>,
    timeout: Duration,
)
    requires
        forall|j: int| 0 <= j < moments.len() ==> auth_goes_on(#[trigger] moments[j]),
    ensures
        auth_run(watch, moments, timeout) is None,
    decreases moments.len(),
{
    if moments.len() > 0 {
        let rest = moments.drop_first();
        assert(auth_goes_on(moments[0]));
        assert(auth_end(watch, moments[0], timeout) is None);
        assert forall|j: int| 0 <= j < rest.len() implies auth_goes_on(#[trigger] rest[j]) by {
            assert(rest[j] == moments[j + 1]);
        }
        lemma_auth_goes_on(watch.after(moments[0]), rest, timeout);
    }
}

/// Authentication succeeds exactly if a frame shows a face whose distance to an enrolled
/// encoding is below the threshold, before the time is up and the encoder fails,
/// whatever the other rounds before it brought. If none does, it ends when the time is
/// up: in a timeout, or in the camera's error if no round brought a frame; or in the
/// error of the encoder.
pub proof fn law_auth_needs_enrolled_face(moments: Seq<Moment<Vec<u64>>>, timeout: Duration)
    ensures
        auth_run(WatchView::Fresh, moments, timeout) is Some <==> exists|i: int|
            0 <= i < moments.len() && !auth_goes_on(#[trigger] moments[i]),
        auth_run(WatchView::Fresh, moments, timeout) == Some(Ok::<(), ErrorView>(())) <==> exists|
            i: int,
        | #[trigger]
            in_time(moments, i) && shows_enrolled_face(moments[i]),
        forall|i: int| #[trigger]
            auth_reaches(moments, i) && moments[i] is Over ==> auth_run(
                WatchView::Fresh,
                moments,
                timeout,
            ) == Some(Err::<(), ErrorView>(given_up(moments, i, timeout))),
        forall|i: int| #[trigger]
            auth_reaches(moments, i) ==> (moments[i] matches Moment::Unreadable(e) ==> auth_run(
                WatchView::Fresh,
                moments,
                timeout,
            ) == Some(Err::<(), ErrorView>(e@))),
{
    let run = auth_run(WatchView::Fresh, moments, timeout);
    let goes_on = |m: Moment<Vec<u64>>| auth_goes_on(m);
    assert forall|i: int| #[trigger]
        auth_reaches(moments, i) && !auth_goes_on(moments[i]) implies run == Some(
        match moments[i] {
            Moment::Over => Err::<(), ErrorView>(given_up(moments, i, timeout)),
            Moment::Unreadable(e) => Err::<(), ErrorView>(e@),
            _ => Ok::<(), ErrorView>(()),
        },
    ) by {
        lemma_auth_run(WatchView::Fresh, moments, timeout, i);
        assert forall|j: int| 0 <= j < i implies !(#[trigger] moments[j] is Over) by {
            assert(auth_goes_on(moments[j]));
        }
        lemma_given_up(moments, i, timeout);
    }
    if exists|k: int| 0 <= k < moments.len() && !auth_goes_on(#[trigger] moments[k]) {
        let k = choose|k: int| 0 <= k < moments.len() && !auth_goes_on(#[trigger] moments[k]);
        let i = lemma_first(moments, goes_on, k);
        assert forall|j: int| 0 <= j < i implies auth_goes_on(#[trigger] moments[j]) by {
            assert(goes_on(moments[j]));
        }
        assert(auth_reaches(moments, i));
        assert(!auth_goes_on(moments[i]));
        if run == Some(Ok::<(), ErrorView>(())) {
            assert(shows_enrolled_face(moments[i]));
            assert forall|j: int| 0 <= j < i implies !(#[trigger] moments[j] is Over) && !(
            moments[j] is Unreadable) by {
                assert(auth_goes_on(moments[j]));
            }
            assert(in_time(moments, i));
        }
        assert forall|m: int| #[trigger]
            in_time(moments, m) && shows_enrolled_face(moments[m]) implies run == Some(
            Ok::<(), ErrorView>(()),
        ) by {
            if m < i {
                assert(auth_goes_on(moments[m]));
            } else if i < m {
                assert(!(moments[i] is Over) && !(moments[i] is Unreadable));
            }
            assert(shows_enrolled_face(moments[i]));
        }
    } else {
        assert forall|j: int| 0 <= j < moments.len() implies auth_goes_on(#[trigger] moments[j]) by {
            assert(!(!auth_goes_on(moments[j])));
        }
        lemma_auth_goes_on(WatchView::Fresh, moments, timeout);
        assert forall|m: int| #[trigger] in_time(moments, m) implies !shows_enrolled_face(
            moments[m],
        ) by {
            assert(auth_goes_on(moments[m]));
        }
    }
}

// ---------------------------------------------------------------------------
// Replies of the camera thread
// ---------------------------------------------------------------------------

/// What the camera thread answers to an authentication request.
pub fn perform_auth(outcome: Result<(), FaceAuthError>) -> (r: Result<(), String>)
    ensures
        match outcome {
            Ok(_) => r is Ok,
            Err(e) => r matches Err(m) && m@ == e@.text(),
        },
{
    match outcome {
        Ok(_) => Ok(()),
        Err(e) => Err(e.message()),
    }
}

/// What the camera thread answers to a capture request.
pub fn perform_capture(outcome: Result<Encoding, FaceAuthError>) -> (r: Result<
    Vec<u32>,
    String,
>)
    ensures
        match outcome {
            Ok(enc) => r matches Ok(data) && data@ == enc@,
            Err(e) => r matches Err(m) && m@ == e@.text(),
        },
{
    match outcome {
        Ok(enc) => Ok(encoding_to_vec(&enc)),
        Err(e) => Err(e.message()),
    }
}

/// What the camera thread answers to every request while it has no face encoder.
pub fn encoder_unavailable(reason: &FaceAuthError) -> (r: String)
    ensures
        r@ == "face encoder unavailable: "@ + reason@.text(),
{
    concat2("face encoder unavailable: ", reason.message().as_str())
}

// ---------------------------------------------------------------------------
// Laws in terms of faces and distances
// ---------------------------------------------------------------------------

/// A face is recognised exactly if its distance to any one of the enrolled encodings is
/// below 0.6, given by its bit pattern here, wherever the encoding stands in the model
/// and whichever other faces are in sight.
pub proof fn law_any_face_any_encoding(faces: Seq<Vec<u64>>)
    ensures
        any_enrolled(faces) <==> exists|i: int, k: int|
            0 <= i < faces.len() && 0 <= k < faces[i]@.len() && #[trigger] faces[i]@[k]
                < 0x3fe3_3333_3333_3333,
{
    if any_enrolled(faces) {
        let i = choose|i: int| 0 <= i < faces.len() && is_enrolled(#[trigger] faces[i]@);
        let d = faces[i]@;
        let k = choose|k: int| 0 <= k < d.len() && #[trigger] d[k] < DISTANCE_THRESHOLD;
        assert(faces[i]@[k] < 0x3fe3_3333_3333_3333);
    }
    if exists|i: int, k: int|
        0 <= i < faces.len() && 0 <= k < faces[i]@.len() && #[trigger] faces[i]@[k]
            < 0x3fe3_3333_3333_3333 {
        let (i, k) = choose|i: int, k: int|
            0 <= i < faces.len() && 0 <= k < faces[i]@.len() && #[trigger] faces[i]@[k]
                < 0x3fe3_3333_3333_3333;
        let d = faces[i]@;
        assert(d[k] < DISTANCE_THRESHOLD);
        assert(is_enrolled(faces[i]@));
    }
}

/// Another enrolled encoding, or another face in sight, never keeps a face from being
/// recognised.
pub proof fn law_more_never_hurts(
    faces: Seq<Vec<u64>>,
    before: Seq<Vec<u64>>,
    after: Seq<Vec<u64>>,
    distances: Seq<u64>,
    first: Seq<u64>,
    last: Seq<u64>,
)
    ensures
        any_enrolled(before + faces + after) <==> any_enrolled(before) || any_enrolled(faces)
            || any_enrolled(after),
        is_enrolled(first + distances + last) <==> is_enrolled(first) || is_enrolled(distances)
            || is_enrolled(last),
{
    let all = before + faces + after;
    let m = before.len() as int;
    let n = m + faces.len();
    assert forall|i: int| 0 <= i < m implies #[trigger] before[i] == all[i] by {}
    assert forall|i: int| 0 <= i < faces.len() implies #[trigger] faces[i] == all[m + i] by {}
    assert forall|i: int| 0 <= i < after.len() implies #[trigger] after[i] == all[n + i] by {}
    if any_enrolled(all) {
        let i = choose|i: int| 0 <= i < all.len() && is_enrolled(#[trigger] all[i]@);
        if i < m {
            assert(is_enrolled(before[i]@));
        } else if i < n {
            assert(is_enrolled(faces[i - m]@));
        } else {
            assert(is_enrolled(after[i - n]@));
        }
    }
    if any_enrolled(before) {
        let i = choose|i: int| 0 <= i < before.len() && is_enrolled(#[trigger] before[i]@);
        assert(is_enrolled(all[i]@));
    }
    if any_enrolled(faces) {
        let i = choose|i: int| 0 <= i < faces.len() && is_enrolled(#[trigger] faces[i]@);
        assert(is_enrolled(all[m + i]@));
    }
    if any_enrolled(after) {
        let i = choose|i: int| 0 <= i < after.len() && is_enrolled(#[trigger] after[i]@);
        assert(is_enrolled(all[n + i]@));
    }
    let whole = first + distances + last;
    let p = first.len() as int;
    let q = p + distances.len();
    if is_enrolled(whole) {
        let i = choose|i: int| 0 <= i < whole.len() && #[trigger] whole[i] < DISTANCE_THRESHOLD;
        if i < p {
            assert(first[i] < DISTANCE_THRESHOLD);
        } else if i < q {
            assert(distances[i - p] < DISTANCE_THRESHOLD);
        } else {
            assert(last[i - q] < DISTANCE_THRESHOLD);
        }
    }
    if is_enrolled(first) {
        let i = choose|i: int| 0 <= i < first.len() && #[trigger] first[i] < DISTANCE_THRESHOLD;
        assert(whole[i] < DISTANCE_THRESHOLD);
    }
    if is_enrolled(distances) {
        let i = choose|i: int|
            0 <= i < distances.len() && #[trigger] distances[i] < DISTANCE_THRESHOLD;
        assert(whole[p + i] < DISTANCE_THRESHOLD);
    }
    if is_enrolled(last) {
        let i = choose|i: int| 0 <= i < last.len() && #[trigger] last[i] < DISTANCE_THRESHOLD;
        assert(whole[q + i] < DISTANCE_THRESHOLD);
    }
}

/// An attempt succeeds exactly if, in a round before the time is up and the encoder
/// fails, the distance from some face to some enrolled encoding is below 0.6, given by
/// its bit pattern here.
pub proof fn law_attempt_by_distances(moments: Seq<Moment<Vec<u64>>>, timeout: Duration)
    ensures
        auth_run(WatchView::Fresh, moments, timeout) == Some(Ok::<(), ErrorView>(())) <==> exists|
            m: int,
            i: int,
            k: int,
        |
            0 <= m < moments.len() && moments[m] is Faces && 0 <= i < moments[m]->Faces_0@.len()
                && 0 <= k < moments[m]->Faces_0@[i]@.len() && #[trigger] moments[m]->Faces_0@[i]@[k]
                < 0x3fe3_3333_3333_3333 && forall|j: int|
                0 <= j < m ==> !(#[trigger] moments[j] is Over) && !(moments[j] is Unreadable),
{
    law_auth_needs_enrolled_face(moments, timeout);
    let run = auth_run(WatchView::Fresh, moments, timeout);
    if run == Some(Ok::<(), ErrorView>(())) {
        let m = choose|m: int| #[trigger]
            in_time(moments, m) && shows_enrolled_face(moments[m]);
        let faces = moments[m]->Faces_0@;
        law_any_face_any_encoding(faces);
        let (i, k) = choose|i: int, k: int|
            0 <= i < faces.len() && 0 <= k < faces[i]@.len() && #[trigger] faces[i]@[k]
                < 0x3fe3_3333_3333_3333;
        assert(moments[m]->Faces_0@[i]@[k] < 0x3fe3_3333_3333_3333);
    }
    if exists|m: int, i: int, k: int|
        0 <= m < moments.len() && moments[m] is Faces && 0 <= i < moments[m]->Faces_0@.len() && 0
            <= k < moments[m]->Faces_0@[i]@.len() && #[trigger] moments[m]->Faces_0@[i]@[k]
            < 0x3fe3_3333_3333_3333 && forall|j: int|
            0 <= j < m ==> !(#[trigger] moments[j] is Over) && !(moments[j] is Unreadable) {
        let (m, i, k) = choose|m: int, i: int, k: int|
            0 <= m < moments.len() && moments[m] is Faces && 0 <= i < moments[m]->Faces_0@.len()
                && 0 <= k < moments[m]->Faces_0@[i]@.len() && #[trigger] moments[m]->Faces_0@[i]@[k]
                < 0x3fe3_3333_3333_3333 && forall|j: int|
                0 <= j < m ==> !(#[trigger] moments[j] is Over) && !(moments[j] is Unreadable);
        let faces = moments[m]->Faces_0@;
        law_any_face_any_encoding(faces);
        assert(faces[i]@[k] < 0x3fe3_3333_3333_3333);
        assert(in_time(moments, m) && shows_enrolled_face(moments[m]));
    }
}

/// A capture gives the one face of round `m` exactly if that round shows no other face,
/// and no round before it shows exactly one or finds the time up.
pub proof fn law_capture_by_faces(moments: Seq<Moment<Encoding>>, m: int, timeout: Duration)
    requires
        0 <= m < moments.len(),
        forall|j: int|
            0 <= j < m ==> !(#[trigger] moments[j] is Over) && (moments[j] matches Moment::Faces(
                faces,
            ) ==> faces@.len() != 1),
    ensures
        moments[m] matches Moment::Faces(faces) ==> (faces@.len() == 1 ==> capture_run(
            WatchView::Fresh,
            moments,
            timeout,
        ) == Some(Ok::<Seq<u32>, ErrorView>(faces@[0]@))),
        moments[m] is Over ==> (capture_run(WatchView::Fresh, moments, timeout) matches Some(
            Err(_),
        )),
        moments[m] is Over && (exists|j: int| 0 <= j < m && !(#[trigger] moments[j] is NoFrame))
            ==> capture_run(WatchView::Fresh, moments, timeout) == Some(
            Err::<Seq<u32>, ErrorView>(ErrorView::Timeout(timeout.secs)),
        ),
        m == moments.len() - 1 && !(moments[m] is Over) && (moments[m] matches Moment::Faces(faces)
            ==> faces@.len() != 1) ==> capture_run(WatchView::Fresh, moments, timeout) is None,
{
    law_capture_sees_one_face(moments, timeout);
    assert forall|j: int| 0 <= j < m implies !(#[trigger] moments[j] is Over) && !shows_one_face(
        moments[j],
    ) by {}
    assert(capture_reaches(moments, m));
    if m == moments.len() - 1 && !(moments[m] is Over) && !shows_one_face(moments[m]) {
        assert forall|j: int| 0 <= j < moments.len() implies !(#[trigger] moments[j] is Over)
            && !shows_one_face(moments[j]) by {}
    }
}

/// When the time is up, a loop that got a frame, however late and whatever was lost
/// before or after, reports a timeout of its own length; one that got none reports why
/// the last read failed.
pub proof fn law_report_at_the_end<T>(
    before: Seq<Moment<T>>,
    after: Seq<Moment<T>>,
    moment: Moment<T>,
    e: FaceAuthError,
    timeout: Duration,
)
    requires
        forall|i: int| 0 <= i < before.len() ==> !(#[trigger] before[i] is Over),
        forall|i: int| 0 <= i < after.len() ==> !(#[trigger] after[i] is Over),
        !(moment is Over) && !(moment is NoFrame),
    ensures
        ({
            let all = before.push(moment) + after;
            watch_at(WatchView::Fresh, all, all.len() as int).at_the_end(timeout)
                == ErrorView::Timeout(timeout.secs)
        }),
        (forall|i: int| 0 <= i < before.len() ==> #[trigger] before[i] is NoFrame) ==> ({
            let all = before.push(Moment::NoFrame(e));
            watch_at(WatchView::Fresh, all, all.len() as int).at_the_end(timeout) == e@
        }),
        WatchView::Fresh.at_the_end(timeout) == ErrorView::Timeout(timeout.secs),
{
    let all = before.push(moment) + after;
    assert(all[before.len() as int] == moment);
    assert forall|i: int| 0 <= i < all.len() implies !(#[trigger] all[i] is Over) by {
        if i < before.len() {
            assert(all[i] == before[i]);
        } else if i > before.len() {
            assert(all[i] == after[i - before.len() - 1]);
        }
    }
    lemma_given_up(all, all.len() as int, timeout);
    assert(!(all[before.len() as int] is NoFrame));
    if forall|i: int| 0 <= i < before.len() ==> #[trigger] before[i] is NoFrame {
        let lost = before.push(Moment::NoFrame(e));
        assert forall|i: int| 0 <= i < lost.len() implies #[trigger] lost[i] is NoFrame by {
            if i < before.len() {
                assert(lost[i] == before[i]);
            }
        }
        lemma_given_up(lost, lost.len() as int, timeout);
        assert(lost[lost.len() - 1] == Moment::<T>::NoFrame(e));
    }
}

/// Spans of time are compared by their seconds, and by the rest where these are alike.
pub proof fn law_spans_compare(a: Duration, b: Duration)
    requires
        a.wf(),
        b.wf(),
    ensures
        a.total() > b.total() <==> a.secs > b.secs || (a.secs == b.secs && a.nanos > b.nanos),
        a.total() == b.total() <==> a == b,
{
}

/// What a loop knows of the camera is told by whether a frame came, and else by why none
/// did.
pub proof fn law_watch_by_contents(a: Watch, b: Watch)
    ensures
        a@ == b@ ==> match (a, b) {
            (Watch::Fresh, Watch::Fresh) => true,
            (Watch::Seen, Watch::Seen) => true,
            (Watch::Unread(x), Watch::Unread(y)) => x@ == y@,
            _ => false,
        },
{
}

}
