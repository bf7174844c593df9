//! The authentication module: which sessions it attends to, and what it answers.

use vstd::prelude::*;
use vstd::string::*;

use crate::camera::{device_path, video_device_path};
use crate::cli::{camera_display, display_camera};
use crate::error::{ErrorView, FaceAuthError};
use crate::model::{CameraIdView, FaceModel};
use crate::text::{
    chars_of, concat2, concat3, contains, decimal, decimal_text, has_prefix, is_whitespace,
    law_contains_part, law_decimal_digits, law_lines, law_lines_append, law_parse_decimal,
    law_whitespace, law_words, lines, number_in, occurs_at, parse_number, same_text, split_lines,
    split_words, starts_with, string_of, trim, trimmed, words,
};

verus! {

// ---------------------------------------------------------------------------
// The session
// ---------------------------------------------------------------------------

/// The first of `texts` that begins with `pat`.
pub open spec fn first_with_prefix(texts: Seq<Seq<char>>, pat: Seq<char>) -> Option<Seq<char>>
    decreases texts.len(),
{
    if texts.len() == 0 {
        None
    } else if starts_with(texts[0], pat) {
        Some(texts[0])
    } else {
        first_with_prefix(texts.drop_first(), pat)
    }
}

/// The number of the parent process in the text of a process's status file.
pub open spec fn parent_in_status(status: Seq<char>) -> Option<u32> {
    match first_with_prefix(lines(status), "PPid:"@) {
        Some(line) => if words(line).len() > 1 {
            parse_number(words(line)[1])
        } else {
            None
        },
        None => None,
    }
}

/// The number of the parent of a process, from the text of its status file; `None`
/// if the file could not be read.
pub fn ppid_of(status: &Option<String>) -> (r: Option<u32>)
    ensures
        r == match status {
            Some(text) => parent_in_status(text@),
            None => None,
        },
{
    let text: &String = match status {
        None => {
            return None;
        },
        Some(text) => text,
    };
    let all: Vec<String> = split_lines(text.as_str());
    let ghost texts = all.deep_view();
    let mut i: usize = 0;
    proof {
        assert(texts.skip(0) =~= texts);
    }
    while i < all.len()
        invariant
            i <= all.len(),
            texts == all.deep_view(),
            texts == lines(text@),
            *status == Some(*text),
            first_with_prefix(texts, "PPid:"@) == first_with_prefix(
                texts.skip(i as int),
                "PPid:"@,
            ),
        decreases all.len() - i,
    {
        proof {
            assert(texts.skip(i as int)[0] == all@[i as int]@);
            assert(texts.skip(i as int).drop_first() =~= texts.skip(i + 1));
        }
        if has_prefix(all[i].as_str(), "PPid:") {
            let parts: Vec<String> = split_words(all[i].as_str());
            proof {
                assert(parts.deep_view().len() == parts@.len());
            }
            if parts.len() > 1 {
                proof {
                    assert(parts.deep_view()[1] == parts@[1]@);
                }
                return number_in(parts[1].as_str());
            }
            return None;
        }
        i = i + 1;
    }
    None
}

/// The name of a process, from the contents of its name file.
pub fn process_name(comm: Option<String>) -> (r: Option<String>)
    ensures
        match comm {
            Some(text) => r matches Some(name) && name@ == trim(text@),
            None => r is None,
        },
{
    match comm {
        Some(text) => Some(trimmed(text.as_str())),
        None => None,
    }
}

/// The next process on the way from a process to the first of the system: its parent,
/// from the text of its status file. The first has none.
pub fn next_ancestor(pid: u32, status: &Option<String>) -> (r: Option<u32>)
    ensures
        r == if pid <= 1 {
            None
        } else {
            match status {
                Some(text) => parent_in_status(text@),
                None => None,
            }
        },
{
    if pid <= 1 {
        None
    } else {
        ppid_of(status)
    }
}

/// A process, given by the contents of its name file if it could be read, is the one
/// that serves secure shell sessions.
pub open spec fn is_sshd(comm: Option<String>) -> bool {
    comm matches Some(text) && trim(text@) == "sshd"@
}

/// A session server is among the ancestors.
pub open spec fn inside_ssh(ancestors: Seq<Option<String>>) -> bool {
    exists|i: int| 0 <= i < ancestors.len() && is_sshd(#[trigger] ancestors[i])
}

/// Whether a session server is among the ancestors of a process, up to the first
/// process of the system. Each is given by the contents of its name file, if it could
/// be read.
pub fn has_sshd_ancestor(ancestors: &Vec<Option<String>>) -> (r: bool)
    ensures
        r == inside_ssh(ancestors@),
        r <==> exists|i: int|
            0 <= i < ancestors@.len() && (#[trigger] ancestors@[i] matches Some(comm) && trim(comm@)
                == "sshd"@),
{
    let mut i: usize = 0;
    while i < ancestors.len()
        invariant
            i <= ancestors.len(),
            forall|j: int| 0 <= j < i ==> !is_sshd(#[trigger] ancestors@[j]),
        decreases ancestors.len() - i,
    {
        match &ancestors[i] {
            Some(text) => {
                if same_text(trimmed(text.as_str()).as_str(), "sshd") {
                    proof {
                        assert(is_sshd(ancestors@[i as int]));
                    }
                    return true;
                }
            },
            None => {},
        }
        i = i + 1;
    }
    false
}

/// What follows the last closing bracket of `s`; all of it if there is none.
pub open spec fn after_last_bracket(s: Seq<char>) -> Seq<char>
    decreases s.len(),
{
    if s.len() == 0 {
        s
    } else if s.last() == ')' {
        Seq::empty()
    } else {
        after_last_bracket(s.drop_last()).push(s.last())
    }
}

/// The process has a controlling terminal, by the text of its `stat` file: the fifth
/// field behind the bracketed name is the terminal's number, 0 if there is none.
pub open spec fn tty_in_stat(stat: Seq<char>) -> bool {
    let fields = words(after_last_bracket(stat));
    fields.len() > 4 && fields[4] != "0"@
}

/// Whether a process has a controlling terminal, from the text of its `stat` file. A
/// file that could not be read shows none.
pub fn has_controlling_tty(stat: &Option<String>) -> (r: bool)
    ensures
        r == (stat matches Some(text) && tty_in_stat(text@)),
{
    let text: &String = match stat {
        None => {
            return false;
        },
        Some(text) => text,
    };
    let v: Vec<char> = chars_of(text.as_str());
    let mut from: usize = v.len();
    proof {
        assert(v@.take(from as int) =~= v@);
        let whole = after_last_bracket(v@);
        assert(whole + v@.skip(from as int) =~= whole);
    }
    while from > 0 && v[from - 1] != ')'
        invariant
            from <= v.len(),
            after_last_bracket(v@) == after_last_bracket(v@.take(from as int)) + v@.skip(
                from as int,
            ),
        decreases from,
    {
        proof {
            let part = v@.take(from as int);
            assert(part.drop_last() =~= v@.take(from - 1));
            assert(part.last() == v@[from - 1]);
            let inner = after_last_bracket(v@.take(from - 1));
            assert(inner.push(part.last()) + v@.skip(from as int) =~= inner + v@.skip(from - 1));
        }
        from = from - 1;
    }
    let tail: String = string_of(&v, from, v.len());
    proof {
        let part = v@.take(from as int);
        assert(after_last_bracket(part) =~= Seq::empty()) by {
            if from > 0 {
                assert(part.last() == v@[from - 1]);
            }
        }
        assert(tail@ =~= after_last_bracket(v@));
    }
    let fields: Vec<String> = split_words(tail.as_str());
    proof {
        assert(fields.deep_view().len() == fields@.len());
    }
    if fields.len() > 4 {
        proof {
            assert(fields.deep_view()[4] == fields@[4]@);
        }
        !same_text(fields[4].as_str(), "0")
    } else {
        false
    }
}

/// Whether a request comes from another host: whether the name of one, given by its
/// bytes, is set and not empty.
pub fn is_remote_session(rhost: &Option<Vec<u8>>) -> (r: bool)
    ensures
        r == (rhost matches Some(host) && host@.len() > 0),
{
    match rhost {
        Some(host) => host.len() > 0,
        None => false,
    }
}

/// What the authentication stack is answered.
#[derive(Debug, Clone, Copy, PartialEq, Eq, Structural)]
pub enum PamOutcome {
    Success,
    /// Face authentication is of no use here: go on with the next module.
    AuthinfoUnavail,
}

/// The user whose face is looked for: the one who invokes a service such as `sudo`,
/// else the one to authenticate. `user` is the latter, if the stack names one.
pub fn authenticating_user(invoker: Option<String>, user: Option<String>) -> (r: Result<
    String,
    PamOutcome,
>)
    ensures
        match (invoker, user) {
            (Some(name), _) if name@.len() > 0 => r == Ok::<String, PamOutcome>(name),
            (_, Some(name)) => r == Ok::<String, PamOutcome>(name),
            (_, None) => r == Err::<String, PamOutcome>(PamOutcome::AuthinfoUnavail),
        },
{
    if let Some(name) = invoker {
        if !name.as_str().is_empty() {
            return Ok(name);
        }
    }
    match user {
        Some(name) => Ok(name),
        None => Err(PamOutcome::AuthinfoUnavail),
    }
}

// ---------------------------------------------------------------------------
// An attempt
// ---------------------------------------------------------------------------

/// What is known of a session when the module is called.
pub struct Session {
    pub username: String,
    /// The user's number, if the system knows the user.
    pub uid: Option<u32>,
    /// The service that asks for authentication.
    pub service: String,
    /// The name of the process that started it, if it is known.
    pub parent: Option<String>,
    /// The request comes from another host.
    pub remote: bool,
    /// The session runs inside a secure shell session.
    pub inside_ssh: bool,
    /// The process has a controlling terminal.
    pub has_tty: bool,
}

/// The user as named in the log.
pub open spec fn user_desc(s: Session) -> Seq<char> {
    match s.uid {
        Some(uid) => s.username@ + " (uid: "@ + decimal(uid as nat) + ")"@,
        None => s.username@,
    }
}

/// Who asks for authentication, as named in the log.
pub open spec fn caller_desc(s: Session) -> Seq<char> {
    match s.parent {
        Some(name) => s.service@ + " via "@ + name@,
        None => s.service@,
    }
}

/// The camera as named in the log.
pub open spec fn camera_desc(camera: CameraIdView) -> Seq<char> {
    match camera.by_id {
        Some(id) => device_path(camera.index) + " ("@ + id + ")"@,
        None => device_path(camera.index),
    }
}

/// A line of the log about a session.
pub open spec fn log_text(s: Session, before: Seq<char>, after: Seq<char>) -> Seq<char> {
    "["@ + caller_desc(s) + "] "@ + before + user_desc(s) + after
}

fn describe_user(s: &Session) -> (r: String)
    ensures
        r@ == user_desc(*s),
{
    match s.uid {
        Some(uid) => {
            let mut out: String = s.username.clone();
            out.append(" (uid: ");
            out.append(decimal_text(uid as u64).as_str());
            out.append(")");
            out
        },
        None => s.username.clone(),
    }
}

fn describe_caller(s: &Session) -> (r: String)
    ensures
        r@ == caller_desc(*s),
{
    match &s.parent {
        Some(name) => concat3(s.service.as_str(), " via ", name.as_str()),
        None => s.service.clone(),
    }
}

fn describe_camera(model: &FaceModel) -> (r: String)
    ensures
        r@ == camera_desc(model@.camera),
{
    match &model.camera.by_id {
        Some(id) => {
            let mut out: String = video_device_path(model.camera.index);
            out.append(" (");
            out.append(id.as_str());
            out.append(")");
            out
        },
        None => video_device_path(model.camera.index),
    }
}

fn log_line(s: &Session, before: &str, after: &str) -> (r: String)
    ensures
        r@ == log_text(*s, before@, after@),
{
    let mut out: String = String::from_str("[");
    out.append(describe_caller(s).as_str());
    out.append("] ");
    out.append(before);
    out.append(describe_user(s).as_str());
    out.append(after);
    out
}

/// How the module ends: what it answers, what it logs, and what it tells the user.
pub struct Verdict {
    pub outcome: PamOutcome,
    /// Whether the log line reports an error, and not just a notice.
    pub is_error: bool,
    pub log: String,
    /// What is said to the user; nothing where no attempt was made.
    pub speech: Option<String>,
}

/// An attempt about to be made.
pub struct Attempt {
    /// The camera as named in the log.
    pub camera: String,
    pub log: String,
    /// What is said to the user.
    pub speech: String,
}

/// How far the module has come.
pub enum Progress {
    /// It was called.
    Called,
    /// The daemon was asked whether the service may use face authentication, and
    /// whether the program that started it is opted out.
    Asked { allowed: bool, parent_opted_out: bool },
    /// The user's model was asked for; the second is the name of its camera.
    Loaded(Result<FaceModel, FaceAuthError>, String),
    /// The attempt was made.
    Attempted(Attempt, Result<(), FaceAuthError>),
}

/// What the module does next.
pub enum NextStep {
    /// Tell the daemon of the service, and ask it whether the service may use face
    /// authentication and whether the program that started it is opted out.
    Ask,
    /// Load the user's model.
    Load,
    /// Tell the user, and have the daemon make the attempt.
    Attempt(Attempt),
    Finish(Verdict),
}

/// How many seconds an attempt takes at most.
pub const AUTH_TIMEOUT_SECS: u32 = 5;

/// Why a session is not attended to, if it is not: it is remote, or nobody sits at
/// it.
pub open spec fn refusal(s: Session) -> Option<Seq<char>> {
    if s.remote {
        Some(": remote session"@)
    } else if s.inside_ssh {
        Some(": running inside SSH session"@)
    } else if !s.has_tty {
        Some(": no controlling terminal"@)
    } else {
        None
    }
}

/// `next` ends without an attempt, with this line in the log.
pub open spec fn skips(next: NextStep, log: Seq<char>, is_error: bool) -> bool {
    next matches NextStep::Finish(v) && v.outcome == PamOutcome::AuthinfoUnavail && v.is_error
        == is_error && v.log@ == log && v.speech is None
}

/// `next` is what follows once the module has come as far as `progress`.
pub open spec fn follows(s: Session, progress: Progress, next: NextStep) -> bool {
    match progress {
        Progress::Called => match refusal(s) {
            Some(why) => skips(
                next,
                log_text(s, "face authentication skipped for "@, why),
                false,
            ),
            None => next is Ask,
        },
        Progress::Asked { allowed, parent_opted_out } => if !allowed {
            skips(
                next,
                log_text(
                    s,
                    "face authentication skipped for "@,
                    ": service not opted in"@,
                ),
                false,
            )
        } else if parent_opted_out {
            skips(
                next,
                log_text(
                    s,
                    "face authentication skipped for "@,
                    ": parent process opted out"@,
                ),
                false,
            )
        } else {
            next is Load
        },
        Progress::Loaded(Err(e), _) => match e@ {
            ErrorView::ModelNotFound(_) => skips(
                next,
                log_text(s, "no face model enrolled for "@, ", skipping"@),
                false,
            ),
            _ => skips(
                next,
                log_text(s, "could not load face model for "@, ", skipping: "@ + e@.text()),
                true,
            ),
        },
        Progress::Loaded(Ok(model), name) => next matches NextStep::Attempt(a) && a.camera@
            == camera_desc(model@.camera) && a.log@ == log_text(
            s,
            "face authentication starting for "@,
            " using "@ + camera_desc(model@.camera),
        ) && a.speech@ == "faceauth: '"@ + s.username@ + "' please look at the camera ("@
            + camera_display(name@, model@.camera.index) + ") ..."@,
        Progress::Attempted(a, Ok(_)) => next matches NextStep::Finish(v) && v.outcome
            == PamOutcome::Success && !v.is_error && v.log@ == log_text(
            s,
            "face authentication succeeded for "@,
            " using "@ + a.camera@,
        ) && (v.speech matches Some(t) && t@ == "faceauth: authentication successful"@),
        Progress::Attempted(a, Err(e)) => next matches NextStep::Finish(v) && v.outcome
            == PamOutcome::AuthinfoUnavail && !v.is_error && v.log@ == log_text(
            s,
            "face authentication failed for "@,
            " using "@ + a.camera@ + ", skipping: "@ + e@.text(),
        ) && (v.speech matches Some(t) && t@ == "faceauth: authentication failed: "@ + e@.text()),
    }
}

fn skip(log: String, is_error: bool) -> (r: NextStep)
    ensures
        skips(r, log@, is_error),
{
    NextStep::Finish(
        Verdict { outcome: PamOutcome::AuthinfoUnavail, is_error, log, speech: None },
    )
}

/// What the module does next, once it has come as far as `progress`.
pub fn do_authenticate(s: &Session, progress: Progress) -> (r: NextStep)
    ensures
        follows(*s, progress, r),
{
    match progress {
        Progress::Called => {
            if s.remote {
                return skip(
                    log_line(s, "face authentication skipped for ", ": remote session"),
                    false,
                );
            }
            if s.inside_ssh {
                return skip(
                    log_line(
                        s,
                        "face authentication skipped for ",
                        ": running inside SSH session",
                    ),
                    false,
                );
            }
            if !s.has_tty {
                return skip(
                    log_line(s, "face authentication skipped for ", ": no controlling terminal"),
                    false,
                );
            }
            NextStep::Ask
        },
        Progress::Asked { allowed, parent_opted_out } => {
            if !allowed {
                return skip(
                    log_line(s, "face authentication skipped for ", ": service not opted in"),
                    false,
                );
            }
            if parent_opted_out {
                return skip(
                    log_line(
                        s,
                        "face authentication skipped for ",
                        ": parent process opted out",
                    ),
                    false,
                );
            }
            NextStep::Load
        },
        Progress::Loaded(Err(FaceAuthError::ModelNotFound(_)), _) => skip(
            log_line(s, "no face model enrolled for ", ", skipping"),
            false,
        ),
        Progress::Loaded(Err(e), _) => {
            let after: String = concat2(", skipping: ", e.message().as_str());
            skip(log_line(s, "could not load face model for ", after.as_str()), true)
        },
        Progress::Loaded(Ok(model), name) => {
            let camera: String = describe_camera(&model);
            let after: String = concat2(" using ", camera.as_str());
            let log: String = log_line(s, "face authentication starting for ", after.as_str());
            let mut speech: String = String::from_str("faceauth: '");
            speech.append(s.username.as_str());
            speech.append("' please look at the camera (");
            speech.append(display_camera(name.as_str(), model.camera.index).as_str());
            speech.append(") ...");
            NextStep::Attempt(Attempt { camera, log, speech })
        },
        Progress::Attempted(a, Ok(_)) => {
            let after: String = concat2(" using ", a.camera.as_str());
            NextStep::Finish(
                Verdict {
                    outcome: PamOutcome::Success,
                    is_error: false,
                    log: log_line(s, "face authentication succeeded for ", after.as_str()),
                    speech: Some(String::from_str("faceauth: authentication successful")),
                },
            )
        },
        Progress::Attempted(a, Err(e)) => {
            let mut after: String = concat3(" using ", a.camera.as_str(), ", skipping: ");
            after.append(e.message().as_str());
            NextStep::Finish(
                Verdict {
                    outcome: PamOutcome::AuthinfoUnavail,
                    is_error: false,
                    log: log_line(s, "face authentication failed for ", after.as_str()),
                    speech: Some(
                        concat2("faceauth: authentication failed: ", e.message().as_str()),
                    ),
                },
            )
        },
    }
}

/// Access is granted only after an attempt that succeeded; whatever else happens,
/// the next module is asked.
pub proof fn law_success_needs_attempt(s: Session, progress: Progress, next: NextStep)
    requires
        follows(s, progress, next),
    ensures
        next matches NextStep::Finish(v) ==> v.outcome == (if progress matches Progress::Attempted(
            _,
            Ok(_),
        ) {
            PamOutcome::Success
        } else {
            PamOutcome::AuthinfoUnavail
        }),
{
}

/// Remote sessions, sessions inside a secure shell session and processes without a
/// controlling terminal are refused before the daemon is asked anything; no other
/// session is.
pub proof fn law_refused_before_daemon(s: Session, next: NextStep)
    requires
        follows(s, Progress::Called, next),
    ensures
        s.remote || s.inside_ssh || !s.has_tty ==> (next matches NextStep::Finish(v) && v.outcome
            == PamOutcome::AuthinfoUnavail),
        !s.remote && !s.inside_ssh && s.has_tty ==> next is Ask,
{
}

/// An attempt is made only for a user with a model.
pub proof fn law_attempt_needs_model(s: Session, progress: Progress, next: NextStep)
    requires
        follows(s, progress, next),
    ensures
        next is Attempt <==> (progress matches Progress::Loaded(Ok(_), _)),
{
}

/// Whoever is granted access sits at the machine, uses a service that is opted in from
/// a program that is not opted out, has a model, and was recognised.
pub proof fn law_what_access_takes(
    s: Session,
    allowed: bool,
    parent_opted_out: bool,
    loaded: Result<FaceModel, FaceAuthError>,
    name: String,
    result: Result<(), FaceAuthError>,
    first: NextStep,
    second: NextStep,
    third: NextStep,
    last: NextStep,
)
    requires
        follows(s, Progress::Called, first),
        first is Ask,
        follows(s, Progress::Asked { allowed, parent_opted_out }, second),
        second is Load,
        follows(s, Progress::Loaded(loaded, name), third),
        third is Attempt,
        follows(s, Progress::Attempted(third->Attempt_0, result), last),
    ensures
        !s.remote && !s.inside_ssh && s.has_tty,
        allowed && !parent_opted_out,
        loaded is Ok,
        last matches NextStep::Finish(v) && (v.outcome == PamOutcome::Success <==> result is Ok),
{
}

// ---------------------------------------------------------------------------
// Laws of the session
// ---------------------------------------------------------------------------

/// However far up a session server stands among the ancestors, the session is inside
/// a secure shell session; without one it is not.
pub proof fn law_ssh_however_far_up(
    nearer: Seq<Option<String>>,
    farther: Seq<Option<String>>,
    comm: String,
)
    ensures
        trim(comm@) == "sshd"@ ==> inside_ssh(nearer.push(Some(comm)) + farther),
        trim(comm@) != "sshd"@ ==> (inside_ssh(nearer.push(Some(comm)) + farther) <==> inside_ssh(
            nearer + farther,
        )),
        inside_ssh(nearer.push(None) + farther) <==> inside_ssh(nearer + farther),
        inside_ssh(nearer + farther) <==> inside_ssh(nearer) || inside_ssh(farther),
        !inside_ssh(Seq::empty()),
{
    let fewer = nearer + farther;
    let named = nearer.push(Some(comm)) + farther;
    let unnamed = nearer.push(None) + farther;
    assert(named[nearer.len() as int] == Some(comm));
    assert(unnamed[nearer.len() as int] == None::<String>);
    assert forall|i: int| 0 <= i < nearer.len() implies fewer[i] == #[trigger] named[i] && fewer[i]
        == unnamed[i] && fewer[i] == nearer[i] by {}
    assert forall|i: int| 0 <= i < farther.len() implies #[trigger] farther[i] == fewer[nearer.len()
        + i] && farther[i] == named[nearer.len() + 1 + i] && farther[i] == unnamed[nearer.len() + 1
        + i] by {}
    if inside_ssh(fewer) {
        let i = choose|i: int| 0 <= i < fewer.len() && is_sshd(#[trigger] fewer[i]);
        if i < nearer.len() {
            assert(is_sshd(nearer[i]) && is_sshd(named[i]) && is_sshd(unnamed[i]));
        } else {
            assert(is_sshd(farther[i - nearer.len()]));
            assert(is_sshd(named[i + 1]) && is_sshd(unnamed[i + 1]));
        }
    }
    if inside_ssh(nearer) {
        let i = choose|i: int| 0 <= i < nearer.len() && is_sshd(#[trigger] nearer[i]);
        assert(is_sshd(fewer[i]));
    }
    if inside_ssh(farther) {
        let i = choose|i: int| 0 <= i < farther.len() && is_sshd(#[trigger] farther[i]);
        assert(is_sshd(fewer[nearer.len() + i]));
    }
    if inside_ssh(named) {
        let i = choose|i: int| 0 <= i < named.len() && is_sshd(#[trigger] named[i]);
        if i < nearer.len() {
            assert(is_sshd(fewer[i]));
        } else if i > nearer.len() {
            assert(is_sshd(farther[i - nearer.len() - 1]));
            assert(is_sshd(fewer[i - 1]));
        }
    }
    if inside_ssh(unnamed) {
        let i = choose|i: int| 0 <= i < unnamed.len() && is_sshd(#[trigger] unnamed[i]);
        if i < nearer.len() {
            assert(is_sshd(fewer[i]));
        } else if i > nearer.len() {
            assert(is_sshd(farther[i - nearer.len() - 1]));
            assert(is_sshd(fewer[i - 1]));
        }
    }
    if trim(comm@) == "sshd"@ {
        assert(is_sshd(named[nearer.len() as int]));
    }
}

/// Lines that do not begin with a prefix are passed over; the first that does is found.
pub proof fn law_first_with_prefix(
    before: Seq<Seq<char>>,
    line: Seq<char>,
    after: Seq<Seq<char>>,
    pat: Seq<char>,
)
    requires
        forall|i: int| 0 <= i < before.len() ==> !starts_with(#[trigger] before[i], pat),
    ensures
        starts_with(line, pat) ==> first_with_prefix(seq![line] + after, pat) == Some(line),
        starts_with(line, pat) ==> first_with_prefix(before + (seq![line] + after), pat) == Some(
            line,
        ),
        first_with_prefix(before, pat) is None,
    decreases before.len(),
{
    let tail = seq![line] + after;
    if before.len() == 0 {
        assert(before + tail =~= tail);
    } else {
        let rest = before.drop_first();
        assert(!starts_with(before[0], pat));
        assert forall|i: int| 0 <= i < rest.len() implies !starts_with(#[trigger] rest[i], pat) by {
            assert(!starts_with(before[i + 1], pat));
        }
        law_first_with_prefix(rest, line, after, pat);
        assert((before + tail).drop_first() =~= rest + tail);
    }
}

/// The parent's number is read from the line that names it, wherever the line stands and
/// whatever stands behind the number; a status file without such a line names no parent.
#[verifier::spinoff_prover]
#[verifier::rlimit(40)]
pub proof fn law_parent_number(before: Seq<char>, n: u32, more: Seq<char>, after: Seq<char>)
    requires
        before.len() == 0 || before.last() == '\n',
        forall|i: int|
            0 <= i < lines(before).len() ==> !starts_with(#[trigger] lines(before)[i], "PPid:"@),
        more.len() > 0 ==> is_whitespace(more[0]) && more.last() != '\r',
        forall|i: int| 0 <= i < more.len() ==> #[trigger] more[i] != '\n',
    ensures
        parent_in_status(
            before + ("PPid:"@ + seq!['\t'] + (decimal(n as nat) + more) + seq!['\n'] + after),
        ) == Some(n),
        parent_in_status(before) is None,
{
    reveal_strlit("PPid:");
    let d = decimal(n as nat);
    let value = d + more;
    let line = "PPid:"@ + seq!['\t'] + value;
    let tail = line + seq!['\n'] + after;
    law_parse_decimal(n);
    law_decimal_digits(n as nat);
    assert forall|i: int| 0 <= i < line.len() implies #[trigger] line[i] != '\n' by {
        if i >= 6 + d.len() {
            assert(line[i] == more[i - 6 - d.len()]);
        } else if i >= 6 {
            assert(line[i] == d[i - 6]);
        }
    }
    if more.len() == 0 {
        assert(line.last() == d[d.len() - 1]);
    } else {
        assert(line.last() == more.last());
    }
    law_lines(line, after);
    law_lines_append(before, tail);
    assert(line.subrange(0, 5) =~= "PPid:"@);
    law_first_with_prefix(lines(before), line, lines(after), "PPid:"@);
    law_words("PPid:"@, '\t', value);
    assert forall|i: int| 0 <= i < d.len() implies !is_whitespace(#[trigger] d[i]) by {
        law_whitespace(d[i]);
    }
    if more.len() == 0 {
        assert(value =~= d);
        law_words(d, '\t', Seq::empty());
    } else {
        assert(value =~= d + seq![more[0]] + more.skip(1));
        law_words(d, more[0], more.skip(1));
    }
    assert(words(value)[0] == d);
    assert(words(line)[1] == words(value)[0]);
}

/// The name of a process may hold brackets: what counts is behind the last of them.
pub proof fn law_after_last_bracket(name: Seq<char>, rest: Seq<char>)
    requires
        forall|i: int| 0 <= i < rest.len() ==> #[trigger] rest[i] != ')',
    ensures
        after_last_bracket(name.push(')') + rest) == rest,
        after_last_bracket(rest) == rest,
    decreases rest.len(),
{
    let s = name.push(')') + rest;
    if rest.len() == 0 {
        assert(s =~= name.push(')'));
        assert(after_last_bracket(s) =~= rest);
    } else {
        let front = rest.drop_last();
        assert forall|i: int| 0 <= i < front.len() implies #[trigger] front[i] != ')' by {
            assert(rest[i] != ')');
        }
        assert(rest[rest.len() - 1] != ')');
        law_after_last_bracket(name, front);
        assert(s.drop_last() =~= name.push(')') + front);
        assert(front.push(rest.last()) =~= rest);
    }
}

/// Whether there is a terminal is told by the fifth field behind the name, whatever the
/// name is and whatever follows; fewer fields tell of none.
pub proof fn law_terminal_field(
    name: Seq<char>,
    four: Seq<Seq<char>>,
    tty: Seq<char>,
    after: Seq<char>,
    fields: Seq<char>,
)
    requires
        forall|i: int| 0 <= i < fields.len() ==> #[trigger] fields[i] != ')',
        four.len() == 4,
        words(fields) == four + (seq![tty] + words(after)),
    ensures
        tty_in_stat(name.push(')') + fields) <==> tty != "0"@,
{
    law_after_last_bracket(name, fields);
    assert(words(fields)[4] == tty);
}

/// A process whose `stat` file has fewer than five fields behind the name has no
/// terminal.
pub proof fn law_no_terminal_field(name: Seq<char>, fields: Seq<char>)
    requires
        forall|i: int| 0 <= i < fields.len() ==> #[trigger] fields[i] != ')',
        words(fields).len() < 5,
    ensures
        !tty_in_stat(name.push(')') + fields),
{
    law_after_last_bracket(name, fields);
}

proof fn lemma_log_parts(s: Session, before: Seq<char>, after: Seq<char>, pat: Seq<char>)
    requires
        contains(caller_desc(s), pat) || contains(user_desc(s), pat) || pat == before || pat
            == after,
    ensures
        contains(log_text(s, before, after), pat),
{
    let c = caller_desc(s);
    let u = user_desc(s);
    let none = Seq::<char>::empty();
    let head = "["@ + c + "] "@;
    let t = log_text(s, before, after);
    if contains(c, pat) {
        law_contains_part("["@, c, "] "@, pat);
        law_contains_part(none, head, before + u + after, pat);
        assert(t =~= none + head + (before + u + after));
    } else if contains(u, pat) {
        law_contains_part(head + before, u, after, pat);
    } else if pat == before {
        law_contains_part(head, before, u + after, pat);
        assert(t =~= head + before + (u + after));
    } else {
        law_contains_part(head + before + u, after, none, pat);
        assert(t =~= head + before + u + after + none);
    }
}

/// A line of the log names who asks and for whom: the service, the program that started
/// it where that is known, and the user with the number where that is known.
pub proof fn law_log_names(s: Session, before: Seq<char>, after: Seq<char>)
    ensures
        contains(log_text(s, before, after), s.service@),
        contains(log_text(s, before, after), s.username@),
        s.parent matches Some(name) ==> contains(
            log_text(s, before, after),
            s.service@ + " via "@ + name@,
        ),
        s.uid matches Some(uid) ==> contains(
            log_text(s, before, after),
            s.username@ + " (uid: "@ + decimal(uid as nat) + ")"@,
        ),
        contains(log_text(s, before, after), before),
        contains(log_text(s, before, after), after),
{
    lemma_log_parts(s, before, after, before);
    lemma_log_parts(s, before, after, after);
    lemma_caller_named(s);
    lemma_log_parts(s, before, after, caller_desc(s));
    lemma_log_parts(s, before, after, s.service@);
    lemma_user_named(s);
    lemma_log_parts(s, before, after, user_desc(s));
    lemma_log_parts(s, before, after, s.username@);
}

proof fn lemma_caller_named(s: Session)
    ensures
        contains(caller_desc(s), s.service@),
        contains(caller_desc(s), caller_desc(s)),
{
    let c = caller_desc(s);
    assert(c.subrange(0, c.len() as int) =~= c);
    assert(occurs_at(c, c, 0));
    assert(c.subrange(0, s.service@.len() as int) =~= s.service@);
    assert(occurs_at(c, s.service@, 0));
}

proof fn lemma_user_named(s: Session)
    ensures
        contains(user_desc(s), s.username@),
        contains(user_desc(s), user_desc(s)),
{
    let u = user_desc(s);
    assert(u.subrange(0, u.len() as int) =~= u);
    assert(occurs_at(u, u, 0));
    assert(u.subrange(0, s.username@.len() as int) =~= s.username@);
    assert(occurs_at(u, s.username@, 0));
}

/// However the module ends, the log says for whom and for which service. Only an
/// attempt that was made is spoken of, and only a model that could not be read is logged
/// as an error.
pub proof fn law_end_is_logged(s: Session, progress: Progress, next: NextStep)
    requires
        follows(s, progress, next),
        next is Finish,
    ensures
        contains(next->Finish_0.log@, s.service@),
        contains(next->Finish_0.log@, s.username@),
        next->Finish_0.speech is Some <==> progress is Attempted,
        next->Finish_0.is_error <==> (progress matches Progress::Loaded(Err(e), _) && !(
        e@ is ModelNotFound)),
{
    match progress {
        Progress::Called => {
            law_log_names(s, "face authentication skipped for "@, refusal(s)->0);
        },
        Progress::Asked { allowed, parent_opted_out } => {
            law_log_names(s, "face authentication skipped for "@, ": service not opted in"@);
            law_log_names(s, "face authentication skipped for "@, ": parent process opted out"@);
        },
        Progress::Loaded(Err(e), _) => {
            law_log_names(s, "no face model enrolled for "@, ", skipping"@);
            law_log_names(s, "could not load face model for "@, ", skipping: "@ + e@.text());
        },
        Progress::Loaded(Ok(m), name) => {},
        Progress::Attempted(a, Ok(_)) => {
            law_log_names(s, "face authentication succeeded for "@, " using "@ + a.camera@);
        },
        Progress::Attempted(a, Err(e)) => {
            let after = " using "@ + a.camera@ + ", skipping: "@ + e@.text();
            law_log_names(s, "face authentication failed for "@, after);
        },
    }
}

/// Before an attempt the user is told by name which device to look at.
pub proof fn law_user_is_told_where_to_look(s: Session, m: FaceModel, name: String, next: NextStep)
    requires
        follows(s, Progress::Loaded(Ok(m), name), next),
    ensures
        next is Attempt,
        contains(next->Attempt_0.speech@, s.username@),
        contains(next->Attempt_0.speech@, device_path(m.camera.index)),
        contains(next->Attempt_0.camera@, device_path(m.camera.index)),
        m.camera.by_id matches Some(id) ==> contains(next->Attempt_0.camera@, id@),
{
    let none = Seq::<char>::empty();
    let path = device_path(m.camera.index);
    let a = next->Attempt_0;
    let shown = camera_display(name@, m.camera.index);
    let ask = "' please look at the camera ("@;
    let end = ") ..."@;
    let front = "faceauth: '"@ + s.username@ + ask;
    assert(a.speech@ =~= "faceauth: '"@ + s.username@ + (ask + shown + end));
    law_contains_part("faceauth: '"@, s.username@, ask + shown + end, s.username@);
    assert(a.speech@ =~= front + shown + end);
    if name@.len() > 0 {
        assert(shown =~= (name@ + " at "@) + path + none);
        law_contains_part(name@ + " at "@, path, none, path);
    }
    law_contains_part(front, shown, end, path);
    let cam = camera_desc(m@.camera);
    assert(cam.subrange(0, path.len() as int) =~= path);
    assert(occurs_at(cam, path, 0));
    if let Some(id) = m.camera.by_id {
        law_contains_part(path + " ("@, id@, ")"@, id@);
    }
}

/// The reason why an attempt failed is told to the user, and logged with the camera.
pub proof fn law_failure_is_explained(s: Session, a: Attempt, e: FaceAuthError, next: NextStep)
    requires
        follows(s, Progress::Attempted(a, Err(e)), next),
    ensures
        next is Finish,
        contains(next->Finish_0.log@, e@.text()),
        contains(next->Finish_0.log@, a.camera@),
        contains(next->Finish_0.speech->0@, e@.text()),
{
    let none = Seq::<char>::empty();
    let v = next->Finish_0;
    let why = e@.text();
    let after = " using "@ + a.camera@ + ", skipping: "@ + why;
    law_log_names(s, "face authentication failed for "@, after);
    let head = "["@ + caller_desc(s) + "] "@ + "face authentication failed for "@ + user_desc(s);
    assert(after =~= (" using "@ + a.camera@ + ", skipping: "@) + why + none);
    law_contains_part(" using "@ + a.camera@ + ", skipping: "@, why, none, why);
    assert(after =~= " using "@ + a.camera@ + (", skipping: "@ + why));
    law_contains_part(" using "@, a.camera@, ", skipping: "@ + why, a.camera@);
    assert(v.log@ =~= head + after + none);
    law_contains_part(head, after, none, why);
    law_contains_part(head, after, none, a.camera@);
    let t = v.speech->0@;
    assert(t =~= "faceauth: authentication failed: "@ + why + none);
    law_contains_part("faceauth: authentication failed: "@, why, none, why);
}

/// A model is asked for exactly if the service is opted in and the program that started
/// it is not opted out; else the module ends at once.
pub proof fn law_opting_in_leads_on(
    s: Session,
    allowed: bool,
    parent_opted_out: bool,
    next: NextStep,
)
    requires
        follows(s, Progress::Asked { allowed, parent_opted_out }, next),
    ensures
        next is Load <==> allowed && !parent_opted_out,
        !(next is Load) ==> (next matches NextStep::Finish(v) && v.outcome
            == PamOutcome::AuthinfoUnavail && v.speech is None),
{
}

/// Where the program or the user's number is not known, nothing is put in its place.
pub proof fn law_unknown_is_left_out(s: Session, camera: CameraIdView)
    ensures
        s.parent is None ==> caller_desc(s) == s.service@,
        s.uid is None ==> user_desc(s) == s.username@,
        camera.by_id is None ==> camera_desc(camera) == device_path(camera.index),
{
}

}
